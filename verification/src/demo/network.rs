//! The networks of the demo, and what its transactions cost there.

use crate::dsl::plonk::covenant;
use crate::dsl::plonk::covenant::{QueryPart, VerifierStep};
use vstd::prelude::*;

verus! {

/// A Bitcoin network.
#[derive(Clone, Copy, Debug, PartialEq, Eq, Structural)]
pub enum NetworkArg {
    Regtest,
    Signet,
    Bitcoin,
}

impl NetworkArg {
    /// The fee rate, in satoshis per virtual byte.
    pub open spec fn rate(self) -> int {
        match self {
            NetworkArg::Regtest => 1,
            NetworkArg::Signet => 1,
            NetworkArg::Bitcoin => 1500,
        }
    }

    /// The fee rate, in satoshis per virtual byte.
    pub fn fee_rate(self) -> (r: u64)
        ensures
            r == self.rate(),
            r == (match self {
                NetworkArg::Regtest => 1u64,
                NetworkArg::Signet => 1,
                NetworkArg::Bitcoin => 1500,
            }),
    {
        match self {
            NetworkArg::Regtest | NetworkArg::Signet => 1,
            NetworkArg::Bitcoin => 1500,
        }
    }

    /// The option that chooses the network on `bitcoin-cli`'s command line.
    pub fn cli_flag(self) -> (r: &'static str)
        ensures
            r@ == (match self {
                NetworkArg::Regtest => "-regtest"@,
                NetworkArg::Signet => "-signet"@,
                NetworkArg::Bitcoin => ""@,
            }),
    {
        match self {
            NetworkArg::Regtest => "-regtest",
            NetworkArg::Signet => "-signet",
            NetworkArg::Bitcoin => "",
        }
    }
}

/// The number of transactions of the demo.
pub const N_TRANSACTIONS: usize = 72;

/// What an output must hold at least, in satoshis.
pub const DUST: u64 = 330;

/// What the funding transaction pays for each satoshi of the fee rate.
pub const FUNDING_SIZE: u64 = 400;

/// The fees of the transactions before the queries, at seven satoshis per virtual byte.
pub open spec fn setup_fees() -> Seq<usize> {
    seq![137466, 252521, 124127, 122111, 111880, 98045, 111401]
}

/// The fees of the transactions of a query, at seven satoshis per virtual byte.
pub open spec fn query_fees() -> Seq<usize> {
    seq![121112, 116760, 116601, 104270, 93215, 104236, 106638, 48561]
}

/// The fee of a transaction, at seven satoshis per virtual byte.
pub open spec fn fee_at(i: int) -> usize {
    if i < 7 {
        setup_fees()[i]
    } else if i < 71 {
        query_fees()[(i - 7) % 8]
    } else {
        59733
    }
}

/// The fees of the first transactions together, at seven satoshis per virtual byte.
pub open spec fn fees_total(n: nat) -> nat
    decreases n,
{
    if n == 0 {
        0
    } else {
        fees_total((n - 1) as nat) + fee_at(n - 1) as nat
    }
}

/// The fees of the transactions, at seven satoshis per virtual byte.
pub fn fees() -> (r: Vec<usize>)
    ensures
        r@ == Seq::new(N_TRANSACTIONS as nat, |i: int| fee_at(i)),
        r.len() == 72,
        r[0] == 137466,
        r[1] == 252521,
        r[2] == 124127,
        r[3] == 122111,
        r[4] == 111880,
        r[5] == 98045,
        r[6] == 111401,
        forall|i: int| 7 <= i < 71 && (i - 7) % 8 == 0 ==> #[trigger] r[i] == 121112,
        forall|i: int| 7 <= i < 71 && (i - 7) % 8 == 1 ==> #[trigger] r[i] == 116760,
        forall|i: int| 7 <= i < 71 && (i - 7) % 8 == 2 ==> #[trigger] r[i] == 116601,
        forall|i: int| 7 <= i < 71 && (i - 7) % 8 == 3 ==> #[trigger] r[i] == 104270,
        forall|i: int| 7 <= i < 71 && (i - 7) % 8 == 4 ==> #[trigger] r[i] == 93215,
        forall|i: int| 7 <= i < 71 && (i - 7) % 8 == 5 ==> #[trigger] r[i] == 104236,
        forall|i: int| 7 <= i < 71 && (i - 7) % 8 == 6 ==> #[trigger] r[i] == 106638,
        forall|i: int| 7 <= i < 71 && (i - 7) % 8 == 7 ==> #[trigger] r[i] == 48561,
        r[71] == 59733,
{
    let mut r: Vec<usize> = vec![137466, 252521, 124127, 122111, 111880, 98045, 111401];
    let query: Vec<usize> = vec![
        121112, 116760, 116601, 104270, 93215, 104236, 106638, 48561,
    ];
    assert(r@ =~= Seq::new(7, |i: int| fee_at(i)));
    let mut k: usize = 0;
    while k < 8
        invariant
            k <= 8,
            query@ =~= query_fees(),
            r@ == Seq::new((7 + 8 * k) as nat, |i: int| fee_at(i)),
        decreases 8 - k,
    {
        let ghost before = r@;
        r.extend_from_slice(query.as_slice());
        assert(r@ =~= before + query@);
        assert forall|i: int| 0 <= i < 15 + 8 * k implies #[trigger] r@[i] == fee_at(i) by {
            if i >= 7 + 8 * k {
                assert((i - 7) % 8 == i - 7 - 8 * k);
            }
        }
        k += 1;
        assert(r@ =~= Seq::new((7 + 8 * k) as nat, |i: int| fee_at(i)));
    }
    r.push(59733);
    assert(r@ =~= Seq::new(N_TRANSACTIONS as nat, |i: int| fee_at(i)));
    proof {
        fees_of_the_setup_and_the_cleanup();
        assert forall|i: int| 7 <= i < 71 implies #[trigger] r@[i] == fee_at(i) by {}
    }
    r
}

/// Eight transactions of a query add up.
proof fn lemma_query_total(n: nat)
    requires
        7 <= n <= 63,
        (n - 7) % 8 == 0,
    ensures
        fees_total(n + 8) == fees_total(n) + 811393,
{
    reveal_with_fuel(fees_total, 9);
}

/// The fees of all transactions together, at seven satoshis per virtual byte.
pub proof fn lemma_fees_total()
    ensures
        fees_total(72) == 7508428,
{
    assert(fees_total(7) == 957551) by {
        reveal_with_fuel(fees_total, 8);
    }
    lemma_query_total(7);
    lemma_query_total(15);
    lemma_query_total(23);
    lemma_query_total(31);
    lemma_query_total(39);
    lemma_query_total(47);
    lemma_query_total(55);
    lemma_query_total(63);
}

/// What funds the demo at a fee rate, in satoshis: the fees with a reserve, the outputs and the
/// funding transaction itself.
pub open spec fn funding(rate: int) -> int {
    (fees_total(72) + 10000) / 7 * rate + DUST * 74 + FUNDING_SIZE * rate
}

/// What funds the demo on a network, in satoshis.
pub fn funding_amount(network: NetworkArg) -> (r: u64)
    ensures
        r == funding(network.rate()),
        r == (match network {
            NetworkArg::Regtest => 1098881u64,
            NetworkArg::Signet => 1098881,
            NetworkArg::Bitcoin => 1611715920,
        }),
{
    let table: Vec<usize> = fees();
    let mut total: u64 = 0;
    let mut i: usize = 0;
    while i < table.len()
        invariant
            i <= table.len(),
            table@ == Seq::new(N_TRANSACTIONS as nat, |i: int| fee_at(i)),
            total == fees_total(i as nat),
            total <= 252521 * i,
        decreases table.len() - i,
    {
        assert(table@[i as int] == fee_at(i as int));
        assert(fee_at(i as int) <= 252521);
        total = total + table[i] as u64;
        i += 1;
    }
    proof {
        lemma_fees_total();
    }
    let rate: u64 = network.fee_rate();
    (total + 10000) / 7 * rate + DUST * 74 + FUNDING_SIZE * rate
}

/// What is left of the funding for the demo's transactions, once the funding transaction and the
/// output with the initial state are paid for.
pub fn remaining_amount(amount: u64, network: NetworkArg) -> (r: u64)
    requires
        amount >= DUST + FUNDING_SIZE * network.rate(),
    ensures
        r == amount - DUST - FUNDING_SIZE * network.rate(),
        r == (match network {
            NetworkArg::Regtest => amount - 730,
            NetworkArg::Signet => amount - 730,
            NetworkArg::Bitcoin => amount - 600330,
        }),
{
    amount - DUST - FUNDING_SIZE * network.fee_rate()
}

/// A fee at another rate than seven satoshis per virtual byte, rounded up.
pub open spec fn step_fee_of(fee: int, rate: int) -> int {
    (fee * rate + 6) / 7
}

/// The fee of a transaction on a network, in satoshis.
pub fn step_fee(pc: usize, network: NetworkArg) -> (r: u64)
    requires
        pc < N_TRANSACTIONS,
    ensures
        r == step_fee_of(fee_at(pc as int) as int, network.rate()),
        0 <= 7 * r - fee_at(pc as int) * (match network {
            NetworkArg::Regtest => 1int,
            NetworkArg::Signet => 1,
            NetworkArg::Bitcoin => 1500,
        }) < 7,
{
    let table: Vec<usize> = fees();
    assert(table@[pc as int] == fee_at(pc as int));
    assert(fee_at(pc as int) <= 252521);
    (table[pc] as u64 * network.fee_rate() + 6) / 7
}

/// The balance after a transaction: the fee and the output with the state, `dust`, are paid.
pub fn next_balance(balance: u64, fee: u64, dust: u64) -> (r: u64)
    requires
        balance >= fee + dust,
    ensures
        r == balance - fee - dust,
{
    balance - fee - dust
}

/// The program that spends a state: the one that its program counter names, or none once the last
/// transaction is done.
pub fn next_program(pc: usize) -> (r: Option<usize>)
    ensures
        r == (if pc < N_TRANSACTIONS {
            Some(pc)
        } else {
            None
        }),
{
    if pc < N_TRANSACTIONS {
        Some(pc)
    } else {
        None
    }
}

/// What the first transactions of the demo take from the balance.
pub open spec fn spent(n: nat, rate: int) -> int
    decreases n,
{
    if n == 0 {
        0
    } else {
        spent((n - 1) as nat, rate) + step_fee_of(fee_at(n - 1) as int, rate) + DUST
    }
}

/// Rounding up each fee costs less than one satoshi for each transaction.
proof fn lemma_spent_bound(n: nat, rate: int)
    requires
        n <= 72,
        rate >= 1,
    ensures
        7 * spent(n, rate) <= fees_total(n) * rate + 6 * n + 7 * DUST * n,
    decreases n,
{
    if n > 0 {
        let m = (n - 1) as nat;
        lemma_spent_bound(m, rate);
        let f = fee_at(m as int) as int;
        assert((fees_total(m) + f) * rate == fees_total(m) * rate + f * rate)
            by (nonlinear_arith);
    }
}

/// The funding covers one run of each program: no transaction takes more than what is left of it.
pub proof fn funding_covers_every_transaction(network: NetworkArg, amount: int, n: nat)
    requires
        amount >= funding(network.rate()),
        n <= 72,
    ensures
        spent(n, network.rate()) <= amount - DUST - FUNDING_SIZE * network.rate(),
{
    let rate = network.rate();
    lemma_fees_total();
    lemma_spent_bound(n, rate);
    lemma_fees_grow(n, 72);
    assert(fees_total(n) * rate <= 7508428 * rate) by (nonlinear_arith)
        requires
            fees_total(n) <= 7508428,
            rate >= 1,
    ;
}

/// More transactions cost no less.
proof fn lemma_fees_grow(n: nat, m: nat)
    requires
        n <= m,
    ensures
        fees_total(n) <= fees_total(m),
    decreases m,
{
    if n < m {
        lemma_fees_grow(n, (m - 1) as nat);
    }
}

/// The fees of the transactions before the queries and of the last one.
pub proof fn fees_of_the_setup_and_the_cleanup()
    ensures
        fee_at(0) == 137466,
        fee_at(1) == 252521,
        fee_at(2) == 124127,
        fee_at(3) == 122111,
        fee_at(4) == 111880,
        fee_at(5) == 98045,
        fee_at(6) == 111401,
        fee_at(71) == 59733,
{
}

/// The fees of the eight transactions of a query are the same for every query.
pub proof fn fees_of_a_query(query: int)
    requires
        0 <= query < 8,
    ensures
        fee_at(7 + 8 * query) == 121112,
        fee_at(8 + 8 * query) == 116760,
        fee_at(9 + 8 * query) == 116601,
        fee_at(10 + 8 * query) == 104270,
        fee_at(11 + 8 * query) == 93215,
        fee_at(12 + 8 * query) == 104236,
        fee_at(13 + 8 * query) == 106638,
        fee_at(14 + 8 * query) == 48561,
{
}

/// A fee at a rate is the smallest number of satoshis that pays for it: seven times as much is no
/// less than the fee at seven satoshis times the rate, and less than seven more.
pub proof fn step_fee_is_the_least_that_pays(fee: int, rate: int)
    ensures
        7 * step_fee_of(fee, rate) >= fee * rate,
        7 * (step_fee_of(fee, rate) - 1) < fee * rate,
{
}

/// One more transaction takes its fee and the output with the state from the balance.
pub proof fn spending_adds_up(n: nat, rate: int)
    ensures
        spent(0, rate) == 0,
        spent(n + 1, rate) - spent(n, rate) - 330 == step_fee_of(fee_at(n as int) as int, rate),
{
}

/// The second transaction is the dearest and the last one of each query the cheapest; before the
/// queries, a transaction costs less than the one before it but for the second and the seventh.
pub proof fn fees_compared(i: int)
    requires
        0 <= i < 72,
    ensures
        i != 1 ==> fee_at(i) < fee_at(1),
        i < 7 || (i - 7) % 8 != 7 ==> fee_at(i) > fee_at(14),
        1 <= i < 7 ==> (fee_at(i) < fee_at(i - 1)) == (i != 1 && i != 6),
        i == 6 ==> fee_at(3) > fee_at(4) && fee_at(4) > fee_at(6) && fee_at(2) < fee_at(0),
{
}

/// Each query costs what the one before it costs, transaction for transaction.
pub proof fn queries_cost_the_same(i: int)
    requires
        7 <= i < 63,
    ensures
        fee_at(i + 8) == fee_at(i),
{
}

/// The fee of a transaction is that of the step of the verifier at its place.
pub proof fn fees_go_with_the_steps(i: int)
    requires
        0 <= i < 72,
    ensures
        fee_at(i) == (match covenant::step_at(i) {
            VerifierStep::FiatShamir1 => 137466usize,
            VerifierStep::FiatShamir2AndConstraintNum => 252521,
            VerifierStep::ConstraintDenom => 124127,
            VerifierStep::PairVanishingAndAlphas => 122111,
            VerifierStep::ColumnLineCoeffs1 => 111880,
            VerifierStep::ColumnLineCoeffs2 => 98045,
            VerifierStep::ColumnLineCoeffs3 => 111401,
            VerifierStep::Query { index, part } => match part {
                QueryPart::Folding => 121112,
                QueryPart::NumTrace => 116760,
                QueryPart::NumConstant => 116601,
                QueryPart::NumComposition => 104270,
                QueryPart::NumInteractionShifted => 93215,
                QueryPart::NumInteraction1 => 104236,
                QueryPart::NumInteraction2 => 106638,
                QueryPart::LastStep => 48561,
            },
            VerifierStep::Cleanup => 59733,
        }),
{
}

/// The funding holds seventy-four outputs, the funding transaction, and for each satoshi of the
/// rate a seventh of the fees and of a reserve of ten thousand, rounded down.
pub proof fn funding_holds_fees_and_reserve(rate: int)
    requires
        rate >= 1,
    ensures
        fees_total(72) == 7508428,
        ({
            let for_fees = funding(rate) - 74 * 330 - 400 * rate;
            7 * for_fees <= (fees_total(72) + 10000) * rate < 7 * (for_fees + rate)
        }),
{
    lemma_fees_total();
    assert(7518428int / 7 == 1074061);
    assert(funding(rate) == 1074061 * rate + 74 * 330 + 400 * rate);
    assert((fees_total(72) + 10000) * rate == 7518428 * rate) by (nonlinear_arith)
        requires
            fees_total(72) == 7508428,
    ;
}

/// The fees add up, one transaction after the other.
pub proof fn fees_add_up(n: nat)
    ensures
        fees_total(0) == 0,
        fees_total(n + 1) - fees_total(n) == fee_at(n as int),
{
}

} // verus!
