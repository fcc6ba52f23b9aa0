//! Transactions from their files, and what is reported of them.

use super::opcodes;
use super::opcodes::OpcodeCount;
use crate::text;
use bitcoin::consensus::Decodable;
use vstd::prelude::*;
use vstd::string::*;

verus! {

/// Why a transaction's file is not read.
#[derive(Clone, Copy, Debug, PartialEq, Eq, Structural)]
pub enum TransactionError {
    /// The text is not hexadecimal.
    BadHex,
    /// The bytes are not a transaction.
    BadTransaction,
}

/// What is read of a transaction.
#[derive(Clone, Debug)]
pub struct DecodedTransaction {
    /// The weight, in weight units.
    pub weight: u64,
    /// The witness of each input.
    pub witnesses: Vec<Vec<Vec<u8>>>,
}

/// What is read of a transaction.
#[verifier::ext_equal]
pub struct DecodedTransactionView {
    pub weight: int,
    pub witnesses: Seq<Seq<Seq<u8>>>,
}

impl View for DecodedTransaction {
    type V = DecodedTransactionView;

    open spec fn view(&self) -> DecodedTransactionView {
        DecodedTransactionView {
            weight: self.weight as int,
            witnesses: opcodes::witness_lists(self.witnesses@),
        }
    }
}

/// The weight and the witnesses of the transaction at the start of some bytes, as the `bitcoin`
/// crate decodes it, if there is one.
pub uninterp spec fn decoded(data: Seq<u8>) -> Option<DecodedTransactionView>;

/// What an optional transaction holds.
pub open spec fn optional_transaction(t: Option<DecodedTransaction>) -> Option<
    DecodedTransactionView,
> {
    match t {
        None => None,
        Some(t) => Some(t@),
    }
}

/// Decodes a transaction: `bitcoin`'s `Transaction::consensus_decode`, of which the weight
/// (`Transaction::weight`) and the inputs' witnesses are kept.
///
/// The contract names what is kept, which depends on the bytes alone.
#[verifier::external_body]
fn consensus_decode(data: &[u8]) -> (r: Option<DecodedTransaction>)
    ensures
        optional_transaction(r) == decoded(data@),
{
    let mut reader = data;
    let tx = bitcoin::Transaction::consensus_decode(&mut reader).ok()?;
    let weight = tx.weight().to_wu();
    let witnesses = tx.input.iter().map(|input| input.witness.to_vec()).collect();
    Some(DecodedTransaction { weight, witnesses })
}

/// Reads the transaction at the start of some bytes.
pub fn decode_transaction(data: &Vec<u8>) -> (r: Result<DecodedTransaction, TransactionError>)
    ensures
        r is Ok == (decoded(data@) is Some),
        r matches Ok(tx) ==> decoded(data@) == Some(tx@),
        r matches Err(e) ==> e == TransactionError::BadTransaction,
{
    match consensus_decode(data.as_slice()) {
        None => Err(TransactionError::BadTransaction),
        Some(tx) => Ok(tx),
    }
}

/// The bytes that the text of a transaction's file spells.
pub open spec fn file_bytes(file: Seq<char>) -> Option<Seq<u8>> {
    let digits = text::trimmed_end(text::trimmed_start(file));
    if text::is_hex(digits) {
        Some(text::hex_bytes(digits))
    } else {
        None
    }
}

/// Reads the bytes of a transaction from the text of its file: hexadecimal, with or without white
/// space at both ends.
pub fn read_transaction_bytes(file: &str) -> (r: Result<Vec<u8>, TransactionError>)
    ensures
        r is Ok == text::is_hex(text::trimmed_end(text::trimmed_start(file@))),
        r matches Ok(data) ==> data@ == text::hex_bytes(
            text::trimmed_end(text::trimmed_start(file@)),
        ),
        r matches Err(e) ==> e == TransactionError::BadHex,
        (match r {
            Err(_) => None,
            Ok(data) => Some(data@),
        }) == file_bytes(file@),
{
    match text::hex_decode(text::trim(file)) {
        None => Err(TransactionError::BadHex),
        Some(data) => Ok(data),
    }
}

/// A transaction that was written to a file in hexadecimal is read back, also where white space
/// stands before it or behind it.
pub proof fn written_transaction_is_read_back(
    data: Seq<u8>,
    before: Seq<char>,
    after: Seq<char>,
)
    requires
        forall|i: int| 0 <= i < before.len() ==> text::is_white_space(#[trigger] before[i]),
        forall|i: int| 0 <= i < after.len() ==> text::is_white_space(#[trigger] after[i]),
    ensures
        file_bytes(before + text::hex(data) + after) == Some(data),
    decreases before.len() + after.len(),
{
    let digits = text::hex(data);
    let file = before + digits + after;
    text::hex_is_read_back(data);
    if before.len() > 0 {
        assert(file[0] == before[0]);
        assert(file.skip(1) =~= before.skip(1) + digits + after);
        written_transaction_is_read_back(data, before.skip(1), after);
    } else if digits.len() > 0 {
        assert(text::hex_value(digits[0]) is Some);
        assert(file[0] == digits[0]);
        assert(text::trimmed_start(file) == file);
        if after.len() > 0 {
            let shorter = before + digits + after.drop_last();
            assert(file.drop_last() =~= shorter);
            assert(file.last() == after[after.len() - 1]);
            assert(shorter[0] == digits[0]);
            assert(text::trimmed_start(shorter) == shorter);
            written_transaction_is_read_back(data, before, after.drop_last());
        } else {
            assert(file =~= digits);
            assert(text::hex_value(digits.last()) is Some);
        }
    } else if after.len() > 0 {
        assert(file[0] == after[0]);
        assert(file.skip(1) =~= before + digits + after.skip(1));
        written_transaction_is_read_back(data, before, after.skip(1));
    } else {
        assert(file =~= digits);
    }
}

/// The virtual size of a weight: a quarter, rounded up.
pub open spec fn virtual_size_of(weight: int) -> int {
    (weight + 3) / 4
}

/// The virtual size of a weight.
pub fn virtual_size(weight: u64) -> (r: u64)
    ensures
        r == virtual_size_of(weight as int),
        0 <= 4 * r - weight < 4,
{
    if weight % 4 == 0 {
        weight / 4
    } else {
        weight / 4 + 1
    }
}

/// The lines of a report before the counts.
pub open spec fn report_head(number: nat, size: nat, weight: nat) -> Seq<char> {
    "Transaction "@ + text::decimal(number) + "\nWeight: "@ + text::decimal(weight)
        + " WU\nSize: "@ + text::decimal(size) + " bytes\nVirtual size: "@ + text::decimal(
        virtual_size_of(weight as int) as nat,
    ) + " vbytes\n\nOpcode counts:\n"@
}

/// The lines of a report with the counts.
pub open spec fn report_counts(counts: Seq<OpcodeCount>) -> Seq<char>
    decreases counts.len(),
{
    if counts.len() == 0 {
        Seq::empty()
    } else {
        report_counts(counts.drop_last()) + "  "@ + counts.last().label@ + ": "@ + text::decimal(
            counts.last().count as nat,
        ) + "\n"@
    }
}

/// Writes a report: a transaction's number, weight and size and the counts of its opcodes.
pub fn report_text(number: usize, size: usize, weight: u64, counts: &Vec<OpcodeCount>) -> (r:
    String)
    ensures
        r@ == report_head(number as nat, size as nat, weight as nat) + report_counts(counts@),
{
    let mut r = String::from_str("Transaction ");
    r.append(text::decimal_text(number as u64).as_str());
    r.append("\nWeight: ");
    r.append(text::decimal_text(weight).as_str());
    r.append(" WU\nSize: ");
    r.append(text::decimal_text(size as u64).as_str());
    r.append(" bytes\nVirtual size: ");
    r.append(text::decimal_text(virtual_size(weight)).as_str());
    r.append(" vbytes\n\nOpcode counts:\n");
    let ghost head = report_head(number as nat, size as nat, weight as nat);
    assert(r@ == head);
    let mut i: usize = 0;
    assert(head + report_counts(counts@.take(0)) =~= head);
    while i < counts.len()
        invariant
            i <= counts.len(),
            r@ == head + report_counts(counts@.take(i as int)),
        decreases counts.len() - i,
    {
        r.append("  ");
        r.append(counts[i].label.as_str());
        r.append(": ");
        r.append(text::decimal_text(counts[i].count as u64).as_str());
        r.append("\n");
        i += 1;
        assert(counts@.take(i as int).drop_last() =~= counts@.take(i - 1));
        assert(r@ =~= head + report_counts(counts@.take(i as int)));
    }
    assert(counts@.take(counts.len() as int) =~= counts@);
    r
}

/// The line that sums a report up.
pub open spec fn summary_line(number: nat, size: nat, weight: nat, unique_opcodes: nat) -> Seq<
    char,
> {
    "  tx-"@ + text::decimal(number) + ": weight="@ + text::decimal(weight) + " WU, size="@
        + text::decimal(size) + " bytes, vsize="@ + text::decimal(
        virtual_size_of(weight as int) as nat,
    ) + " vbytes, "@ + text::decimal(unique_opcodes) + " unique opcodes"@
}

/// Writes the line that sums a report up.
pub fn summary_text(number: usize, size: usize, weight: u64, unique_opcodes: usize) -> (r: String)
    ensures
        r@ == summary_line(number as nat, size as nat, weight as nat, unique_opcodes as nat),
{
    let mut r = String::from_str("  tx-");
    r.append(text::decimal_text(number as u64).as_str());
    r.append(": weight=");
    r.append(text::decimal_text(weight).as_str());
    r.append(" WU, size=");
    r.append(text::decimal_text(size as u64).as_str());
    r.append(" bytes, vsize=");
    r.append(text::decimal_text(virtual_size(weight)).as_str());
    r.append(" vbytes, ");
    r.append(text::decimal_text(unique_opcodes as u64).as_str());
    r.append(" unique opcodes");
    r
}

/// A report's text, and a line that sums it up.
pub struct Report {
    pub text: String,
    pub summary: String,
}

/// A list of counts in the order of a report, of the scripts of a transaction.
pub open spec fn counts_in_order(counts: Seq<OpcodeCount>, witnesses: Seq<Seq<Seq<u8>>>) -> bool {
    &&& opcodes::sorted_by_count(counts)
    &&& exists|tallied: Seq<OpcodeCount>| #[trigger]
        opcodes::is_tally(tallied, opcodes::witness_labels(witnesses)) && counts.to_multiset()
            == tallied.to_multiset()
}

/// Reports on a transaction of `size` bytes. The counts are those of the scripts in its witnesses,
/// the most frequent opcode first.
pub fn transaction_report(number: usize, size: usize, tx: &DecodedTransaction) -> (r: Report)
    requires
        opcodes::script_bytes(tx@.witnesses) <= usize::MAX,
    ensures
        exists|counts: Seq<OpcodeCount>| #[trigger]
            counts_in_order(counts, tx@.witnesses) && r.text@ == report_head(
                number as nat,
                size as nat,
                tx.weight as nat,
            ) + report_counts(counts) && r.summary@ == summary_line(
                number as nat,
                size as nat,
                tx.weight as nat,
                counts.len(),
            ),
{
    let tallied: Vec<OpcodeCount> = opcodes::count_witness_opcodes(&tx.witnesses);
    let counts: Vec<OpcodeCount> = opcodes::sort_by_count(&tallied);
    assert(opcodes::is_tally(tallied@, opcodes::witness_labels(tx@.witnesses)));
    assert(counts_in_order(counts@, tx@.witnesses));
    Report {
        text: report_text(number, size, tx.weight, &counts),
        summary: summary_text(number, size, tx.weight, counts.len()),
    }
}

/// A virtual size is the least number of quarters that holds a weight.
pub proof fn virtual_size_is_the_least_that_holds(weight: int)
    ensures
        4 * virtual_size_of(weight) >= weight,
        4 * (virtual_size_of(weight) - 1) < weight,
{
}

/// The lines of a report before the counts spell each number in its place, the last being the least
/// virtual size for the weight.
pub proof fn report_head_spells_its_numbers(number: nat, size: nat, weight: nat)
    ensures
        exists|a: Seq<char>, b: Seq<char>, c: Seq<char>, d: Seq<char>, vsize: nat|
            #![trigger text::spells(a, number), text::spells(b, weight), text::spells(
                c,
                size,
            ), text::spells(d, vsize)]
            text::spells(a, number) && text::spells(b, weight) && text::spells(c, size)
                && text::spells(d, vsize) && 0 <= 4 * vsize - weight < 4 && report_head(
                number,
                size,
                weight,
            ) == "Transaction "@ + a + "\nWeight: "@ + b + " WU\nSize: "@ + c
                + " bytes\nVirtual size: "@ + d + " vbytes\n\nOpcode counts:\n"@,
{
    let vsize = virtual_size_of(weight as int) as nat;
    text::decimal_spells_the_number(number);
    text::decimal_spells_the_number(weight);
    text::decimal_spells_the_number(size);
    text::decimal_spells_the_number(vsize);
    assert(text::spells(text::decimal(vsize), vsize) && 0 <= 4 * vsize - weight < 4);
}

/// The line that sums a report up spells each number in its place.
pub proof fn summary_line_spells_its_numbers(
    number: nat,
    size: nat,
    weight: nat,
    unique_opcodes: nat,
)
    ensures
        exists|
            a: Seq<char>,
            b: Seq<char>,
            c: Seq<char>,
            d: Seq<char>,
            e: Seq<char>,
            vsize: nat,
        |
            #![trigger text::spells(a, number), text::spells(b, weight), text::spells(
                c,
                size,
            ), text::spells(d, vsize), text::spells(e, unique_opcodes)]
            text::spells(a, number) && text::spells(b, weight) && text::spells(c, size)
                && text::spells(d, vsize) && text::spells(e, unique_opcodes) && 0 <= 4 * vsize
                - weight < 4 && summary_line(number, size, weight, unique_opcodes) == "  tx-"@ + a
                + ": weight="@ + b + " WU, size="@ + c + " bytes, vsize="@ + d + " vbytes, "@ + e
                + " unique opcodes"@,
{
    let vsize = virtual_size_of(weight as int) as nat;
    text::decimal_spells_the_number(number);
    text::decimal_spells_the_number(weight);
    text::decimal_spells_the_number(size);
    text::decimal_spells_the_number(vsize);
    text::decimal_spells_the_number(unique_opcodes);
    assert(text::spells(text::decimal(vsize), vsize) && 0 <= 4 * vsize - weight < 4);
}

/// Each entry of a report is a line with its label and its count in decimal, behind the lines of
/// the entries before it.
pub proof fn each_count_has_its_line(counts: Seq<OpcodeCount>, entry: OpcodeCount)
    ensures
        report_counts(Seq::empty()) == Seq::<char>::empty(),
        exists|d: Seq<char>| #[trigger]
            text::spells(d, entry.count as nat) && report_counts(counts.push(entry))
                == report_counts(counts) + "  "@ + entry.label@ + ": "@ + d + "\n"@,
{
    assert(counts.push(entry).drop_last() =~= counts);
    text::decimal_spells_the_number(entry.count as nat);
}

/// The counts of a report are those of the scripts in the witnesses: every entry is the number of
/// occurrences of its label, every label that occurs has an entry, and the more frequent come
/// first.
pub proof fn reported_counts_are_occurrences(
    counts: Seq<OpcodeCount>,
    witnesses: Seq<Seq<Seq<u8>>>,
    i: int,
    j: int,
    l: Seq<char>,
)
    requires
        counts_in_order(counts, witnesses),
        0 <= i < counts.len(),
    ensures
        counts[i].count == opcodes::tally(opcodes::witness_labels(witnesses), counts[i].label@),
        counts[i].count > 0,
        i < j < counts.len() ==> counts[i].count >= counts[j].count,
        opcodes::tally(opcodes::witness_labels(witnesses), l) > 0 ==> exists|k: int|
            0 <= k < counts.len() && #[trigger] counts[k].label@ == l,
{
    broadcast use vstd::seq_lib::group_to_multiset_ensures;

    let labels = opcodes::witness_labels(witnesses);
    let tallied = choose|tallied: Seq<OpcodeCount>| #[trigger]
        opcodes::is_tally(tallied, labels) && counts.to_multiset() == tallied.to_multiset();
    assert(counts.contains(counts[i]));
    assert(counts.to_multiset().count(counts[i]) > 0);
    assert(tallied.contains(counts[i]));
    let k = choose|k: int| 0 <= k < tallied.len() && tallied[k] == counts[i];
    assert(tallied[k].count == opcodes::tally(labels, tallied[k].label@));
    if i < j < counts.len() {
        opcodes::report_order(counts, i, j);
    }
    if opcodes::tally(labels, l) > 0 {
        let m = choose|m: int| 0 <= m < tallied.len() && #[trigger] tallied[m].label@ == l;
        assert(tallied.contains(tallied[m]));
        assert(tallied.to_multiset().count(tallied[m]) > 0);
        assert(counts.contains(tallied[m]));
        let q = choose|q: int| 0 <= q < counts.len() && counts[q] == tallied[m];
        assert(counts[q].label@ == l);
    }
}

/// A transaction shows its weight and its witnesses, element for element.
pub proof fn transaction_shows_what_it_holds(tx: DecodedTransaction, i: int, j: int)
    ensures
        tx@.weight == tx.weight,
        tx@.witnesses.len() == tx.witnesses.len(),
        0 <= i < tx.witnesses.len() ==> tx@.witnesses[i].len() == tx.witnesses[i].len() && (0 <= j
            < tx.witnesses[i].len() ==> tx@.witnesses[i][j] == tx.witnesses[i][j]@),
        optional_transaction(Some(tx)) == Some(tx@),
        optional_transaction(None) is None,
{
}

} // verus!
