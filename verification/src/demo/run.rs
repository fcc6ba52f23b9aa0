//! The run of the demo: one transaction after the other, each spending what the one before it left.

use super::network;
use super::network::NetworkArg;
use crate::dsl::plonk::covenant::{PlonkVerifierProgram, PlonkVerifierState};
use vstd::prelude::*;

verus! {

/// An output of a transaction, by the transaction's identifier and the output's number.
#[derive(Clone, Debug)]
pub struct Outpoint {
    pub txid: Vec<u8>,
    pub vout: u32,
}

/// Where the run stands.
#[derive(Clone, Debug)]
pub struct Demo {
    /// The state that the last transaction left.
    pub state: PlonkVerifierState,
    /// The randomizer of the last transaction.
    pub randomizer: u32,
    /// What is left for the transactions to come, in satoshis.
    pub balance: u64,
    /// The identifier of the last transaction.
    pub txid: Vec<u8>,
    /// The output that the last transaction spent first.
    pub outpoint: Outpoint,
}

/// What the next transaction is to do.
#[derive(Clone, Copy, Debug, PartialEq, Eq, Structural)]
pub struct Step {
    /// The program that it runs.
    pub program_index: usize,
    /// What it leaves for the transactions to come, in satoshis.
    pub new_balance: u64,
}

/// Why there is no next transaction.
#[derive(Clone, Copy, Debug, PartialEq, Eq, Structural)]
pub enum DemoError {
    /// No program has the state's program counter.
    NoProgram,
    /// The balance does not cover the fee and the output with the state.
    BalanceTooLow,
}

/// The fee of the next transaction, in satoshis.
pub open spec fn next_fee(pc: usize, network: NetworkArg) -> int {
    network::step_fee_of(network::fee_at(pc as int) as int, network.rate())
}

/// The next transaction, by the program counter and the balance.
pub open spec fn planned(pc: usize, balance: u64, network: NetworkArg, dust: u64) -> Result<
    Step,
    DemoError,
> {
    if pc >= network::N_TRANSACTIONS {
        Err(DemoError::NoProgram)
    } else if balance < next_fee(pc, network) + dust {
        Err(DemoError::BalanceTooLow)
    } else {
        Ok(Step { program_index: pc, new_balance: (balance - next_fee(pc, network) - dust) as u64 })
    }
}

impl Demo {
    /// The start of the run, in the initial state.
    pub fn start(
        randomizer: u32,
        balance: u64,
        initial_program_txid: Vec<u8>,
        funding: Outpoint,
    ) -> (r: Demo)
        ensures
            r.state.pc == 0,
            r.state.stack_hash@ == crate::dsl::plonk::covenant::zero_hash(),
            r.state.stack.len() == 0,
            r.randomizer == randomizer,
            r.balance == balance,
            r.txid@ == initial_program_txid@,
            r.outpoint == funding,
    {
        Demo {
            state: PlonkVerifierProgram::new(),
            randomizer,
            balance,
            txid: initial_program_txid,
            outpoint: funding,
        }
    }

    /// Decides on the next transaction. `dust` is what the output with the state holds.
    pub fn plan(&self, network: NetworkArg, dust: u64) -> (r: Result<Step, DemoError>)
        ensures
            r == (if self.state.pc >= network::N_TRANSACTIONS {
                Err(DemoError::NoProgram)
            } else if self.balance < next_fee(self.state.pc, network) + dust {
                Err(DemoError::BalanceTooLow)
            } else {
                Ok(
                    Step {
                        program_index: self.state.pc,
                        new_balance: (self.balance - next_fee(self.state.pc, network)
                            - dust) as u64,
                    },
                )
            }),
            r == planned(self.state.pc, self.balance, network, dust),
            r is Ok ==> self.state.pc < 72,
            r matches Ok(step) ==> step.program_index == self.state.pc && step.new_balance + dust
                <= self.balance && 0 <= 7 * (self.balance - dust - step.new_balance)
                - network::fee_at(self.state.pc as int) * network.rate() < 7,
            r matches Err(e) ==> (e is NoProgram) == (self.state.pc >= 72),
    {
        match network::next_program(self.state.pc) {
            None => Err(DemoError::NoProgram),
            Some(program_index) => {
                let fee: u64 = network::step_fee(program_index, network);
                if self.balance < fee || self.balance - fee < dust {
                    return Err(DemoError::BalanceTooLow);
                }
                let new_balance: u64 = network::next_balance(self.balance, fee, dust);
                Ok(Step { program_index, new_balance })
            },
        }
    }

    /// Goes on after a transaction that took the planned step.
    pub fn advance(
        &mut self,
        step: Step,
        new_state: PlonkVerifierState,
        randomizer: u32,
        txid: Vec<u8>,
        spent: Outpoint,
    )
        ensures
            final(self).state == new_state,
            final(self).randomizer == randomizer,
            final(self).balance == step.new_balance,
            final(self).txid == txid,
            final(self).outpoint == spent,
    {
        self.state = new_state;
        self.randomizer = randomizer;
        self.balance = step.new_balance;
        self.txid = txid;
        self.outpoint = spent;
    }
}

/// The balance after planned steps that run one program after the other, starting with the first.
pub open spec fn balance_after(balance: int, n: nat, network: NetworkArg) -> int {
    balance - network::spent(n, network.rate())
}

/// With the full funding, no step of a run through all programs fails for want of balance.
pub proof fn funded_run_is_never_short(network: NetworkArg, amount: int, n: nat)
    requires
        amount >= network::funding(network.rate()),
        n < network::N_TRANSACTIONS,
    ensures
        ({
            let rest = amount - network::DUST - network::FUNDING_SIZE * network.rate();
            &&& balance_after(rest, n, network) >= next_fee(n as usize, network) + network::DUST
            &&& balance_after(rest, n + 1, network) == balance_after(rest, n, network) - next_fee(
                n as usize,
                network,
            ) - network::DUST
        }),
{
    network::funding_covers_every_transaction(network, amount, n + 1);
}

/// A transaction is planned where the program counter names a program and the balance pays for the
/// fee, rounded up, and the output with the state. It runs the program that the counter names, and
/// what it leaves, the fee and the output are the balance.
pub proof fn planned_step_pays_fee_and_output(
    pc: usize,
    balance: u64,
    network: NetworkArg,
    dust: u64,
)
    ensures
        ({
            let price = network::fee_at(pc as int) * (match network {
                NetworkArg::Regtest => 1int,
                NetworkArg::Signet => 1,
                NetworkArg::Bitcoin => 1500,
            });
            match planned(pc, balance, network, dust) {
                Ok(step) => {
                    let fee = balance - dust - step.new_balance;
                    pc < 72 && step.program_index == pc && 7 * fee >= price && 7 * (fee - 1)
                        < price
                },
                Err(DemoError::NoProgram) => pc >= 72,
                Err(DemoError::BalanceTooLow) => pc < 72 && 7 * (balance - dust) < price,
            }
        }),
{
    if pc < 72 {
        let rate = network.rate();
        assert(network::fee_at(pc as int) * rate >= 0) by (nonlinear_arith)
            requires
                network::fee_at(pc as int) >= 0,
                rate >= 1,
        ;
    }
}

} // verus!
