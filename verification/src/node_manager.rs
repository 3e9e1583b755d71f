use crate::error::Error;
use vstd::prelude::*;

verus! {

/// What an operator asks an invoice to be made for.
#[derive(Clone, Debug, PartialEq, Eq)]
pub struct CreateInvoiceParams {
    pub msat: u64,
    pub description: Option<String>,
}

impl CreateInvoiceParams {
    /// The description to put on the invoice: the one that was asked for,
    /// or a greeting where none was.
    pub fn description_or_default(&self) -> (text: String)
        ensures
            text@ == match self.description {
                Some(given) => given@,
                None => "Hello World"@,
            },
    {
        match &self.description {
            Some(given) => given.clone(),
            None => "Hello World".to_owned(),
        }
    }
}

/// What an operator asks to be paid out on chain.
#[derive(Clone, Debug, PartialEq, Eq)]
pub struct PayOnChainRequest {
    pub sat: u64,
    pub address: String,
}

/// The address to fund the node at.
#[derive(Clone, Debug, PartialEq, Eq)]
pub struct FundingAddressResponse {
    pub address: String,
}

/// How an on-chain output of the node stands.
#[derive(Clone, Copy, Debug, PartialEq, Eq, Structural)]
pub enum OutputStatus {
    Unconfirmed,
    Immature,
    Confirmed,
    Spent,
}

/// An on-chain output of the node.
#[derive(Clone, Copy, Debug, PartialEq, Eq, Structural)]
pub struct FundsOutput {
    pub status: OutputStatus,
    pub amount_msat: u64,
}

/// What the node holds, in millisatoshi.
#[derive(Clone, Copy, Debug, PartialEq, Eq, Structural)]
pub struct BalanceResponse {
    /// On chain and confirmed.
    pub on_chain_spendable: u64,
    /// On chain, whether confirmed or not yet.
    pub on_chain_total: u64,
    /// On our side of the channels.
    pub ln: u64,
}

/// What the outputs that are not spent hold together.
pub open spec fn unspent_msat(outputs: Seq<FundsOutput>) -> nat
    decreases outputs.len(),
{
    if outputs.len() == 0 {
        0
    } else {
        unspent_msat(outputs.drop_last()) + if outputs.last().status == OutputStatus::Spent {
            0nat
        } else {
            outputs.last().amount_msat as nat
        }
    }
}

/// What the confirmed outputs hold together.
pub open spec fn confirmed_msat(outputs: Seq<FundsOutput>) -> nat
    decreases outputs.len(),
{
    if outputs.len() == 0 {
        0
    } else {
        confirmed_msat(outputs.drop_last()) + if outputs.last().status == OutputStatus::Confirmed {
            outputs.last().amount_msat as nat
        } else {
            0nat
        }
    }
}

/// The sum of `amounts`.
pub open spec fn sum_msat(amounts: Seq<u64>) -> nat
    decreases amounts.len(),
{
    if amounts.len() == 0 {
        0
    } else {
        sum_msat(amounts.drop_last()) + amounts.last() as nat
    }
}

/// The first outputs hold no more than all of them.
proof fn lemma_outputs_grow(outputs: Seq<FundsOutput>, n: int)
    requires
        0 <= n <= outputs.len(),
    ensures
        unspent_msat(outputs.take(n)) <= unspent_msat(outputs),
    decreases outputs.len() - n,
{
    if n < outputs.len() {
        lemma_outputs_grow(outputs, n + 1);
        assert(outputs.take(n + 1).drop_last() =~= outputs.take(n));
    } else {
        assert(outputs.take(n) =~= outputs);
    }
}

/// The first amounts sum to no more than all of them.
proof fn lemma_sum_grows(amounts: Seq<u64>, n: int)
    requires
        0 <= n <= amounts.len(),
    ensures
        sum_msat(amounts.take(n)) <= sum_msat(amounts),
    decreases amounts.len() - n,
{
    if n < amounts.len() {
        lemma_sum_grows(amounts, n + 1);
        assert(amounts.take(n + 1).drop_last() =~= amounts.take(n));
    } else {
        assert(amounts.take(n) =~= amounts);
    }
}

/// The node's balance, from its on-chain outputs and from what is ours in
/// each channel. An output counts towards the total unless it is spent, and
/// towards the spendable if it is confirmed. Fails where a sum is more than
/// the counter can hold.
pub fn get_balance(outputs: &Vec<FundsOutput>, channels_msat: &Vec<u64>) -> (r: Result<
    BalanceResponse,
    Error,
>)
    ensures
        match r {
            Ok(balance) => balance.on_chain_total == unspent_msat(outputs@)
                && balance.on_chain_spendable == confirmed_msat(outputs@) && balance.ln
                == sum_msat(channels_msat@),
            Err(e) => e == Error::AmountOutOfRange && (unspent_msat(outputs@) > u64::MAX
                || sum_msat(channels_msat@) > u64::MAX),
        },
{
    let mut on_chain_total: u64 = 0;
    let mut on_chain_spendable: u64 = 0;
    let mut i: usize = 0;
    while i < outputs.len()
        invariant
            i <= outputs.len(),
            on_chain_total == unspent_msat(outputs@.take(i as int)),
            on_chain_spendable == confirmed_msat(outputs@.take(i as int)),
            on_chain_spendable <= on_chain_total,
        decreases outputs.len() - i,
    {
        proof {
            assert(outputs@.take(i + 1).drop_last() =~= outputs@.take(i as int));
            assert(outputs@.take(i + 1).last() == outputs[i as int]);
        }
        let output = outputs[i];
        match output.status {
            OutputStatus::Spent => {},
            status => {
                match on_chain_total.checked_add(output.amount_msat) {
                    Some(total) => {
                        on_chain_total = total;
                    },
                    None => {
                        proof {
                            lemma_outputs_grow(outputs@, i + 1);
                        }
                        return Err(Error::AmountOutOfRange);
                    },
                }
                if status == OutputStatus::Confirmed {
                    on_chain_spendable = on_chain_spendable + output.amount_msat;
                }
            },
        }
        i += 1;
    }
    assert(outputs@.take(outputs.len() as int) =~= outputs@);
    let mut ln: u64 = 0;
    let mut k: usize = 0;
    while k < channels_msat.len()
        invariant
            k <= channels_msat.len(),
            ln == sum_msat(channels_msat@.take(k as int)),
        decreases channels_msat.len() - k,
    {
        proof {
            assert(channels_msat@.take(k + 1).drop_last() =~= channels_msat@.take(k as int));
            assert(channels_msat@.take(k + 1).last() == channels_msat[k as int]);
        }
        match ln.checked_add(channels_msat[k]) {
            Some(sum) => {
                ln = sum;
            },
            None => {
                proof {
                    lemma_sum_grows(channels_msat@, k + 1);
                }
                return Err(Error::AmountOutOfRange);
            },
        }
        k += 1;
    }
    assert(channels_msat@.take(channels_msat.len() as int) =~= channels_msat@);
    Ok(BalanceResponse { on_chain_spendable, on_chain_total, ln })
}

} // verus!
