use crate::database::{with_proofs, DbView};
use crate::error::Error;
use crate::types::{InvoiceStatus, InvoiceTokenStatus, InvoiceView, KeysetView, ProofView};
use vstd::prelude::*;

verus! {

/// One thing that can happen to the ledger.
pub enum Step {
    /// The node made an invoice for a new mint quote.
    RequestMint {
        amount: u64,
        hash: Seq<char>,
        payment_hash: Seq<char>,
        invoice: Seq<char>,
        memo: Seq<char>,
    },
    /// The node's payment stream told of a paid invoice, at a position.
    PaidInvoice { payment_hash: Seq<char>, pay_index: Option<u64>, now: u64 },
    /// The node was asked how an invoice stands, and answered.
    Probe { payment_hash: Seq<char>, observed: InvoiceStatus },
    /// Tokens worth `amount` were signed for the quote `hash`.
    Mint { hash: Seq<char>, amount: u64 },
    /// Tokens were redeemed for a Lightning payment of `amount`, and
    /// `change` went back to the client.
    Melt { proofs: Seq<ProofView>, amount: u64, change: u64 },
    /// Tokens were traded for new ones worth `outputs` together.
    Swap { proofs: Seq<ProofView>, outputs: u64 },
    /// A keyset was named the one that signs, and kept if it was new.
    ActivateKeyset { keyset: KeysetView },
}

/// What the tokens of a request are worth together.
pub open spec fn total(proofs: Seq<ProofView>) -> nat
    decreases proofs.len(),
{
    if proofs.len() == 0 {
        0
    } else {
        total(proofs.drop_last()) + proofs.last().amount as nat
    }
}

/// The record of a quote that was just made.
pub open spec fn new_invoice(
    amount: u64,
    hash: Seq<char>,
    payment_hash: Seq<char>,
    invoice: Seq<char>,
    memo: Seq<char>,
) -> InvoiceView {
    InvoiceView {
        payment_hash,
        hash,
        invoice,
        amount,
        status: InvoiceStatus::Unpaid,
        token_status: InvoiceTokenStatus::NotIssued,
        memo,
        confirmed_at: None,
    }
}

impl DbView {
    /// The tables agree with each other: a record stands under its own
    /// hash, its payment hash leads to it and to nothing else, tokens were
    /// issued only for what was paid, and the keyset that signs is one of
    /// those that are kept.
    pub open spec fn consistent(self) -> bool {
        &&& self.active_keyset matches Some(id) ==> self.keysets.contains_key(id)
        &&& forall|h: Seq<char>| #[trigger]
            self.invoices.contains_key(h) ==> {
                &&& self.invoices[h].hash == h
                &&& self.hashes.contains_key(self.invoices[h].payment_hash)
                &&& self.hashes[self.invoices[h].payment_hash] == h
                &&& (self.invoices[h].token_status == InvoiceTokenStatus::Issued
                    ==> self.invoices[h].status == InvoiceStatus::Paid)
            }
        &&& forall|p: Seq<char>| #[trigger]
            self.hashes.contains_key(p) ==> {
                &&& self.invoices.contains_key(self.hashes[p])
                &&& self.invoices[self.hashes[p]].payment_hash == p
            }
    }

    /// No token of `proofs` was redeemed before, and none stands twice.
    pub open spec fn unspent(self, proofs: Seq<ProofView>) -> bool {
        &&& forall|i: int|
            0 <= i < proofs.len() ==> !self.spent().contains((#[trigger] proofs[i]).secret)
        &&& forall|i: int, j: int|
            0 <= i < j < proofs.len() ==> (#[trigger] proofs[i]).secret != (
            #[trigger] proofs[j]).secret
    }

    /// The stream position after a notification at `pay_index`: the
    /// position never falls back.
    pub open spec fn advanced_index(self, pay_index: Option<u64>) -> Option<u64> {
        match pay_index {
            Some(i) => if i > self.pay_index() {
                Some(i)
            } else {
                self.last_pay_index
            },
            None => self.last_pay_index,
        }
    }

    /// Whether the quote `hash` is known and its invoice still unpaid.
    pub open spec fn awaits_payment(self, hash: Seq<char>) -> bool {
        self.invoices.contains_key(hash) && self.invoices[hash].status == InvoiceStatus::Unpaid
    }

    /// The ledger after the node was asked how the invoice of the quote
    /// `hash` stands, and answered `observed`. Nothing changes for a quote
    /// that is not known.
    pub open spec fn probed(self, hash: Seq<char>, observed: InvoiceStatus) -> DbView {
        if self.invoices.contains_key(hash) {
            self.next(Step::Probe { payment_hash: self.invoices[hash].payment_hash, observed })
        } else {
            self
        }
    }

    /// Why tokens may not be issued for the quote `hash`, if they may not.
    pub open spec fn mint_refusal(self, hash: Seq<char>, amount: u64) -> Option<Error> {
        if !self.invoices.contains_key(hash) {
            Some(Error::NotFound)
        } else {
            let invoice = self.invoices[hash];
            match invoice.status {
                InvoiceStatus::Expired => Some(Error::InvoiceExpired),
                InvoiceStatus::Unpaid => Some(Error::InvoiceNotPaid),
                InvoiceStatus::InFlight => Some(Error::InvoiceNotPaid),
                InvoiceStatus::Paid => if invoice.token_status == InvoiceTokenStatus::Issued {
                    Some(Error::TokenAlreadyIssued)
                } else if invoice.amount != amount {
                    Some(Error::AmountMismatch)
                } else if self.circulation() + amount > u64::MAX {
                    Some(Error::AmountOutOfRange)
                } else {
                    None
                },
            }
        }
    }

    /// Why `proofs` may not be redeemed for a payment of `amount`, if they
    /// may not.
    pub open spec fn melt_refusal(self, proofs: Seq<ProofView>, amount: u64) -> Option<Error> {
        if !self.unspent(proofs) {
            Some(Error::TokenAlreadySpent)
        } else if total(proofs) < amount {
            Some(Error::AmountMismatch)
        } else if total(proofs) > self.circulation() {
            Some(Error::AmountOutOfRange)
        } else {
            None
        }
    }

    /// Why the ledger turns `step` down, if it does.
    pub open spec fn refusal(self, step: Step) -> Option<Error> {
        match step {
            Step::RequestMint { hash, payment_hash, .. } => if self.invoices.contains_key(hash)
                || self.hashes.contains_key(payment_hash) {
                Some(Error::DuplicateInvoice)
            } else {
                None
            },
            Step::PaidInvoice { payment_hash, .. } => if self.hashes.contains_key(payment_hash) {
                None
            } else {
                Some(Error::NotFound)
            },
            Step::Probe { payment_hash, .. } => if self.hashes.contains_key(payment_hash) {
                None
            } else {
                Some(Error::NotFound)
            },
            Step::Mint { hash, amount } => self.mint_refusal(hash, amount),
            Step::Melt { proofs, amount, change } => match self.melt_refusal(proofs, amount) {
                Some(e) => Some(e),
                None => if change > total(proofs) {
                    Some(Error::AmountMismatch)
                } else {
                    None
                },
            },
            Step::Swap { proofs, outputs } => if !self.unspent(proofs) {
                Some(Error::TokenAlreadySpent)
            } else if total(proofs) != outputs {
                Some(Error::AmountMismatch)
            } else {
                None
            },
            Step::ActivateKeyset { .. } => None,
        }
    }

    /// The ledger after `step`. A step that is turned down changes nothing,
    /// but that a payment notification always moves the stream position on.
    pub open spec fn next(self, step: Step) -> DbView {
        match step {
            Step::RequestMint { amount, hash, payment_hash, invoice, memo } => if self.refusal(
                step,
            ) is Some {
                self
            } else {
                DbView {
                    invoices: self.invoices.insert(
                        hash,
                        new_invoice(amount, hash, payment_hash, invoice, memo),
                    ),
                    hashes: self.hashes.insert(payment_hash, hash),
                    ..self
                }
            },
            Step::PaidInvoice { payment_hash, pay_index, now } => if self.refusal(step) is Some {
                DbView { last_pay_index: self.advanced_index(pay_index), ..self }
            } else {
                let hash = self.hashes[payment_hash];
                DbView {
                    last_pay_index: self.advanced_index(pay_index),
                    invoices: self.invoices.insert(hash, self.invoices[hash].paid(now)),
                    ..self
                }
            },
            Step::Probe { payment_hash, observed } => if self.refusal(step) is Some {
                self
            } else {
                let hash = self.hashes[payment_hash];
                DbView {
                    invoices: self.invoices.insert(hash, self.invoices[hash].probed(observed)),
                    ..self
                }
            },
            Step::Mint { hash, amount } => if self.refusal(step) is Some {
                self
            } else {
                DbView {
                    invoices: self.invoices.insert(hash, self.invoices[hash].issued()),
                    in_circulation: Some((self.circulation() + amount) as u64),
                    ..self
                }
            },
            Step::Melt { proofs, amount, change } => if self.refusal(step) is Some {
                self
            } else {
                DbView {
                    used_proofs: with_proofs(self.used_proofs, proofs),
                    in_circulation: Some((self.circulation() - total(proofs) + change) as u64),
                    ..self
                }
            },
            Step::Swap { proofs, .. } => if self.refusal(step) is Some {
                self
            } else {
                DbView { used_proofs: with_proofs(self.used_proofs, proofs), ..self }
            },
            Step::ActivateKeyset { keyset } => DbView {
                keysets: if self.keysets.contains_key(keyset.id) {
                    self.keysets
                } else {
                    self.keysets.insert(keyset.id, keyset)
                },
                active_keyset: Some(keyset.id),
                ..self
            },
        }
    }

    /// The ledger after each of `steps`, in order.
    pub open spec fn run(self, steps: Seq<Step>) -> DbView
        decreases steps.len(),
    {
        if steps.len() == 0 {
            self
        } else {
            self.run(steps.drop_last()).next(steps.last())
        }
    }

    /// `later` can come after `self`: every quote is still there with the
    /// same invoice and amount, what was paid is still paid, what was issued
    /// is still issued, what was spent is still spent, the stream position
    /// has not fallen back and no keyset was lost or changed.
    pub open spec fn leads_to(self, later: DbView) -> bool {
        &&& forall|h: Seq<char>| #[trigger]
            self.invoices.contains_key(h) ==> {
                &&& later.invoices.contains_key(h)
                &&& later.invoices[h].hash == self.invoices[h].hash
                &&& later.invoices[h].payment_hash == self.invoices[h].payment_hash
                &&& later.invoices[h].invoice == self.invoices[h].invoice
                &&& later.invoices[h].amount == self.invoices[h].amount
                &&& later.invoices[h].memo == self.invoices[h].memo
                &&& (self.invoices[h].status == InvoiceStatus::Paid ==> later.invoices[h].status
                    == InvoiceStatus::Paid && later.invoices[h].confirmed_at
                    == self.invoices[h].confirmed_at)
                &&& (self.invoices[h].token_status == InvoiceTokenStatus::Issued
                    ==> later.invoices[h].token_status == InvoiceTokenStatus::Issued)
            }
        &&& forall|p: Seq<char>| #[trigger]
            self.hashes.contains_key(p) ==> later.hashes.contains_key(p) && later.hashes[p]
                == self.hashes[p]
        &&& forall|s: Seq<char>| #[trigger] self.spent().contains(s) ==> later.spent().contains(s)
        &&& forall|k: Seq<char>| #[trigger]
            self.keysets.contains_key(k) ==> later.keysets.contains_key(k) && later.keysets[k]
                == self.keysets[k]
        &&& self.pay_index() <= later.pay_index()
    }
}

} // verus!
