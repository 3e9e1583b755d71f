use crate::database::{proof_views, Db, DbView};
use crate::error::Error;
use crate::laws::step_keeps_consistency;
use crate::model::{new_invoice, total, Step};
use crate::types::{
    InvoiceInfo, InvoiceStatus, InvoiceTokenStatus, KeysetInfo, KeysetView, Proof, ProofView,
    RequestMintResponse,
};
use vstd::prelude::*;

verus! {

/// The front of a token list is worth no more than the whole.
pub proof fn lemma_total_grows(proofs: Seq<ProofView>, n: int)
    requires
        0 <= n <= proofs.len(),
    ensures
        total(proofs.take(n)) <= total(proofs),
    decreases proofs.len() - n,
{
    if n < proofs.len() {
        lemma_total_grows(proofs, n + 1);
        assert(proofs.take(n + 1).drop_last() =~= proofs.take(n));
    } else {
        assert(proofs.take(n) =~= proofs);
    }
}

/// What `proofs` are worth together, if that fits the counter.
pub fn proofs_amount(proofs: &Vec<Proof>) -> (sum: Option<u64>)
    ensures
        match sum {
            Some(t) => t == total(proof_views(proofs@)),
            None => total(proof_views(proofs@)) > u64::MAX,
        },
{
    let ghost views = proof_views(proofs@);
    let mut sum: u64 = 0;
    let mut i: usize = 0;
    while i < proofs.len()
        invariant
            i <= proofs.len(),
            views == proof_views(proofs@),
            sum == total(views.take(i as int)),
        decreases proofs.len() - i,
    {
        proof {
            assert(views.take(i + 1).drop_last() =~= views.take(i as int));
            assert(views.take(i + 1).last() == proofs[i as int]@);
        }
        match sum.checked_add(proofs[i].amount) {
            Some(s) => {
                sum = s;
            },
            None => {
                proof {
                    lemma_total_grows(views, i + 1);
                }
                return None;
            },
        }
        i += 1;
    }
    assert(views.take(proofs.len() as int) =~= views);
    Some(sum)
}

/// The change that is due after a melt: what was redeemed beyond what the
/// node spent, fees included. Nothing is due where the node spent it all.
pub fn change_due(redeemed: u64, total_spent: u64) -> (change: u64)
    ensures
        change == if redeemed > total_spent {
            redeemed - total_spent
        } else {
            0
        },
        change <= redeemed,
{
    if redeemed > total_spent {
        redeemed - total_spent
    } else {
        0
    }
}

/// What is to be done next for a request to mint.
#[derive(Clone, Debug, PartialEq, Eq)]
pub enum MintStep {
    /// Ask the node how the invoice with this payment hash stands.
    Probe(String),
    /// Sign the tokens.
    Sign,
}

/// The mint's ledger: the one place where invoice records, the set of spent
/// secrets and the amount in circulation change.
///
/// The engine does no I/O. A caller that holds it behind one lock asks the
/// Lightning node and signs tokens between the calls, tells the engine what
/// came of it, and writes what a call changed to disk.
pub struct Engine {
    db: Db,
}

impl Engine {
    /// The tables are sound and agree with each other.
    pub closed spec fn wf(&self) -> bool {
        self.db.wf() && self.db@.consistent()
    }

    /// The ledger as plain values.
    pub closed spec fn view(&self) -> DbView {
        self.db@
    }

    /// The tables of a sound ledger agree with each other.
    pub proof fn lemma_consistent(&self)
        requires
            self.wf(),
        ensures
            self@.consistent(),
    {
    }

    /// A ledger with nothing in it.
    pub fn new() -> (engine: Self)
        ensures
            engine.wf(),
            engine@ == DbView::empty(),
    {
        Engine { db: Db::new() }
    }

    /// Takes over tables that were read back from disk. They are taken as
    /// they are where they agree with each other, and turned down where a
    /// torn write left them at odds.
    pub fn restore(db: Db) -> (r: Result<Engine, Error>)
        requires
            db.wf(),
        ensures
            match r {
                Ok(engine) => engine.wf() && engine@ == db@ && db@.consistent(),
                Err(e) => e is Storage && !db@.consistent(),
            },
    {
        if db.check_consistent() {
            Ok(Engine { db })
        } else {
            Err(Error::Storage("the tables disagree with each other".to_owned()))
        }
    }

    /// The tables, to read.
    pub fn db(&self) -> (db: &Db)
        requires
            self.wf(),
        ensures
            db.wf(),
            db@ == self@,
    {
        &self.db
    }

    /// The amount in circulation.
    pub fn in_circulation(&self) -> (amount: u64)
        ensures
            amount == self@.circulation(),
    {
        self.db.get_in_circulation()
    }

    /// The stream position to go on from after a restart.
    pub fn last_pay_index(&self) -> (index: u64)
        ensures
            index == self@.pay_index(),
    {
        self.db.get_last_pay_index()
    }

    /// The record of the quote `hash`.
    pub fn get_invoice_info(&self, hash: &str) -> (r: Result<InvoiceInfo, Error>)
        requires
            self.wf(),
        ensures
            match r {
                Ok(info) => self@.invoices.contains_key(hash@) && info@ == self@.invoices[hash@],
                Err(e) => e == Error::NotFound && !self@.invoices.contains_key(hash@),
            },
    {
        self.db.get_invoice_info(hash)
    }

    /// Books a new quote: the invoice that the node made for `amount`, under
    /// the hash that the client will ask with. The quote starts unpaid, with
    /// no tokens issued. A hash or a payment hash that is already known is
    /// turned down, so that no record is ever written over.
    pub fn request_mint(
        &mut self,
        amount: u64,
        hash: &str,
        payment_hash: &str,
        invoice: &str,
        memo: &str,
    ) -> (r: Result<RequestMintResponse, Error>)
        requires
            old(self).wf(),
        ensures
            final(self).wf(),
            ({
                let step = Step::RequestMint {
                    amount,
                    hash: hash@,
                    payment_hash: payment_hash@,
                    invoice: invoice@,
                    memo: memo@,
                };
                &&& final(self)@ == old(self)@.next(step)
                &&& match r {
                    Ok(quote) => old(self)@.refusal(step) is None && quote.hash@ == hash@
                        && quote.pr@ == invoice@,
                    Err(e) => old(self)@.refusal(step) == Some(e),
                }
            }),
    {
        let ghost step = Step::RequestMint {
            amount,
            hash: hash@,
            payment_hash: payment_hash@,
            invoice: invoice@,
            memo: memo@,
        };
        let known = match self.db.get_invoice_info(hash) {
            Ok(_) => true,
            Err(_) => match self.db.get_hash(payment_hash) {
                Some(_) => true,
                None => false,
            },
        };
        if known {
            return Err(Error::DuplicateInvoice);
        }
        let info = InvoiceInfo::new(
            payment_hash.to_owned(),
            hash.to_owned(),
            invoice.to_owned(),
            amount,
            InvoiceStatus::Unpaid,
            memo,
            None,
        );
        self.db.add_invoice(&info);
        proof {
            assert(info@ == new_invoice(amount, hash@, payment_hash@, invoice@, memo@));
            assert(self.db@ =~= old(self).db@.next(step));
            step_keeps_consistency(old(self).db@, step);
        }
        Ok(RequestMintResponse { hash: hash.to_owned(), pr: invoice.to_owned() })
    }

    /// Books a payment that the node's stream told of. The stream position
    /// moves on to `pay_index` where that is further than it stood; the
    /// invoice behind `payment_hash` becomes paid, with `now` as the time of
    /// confirmation, unless it is paid already. Returns the record as it
    /// stands afterwards. Fails where no quote has this payment hash; the
    /// position has moved on all the same.
    pub fn handle_paid_invoice(&mut self, payment_hash: &str, pay_index: Option<u64>, now: u64) -> (r:
        Result<InvoiceInfo, Error>)
        requires
            old(self).wf(),
        ensures
            final(self).wf(),
            ({
                let step = Step::PaidInvoice { payment_hash: payment_hash@, pay_index, now };
                &&& final(self)@ == old(self)@.next(step)
                &&& match r {
                    Ok(info) => old(self)@.refusal(step) is None && final(self)@.by_payment_hash(
                        payment_hash@,
                    ) == Some(info@),
                    Err(e) => old(self)@.refusal(step) == Some(e),
                }
            }),
    {
        let ghost step = Step::PaidInvoice { payment_hash: payment_hash@, pay_index, now };
        let ghost before = self.db@;
        match pay_index {
            Some(i) => {
                if i > self.db.get_last_pay_index() {
                    self.db.set_last_pay_index(i);
                }
            },
            None => {},
        }
        match self.db.get_invoice_info_by_payment_hash(payment_hash) {
            Ok(mut info) => {
                proof {
                    assert(before.invoices.contains_key(before.hashes[payment_hash@]));
                }
                if info.status != InvoiceStatus::Paid {
                    info.status = InvoiceStatus::Paid;
                    info.confirmed_at = Some(now);
                    self.db.add_invoice(&info);
                }
                proof {
                    assert(self.db@.hashes =~= before.hashes);
                    assert(self.db@.invoices =~= before.next(step).invoices);
                    assert(self.db@ =~= before.next(step));
                    step_keeps_consistency(before, step);
                }
                Ok(info)
            },
            Err(e) => {
                proof {
                    assert(self.db@ =~= before.next(step));
                    step_keeps_consistency(before, step);
                }
                Err(e)
            },
        }
    }

    /// Books what the node answered when it was asked how the invoice
    /// behind `payment_hash` stands. Only an unpaid invoice moves, and only
    /// to paid or expired. Returns the status as it stands afterwards.
    pub fn check_invoice_status(&mut self, payment_hash: &str, observed: InvoiceStatus) -> (r: Result<
        InvoiceStatus,
        Error,
    >)
        requires
            old(self).wf(),
        ensures
            final(self).wf(),
            ({
                let step = Step::Probe { payment_hash: payment_hash@, observed };
                &&& final(self)@ == old(self)@.next(step)
                &&& match r {
                    Ok(status) => old(self)@.refusal(step) is None && final(self)@.by_payment_hash(
                        payment_hash@,
                    ) is Some && status == final(self)@.by_payment_hash(payment_hash@)->0.status,
                    Err(e) => old(self)@.refusal(step) == Some(e),
                }
            }),
    {
        let ghost step = Step::Probe { payment_hash: payment_hash@, observed };
        let ghost before = self.db@;
        match self.db.get_invoice_info_by_payment_hash(payment_hash) {
            Ok(mut info) => {
                proof {
                    assert(before.invoices.contains_key(before.hashes[payment_hash@]));
                }
                if info.status == InvoiceStatus::Unpaid && (observed == InvoiceStatus::Paid
                    || observed == InvoiceStatus::Expired) {
                    info.status = observed;
                    self.db.add_invoice(&info);
                }
                proof {
                    assert(self.db@.hashes =~= before.hashes);
                    assert(self.db@.invoices =~= before.next(step).invoices);
                    assert(self.db@ =~= before.next(step));
                    step_keeps_consistency(before, step);
                }
                Ok(info.status)
            },
            Err(e) => Err(e),
        }
    }

    /// The payment hash to ask the node about before tokens are issued for
    /// the quote `hash`: that of its invoice, where the quote is known and
    /// still unpaid.
    pub fn probe_target(&self, hash: &str) -> (target: Option<String>)
        requires
            self.wf(),
        ensures
            match target {
                Some(payment_hash) => self@.invoices.contains_key(hash@)
                    && self@.invoices[hash@].status == InvoiceStatus::Unpaid && payment_hash@
                    == self@.invoices[hash@].payment_hash,
                None => !self@.invoices.contains_key(hash@) || self@.invoices[hash@].status
                    != InvoiceStatus::Unpaid,
            },
    {
        match self.db.get_invoice_info(hash) {
            Ok(info) => {
                if info.status == InvoiceStatus::Unpaid {
                    Some(info.payment_hash)
                } else {
                    None
                }
            },
            Err(_) => None,
        }
    }

    /// Whether tokens worth `amount` may be issued for the quote `hash`:
    /// the quote is known, paid, not issued yet and of this very amount,
    /// and the circulation has room for it.
    pub fn verify_mint(&self, hash: &str, amount: u64) -> (r: Result<(), Error>)
        requires
            self.wf(),
        ensures
            match r {
                Ok(_) => self@.mint_refusal(hash@, amount) is None,
                Err(e) => self@.mint_refusal(hash@, amount) == Some(e),
            },
    {
        let info = match self.db.get_invoice_info(hash) {
            Ok(info) => info,
            Err(e) => {
                return Err(e);
            },
        };
        match info.status {
            InvoiceStatus::Expired => Err(Error::InvoiceExpired),
            InvoiceStatus::Unpaid => Err(Error::InvoiceNotPaid),
            InvoiceStatus::InFlight => Err(Error::InvoiceNotPaid),
            InvoiceStatus::Paid => {
                if info.token_status == InvoiceTokenStatus::Issued {
                    Err(Error::TokenAlreadyIssued)
                } else if info.amount != amount {
                    Err(Error::AmountMismatch)
                } else if self.db.get_in_circulation().checked_add(amount).is_none() {
                    Err(Error::AmountOutOfRange)
                } else {
                    Ok(())
                }
            },
        }
    }

    /// Books that tokens worth `amount` were issued for the quote `hash`:
    /// the quote is marked issued and the circulation grows by `amount`, in
    /// one step. Turned down, with nothing changed, where
    /// [`Engine::verify_mint`] would turn it down. Returns the circulation
    /// as it stands afterwards.
    pub fn process_mint(&mut self, hash: &str, amount: u64) -> (r: Result<u64, Error>)
        requires
            old(self).wf(),
        ensures
            final(self).wf(),
            ({
                let step = Step::Mint { hash: hash@, amount };
                &&& final(self)@ == old(self)@.next(step)
                &&& match r {
                    Ok(circulation) => old(self)@.refusal(step) is None
                        && circulation == final(self)@.circulation(),
                    Err(e) => old(self)@.refusal(step) == Some(e),
                }
            }),
    {
        let ghost step = Step::Mint { hash: hash@, amount };
        let ghost before = self.db@;
        match self.verify_mint(hash, amount) {
            Ok(_) => {},
            Err(e) => {
                return Err(e);
            },
        }
        let mut info = match self.db.get_invoice_info(hash) {
            Ok(info) => info,
            Err(e) => {
                return Err(e);
            },
        };
        info.token_status = InvoiceTokenStatus::Issued;
        let circulation = self.db.get_in_circulation() + amount;
        self.db.add_invoice(&info);
        self.db.set_in_circulation(circulation);
        proof {
            assert(before.hashes.contains_key(before.invoices[hash@].payment_hash));
            assert(self.db@.hashes =~= before.hashes);
            assert(self.db@.invoices =~= before.next(step).invoices);
            assert(self.db@ =~= before.next(step));
            step_keeps_consistency(before, step);
        }
        Ok(circulation)
    }

    /// The error to answer with when signing failed after
    /// [`Engine::verify_mint`] had passed. Nothing was booked, so the
    /// client may ask again.
    pub fn mint_failed(&self, hash: &str) -> (e: Error)
        requires
            self.wf(),
        ensures
            e == if self@.invoices.contains_key(hash@) {
                Error::InvoiceNotPaid
            } else {
                Error::NotFound
            },
    {
        match self.db.get_invoice_info(hash) {
            Ok(_) => Error::InvoiceNotPaid,
            Err(_) => Error::NotFound,
        }
    }

    /// The first step of minting tokens worth `amount` for the quote
    /// `hash`. Where the invoice is still unpaid, the node is to be asked
    /// once how it stands, since the payment may have come in unseen;
    /// the answer goes to [`Engine::resume_mint`]. Else the tokens are to be
    /// signed, or the request is turned down as [`Engine::verify_mint`]
    /// turns it down.
    pub fn begin_mint(&self, hash: &str, amount: u64) -> (r: Result<MintStep, Error>)
        requires
            self.wf(),
        ensures
            match r {
                Ok(MintStep::Probe(payment_hash)) => self@.awaits_payment(hash@) && payment_hash@
                    == self@.invoices[hash@].payment_hash,
                Ok(MintStep::Sign) => !self@.awaits_payment(hash@) && self@.mint_refusal(
                    hash@,
                    amount,
                ) is None,
                Err(e) => !self@.awaits_payment(hash@) && self@.mint_refusal(hash@, amount) == Some(
                    e,
                ),
            },
    {
        match self.probe_target(hash) {
            Some(payment_hash) => Ok(MintStep::Probe(payment_hash)),
            None => match self.verify_mint(hash, amount) {
                Ok(_) => Ok(MintStep::Sign),
                Err(e) => Err(e),
            },
        }
    }

    /// The step after the node was asked how the invoice of the quote
    /// `hash` stands. A failure of the node fails the request and changes
    /// nothing. An answer is booked as [`Engine::check_invoice_status`]
    /// books it; then the tokens are to be signed, or the request is turned
    /// down as [`Engine::verify_mint`] turns it down. The node is not asked
    /// a second time.
    pub fn resume_mint(&mut self, hash: &str, amount: u64, answer: Result<InvoiceStatus, Error>) -> (r:
        Result<(), Error>)
        requires
            old(self).wf(),
        ensures
            final(self).wf(),
            match answer {
                Err(e) => final(self)@ == old(self)@ && r == Err::<(), Error>(e),
                Ok(observed) => {
                    &&& final(self)@ == old(self)@.probed(hash@, observed)
                    &&& match r {
                        Ok(_) => final(self)@.mint_refusal(hash@, amount) is None,
                        Err(e) => final(self)@.mint_refusal(hash@, amount) == Some(e),
                    }
                },
            },
    {
        let observed = match answer {
            Ok(observed) => observed,
            Err(e) => {
                return Err(e);
            },
        };
        match self.db.get_invoice_info(hash) {
            Ok(info) => {
                proof {
                    assert(self@.hashes.contains_key(self@.invoices[hash@].payment_hash));
                }
                match self.check_invoice_status(info.payment_hash.as_str(), observed) {
                    Ok(_) => {},
                    Err(e) => {
                        return Err(e);
                    },
                }
            },
            Err(_) => {},
        }
        self.verify_mint(hash, amount)
    }

    /// The last step of minting: books the tokens if they were signed, as
    /// [`Engine::process_mint`] books them, and returns the circulation as
    /// it stands afterwards. Where signing failed nothing is booked, the
    /// client may ask again, and the error is that of
    /// [`Engine::mint_failed`].
    pub fn finish_mint(&mut self, hash: &str, amount: u64, signed: bool) -> (r: Result<u64, Error>)
        requires
            old(self).wf(),
        ensures
            final(self).wf(),
            ({
                let step = Step::Mint { hash: hash@, amount };
                if signed {
                    &&& final(self)@ == old(self)@.next(step)
                    &&& match r {
                        Ok(circulation) => old(self)@.refusal(step) is None
                            && circulation == final(self)@.circulation(),
                        Err(e) => old(self)@.refusal(step) == Some(e),
                    }
                } else {
                    &&& final(self)@ == old(self)@
                    &&& r == Err::<u64, Error>(
                        if old(self)@.invoices.contains_key(hash@) {
                            Error::InvoiceNotPaid
                        } else {
                            Error::NotFound
                        },
                    )
                }
            }),
    {
        if signed {
            self.process_mint(hash, amount)
        } else {
            Err(self.mint_failed(hash))
        }
    }

    /// Whether no token of `proofs` was redeemed before and none stands
    /// twice among them.
    pub fn check_unspent(&self, proofs: &Vec<Proof>) -> (fresh: bool)
        ensures
            fresh == self@.unspent(proof_views(proofs@)),
    {
        let ghost views = proof_views(proofs@);
        let mut i: usize = 0;
        while i < proofs.len()
            invariant
                i <= proofs.len(),
                views == proof_views(proofs@),
                forall|a: int| 0 <= a < i ==> !self@.spent().contains((#[trigger] views[a]).secret),
                forall|a: int, b: int|
                    0 <= a < b < i ==> (#[trigger] views[a]).secret != (#[trigger] views[b]).secret,
            decreases proofs.len() - i,
        {
            assert(views[i as int] == proofs[i as int]@);
            if self.db.is_spent(&proofs[i].secret) {
                return false;
            }
            let mut j: usize = 0;
            while j < i
                invariant
                    j <= i,
                    i < proofs.len(),
                    views == proof_views(proofs@),
                    forall|a: int| 0 <= a < j ==> (#[trigger] views[a]).secret != views[i as int].secret,
                decreases i - j,
            {
                assert(views[j as int] == proofs[j as int]@);
                assert(views[i as int] == proofs[i as int]@);
                if proofs[j].secret == proofs[i].secret {
                    return false;
                }
                j += 1;
            }
            i += 1;
        }
        true
    }

    /// Whether `proofs` may be redeemed for a Lightning payment of `amount`:
    /// none of them was spent, together they cover `amount`, and they are
    /// worth no more than is in circulation. To be asked before the node
    /// pays. Returns what the tokens are worth together.
    pub fn verify_melt(&self, proofs: &Vec<Proof>, amount: u64) -> (r: Result<u64, Error>)
        requires
            self.wf(),
        ensures
            match r {
                Ok(redeemed) => self@.melt_refusal(proof_views(proofs@), amount) is None && redeemed
                    == total(proof_views(proofs@)),
                Err(e) => self@.melt_refusal(proof_views(proofs@), amount) == Some(e),
            },
    {
        if !self.check_unspent(proofs) {
            return Err(Error::TokenAlreadySpent);
        }
        match proofs_amount(proofs) {
            Some(redeemed) => {
                if redeemed < amount {
                    Err(Error::AmountMismatch)
                } else if redeemed > self.db.get_in_circulation() {
                    Err(Error::AmountOutOfRange)
                } else {
                    Ok(redeemed)
                }
            },
            None => Err(Error::AmountOutOfRange),
        }
    }

    /// Books a melt once the node has paid: the secrets of `proofs` are
    /// spent from now on, and the circulation falls by what the tokens were
    /// worth, less the `change` that went back to the client. Turned down,
    /// with nothing changed, where [`Engine::verify_melt`] would turn it
    /// down, or where the change is more than the tokens were worth.
    /// Returns the circulation as it stands afterwards.
    pub fn process_melt(&mut self, proofs: &Vec<Proof>, amount: u64, change: u64) -> (r: Result<
        u64,
        Error,
    >)
        requires
            old(self).wf(),
        ensures
            final(self).wf(),
            ({
                let step = Step::Melt { proofs: proof_views(proofs@), amount, change };
                &&& final(self)@ == old(self)@.next(step)
                &&& match r {
                    Ok(circulation) => old(self)@.refusal(step) is None
                        && circulation == final(self)@.circulation(),
                    Err(e) => old(self)@.refusal(step) == Some(e),
                }
            }),
    {
        let ghost step = Step::Melt { proofs: proof_views(proofs@), amount, change };
        let ghost before = self.db@;
        let redeemed = match self.verify_melt(proofs, amount) {
            Ok(redeemed) => redeemed,
            Err(e) => {
                return Err(e);
            },
        };
        if change > redeemed {
            return Err(Error::AmountMismatch);
        }
        let circulation = self.db.get_in_circulation() - redeemed + change;
        self.db.add_used_proofs(proofs);
        self.db.set_in_circulation(circulation);
        proof {
            assert(self.db@ =~= before.next(step));
            step_keeps_consistency(before, step);
        }
        Ok(circulation)
    }

    /// Whether `proofs` may be traded for new tokens worth `outputs`
    /// together: none of them was spent, none stands twice, and they are
    /// worth exactly what is asked for them.
    pub fn verify_swap(&self, proofs: &Vec<Proof>, outputs: u64) -> (r: Result<(), Error>)
        ensures
            ({
                let step = Step::Swap { proofs: proof_views(proofs@), outputs };
                match r {
                    Ok(_) => self@.refusal(step) is None,
                    Err(e) => self@.refusal(step) == Some(e),
                }
            }),
    {
        if !self.check_unspent(proofs) {
            return Err(Error::TokenAlreadySpent);
        }
        match proofs_amount(proofs) {
            Some(redeemed) => {
                if redeemed == outputs {
                    Ok(())
                } else {
                    Err(Error::AmountMismatch)
                }
            },
            None => Err(Error::AmountMismatch),
        }
    }

    /// Books a swap: the secrets of `proofs` are spent from now on. The
    /// circulation stays as it is, since as much goes out as came in.
    /// Turned down, with nothing changed, where [`Engine::verify_swap`]
    /// would turn it down.
    pub fn process_swap(&mut self, proofs: &Vec<Proof>, outputs: u64) -> (r: Result<(), Error>)
        requires
            old(self).wf(),
        ensures
            final(self).wf(),
            ({
                let step = Step::Swap { proofs: proof_views(proofs@), outputs };
                &&& final(self)@ == old(self)@.next(step)
                &&& match r {
                    Ok(_) => old(self)@.refusal(step) is None,
                    Err(e) => old(self)@.refusal(step) == Some(e),
                }
            }),
    {
        let ghost step = Step::Swap { proofs: proof_views(proofs@), outputs };
        let ghost before = self.db@;
        match self.verify_swap(proofs, outputs) {
            Ok(_) => {},
            Err(e) => {
                return Err(e);
            },
        }
        self.db.add_used_proofs(proofs);
        proof {
            assert(self.db@ =~= before.next(step));
            step_keeps_consistency(before, step);
        }
        Ok(())
    }

    /// For each secret, whether a token with it can still be redeemed.
    pub fn check_spendable(&self, secrets: &Vec<String>) -> (spendable: Vec<bool>)
        ensures
            spendable.len() == secrets.len(),
            forall|i: int|
                0 <= i < secrets.len() ==> #[trigger] spendable[i] == !self@.spent().contains(
                    secrets[i]@,
                ),
    {
        let mut spendable: Vec<bool> = Vec::new();
        let mut i: usize = 0;
        while i < secrets.len()
            invariant
                i <= secrets.len(),
                spendable.len() == i,
                forall|j: int|
                    0 <= j < i ==> #[trigger] spendable[j] == !self@.spent().contains(secrets[j]@),
            decreases secrets.len() - i,
        {
            spendable.push(!self.db.is_spent(&secrets[i]));
            i += 1;
        }
        spendable
    }

    /// Names the keyset that signs from now on. A keyset that the ledger
    /// has not seen is kept with `now` as the start of its validity; one
    /// that it knows stays as it was written. Returns the record of the
    /// active keyset.
    pub fn activate_keyset(
        &mut self,
        id: &str,
        secret: &str,
        derivation_path: &str,
        max_order: u8,
        now: u64,
    ) -> (active: KeysetInfo)
        requires
            old(self).wf(),
        ensures
            final(self).wf(),
            ({
                let keyset = KeysetView {
                    id: id@,
                    valid_from: now,
                    valid_to: None,
                    secret: secret@,
                    derivation_path: derivation_path@,
                    max_order,
                };
                &&& final(self)@ == old(self)@.next(Step::ActivateKeyset { keyset })
                &&& final(self)@.keysets.contains_key(id@)
                &&& active@ == final(self)@.keysets[id@]
            }),
    {
        let ghost keyset = KeysetView {
            id: id@,
            valid_from: now,
            valid_to: None,
            secret: secret@,
            derivation_path: derivation_path@,
            max_order,
        };
        let ghost before = self.db@;
        let active = match self.db.get_keyset_info(id) {
            Ok(known) => known,
            Err(_) => {
                let fresh = KeysetInfo {
                    id: id.to_owned(),
                    valid_from: now,
                    valid_to: None,
                    secret: secret.to_owned(),
                    derivation_path: derivation_path.to_owned(),
                    max_order,
                };
                self.db.add_keyset(&fresh);
                fresh
            },
        };
        self.db.set_active_keyset(id);
        proof {
            assert(self.db@ =~= before.next(Step::ActivateKeyset { keyset }));
            step_keeps_consistency(before, Step::ActivateKeyset { keyset });
        }
        active
    }
}

} // verus!
