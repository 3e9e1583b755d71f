use crate::database::{lemma_with_proofs_dom, names_secret, DbView};
use crate::error::Error;
use crate::model::{total, Step};
use crate::types::{InvoiceStatus, InvoiceTokenStatus, InvoiceView, ProofView};
use vstd::prelude::*;

verus! {

/// A step leaves the tables in agreement with each other.
pub proof fn step_keeps_consistency(v: DbView, step: Step)
    requires
        v.consistent(),
    ensures
        v.next(step).consistent(),
{
    let after = v.next(step);
    match step {
        Step::RequestMint { hash, payment_hash, .. } => {
            if v.refusal(step) is None {
                assert forall|h: Seq<char>| #[trigger] after.invoices.contains_key(h) implies {
                    &&& after.invoices[h].hash == h
                    &&& after.hashes.contains_key(after.invoices[h].payment_hash)
                    &&& after.hashes[after.invoices[h].payment_hash] == h
                    &&& (after.invoices[h].token_status == InvoiceTokenStatus::Issued
                        ==> after.invoices[h].status == InvoiceStatus::Paid)
                } by {
                    if h != hash {
                        assert(v.invoices.contains_key(h));
                        assert(v.hashes.contains_key(v.invoices[h].payment_hash));
                    }
                }
                assert forall|p: Seq<char>| #[trigger] after.hashes.contains_key(p) implies {
                    &&& after.invoices.contains_key(after.hashes[p])
                    &&& after.invoices[after.hashes[p]].payment_hash == p
                } by {
                    if p != payment_hash {
                        assert(v.hashes.contains_key(p));
                        assert(v.invoices.contains_key(v.hashes[p]));
                    }
                }
            }
        },
        Step::PaidInvoice { payment_hash, .. } => {
            if v.refusal(step) is None {
                lemma_record_rewritten(v, after, v.hashes[payment_hash]);
            }
        },
        Step::Probe { payment_hash, .. } => {
            if v.refusal(step) is None {
                lemma_record_rewritten(v, after, v.hashes[payment_hash]);
            }
        },
        Step::Mint { hash, .. } => {
            if v.refusal(step) is None {
                lemma_record_rewritten(v, after, hash);
            }
        },
        Step::Melt { .. } => {},
        Step::Swap { .. } => {},
        Step::ActivateKeyset { .. } => {},
    }
}

/// Rewriting one record, with its hash and payment hash kept and tokens
/// issued only if it is paid, leaves the tables in agreement.
proof fn lemma_record_rewritten(v: DbView, after: DbView, hash: Seq<char>)
    requires
        v.consistent(),
        v.invoices.contains_key(hash),
        after.hashes == v.hashes,
        after.keysets == v.keysets,
        after.active_keyset == v.active_keyset,
        forall|h: Seq<char>| #[trigger] after.invoices.contains_key(h) <==> v.invoices.contains_key(h),
        forall|h: Seq<char>|
            v.invoices.contains_key(h) && h != hash ==> #[trigger] after.invoices[h]
                == v.invoices[h],
        after.invoices[hash].hash == v.invoices[hash].hash,
        after.invoices[hash].payment_hash == v.invoices[hash].payment_hash,
        after.invoices[hash].token_status == InvoiceTokenStatus::Issued ==> after.invoices[hash].status
            == InvoiceStatus::Paid,
    ensures
        after.consistent(),
{
    assert forall|h: Seq<char>| #[trigger] after.invoices.contains_key(h) implies {
        &&& after.invoices[h].hash == h
        &&& after.hashes.contains_key(after.invoices[h].payment_hash)
        &&& after.hashes[after.invoices[h].payment_hash] == h
        &&& (after.invoices[h].token_status == InvoiceTokenStatus::Issued ==> after.invoices[h].status
            == InvoiceStatus::Paid)
    } by {
        assert(v.invoices.contains_key(h));
    }
    assert forall|p: Seq<char>| #[trigger] after.hashes.contains_key(p) implies {
        &&& after.invoices.contains_key(after.hashes[p])
        &&& after.invoices[after.hashes[p]].payment_hash == p
    } by {
        assert(v.hashes.contains_key(p));
        assert(v.invoices.contains_key(v.hashes[p]));
    }
}

/// A step takes nothing back: see [`DbView::leads_to`].
pub proof fn step_takes_nothing_back(v: DbView, step: Step)
    requires
        v.consistent(),
    ensures
        v.leads_to(v.next(step)),
{
    let after = v.next(step);
    match step {
        Step::Melt { proofs, .. } => {
            lemma_with_proofs_dom(v.used_proofs, proofs);
        },
        Step::Swap { proofs, .. } => {
            lemma_with_proofs_dom(v.used_proofs, proofs);
        },
        _ => {},
    }
}

/// Any run of steps leaves the tables in agreement and takes nothing back.
pub proof fn run_takes_nothing_back(v: DbView, steps: Seq<Step>)
    requires
        v.consistent(),
    ensures
        v.run(steps).consistent(),
        v.leads_to(v.run(steps)),
    decreases steps.len(),
{
    if steps.len() > 0 {
        let before = v.run(steps.drop_last());
        run_takes_nothing_back(v, steps.drop_last());
        step_keeps_consistency(before, steps.last());
        step_takes_nothing_back(before, steps.last());
        let after = before.next(steps.last());
        assert forall|h: Seq<char>| #[trigger] v.invoices.contains_key(h) implies {
            &&& after.invoices.contains_key(h)
            &&& after.invoices[h].hash == v.invoices[h].hash
            &&& after.invoices[h].payment_hash == v.invoices[h].payment_hash
            &&& after.invoices[h].invoice == v.invoices[h].invoice
            &&& after.invoices[h].amount == v.invoices[h].amount
            &&& after.invoices[h].memo == v.invoices[h].memo
            &&& (v.invoices[h].status == InvoiceStatus::Paid ==> after.invoices[h].status
                == InvoiceStatus::Paid && after.invoices[h].confirmed_at
                == v.invoices[h].confirmed_at)
            &&& (v.invoices[h].token_status == InvoiceTokenStatus::Issued
                ==> after.invoices[h].token_status == InvoiceTokenStatus::Issued)
        } by {
            assert(before.invoices.contains_key(h));
        }
        assert forall|p: Seq<char>| #[trigger] v.hashes.contains_key(p) implies after.hashes.contains_key(
            p,
        ) && after.hashes[p] == v.hashes[p] by {
            assert(before.hashes.contains_key(p));
        }
        assert forall|s: Seq<char>| #[trigger] v.spent().contains(s) implies after.spent().contains(
            s,
        ) by {
            assert(before.spent().contains(s));
        }
        assert forall|k: Seq<char>| #[trigger] v.keysets.contains_key(k) implies after.keysets.contains_key(
            k,
        ) && after.keysets[k] == v.keysets[k] by {
            assert(before.keysets.contains_key(k));
        }
    }
}

/// Telling the ledger twice of the same payment is as good as telling it
/// once: after the first time the invoice is paid, the second time changes
/// nothing, and the circulation is touched by neither.
pub proof fn settlement_is_idempotent(
    v: DbView,
    payment_hash: Seq<char>,
    pay_index: Option<u64>,
    now: u64,
    later: u64,
)
    requires
        v.consistent(),
    ensures
        ({
            let once = v.next(Step::PaidInvoice { payment_hash, pay_index, now });
            let twice = once.next(Step::PaidInvoice { payment_hash, pay_index, now: later });
            &&& twice == once
            &&& once.in_circulation == v.in_circulation
            &&& v.hashes.contains_key(payment_hash) ==> once.by_payment_hash(payment_hash) is Some
                && once.by_payment_hash(payment_hash)->0.status == InvoiceStatus::Paid
        }),
{
    let first = Step::PaidInvoice { payment_hash, pay_index, now };
    let once = v.next(first);
    let twice = once.next(Step::PaidInvoice { payment_hash, pay_index, now: later });
    if v.hashes.contains_key(payment_hash) {
        assert(v.invoices.contains_key(v.hashes[payment_hash]));
        assert(twice.invoices =~= once.invoices);
    }
}

/// A payment notification and the answer to a probe may come in either
/// order: the invoice ends up paid both ways, and the quote can be minted
/// from both ways or from neither. Only the time of confirmation tells the
/// two apart, since a probe brings none.
pub proof fn settlement_and_probe_converge(
    v: DbView,
    payment_hash: Seq<char>,
    pay_index: Option<u64>,
    now: u64,
    observed: InvoiceStatus,
    amount: u64,
)
    requires
        v.consistent(),
        v.hashes.contains_key(payment_hash),
    ensures
        ({
            let paid = Step::PaidInvoice { payment_hash, pay_index, now };
            let probe = Step::Probe { payment_hash, observed };
            let hash = v.hashes[payment_hash];
            let one = v.next(paid).next(probe);
            let other = v.next(probe).next(paid);
            &&& one.invoices[hash].status == InvoiceStatus::Paid
            &&& other.invoices[hash].status == InvoiceStatus::Paid
            &&& one.invoices[hash] == (InvoiceView {
                confirmed_at: one.invoices[hash].confirmed_at,
                ..other.invoices[hash]
            })
            &&& one.invoices.remove(hash) == other.invoices.remove(hash)
            &&& one.last_pay_index == other.last_pay_index
            &&& one.in_circulation == other.in_circulation
            &&& one.mint_refusal(hash, amount) == other.mint_refusal(hash, amount)
        }),
{
    let paid = Step::PaidInvoice { payment_hash, pay_index, now };
    let probe = Step::Probe { payment_hash, observed };
    let hash = v.hashes[payment_hash];
    assert(v.invoices.contains_key(hash));
    let one = v.next(paid).next(probe);
    let other = v.next(probe).next(paid);
    assert(one.invoices.remove(hash) =~= other.invoices.remove(hash));
}

/// Tokens are issued for a quote at most once: where they were issued, in
/// this step or before, asking again is turned down, whatever happened in
/// between, and changes neither the quote nor the circulation.
pub proof fn tokens_are_issued_once(
    v: DbView,
    hash: Seq<char>,
    amount: u64,
    between: Seq<Step>,
    again: u64,
)
    requires
        v.consistent(),
        v.refusal(Step::Mint { hash, amount }) is None,
    ensures
        ({
            let issued = v.next(Step::Mint { hash, amount });
            let later = issued.run(between);
            &&& issued.invoices[hash].token_status == InvoiceTokenStatus::Issued
            &&& issued.circulation() == v.circulation() + amount
            &&& later.refusal(Step::Mint { hash, amount: again }) == Some(Error::TokenAlreadyIssued)
            &&& later.next(Step::Mint { hash, amount: again }) == later
        }),
{
    let issued = v.next(Step::Mint { hash, amount });
    step_keeps_consistency(v, Step::Mint { hash, amount });
    assert(issued.invoices.contains_key(hash));
    run_takes_nothing_back(issued, between);
}

/// A secret that was redeemed is never redeemed again: whatever happened
/// since, a melt or a swap that names it is turned down and changes nothing.
pub proof fn spent_secret_is_refused(
    v: DbView,
    since: Seq<Step>,
    proofs: Seq<ProofView>,
    i: int,
    amount: u64,
    change: u64,
    outputs: u64,
)
    requires
        v.consistent(),
        0 <= i < proofs.len(),
        v.spent().contains(proofs[i].secret),
    ensures
        ({
            let later = v.run(since);
            let melt = Step::Melt { proofs, amount, change };
            let swap = Step::Swap { proofs, outputs };
            &&& later.refusal(melt) == Some(Error::TokenAlreadySpent)
            &&& later.refusal(swap) == Some(Error::TokenAlreadySpent)
            &&& later.next(melt) == later
            &&& later.next(swap) == later
        }),
{
    run_takes_nothing_back(v, since);
    assert(v.run(since).spent().contains(proofs[i].secret));
}

/// What a melt or a swap takes in is spent from then on.
pub proof fn redeemed_secrets_are_spent(
    v: DbView,
    proofs: Seq<ProofView>,
    i: int,
    amount: u64,
    change: u64,
    outputs: u64,
)
    requires
        0 <= i < proofs.len(),
    ensures
        ({
            let melt = Step::Melt { proofs, amount, change };
            let swap = Step::Swap { proofs, outputs };
            &&& v.refusal(melt) is None ==> v.next(melt).spent().contains(proofs[i].secret)
            &&& v.refusal(swap) is None ==> v.next(swap).spent().contains(proofs[i].secret)
        }),
{
    lemma_with_proofs_dom(v.used_proofs, proofs);
    assert(names_secret(proofs, proofs[i].secret));
}

/// A paid invoice stays paid, with the time at which its payment was first
/// seen, whatever happens to the ledger.
pub proof fn paid_invoice_stays_paid(v: DbView, steps: Seq<Step>, hash: Seq<char>)
    requires
        v.consistent(),
        v.invoices.contains_key(hash),
        v.invoices[hash].status == InvoiceStatus::Paid,
    ensures
        v.run(steps).invoices.contains_key(hash),
        v.run(steps).invoices[hash].status == InvoiceStatus::Paid,
        v.run(steps).invoices[hash].confirmed_at == v.invoices[hash].confirmed_at,
{
    run_takes_nothing_back(v, steps);
}

/// What the accepted mints of a run issued, together.
pub open spec fn minted(v: DbView, steps: Seq<Step>) -> nat
    decreases steps.len(),
{
    if steps.len() == 0 {
        0
    } else {
        let before = v.run(steps.drop_last());
        minted(v, steps.drop_last()) + match steps.last() {
            Step::Mint { amount, .. } => if before.refusal(steps.last()) is None {
                amount as nat
            } else {
                0
            },
            _ => 0,
        }
    }
}

/// What the accepted melts of a run redeemed, together.
pub open spec fn melted(v: DbView, steps: Seq<Step>) -> nat
    decreases steps.len(),
{
    if steps.len() == 0 {
        0
    } else {
        let before = v.run(steps.drop_last());
        melted(v, steps.drop_last()) + match steps.last() {
            Step::Melt { proofs, .. } => if before.refusal(steps.last()) is None {
                total(proofs)
            } else {
                0
            },
            _ => 0,
        }
    }
}

/// The change that the accepted melts of a run gave back, together.
pub open spec fn change_returned(v: DbView, steps: Seq<Step>) -> nat
    decreases steps.len(),
{
    if steps.len() == 0 {
        0
    } else {
        let before = v.run(steps.drop_last());
        change_returned(v, steps.drop_last()) + match steps.last() {
            Step::Melt { change, .. } => if before.refusal(steps.last()) is None {
                change as nat
            } else {
                0
            },
            _ => 0,
        }
    }
}

/// After any run of steps the circulation is what it was, plus what was
/// minted, less what was melted, plus the change that went back; the counter
/// neither wraps nor falls below zero on the way.
pub proof fn circulation_is_conserved(v: DbView, steps: Seq<Step>)
    ensures
        v.run(steps).circulation() == v.circulation() + minted(v, steps) - melted(v, steps)
            + change_returned(v, steps),
        0 <= v.circulation() + minted(v, steps) - melted(v, steps) + change_returned(v, steps)
            <= u64::MAX,
    decreases steps.len(),
{
    if steps.len() > 0 {
        circulation_is_conserved(v, steps.drop_last());
    }
}

/// Only a payment notification moves the stream position, it moves it to
/// its own position, and in the same step the payment is booked or the
/// notification is turned down as unknown. So no position is passed
/// without its payment having been dealt with.
pub proof fn position_moves_with_settlement(v: DbView, step: Step)
    requires
        v.consistent(),
        v.next(step).pay_index() != v.pay_index(),
    ensures
        step matches Step::PaidInvoice { payment_hash, pay_index, .. } && pay_index == Some(
            v.next(step).pay_index(),
        ) && v.next(step).pay_index() > v.pay_index() && match v.refusal(step) {
            None => v.next(step).by_payment_hash(payment_hash) is Some && v.next(
                step,
            ).by_payment_hash(payment_hash)->0.status == InvoiceStatus::Paid,
            Some(e) => e == Error::NotFound && v.next(step).by_payment_hash(payment_hash) is None,
        },
{
    match step {
        Step::PaidInvoice { payment_hash, .. } => {
            if v.hashes.contains_key(payment_hash) {
                assert(v.invoices.contains_key(v.hashes[payment_hash]));
            }
        },
        _ => {},
    }
}

/// One notification of the node's payment stream.
pub struct Notification {
    pub payment_hash: Seq<char>,
    /// The position of the payment in the stream.
    pub pay_index: u64,
    /// The time at which the consumer saw it.
    pub seen_at: u64,
}

/// The steps in which a consumer books `stream`, one notification after
/// the other.
pub open spec fn settlements(stream: Seq<Notification>) -> Seq<Step> {
    stream.map_values(
        |n: Notification|
            Step::PaidInvoice {
                payment_hash: n.payment_hash,
                pay_index: Some(n.pay_index),
                now: n.seen_at,
            },
    )
}

/// The notifications come in the order of their positions, all of them
/// after `position`.
pub open spec fn in_order_after(stream: Seq<Notification>, position: u64) -> bool {
    &&& forall|i: int| 0 <= i < stream.len() ==> (#[trigger] stream[i]).pay_index > position
    &&& forall|i: int, j: int|
        0 <= i < j < stream.len() ==> (#[trigger] stream[i]).pay_index < (
        #[trigger] stream[j]).pay_index
}

/// The position after the first `done` notifications were booked is that
/// of the last of them.
proof fn lemma_position_after(v: DbView, stream: Seq<Notification>, done: int)
    requires
        v.consistent(),
        in_order_after(stream, v.pay_index()),
        0 <= done <= stream.len(),
    ensures
        v.run(settlements(stream.take(done))).consistent(),
        v.leads_to(v.run(settlements(stream.take(done)))),
        v.run(settlements(stream.take(done))).pay_index() == if done == 0 {
            v.pay_index()
        } else {
            stream[done - 1].pay_index
        },
        done > 0 ==> v.run(settlements(stream.take(done))) == v.run(
            settlements(stream.take(done - 1)),
        ).next(settlements(stream)[done - 1]),
    decreases done,
{
    let steps = settlements(stream.take(done));
    run_takes_nothing_back(v, steps);
    if done > 0 {
        lemma_position_after(v, stream, done - 1);
        assert(steps.drop_last() =~= settlements(stream.take(done - 1)));
        assert(steps.last() == settlements(stream)[done - 1]);
        if done > 1 {
            assert(stream[done - 2].pay_index < stream[done - 1].pay_index);
        }
    }
}

/// A consumer that stops after any number of notifications and starts
/// again from the position in the ledger misses none: the notifications at
/// or before that position are exactly those it has booked, and each of
/// them whose invoice the ledger knew is paid. What lies after the
/// position is what the node will tell of again.
pub proof fn restart_skips_no_payment(v: DbView, stream: Seq<Notification>, done: int)
    requires
        v.consistent(),
        in_order_after(stream, v.pay_index()),
        0 <= done <= stream.len(),
    ensures
        ({
            let later = v.run(settlements(stream.take(done)));
            &&& forall|i: int|
                0 <= i < stream.len() ==> ((#[trigger] stream[i]).pay_index <= later.pay_index()
                    <==> i < done)
            &&& forall|i: int|
                0 <= i < done && v.hashes.contains_key((#[trigger] stream[i]).payment_hash) ==> {
                    &&& later.by_payment_hash(stream[i].payment_hash) is Some
                    &&& later.by_payment_hash(stream[i].payment_hash)->0.status
                        == InvoiceStatus::Paid
                }
        }),
    decreases done,
{
    let later = v.run(settlements(stream.take(done)));
    lemma_position_after(v, stream, done);
    assert forall|i: int| 0 <= i < stream.len() implies ((#[trigger] stream[i]).pay_index
        <= later.pay_index() <==> i < done) by {
        if done > 0 {
            if i < done - 1 {
                assert(stream[i].pay_index < stream[done - 1].pay_index);
            } else if i > done - 1 {
                assert(stream[done - 1].pay_index < stream[i].pay_index);
            }
        }
    }
    if done > 0 {
        let before = v.run(settlements(stream.take(done - 1)));
        let step = settlements(stream)[done - 1];
        restart_skips_no_payment(v, stream, done - 1);
        lemma_position_after(v, stream, done - 1);
        step_takes_nothing_back(before, step);
        assert forall|i: int|
            0 <= i < done && v.hashes.contains_key(
                (#[trigger] stream[i]).payment_hash,
            ) implies later.by_payment_hash(stream[i].payment_hash) is Some && later.by_payment_hash(
            stream[i].payment_hash,
        )->0.status == InvoiceStatus::Paid by {
            let p = stream[i].payment_hash;
            assert(before.hashes.contains_key(p));
            assert(before.invoices.contains_key(before.hashes[p]));
            assert(later.hashes.contains_key(p));
            if i < done - 1 {
                assert(before.by_payment_hash(p) is Some);
            }
        }
    }
}

} // verus!
