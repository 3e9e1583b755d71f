use crate::error::Error;
use crate::types::InvoiceStatus;
use cashu::Bolt11Invoice;
use std::str::FromStr;
use vstd::prelude::*;

verus! {

/// The seconds to wait before the node is asked again after it failed.
pub const RETRY_DELAY_SECS: u64 = 1;

/// Millisatoshi in one satoshi.
pub const MSAT_PER_SAT: u64 = 1000;

/// How a payment stands on the node, in the node's own words.
#[derive(Clone, Copy, Debug, PartialEq, Eq, Structural)]
pub enum PaymentState {
    Pending,
    Succeeded,
    Failed,
}

impl InvoiceStatus {
    /// The status of an invoice of ours whose payment stands at `state`.
    /// A payment that failed can no longer come in.
    pub fn from_incoming(state: PaymentState) -> (status: InvoiceStatus)
        ensures
            status == match state {
                PaymentState::Pending => InvoiceStatus::Unpaid,
                PaymentState::Succeeded => InvoiceStatus::Paid,
                PaymentState::Failed => InvoiceStatus::Expired,
            },
    {
        match state {
            PaymentState::Pending => InvoiceStatus::Unpaid,
            PaymentState::Succeeded => InvoiceStatus::Paid,
            PaymentState::Failed => InvoiceStatus::Expired,
        }
    }

    /// The status of an invoice that the node pays for us, at `state`.
    pub fn from_outgoing(state: PaymentState) -> (status: InvoiceStatus)
        ensures
            status == match state {
                PaymentState::Pending => InvoiceStatus::InFlight,
                PaymentState::Succeeded => InvoiceStatus::Paid,
                PaymentState::Failed => InvoiceStatus::Unpaid,
            },
    {
        match state {
            PaymentState::Pending => InvoiceStatus::InFlight,
            PaymentState::Succeeded => InvoiceStatus::Paid,
            PaymentState::Failed => InvoiceStatus::Unpaid,
        }
    }
}

/// The status of the one invoice that the node was asked about, out of the
/// list that it answered with. An empty list is an answer of the wrong
/// shape.
pub fn first_status(statuses: &Vec<InvoiceStatus>) -> (r: Result<InvoiceStatus, Error>)
    ensures
        match r {
            Ok(status) => statuses.len() > 0 && status == statuses[0],
            Err(e) => statuses.len() == 0 && e is Backend,
        },
{
    if statuses.len() > 0 {
        Ok(statuses[0])
    } else {
        Err(Error::Backend("node listed no invoice".to_owned()))
    }
}

/// The whole satoshi in `msat`.
pub fn msat_to_sat(msat: u64) -> (sat: u64)
    ensures
        sat == msat / MSAT_PER_SAT,
{
    msat / MSAT_PER_SAT
}

/// `sat` in millisatoshi, if that fits.
pub fn sat_to_msat(sat: u64) -> (msat: Option<u64>)
    ensures
        match msat {
            Some(m) => m == sat * MSAT_PER_SAT,
            None => sat * MSAT_PER_SAT > u64::MAX,
        },
{
    sat.checked_mul(MSAT_PER_SAT)
}

/// What came of a payment that the node made: the proof of payment, empty
/// where the node gave none, and the satoshi that left the node, fees
/// included.
pub fn payment_result(preimage: Option<String>, amount_sent_msat: u64) -> (paid: (String, u64))
    ensures
        paid.0@ == match preimage {
            Some(text) => text@,
            None => Seq::<char>::empty(),
        },
        paid.1 == amount_sent_msat / MSAT_PER_SAT,
{
    let proof_of_payment = match preimage {
        Some(text) => text,
        None => String::new(),
    };
    (proof_of_payment, msat_to_sat(amount_sent_msat))
}

/// What the BOLT11 text `invoice` asks for, in millisatoshi: `None` where
/// the text is no valid invoice, `Some(None)` where the invoice names no
/// amount.
pub uninterp spec fn bolt11_amount_msat(invoice: Seq<char>) -> Option<Option<u64>>;

/// `lightning_invoice::Bolt11Invoice::from_str` reads and checks a BOLT11
/// invoice, and `amount_milli_satoshis` gives the amount it asks for, if
/// it names one. Both depend on the text alone.
#[verifier::external_body]
fn decode_amount_msat(invoice: &str) -> (amount: Option<Option<u64>>)
    ensures
        amount == bolt11_amount_msat(invoice@),
{
    match Bolt11Invoice::from_str(invoice) {
        Ok(decoded) => Some(decoded.amount_milli_satoshis()),
        Err(_) => None,
    }
}

/// The amount that a melt is quoted for, from what was decoded of the
/// invoice.
pub open spec fn quoted_amount(decoded: Option<Option<u64>>, partial: Option<u64>) -> Result<
    u64,
    Error,
> {
    match decoded {
        None => Err(Error::DecodeInvoice),
        Some(invoice_msat) => {
            let amount = match (partial, invoice_msat) {
                (Some(p), _) => p,
                (None, Some(msat)) => msat / MSAT_PER_SAT,
                (None, None) => 0,
            };
            if amount > 0 {
                Ok(amount)
            } else {
                Err(Error::AmountMismatch)
            }
        },
    }
}

/// The amount, in satoshi, that a melt of the BOLT11 text `invoice` is
/// quoted for: what the client asked to pay in part, or else what the
/// invoice asks for. Text that is no invoice cannot be quoted, nor can an
/// invoice without an amount or an amount of nothing.
pub fn melt_quote(invoice: &str, partial: Option<u64>) -> (r: Result<u64, Error>)
    ensures
        r == quoted_amount(bolt11_amount_msat(invoice@), partial),
{
    match decode_amount_msat(invoice) {
        Some(invoice_msat) => melt_quote_amount(partial, invoice_msat),
        None => Err(Error::DecodeInvoice),
    }
}

/// The amount, in satoshi, that a melt quote is made for: what the client
/// asked to pay in part, or else what the invoice asks for. An invoice
/// without an amount, and an amount of nothing, cannot be quoted.
pub fn melt_quote_amount(partial: Option<u64>, invoice_msat: Option<u64>) -> (r: Result<u64, Error>)
    ensures
        r == quoted_amount(Some(invoice_msat), partial),
        match r {
            Ok(amount) => amount > 0 && match partial {
                Some(p) => amount == p,
                None => invoice_msat is Some && amount == invoice_msat->0 / MSAT_PER_SAT,
            },
            Err(e) => e == Error::AmountMismatch && match partial {
                Some(p) => p == 0,
                None => invoice_msat is None || invoice_msat->0 / MSAT_PER_SAT == 0,
            },
        },
{
    let amount = match partial {
        Some(p) => p,
        None => match invoice_msat {
            Some(msat) => msat_to_sat(msat),
            None => 0,
        },
    };
    if amount > 0 {
        Ok(amount)
    } else {
        Err(Error::AmountMismatch)
    }
}

/// The amount to tell the node to pay in part, if the payment is to be in
/// part. Where the invoice asks for more than was quoted, the node pays the
/// quoted amount only, and the tokens must cover that; else it pays the
/// whole invoice, and the tokens must cover the invoice.
pub fn melt_partial_amount(invoice_sat: u64, quoted: u64, redeemed: u64) -> (r: Result<
    Option<u64>,
    Error,
>)
    ensures
        match r {
            Ok(Some(part)) => invoice_sat > quoted && redeemed >= quoted && part == quoted,
            Ok(None) => invoice_sat <= quoted && redeemed >= invoice_sat,
            Err(e) => e == Error::AmountMismatch && if invoice_sat > quoted {
                redeemed < quoted
            } else {
                redeemed < invoice_sat
            },
        },
{
    if invoice_sat > quoted {
        if redeemed >= quoted {
            Ok(Some(quoted))
        } else {
            Err(Error::AmountMismatch)
        }
    } else {
        if redeemed >= invoice_sat {
            Ok(None)
        } else {
            Err(Error::AmountMismatch)
        }
    }
}

/// What the node's payment stream told: an invoice of ours was paid.
#[derive(Clone, Debug, PartialEq, Eq)]
pub struct PaidInvoice {
    pub payment_hash: String,
    /// The position of the payment in the node's stream.
    pub pay_index: Option<u64>,
}

/// What to do after the node answered a wait for the next payment.
#[derive(Clone, Debug, PartialEq, Eq)]
pub enum StreamAction {
    /// Hand the paid invoice on, with the position to go on from.
    Yield(PaidInvoice, Option<u64>),
    /// Wait this many seconds, then ask again from the same position.
    Retry(u64),
}

/// The position after a payment at `pay_index` came in: further on, never
/// back.
pub open spec fn advanced(position: Option<u64>, pay_index: Option<u64>) -> Option<u64> {
    match (position, pay_index) {
        (Some(at), Some(i)) => if i > at {
            Some(i)
        } else {
            Some(at)
        },
        (None, Some(i)) => Some(i),
        (_, None) => position,
    }
}

/// The stream of paid invoices, as the node is asked for it: one wait after
/// the other, each from the position of the payment before.
///
/// The stream itself does no waiting. Its owner sends the wait that
/// [`InvoiceStream::position`] asks for and tells of the answer with
/// [`InvoiceStream::on_response`].
pub struct InvoiceStream {
    last_pay_index: Option<u64>,
}

impl View for InvoiceStream {
    type V = Option<u64>;

    closed spec fn view(&self) -> Option<u64> {
        self.last_pay_index
    }
}

impl InvoiceStream {
    /// A stream that goes on after `last_pay_index`, or from the start.
    pub fn new(last_pay_index: Option<u64>) -> (stream: Self)
        ensures
            stream@ == last_pay_index,
    {
        InvoiceStream { last_pay_index }
    }

    /// The position to wait from: the node is asked for the first payment
    /// after it.
    pub fn position(&self) -> (position: Option<u64>)
        ensures
            position == self@,
    {
        self.last_pay_index
    }

    /// Takes the node's answer to a wait. A paid invoice moves the position
    /// on and is handed out. A failure leaves the position where it is and
    /// asks for another try after [`RETRY_DELAY_SECS`]: the stream never
    /// ends, and never passes over a payment.
    pub fn on_response(&mut self, response: Result<PaidInvoice, Error>) -> (action: StreamAction)
        ensures
            match response {
                Ok(paid) => final(self)@ == advanced(old(self)@, paid.pay_index) && action == (
                StreamAction::Yield(paid, final(self)@)),
                Err(_) => final(self)@ == old(self)@ && action == StreamAction::Retry(
                    RETRY_DELAY_SECS,
                ),
            },
    {
        match response {
            Ok(paid) => {
                match (self.last_pay_index, paid.pay_index) {
                    (Some(at), Some(i)) => {
                        if i > at {
                            self.last_pay_index = Some(i);
                        }
                    },
                    (None, Some(i)) => {
                        self.last_pay_index = Some(i);
                    },
                    (_, None) => {},
                }
                StreamAction::Yield(paid, self.last_pay_index)
            },
            Err(_) => StreamAction::Retry(RETRY_DELAY_SECS),
        }
    }
}

} // verus!
