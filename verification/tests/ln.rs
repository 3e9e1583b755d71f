use cashu_rs_mint::error::Error;
use cashu_rs_mint::ln::{
    first_status, melt_partial_amount, melt_quote, melt_quote_amount, msat_to_sat, payment_result,
    sat_to_msat, InvoiceStream, PaidInvoice, PaymentState, StreamAction, MSAT_PER_SAT,
    RETRY_DELAY_SECS,
};
use cashu_rs_mint::types::InvoiceStatus;

fn paid(payment_hash: &str, pay_index: Option<u64>) -> PaidInvoice {
    PaidInvoice {
        payment_hash: payment_hash.to_string(),
        pay_index,
    }
}

#[test]
fn node_states_are_told_in_the_mints_words() {
    assert_eq!(InvoiceStatus::from_incoming(PaymentState::Pending), InvoiceStatus::Unpaid);
    assert_eq!(InvoiceStatus::from_incoming(PaymentState::Succeeded), InvoiceStatus::Paid);
    assert_eq!(InvoiceStatus::from_incoming(PaymentState::Failed), InvoiceStatus::Expired);
    assert_eq!(InvoiceStatus::from_outgoing(PaymentState::Pending), InvoiceStatus::InFlight);
    assert_eq!(InvoiceStatus::from_outgoing(PaymentState::Succeeded), InvoiceStatus::Paid);
    assert_eq!(InvoiceStatus::from_outgoing(PaymentState::Failed), InvoiceStatus::Unpaid);
}

#[test]
fn first_status_needs_an_invoice() {
    assert_eq!(
        first_status(&vec![InvoiceStatus::Expired, InvoiceStatus::Paid]),
        Ok(InvoiceStatus::Expired)
    );
    assert!(matches!(first_status(&vec![]), Err(Error::Backend(_))));
}

#[test]
fn millisatoshi_are_cut_to_whole_satoshi() {
    assert_eq!(MSAT_PER_SAT, 1000);
    assert_eq!(msat_to_sat(0), 0);
    assert_eq!(msat_to_sat(999), 0);
    assert_eq!(msat_to_sat(1000), 1);
    assert_eq!(msat_to_sat(500_999), 500);
    assert_eq!(sat_to_msat(500), Some(500_000));
    assert_eq!(sat_to_msat(u64::MAX / 1000), Some(18_446_744_073_709_551_000));
    assert_eq!(sat_to_msat(u64::MAX / 1000 + 1), None);
}

#[test]
fn payment_result_names_proof_and_satoshi_spent() {
    assert_eq!(
        payment_result(Some("preimage".to_string()), 502_300),
        ("preimage".to_string(), 502)
    );
    assert_eq!(payment_result(None, 999), (String::new(), 0));
}

#[test]
fn melt_quote_amount_comes_from_option_or_invoice() {
    assert_eq!(melt_quote_amount(None, Some(500_000)), Ok(500));
    assert_eq!(melt_quote_amount(Some(200), Some(500_000)), Ok(200));
    assert_eq!(melt_quote_amount(Some(200), None), Ok(200));
    assert_eq!(melt_quote_amount(None, None), Err(Error::AmountMismatch));
    assert_eq!(melt_quote_amount(None, Some(999)), Err(Error::AmountMismatch));
    assert_eq!(melt_quote_amount(Some(0), Some(500_000)), Err(Error::AmountMismatch));
}

#[test]
fn melt_is_paid_in_part_where_the_invoice_asks_for_more() {
    assert_eq!(melt_partial_amount(1000, 400, 400), Ok(Some(400)));
    assert_eq!(melt_partial_amount(1000, 400, 399), Err(Error::AmountMismatch));
    assert_eq!(melt_partial_amount(500, 500, 520), Ok(None));
    assert_eq!(melt_partial_amount(500, 600, 500), Ok(None));
    assert_eq!(melt_partial_amount(500, 600, 499), Err(Error::AmountMismatch));
}

#[test]
fn stream_hands_out_payments_and_moves_on() {
    let mut stream = InvoiceStream::new(Some(7));
    assert_eq!(stream.position(), Some(7));
    assert_eq!(
        stream.on_response(Ok(paid("pay8", Some(8)))),
        StreamAction::Yield(paid("pay8", Some(8)), Some(8))
    );
    assert_eq!(stream.position(), Some(8));
    assert_eq!(
        stream.on_response(Ok(paid("pay3", Some(3)))),
        StreamAction::Yield(paid("pay3", Some(3)), Some(8))
    );
    assert_eq!(
        stream.on_response(Ok(paid("none", None))),
        StreamAction::Yield(paid("none", None), Some(8))
    );
    assert_eq!(stream.position(), Some(8));

    let mut fresh = InvoiceStream::new(None);
    assert_eq!(fresh.position(), None);
    assert_eq!(
        fresh.on_response(Ok(paid("pay0", Some(0)))),
        StreamAction::Yield(paid("pay0", Some(0)), Some(0))
    );
}

#[test]
fn stream_tries_again_from_the_same_position_after_a_failure() {
    let mut stream = InvoiceStream::new(Some(7));
    assert_eq!(RETRY_DELAY_SECS, 1);
    assert_eq!(
        stream.on_response(Err(Error::Backend("socket closed".to_string()))),
        StreamAction::Retry(1)
    );
    assert_eq!(stream.position(), Some(7));
    assert_eq!(
        stream.on_response(Err(Error::Backend("socket closed".to_string()))),
        StreamAction::Retry(1)
    );
    assert_eq!(stream.position(), Some(7));
    assert_eq!(
        stream.on_response(Ok(paid("pay8", Some(8)))),
        StreamAction::Yield(paid("pay8", Some(8)), Some(8))
    );
}

/// An invoice for 2500 micro-bitcoin, which is 250 000 satoshi.
const INVOICE_2500U: &str = "lnbc2500u1pvjluezsp5zyg3zyg3zyg3zyg3zyg3zyg3zyg3zyg3zyg3zyg3zyg3zyg3zygspp5qqqsyqcyq5rqwzqfqqqsyqcyq5rqwzqfqqqsyqcyq5rqwzqfqypqdq5xysxxatsyp3k7enxv4jsxqzpu9qrsgquk0rl77nj30yxdy8j9vdx85fkpmdla2087ne0xh8nhedh8w27kyke0lp53ut353s06fv3qfegext0eh0ymjpf39tuven09sam30g4vgpfna3rh";

/// An invoice that names no amount.
const INVOICE_ANY_AMOUNT: &str = "lnbc1pvjluezsp5zyg3zyg3zyg3zyg3zyg3zyg3zyg3zyg3zyg3zyg3zyg3zyg3zygspp5qqqsyqcyq5rqwzqfqqqsyqcyq5rqwzqfqqqsyqcyq5rqwzqfqypqdpl2pkx2ctnv5sxxmmwwd5kgetjypeh2ursdae8g6twvus8g6rfwvs8qun0dfjkxaq9qrsgq357wnc5r2ueh7ck6q93dj32dlqnls087fxdwk8qakdyafkq3yap9us6v52vjjsrvywa6rt52cm9r9zqt8r2t7mlcwspyetp5h2tztugp9lfyql";

#[test]
fn melt_is_quoted_for_what_the_invoice_asks() {
    assert_eq!(melt_quote(INVOICE_2500U, None), Ok(250_000));
    assert_eq!(melt_quote(INVOICE_2500U, Some(1_000)), Ok(1_000));
    assert_eq!(melt_quote(INVOICE_2500U, Some(0)), Err(Error::AmountMismatch));
    assert_eq!(melt_quote(INVOICE_ANY_AMOUNT, None), Err(Error::AmountMismatch));
    assert_eq!(melt_quote(INVOICE_ANY_AMOUNT, Some(21)), Ok(21));
}

#[test]
fn text_that_is_no_invoice_is_not_quoted() {
    assert_eq!(melt_quote("", None), Err(Error::DecodeInvoice));
    assert_eq!(melt_quote("lnbc2500u1notaninvoice", Some(5)), Err(Error::DecodeInvoice));
    let mut damaged = INVOICE_2500U.to_string();
    damaged.pop();
    damaged.push('q');
    assert_eq!(melt_quote(&damaged, None), Err(Error::DecodeInvoice));
}
