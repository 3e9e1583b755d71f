use cashu_rs_mint::error::{Error, ErrorResponse};
use cashu_rs_mint::node_manager::{
    get_balance, BalanceResponse, CreateInvoiceParams, FundsOutput, OutputStatus,
};
use cashu_rs_mint::types::LnBackend;
use cashu_rs_mint::utils::{fresh_quote_hash, hex_encode, quote_hash, unix_time};

#[test]
fn hex_is_lower_case_two_digits_to_the_byte() {
    assert_eq!(hex_encode(&vec![]), "");
    assert_eq!(hex_encode(&vec![0x00, 0x0f, 0xa5, 0xff]), "000fa5ff");
    assert_eq!(hex_encode(&vec![0x12, 0x34, 0x56, 0x78, 0x9a, 0xbc, 0xde]), "123456789abcde");
}

#[test]
fn quote_hash_is_the_sha256_of_the_seed() {
    assert_eq!(
        quote_hash(&b"abc".to_vec()),
        "ba7816bf8f01cfea414140de5dae2223b00361a396177a9cb410ff61f20015ad"
    );
    assert_eq!(
        quote_hash(&vec![]),
        "e3b0c44298fc1c149afbf4c8996fb92427ae41e4649b934ca495991b7852b855"
    );
}

#[test]
fn fresh_quote_hashes_are_hex_and_differ() {
    let first = fresh_quote_hash();
    let second = fresh_quote_hash();
    assert_eq!(first.len(), 64);
    assert!(first.chars().all(|c| c.is_ascii_hexdigit() && !c.is_ascii_uppercase()));
    assert_ne!(first, second);
}

#[test]
fn unix_time_is_after_2020_and_does_not_run_back() {
    let first = unix_time();
    let second = unix_time();
    assert!(first > 1_577_836_800);
    assert!(second >= first);
}

#[test]
fn errors_have_status_and_text() {
    assert_eq!(Error::NotFound.status_code(), 404);
    assert_eq!(Error::InvoiceNotPaid.status_code(), 200);
    assert_eq!(Error::InvoiceExpired.status_code(), 400);
    assert_eq!(Error::AmountMismatch.status_code(), 400);
    assert_eq!(Error::TokenAlreadyIssued.status_code(), 400);
    assert_eq!(Error::TokenAlreadySpent.status_code(), 400);
    assert_eq!(Error::AmountOutOfRange.status_code(), 400);
    assert_eq!(Error::DecodeInvoice.status_code(), 400);
    assert_eq!(Error::DecodeInvoice.to_string(), "Failed to decode LN Invoice");
    assert_eq!(Error::DuplicateInvoice.status_code(), 500);
    assert_eq!(Error::Backend("down".to_string()).status_code(), 500);
    assert_eq!(Error::Storage("full".to_string()).status_code(), 500);
    assert_eq!(Error::InvoiceNotPaid.to_string(), "Lightning invoice not paid yet.");
    assert_eq!(Error::InvoiceExpired.to_string(), "Lightning invoice expired.");
    assert_eq!(Error::Backend("down".to_string()).to_string(), "down");
    assert_eq!(Error::Storage("full".to_string()).to_string(), "full");
    let body = ErrorResponse::new(0, &Error::InvoiceNotPaid.to_string());
    assert_eq!(body.code, 0);
    assert_eq!(body.error, "Lightning invoice not paid yet.");
}

#[test]
fn default_backend_is_cln() {
    assert_eq!(LnBackend::default(), LnBackend::Cln);
}

#[test]
fn invoice_description_falls_back_to_a_greeting() {
    let bare = CreateInvoiceParams { msat: 1000, description: None };
    assert_eq!(bare.description_or_default(), "Hello World");
    let told = CreateInvoiceParams { msat: 1000, description: Some("coffee".to_string()) };
    assert_eq!(told.description_or_default(), "coffee");
}

#[test]
fn balance_counts_outputs_by_status() {
    let outputs = vec![
        FundsOutput { status: OutputStatus::Unconfirmed, amount_msat: 1 },
        FundsOutput { status: OutputStatus::Immature, amount_msat: 20 },
        FundsOutput { status: OutputStatus::Confirmed, amount_msat: 300 },
        FundsOutput { status: OutputStatus::Spent, amount_msat: 4000 },
        FundsOutput { status: OutputStatus::Confirmed, amount_msat: 50_000 },
    ];
    assert_eq!(
        get_balance(&outputs, &vec![7, 70, 700]),
        Ok(BalanceResponse { on_chain_spendable: 50_300, on_chain_total: 50_321, ln: 777 })
    );
    assert_eq!(
        get_balance(&vec![], &vec![]),
        Ok(BalanceResponse { on_chain_spendable: 0, on_chain_total: 0, ln: 0 })
    );
}

#[test]
fn balance_that_does_not_fit_is_turned_down() {
    let big = FundsOutput { status: OutputStatus::Confirmed, amount_msat: u64::MAX };
    let one = FundsOutput { status: OutputStatus::Unconfirmed, amount_msat: 1 };
    let spent = FundsOutput { status: OutputStatus::Spent, amount_msat: u64::MAX };
    assert_eq!(get_balance(&vec![big, one], &vec![]), Err(Error::AmountOutOfRange));
    assert_eq!(
        get_balance(&vec![big, spent], &vec![]),
        Ok(BalanceResponse { on_chain_spendable: u64::MAX, on_chain_total: u64::MAX, ln: 0 })
    );
    assert_eq!(get_balance(&vec![], &vec![u64::MAX, 1]), Err(Error::AmountOutOfRange));
}
