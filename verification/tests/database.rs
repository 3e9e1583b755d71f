use cashu_rs_mint::database::Db;
use cashu_rs_mint::error::Error;
use cashu_rs_mint::types::{InvoiceInfo, InvoiceStatus, InvoiceTokenStatus, KeysetInfo, Proof};

fn invoice(hash: &str, payment_hash: &str, amount: u64) -> InvoiceInfo {
    InvoiceInfo::new(
        payment_hash.to_string(),
        hash.to_string(),
        format!("lnbc-{hash}"),
        amount,
        InvoiceStatus::Unpaid,
        "",
        None,
    )
}

fn keyset(id: &str, valid_from: u64) -> KeysetInfo {
    KeysetInfo {
        id: id.to_string(),
        valid_from,
        valid_to: None,
        secret: "secret".to_string(),
        derivation_path: "0/0/0/0".to_string(),
        max_order: 32,
    }
}

fn token(secret: &str, amount: u64) -> Proof {
    Proof {
        amount,
        secret: secret.to_string(),
        c: "02c0ffee".to_string(),
        id: "keyset".to_string(),
    }
}

#[test]
fn new_invoice_info_has_no_tokens_issued() {
    let info = InvoiceInfo::new(
        "ph".to_string(),
        "h".to_string(),
        "lnbc1".to_string(),
        21,
        InvoiceStatus::Paid,
        "memo",
        Some(7),
    );
    assert_eq!(info.payment_hash, "ph");
    assert_eq!(info.hash, "h");
    assert_eq!(info.invoice, "lnbc1");
    assert_eq!(info.amount, 21);
    assert_eq!(info.status, InvoiceStatus::Paid);
    assert_eq!(info.token_status, InvoiceTokenStatus::NotIssued);
    assert_eq!(info.memo, "memo");
    assert_eq!(info.confirmed_at, Some(7));
    assert_eq!(info.duplicate(), info);
}

#[test]
fn invoice_status_names() {
    assert_eq!(InvoiceStatus::Paid.to_string(), "Paid");
    assert_eq!(InvoiceStatus::Unpaid.to_string(), "Unpaid");
    assert_eq!(InvoiceStatus::Expired.to_string(), "Expired");
    assert_eq!(InvoiceStatus::InFlight.to_string(), "InFlight");
}

#[test]
fn empty_tables_have_defaults() {
    let db = Db::new();
    assert_eq!(db.get_last_pay_index(), 0);
    assert_eq!(db.get_in_circulation(), 0);
    assert_eq!(db.get_active_keyset(), None);
    assert!(db.get_all_keyset_info().is_empty());
    assert!(db.get_spent_secrets().is_empty());
    assert!(db.get_all_invoices().is_empty());
    assert_eq!(db.get_invoice_info("missing"), Err(Error::NotFound));
    assert_eq!(db.get_invoice_info_by_payment_hash("missing"), Err(Error::NotFound));
    assert_eq!(db.get_keyset_info("missing"), Err(Error::NotFound));
    assert!(db.check_consistent());
}

#[test]
fn scalars_are_written_and_read_back() {
    let mut db = Db::new();
    db.set_last_pay_index(42);
    db.set_in_circulation(1_000_000);
    db.set_active_keyset("009a1f293253e41e");
    assert_eq!(db.get_last_pay_index(), 42);
    assert_eq!(db.get_in_circulation(), 1_000_000);
    assert_eq!(db.get_active_keyset(), Some("009a1f293253e41e".to_string()));
    db.set_last_pay_index(7);
    assert_eq!(db.get_last_pay_index(), 7);
}

#[test]
fn keysets_are_kept_by_id() {
    let mut db = Db::new();
    db.add_keyset(&keyset("a", 1));
    db.add_keyset(&keyset("b", 2));
    db.add_keyset(&keyset("a", 3));
    let all = db.get_all_keyset_info();
    assert_eq!(all.len(), 2);
    assert_eq!(all[0], ("a".to_string(), keyset("a", 3)));
    assert_eq!(all[1], ("b".to_string(), keyset("b", 2)));
    assert_eq!(db.get_keyset_info("b"), Ok(keyset("b", 2)));
    assert_eq!(db.get_keyset_info("c"), Err(Error::NotFound));
}

#[test]
fn add_invoice_writes_record_and_index_together() {
    let mut db = Db::new();
    let info = invoice("quote1", "pay1", 1000);
    db.add_invoice(&info);
    assert_eq!(db.get_invoice_info("quote1"), Ok(info.clone()));
    assert_eq!(db.get_invoice_info_by_payment_hash("pay1"), Ok(info.clone()));
    assert_eq!(db.get_hash("pay1"), Some("quote1".to_string()));
    assert_eq!(db.get_hash("quote1"), None);
    assert_eq!(db.get_invoice_info("pay1"), Err(Error::NotFound));
    assert!(db.check_consistent());
}

#[test]
fn add_invoice_replaces_the_record_under_a_hash() {
    let mut db = Db::new();
    db.add_invoice(&invoice("quote1", "pay1", 1000));
    let mut paid = invoice("quote1", "pay1", 1000);
    paid.status = InvoiceStatus::Paid;
    paid.confirmed_at = Some(99);
    db.add_invoice(&paid);
    assert_eq!(db.get_all_invoices(), vec![paid.clone()]);
    assert_eq!(db.get_invoice_info_by_payment_hash("pay1"), Ok(paid));
}

#[test]
fn torn_tables_are_seen() {
    let mut db = Db::new();
    db.add_invoice(&invoice("quote1", "pay1", 1000));
    // The same hash under another payment hash leaves a mapping that leads
    // to a record with a different payment hash.
    db.add_invoice(&invoice("quote1", "pay2", 1000));
    assert_eq!(db.get_invoice_info_by_payment_hash("pay1").unwrap().payment_hash, "pay2");
    assert!(!db.check_consistent());

    let mut issued_unpaid = Db::new();
    let mut info = invoice("quote1", "pay1", 5);
    info.token_status = InvoiceTokenStatus::Issued;
    issued_unpaid.add_invoice(&info);
    assert!(!issued_unpaid.check_consistent());
}

#[test]
fn used_proofs_are_kept_by_secret() {
    let mut db = Db::new();
    db.add_used_proofs(&vec![token("secret1", 1), token("secret2", 2)]);
    db.add_used_proofs(&vec![token("secret2", 4), token("secret3", 8)]);
    db.add_used_proofs(&vec![]);
    assert_eq!(
        db.get_spent_secrets(),
        vec!["secret1".to_string(), "secret2".to_string(), "secret3".to_string()]
    );
    assert!(db.is_spent(&"secret1".to_string()));
    assert!(db.is_spent(&"secret3".to_string()));
    assert!(!db.is_spent(&"secret4".to_string()));
}

#[test]
fn signing_keyset_must_be_kept() {
    let mut db = Db::new();
    db.set_active_keyset("a");
    assert!(!db.check_consistent());
    db.add_keyset(&keyset("b", 1));
    assert!(!db.check_consistent());
    db.add_keyset(&keyset("a", 1));
    assert!(db.check_consistent());
}
