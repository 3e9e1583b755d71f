use cashu_rs_mint::database::Db;
use cashu_rs_mint::engine::{change_due, proofs_amount, Engine, MintStep};
use cashu_rs_mint::error::Error;
use cashu_rs_mint::types::{InvoiceInfo, InvoiceStatus, InvoiceTokenStatus, Proof};

fn token(secret: &str, amount: u64) -> Proof {
    Proof {
        amount,
        secret: secret.to_string(),
        c: "02c0ffee".to_string(),
        id: "keyset".to_string(),
    }
}

/// A ledger with one paid and issued quote worth `amount`.
fn funded(amount: u64) -> Engine {
    let mut engine = Engine::new();
    engine.request_mint(amount, "funding", "ph-funding", "lnbc-funding", "").unwrap();
    engine.handle_paid_invoice("ph-funding", Some(1), 100).unwrap();
    engine.process_mint("funding", amount).unwrap();
    engine
}

#[test]
fn mint_quote_is_paid_then_issued_once() {
    let mut engine = Engine::new();
    let quote = engine
        .request_mint(1000, "abc", "ph-abc", "lnbc10u1example", "")
        .unwrap();
    assert_eq!(quote.hash, "abc");
    assert_eq!(quote.pr, "lnbc10u1example");
    let stored = engine.get_invoice_info("abc").unwrap();
    assert_eq!(stored.status, InvoiceStatus::Unpaid);
    assert_eq!(stored.token_status, InvoiceTokenStatus::NotIssued);
    assert_eq!(stored.confirmed_at, None);
    assert_eq!(engine.verify_mint("abc", 1000), Err(Error::InvoiceNotPaid));
    assert_eq!(engine.process_mint("abc", 1000), Err(Error::InvoiceNotPaid));
    assert_eq!(engine.in_circulation(), 0);

    let paid = engine.handle_paid_invoice("ph-abc", Some(1), 1_700_000_000).unwrap();
    assert_eq!(paid.status, InvoiceStatus::Paid);
    assert_eq!(paid.confirmed_at, Some(1_700_000_000));
    assert_eq!(engine.get_invoice_info("abc"), Ok(paid));

    assert_eq!(engine.verify_mint("abc", 1000), Ok(()));
    assert_eq!(engine.process_mint("abc", 1000), Ok(1000));
    assert_eq!(engine.in_circulation(), 1000);
    assert_eq!(
        engine.get_invoice_info("abc").unwrap().token_status,
        InvoiceTokenStatus::Issued
    );

    assert_eq!(engine.verify_mint("abc", 1000), Err(Error::TokenAlreadyIssued));
    assert_eq!(engine.process_mint("abc", 1000), Err(Error::TokenAlreadyIssued));
    assert_eq!(engine.in_circulation(), 1000);
}

#[test]
fn melt_spends_the_proofs_and_lowers_the_circulation() {
    let mut engine = funded(1000);
    let proofs = vec![token("secret1", 256), token("secret2", 256), token("secret3", 8)];
    assert_eq!(engine.verify_melt(&proofs, 500), Ok(520));
    assert_eq!(engine.process_melt(&proofs, 500, 15), Ok(1000 - 520 + 15));
    assert_eq!(engine.in_circulation(), 495);
    assert_eq!(
        engine.db().get_spent_secrets(),
        vec!["secret1".to_string(), "secret2".to_string(), "secret3".to_string()]
    );
    assert_eq!(engine.verify_melt(&proofs, 500), Err(Error::TokenAlreadySpent));
    assert_eq!(engine.process_melt(&proofs, 500, 15), Err(Error::TokenAlreadySpent));
    assert_eq!(engine.in_circulation(), 495);
}

#[test]
fn replayed_payment_changes_nothing() {
    let mut engine = Engine::new();
    engine.request_mint(64, "h", "p", "lnbc", "").unwrap();
    let first = engine.handle_paid_invoice("p", Some(5), 1000).unwrap();
    let again = engine.handle_paid_invoice("p", Some(5), 2000).unwrap();
    assert_eq!(first, again);
    assert_eq!(again.status, InvoiceStatus::Paid);
    assert_eq!(again.confirmed_at, Some(1000));
    assert_eq!(engine.last_pay_index(), 5);
    assert_eq!(engine.in_circulation(), 0);
}

#[test]
fn payment_for_an_unknown_invoice_is_turned_down_and_position_moves_on() {
    let mut engine = Engine::new();
    assert_eq!(engine.handle_paid_invoice("nobody", Some(3), 10), Err(Error::NotFound));
    assert_eq!(engine.last_pay_index(), 3);
    assert_eq!(engine.handle_paid_invoice("nobody", None, 10), Err(Error::NotFound));
    assert_eq!(engine.last_pay_index(), 3);
}

#[test]
fn stream_position_never_falls_back() {
    let mut engine = Engine::new();
    engine.request_mint(1, "quote1", "pay1", "lnbc1", "").unwrap();
    engine.request_mint(2, "quote2", "pay2", "lnbc2", "").unwrap();
    engine.handle_paid_invoice("pay2", Some(9), 10).unwrap();
    engine.handle_paid_invoice("pay1", Some(4), 11).unwrap();
    assert_eq!(engine.last_pay_index(), 9);
    engine.handle_paid_invoice("pay1", None, 12).unwrap();
    assert_eq!(engine.last_pay_index(), 9);
}

#[test]
fn paid_invoice_is_not_unpaid_by_a_probe() {
    let mut engine = Engine::new();
    engine.request_mint(10, "h", "p", "lnbc", "").unwrap();
    engine.handle_paid_invoice("p", Some(1), 50).unwrap();
    assert_eq!(
        engine.check_invoice_status("p", InvoiceStatus::Unpaid),
        Ok(InvoiceStatus::Paid)
    );
    assert_eq!(
        engine.check_invoice_status("p", InvoiceStatus::Expired),
        Ok(InvoiceStatus::Paid)
    );
    let stored = engine.get_invoice_info("h").unwrap();
    assert_eq!(stored.status, InvoiceStatus::Paid);
    assert_eq!(stored.confirmed_at, Some(50));
}

#[test]
fn probe_moves_an_unpaid_invoice_to_paid_or_expired_only() {
    let mut engine = Engine::new();
    engine.request_mint(10, "quote1", "pay1", "lnbc1", "").unwrap();
    engine.request_mint(10, "quote2", "pay2", "lnbc2", "").unwrap();
    engine.request_mint(10, "quote3", "pay3", "lnbc3", "").unwrap();
    assert_eq!(engine.probe_target("quote1"), Some("pay1".to_string()));
    assert_eq!(engine.probe_target("nobody"), None);

    assert_eq!(
        engine.check_invoice_status("pay1", InvoiceStatus::Paid),
        Ok(InvoiceStatus::Paid)
    );
    assert_eq!(engine.probe_target("quote1"), None);
    assert_eq!(engine.verify_mint("quote1", 10), Ok(()));

    assert_eq!(
        engine.check_invoice_status("pay2", InvoiceStatus::Expired),
        Ok(InvoiceStatus::Expired)
    );
    assert_eq!(engine.verify_mint("quote2", 10), Err(Error::InvoiceExpired));
    assert_eq!(
        engine.check_invoice_status("pay2", InvoiceStatus::Unpaid),
        Ok(InvoiceStatus::Expired)
    );

    assert_eq!(
        engine.check_invoice_status("pay3", InvoiceStatus::InFlight),
        Ok(InvoiceStatus::Unpaid)
    );
    assert_eq!(
        engine.check_invoice_status("pay3", InvoiceStatus::Unpaid),
        Ok(InvoiceStatus::Unpaid)
    );
    assert_eq!(engine.verify_mint("quote3", 10), Err(Error::InvoiceNotPaid));
    assert_eq!(
        engine.check_invoice_status("nobody", InvoiceStatus::Paid),
        Err(Error::NotFound)
    );
}

#[test]
fn mint_is_turned_down_for_each_reason() {
    let mut engine = Engine::new();
    assert_eq!(engine.verify_mint("nobody", 1), Err(Error::NotFound));
    assert_eq!(engine.process_mint("nobody", 1), Err(Error::NotFound));
    assert_eq!(engine.mint_failed("nobody"), Error::NotFound);

    engine.request_mint(100, "h", "p", "lnbc", "").unwrap();
    assert_eq!(engine.mint_failed("h"), Error::InvoiceNotPaid);
    engine.handle_paid_invoice("p", None, 1).unwrap();
    assert_eq!(engine.verify_mint("h", 99), Err(Error::AmountMismatch));
    assert_eq!(engine.verify_mint("h", 101), Err(Error::AmountMismatch));
    assert_eq!(engine.process_mint("h", 99), Err(Error::AmountMismatch));
    assert_eq!(engine.in_circulation(), 0);
    assert_eq!(
        engine.get_invoice_info("h").unwrap().token_status,
        InvoiceTokenStatus::NotIssued
    );
    assert_eq!(engine.process_mint("h", 100), Ok(100));
}

#[test]
fn circulation_cannot_pass_the_counter() {
    let mut engine = funded(u64::MAX - 5);
    engine.request_mint(6, "h", "p", "lnbc", "").unwrap();
    engine.handle_paid_invoice("p", Some(2), 1).unwrap();
    assert_eq!(engine.verify_mint("h", 6), Err(Error::AmountOutOfRange));
    assert_eq!(engine.process_mint("h", 6), Err(Error::AmountOutOfRange));
    assert_eq!(engine.in_circulation(), u64::MAX - 5);

    engine.request_mint(5, "quote5", "pay5", "lnbc5", "").unwrap();
    engine.handle_paid_invoice("pay5", Some(3), 1).unwrap();
    assert_eq!(engine.process_mint("quote5", 5), Ok(u64::MAX));
}

#[test]
fn quote_hashes_are_never_written_over() {
    let mut engine = Engine::new();
    engine.request_mint(10, "h", "p", "lnbc", "").unwrap();
    engine.handle_paid_invoice("p", Some(1), 1).unwrap();
    assert_eq!(
        engine.request_mint(10, "h", "p-other", "lnbc", ""),
        Err(Error::DuplicateInvoice)
    );
    assert_eq!(
        engine.request_mint(10, "h-other", "p", "lnbc", ""),
        Err(Error::DuplicateInvoice)
    );
    assert_eq!(engine.get_invoice_info("h").unwrap().status, InvoiceStatus::Paid);
    assert_eq!(engine.get_invoice_info("h-other"), Err(Error::NotFound));
}

#[test]
fn melt_is_turned_down_for_each_reason() {
    let mut engine = funded(100);
    let twice = vec![token("secret1", 10), token("secret1", 10)];
    assert_eq!(engine.verify_melt(&twice, 5), Err(Error::TokenAlreadySpent));

    let short = vec![token("secret1", 10), token("secret2", 10)];
    assert_eq!(engine.verify_melt(&short, 21), Err(Error::AmountMismatch));
    assert_eq!(engine.verify_melt(&short, 20), Ok(20));

    let too_much = vec![token("secret1", 60), token("secret2", 41)];
    assert_eq!(engine.verify_melt(&too_much, 50), Err(Error::AmountOutOfRange));

    let beyond = vec![token("secret1", u64::MAX), token("secret2", 1)];
    assert_eq!(proofs_amount(&beyond), None);
    assert_eq!(engine.verify_melt(&beyond, 50), Err(Error::AmountOutOfRange));

    assert_eq!(engine.process_melt(&short, 20, 21), Err(Error::AmountMismatch));
    assert_eq!(engine.in_circulation(), 100);
    assert!(engine.db().get_spent_secrets().is_empty());
    assert_eq!(engine.process_melt(&short, 20, 20), Ok(100));
    assert_eq!(engine.process_melt(&vec![token("secret3", 100)], 100, 0), Ok(0));
    assert_eq!(engine.process_melt(&vec![token("secret4", 1)], 1, 0), Err(Error::AmountOutOfRange));
}

#[test]
fn proofs_amount_sums_the_tokens() {
    assert_eq!(proofs_amount(&vec![]), Some(0));
    assert_eq!(proofs_amount(&vec![token("a", 1), token("b", 2), token("c", 4)]), Some(7));
    assert_eq!(proofs_amount(&vec![token("a", u64::MAX)]), Some(u64::MAX));
}

#[test]
fn swap_spends_the_proofs_and_keeps_the_circulation() {
    let mut engine = funded(64);
    let proofs = vec![token("a", 32), token("b", 32)];
    assert_eq!(engine.verify_swap(&proofs, 63), Err(Error::AmountMismatch));
    assert_eq!(engine.process_swap(&proofs, 65), Err(Error::AmountMismatch));
    assert!(engine.db().get_spent_secrets().is_empty());
    assert_eq!(engine.verify_swap(&proofs, 64), Ok(()));
    assert_eq!(engine.process_swap(&proofs, 64), Ok(()));
    assert_eq!(engine.in_circulation(), 64);
    assert_eq!(engine.verify_swap(&vec![token("b", 32)], 32), Err(Error::TokenAlreadySpent));
    assert_eq!(
        engine.process_swap(&vec![token("c", 1), token("a", 1)], 2),
        Err(Error::TokenAlreadySpent)
    );
    assert_eq!(
        engine.verify_swap(&vec![token("d", u64::MAX), token("e", 1)], 0),
        Err(Error::AmountMismatch)
    );
    assert_eq!(
        engine.check_spendable(&vec!["a".to_string(), "c".to_string(), "b".to_string()]),
        vec![false, true, false]
    );
    assert_eq!(engine.verify_melt(&vec![token("c", 5), token("a", 5)], 1), Err(Error::TokenAlreadySpent));
}

#[test]
fn circulation_is_minted_less_melted_plus_change() {
    let mut engine = Engine::new();
    let mut minted: u64 = 0;
    let mut melted: u64 = 0;
    let mut change: u64 = 0;
    for (i, amount) in [100u64, 250, 7].iter().enumerate() {
        let hash = format!("quote{i}");
        let payment_hash = format!("pay{i}");
        engine.request_mint(*amount, &hash, &payment_hash, "lnbc", "").unwrap();
        engine.handle_paid_invoice(&payment_hash, Some(i as u64 + 1), 1).unwrap();
        engine.process_mint(&hash, *amount).unwrap();
        minted += amount;
    }
    for (i, (redeemed, back)) in [(120u64, 3u64), (50, 0), (9, 9)].iter().enumerate() {
        let proofs = vec![token(&format!("secret{i}"), *redeemed)];
        engine.process_melt(&proofs, 1, *back).unwrap();
        melted += redeemed;
        change += back;
    }
    assert_eq!(engine.process_melt(&vec![token("secret0", 1)], 1, 0), Err(Error::TokenAlreadySpent));
    assert_eq!(engine.in_circulation(), minted - melted + change);
    assert_eq!(engine.in_circulation(), 190);
}

#[test]
fn keyset_is_kept_once_and_named_active() {
    let mut engine = Engine::new();
    let first = engine.activate_keyset("id-1", "secret", "0/0/0/0", 32, 1000);
    assert_eq!(first.id, "id-1");
    assert_eq!(first.valid_from, 1000);
    assert_eq!(first.valid_to, None);
    assert_eq!(first.secret, "secret");
    assert_eq!(first.derivation_path, "0/0/0/0");
    assert_eq!(first.max_order, 32);
    assert_eq!(engine.db().get_active_keyset(), Some("id-1".to_string()));

    let again = engine.activate_keyset("id-1", "other", "1/1/1/1", 16, 2000);
    assert_eq!(again, first);

    let second = engine.activate_keyset("id-2", "secret", "0/0/0/1", 32, 3000);
    assert_eq!(second.valid_from, 3000);
    assert_eq!(engine.db().get_active_keyset(), Some("id-2".to_string()));
    let all = engine.db().get_all_keyset_info();
    assert_eq!(all.len(), 2);
    assert_eq!(all[0].1, first);
    assert_eq!(all[1].1, second);
}

#[test]
fn sound_tables_are_taken_over_and_torn_ones_turned_down() {
    let mut db = Db::new();
    let mut info = InvoiceInfo::new(
        "p".to_string(),
        "h".to_string(),
        "lnbc".to_string(),
        77,
        InvoiceStatus::Paid,
        "",
        Some(5),
    );
    db.add_invoice(&info);
    db.set_last_pay_index(12);
    db.set_in_circulation(500);
    db.add_used_proofs(&vec![token("gone", 4)]);
    let mut engine = Engine::restore(db).ok().unwrap();
    assert_eq!(engine.last_pay_index(), 12);
    assert_eq!(engine.in_circulation(), 500);
    assert_eq!(engine.verify_swap(&vec![token("gone", 4)], 4), Err(Error::TokenAlreadySpent));
    assert_eq!(engine.process_mint("h", 77), Ok(577));

    let mut torn = Db::new();
    info.token_status = InvoiceTokenStatus::Issued;
    info.status = InvoiceStatus::Unpaid;
    torn.add_invoice(&info);
    assert!(matches!(Engine::restore(torn), Err(Error::Storage(_))));
}

#[test]
fn mint_asks_the_node_once_before_it_gives_up() {
    let mut engine = Engine::new();
    assert_eq!(engine.begin_mint("nobody", 10), Err(Error::NotFound));
    engine.request_mint(10, "quote", "pay", "lnbc", "").unwrap();
    assert_eq!(
        engine.begin_mint("quote", 10),
        Ok(MintStep::Probe("pay".to_string()))
    );

    // The node does not answer: the request fails and nothing is booked.
    assert_eq!(
        engine.resume_mint("quote", 10, Err(Error::Backend("timeout".to_string()))),
        Err(Error::Backend("timeout".to_string()))
    );
    assert_eq!(engine.get_invoice_info("quote").unwrap().status, InvoiceStatus::Unpaid);

    // The node says unpaid: turned down, not asked again.
    assert_eq!(
        engine.resume_mint("quote", 10, Ok(InvoiceStatus::Unpaid)),
        Err(Error::InvoiceNotPaid)
    );

    // The node says paid: sign, then book.
    assert_eq!(engine.resume_mint("quote", 10, Ok(InvoiceStatus::Paid)), Ok(()));
    assert_eq!(engine.begin_mint("quote", 10), Ok(MintStep::Sign));
    assert_eq!(engine.begin_mint("quote", 11), Err(Error::AmountMismatch));
    assert_eq!(engine.finish_mint("quote", 10, false), Err(Error::InvoiceNotPaid));
    assert_eq!(engine.in_circulation(), 0);
    assert_eq!(engine.finish_mint("quote", 10, true), Ok(10));
    assert_eq!(engine.begin_mint("quote", 10), Err(Error::TokenAlreadyIssued));
    assert_eq!(engine.finish_mint("quote", 10, true), Err(Error::TokenAlreadyIssued));
    assert_eq!(engine.finish_mint("nobody", 10, false), Err(Error::NotFound));
    assert_eq!(engine.in_circulation(), 10);
}

#[test]
fn probe_that_finds_the_invoice_expired_turns_the_mint_down() {
    let mut engine = Engine::new();
    engine.request_mint(10, "quote", "pay", "lnbc", "").unwrap();
    assert_eq!(
        engine.resume_mint("quote", 10, Ok(InvoiceStatus::Expired)),
        Err(Error::InvoiceExpired)
    );
    assert_eq!(engine.begin_mint("quote", 10), Err(Error::InvoiceExpired));
    assert_eq!(engine.resume_mint("nobody", 10, Ok(InvoiceStatus::Paid)), Err(Error::NotFound));
}

#[test]
fn payment_notification_and_probe_agree_in_either_order() {
    let mut one = Engine::new();
    one.request_mint(10, "quote", "pay", "lnbc", "").unwrap();
    let mut other = Engine::new();
    other.request_mint(10, "quote", "pay", "lnbc", "").unwrap();

    one.handle_paid_invoice("pay", Some(3), 77).unwrap();
    one.check_invoice_status("pay", InvoiceStatus::Expired).unwrap();
    other.check_invoice_status("pay", InvoiceStatus::Expired).unwrap();
    other.handle_paid_invoice("pay", Some(3), 77).unwrap();

    assert_eq!(one.get_invoice_info("quote").unwrap().status, InvoiceStatus::Paid);
    assert_eq!(other.get_invoice_info("quote").unwrap().status, InvoiceStatus::Paid);
    assert_eq!(one.last_pay_index(), other.last_pay_index());
    assert_eq!(one.verify_mint("quote", 10), other.verify_mint("quote", 10));
}

#[test]
fn change_is_what_was_not_spent() {
    assert_eq!(change_due(520, 503), 17);
    assert_eq!(change_due(520, 520), 0);
    assert_eq!(change_due(520, 600), 0);
    assert_eq!(change_due(u64::MAX, 0), u64::MAX);
}

#[test]
fn consumer_that_starts_again_misses_no_payment() {
    let mut engine = Engine::new();
    let stream = [("pay-a", 3u64), ("pay-b", 4), ("pay-c", 9)];
    for (payment_hash, _) in stream {
        let hash = format!("quote-for-{payment_hash}");
        engine.request_mint(1, &hash, payment_hash, "lnbc", "").unwrap();
    }
    // The consumer books two notifications and stops.
    for (payment_hash, pay_index) in &stream[..2] {
        engine.handle_paid_invoice(payment_hash, Some(*pay_index), 50).unwrap();
    }
    let position = engine.last_pay_index();
    assert_eq!(position, 4);
    for (i, (payment_hash, pay_index)) in stream.iter().enumerate() {
        let booked = i < 2;
        assert_eq!(*pay_index <= position, booked);
        let status = engine
            .db()
            .get_invoice_info_by_payment_hash(payment_hash)
            .unwrap()
            .status;
        assert_eq!(status == InvoiceStatus::Paid, booked);
    }
}
