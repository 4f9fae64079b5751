use creembar::clock::start_of_today;
use creembar::commands::{
    connection_key, connection_result, key_to_store, plan_save_settings, set_api_key,
    settings_from, settings_snapshot, stored_key_or_error,
};
use creembar::creem::{CreemError, Transaction};
use creembar::keychain::{deletion_outcome, get_api_key, key_from_lookup, DeleteFailure};
use creembar::poller::{
    config_from_stored, default_interval, next_poll_step, notification_body, today_total,
    tray_text, tray_totals, PollEvent, MAX_BACKOFF, MIN_INTERVAL,
};
use creembar::tray::{slot_labels, RECENT_SLOTS};

fn tx(id: &str, created_at: i64, amount: i64, paid: Option<i64>, currency: &str, kind: &str) -> Transaction {
    Transaction {
        id: id.to_string(),
        amount,
        amount_paid: paid,
        currency: currency.to_string(),
        status: "paid".to_string(),
        kind: kind.to_string(),
        created_at,
        customer: None,
        order: None,
        description: None,
    }
}

#[test]
fn config_defaults_and_floor() {
    assert_eq!(default_interval(), 60);
    assert_eq!(config_from_stored(None, None), (true, 60));
    assert_eq!(config_from_stored(Some(false), Some(5)), (false, MIN_INTERVAL));
    assert_eq!(config_from_stored(Some(true), Some(120)), (true, 120));
}

#[test]
fn saving_settings() {
    let p = plan_save_settings(true, false, 3, true);
    assert_eq!(p.interval_secs, 15);
    assert!(p.reset_baseline);
    assert!(!p.test_mode && p.autostart);
    let q = plan_save_settings(false, false, 90, false);
    assert_eq!(q.interval_secs, 90);
    assert!(!q.reset_baseline);
}

#[test]
fn settings_snapshot_reads_config() {
    let s = settings_snapshot(None, Some(1), true);
    assert!(s.test_mode);
    assert_eq!(s.interval_secs, 15);
    assert!(s.autostart);
}

#[test]
fn poll_steps() {
    let s = next_poll_step(&PollEvent::MissingKey, 60);
    assert_eq!(s.header.as_deref(), Some("Not configured \u{2014} open Settings"));
    assert_eq!(s.wait_secs, 30);
    let s = next_poll_step(&PollEvent::Fetched, 45);
    assert_eq!(s.header, None);
    assert_eq!(s.wait_secs, 45);
    let s = next_poll_step(&PollEvent::Failed(CreemError::Unauthorized), 45);
    assert_eq!(s.header.as_deref(), Some("Invalid API key"));
    assert_eq!(s.wait_secs, 60);
    let s = next_poll_step(&PollEvent::Failed(CreemError::RateLimited(Some(1000))), 60);
    assert_eq!(s.header.as_deref(), Some("Rate limited \u{2014} backing off"));
    assert_eq!(s.wait_secs, MAX_BACKOFF);
    let s = next_poll_step(&PollEvent::Failed(CreemError::RateLimited(Some(5))), 60);
    assert_eq!(s.wait_secs, 60);
    let s = next_poll_step(&PollEvent::Failed(CreemError::RateLimited(Some(90))), 60);
    assert_eq!(s.wait_secs, 90);
    let s = next_poll_step(&PollEvent::Failed(CreemError::RateLimited(None)), 20);
    assert_eq!(s.wait_secs, 20);
    let s = next_poll_step(&PollEvent::Failed(CreemError::Network("x".to_string())), 15);
    assert_eq!(s.header.as_deref(), Some("Connection error \u{2014} retrying"));
    assert_eq!(s.wait_secs, 30);
    let s = next_poll_step(&PollEvent::Failed(CreemError::Decode("x".to_string())), 600);
    assert_eq!(s.wait_secs, 600);
}

#[test]
fn notification_line() {
    let t = tx("a", 1, 999, Some(1999), "usd", "invoice");
    assert_eq!(notification_body(&t), "19.99 USD \u{2014} subscription");
    let u = tx("b", 1, 500, None, "", "");
    assert_eq!(notification_body(&u), "5.00 \u{2014} payment");
}

#[test]
fn tray_text_for_today() {
    let paid = vec![
        tx("old", 50, 100, None, "usd", "payment"),
        tx("a", 100, 250, None, "eur", "payment"),
        tx("b", 200, 999, Some(750), "usd", "payment"),
    ];
    let t = tray_text(&paid, 100);
    assert_eq!(t.header, "Today: 10.00 EUR (2)");
    assert_eq!(t.recent, vec!["7.50 USD", "2.50 EUR", "1.00 USD"]);
    let none = tray_text(&paid, 1000);
    assert_eq!(none.header, "Today: 0.00 (0)");
}

#[test]
fn tray_lists_at_most_the_newest_five() {
    let paid: Vec<Transaction> = (0..8).map(|i| tx(&format!("t{i}"), i, 100 * i, None, "", "")).collect();
    let t = tray_text(&paid, 0);
    assert_eq!(t.recent, vec!["7.00", "6.00", "5.00", "4.00", "3.00"]);
    assert_eq!(t.header, "Today: 28.00 (8)");
}

#[test]
fn overflowing_total_is_reported() {
    let paid = vec![tx("a", 10, i64::MAX, None, "", ""), tx("b", 11, 1, None, "", "")];
    assert_eq!(today_total(&paid, 0), None);
    assert_eq!(today_total(&paid, 11), Some(1));
    assert!(tray_totals(&paid).is_some());
}

#[test]
fn start_of_today_is_within_the_last_day() {
    let now = std::time::SystemTime::now()
        .duration_since(std::time::UNIX_EPOCH)
        .unwrap()
        .as_secs() as i64;
    let start = start_of_today();
    assert!(start <= now);
    assert!(now - start <= 2 * 86_400);
    let empty = tray_totals(&Vec::new()).unwrap();
    assert_eq!(empty.header, "Today: 0.00 (0)");
}

#[test]
fn slot_labels_pad_with_dashes() {
    let l = slot_labels(&vec!["1.00".to_string(), "2.00".to_string()]);
    assert_eq!(l.len(), RECENT_SLOTS);
    assert_eq!(l, vec!["1.00", "2.00", "\u{2014}", "\u{2014}", "\u{2014}"]);
}

#[test]
fn blank_api_key_is_refused() {
    assert_eq!(set_api_key("   "), Err("API key is empty".to_string()));
    assert_eq!(set_api_key(""), Err("API key is empty".to_string()));
}

#[test]
fn typed_key_is_trimmed() {
    assert_eq!(connection_key(Some("  sk_test_1 ".to_string())), Ok("sk_test_1".to_string()));
    match connection_key(Some("   ".to_string())) {
        Ok(k) => assert!(!k.is_empty()),
        Err(m) => assert_eq!(m, "No API key set"),
    }
}

#[test]
fn stored_key_fallback() {
    assert_eq!(stored_key_or_error(Some("k".to_string())), Ok("k".to_string()));
    assert_eq!(stored_key_or_error(None), Err("No API key set".to_string()));
    if let Some(k) = get_api_key() {
        assert!(!k.is_empty());
    }
}

#[test]
fn connection_answers() {
    assert_eq!(connection_result(Ok(1)), Ok(1));
    assert_eq!(connection_result(Err(CreemError::Unauthorized)), Err("Invalid API key".to_string()));
    assert_eq!(connection_result(Err(CreemError::RateLimited(None))), Err("Rate limited".to_string()));
    assert_eq!(
        connection_result(Err(CreemError::Network("boom".to_string()))),
        Err("Network error: boom".to_string())
    );
}

#[test]
fn keychain_outcomes() {
    assert_eq!(key_from_lookup(Ok("k".to_string())), Some("k".to_string()));
    assert_eq!(key_from_lookup(Ok(String::new())), None);
    assert_eq!(key_from_lookup(Err("locked".to_string())), None);
    assert_eq!(deletion_outcome(Ok(())), Ok(()));
    assert_eq!(deletion_outcome(Err(DeleteFailure::NoEntry)), Ok(()));
    assert_eq!(deletion_outcome(Err(DeleteFailure::Other("denied".to_string()))), Err("denied".to_string()));
}

#[test]
fn key_to_store_trims_or_refuses() {
    assert_eq!(key_to_store("  sk_live_9\t"), Ok("sk_live_9"));
    assert_eq!(key_to_store("\u{2003}k\u{3000}"), Ok("k"));
    assert_eq!(key_to_store(" \u{a0}\n"), Err("API key is empty".to_string()));
    assert_eq!(key_to_store(""), Err("API key is empty".to_string()));
}

#[test]
fn settings_report_whether_a_key_is_stored() {
    let with = settings_from(Some(false), None, false, &Some("k".to_string()));
    assert!(with.has_api_key);
    assert!(!with.test_mode);
    assert_eq!(with.interval_secs, 60);
    let without = settings_from(None, Some(30), true, &None);
    assert!(!without.has_api_key);
    assert_eq!(without.interval_secs, 30);
}
