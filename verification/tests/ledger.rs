use creembar::creem::Transaction;
use creembar::order::sort_by_time;
use creembar::poller::{handle_transactions, PollMemory, SEEN_CAP};

fn tx(id: &str, status: &str, created_at: i64, amount: i64) -> Transaction {
    Transaction {
        id: id.to_string(),
        amount,
        amount_paid: None,
        currency: "usd".to_string(),
        status: status.to_string(),
        kind: "payment".to_string(),
        created_at,
        customer: None,
        order: None,
        description: None,
    }
}

fn ids(v: &[Transaction]) -> Vec<String> {
    v.iter().map(|t| t.id.clone()).collect()
}

fn sorted(mut v: Vec<String>) -> Vec<String> {
    v.sort();
    v
}

#[test]
fn first_poll_is_silent_and_records_everything() {
    let page = vec![tx("a", "paid", 20, 100), tx("b", "paid", 10, 200)];
    let out = handle_transactions(PollMemory::fresh(), &page);
    assert!(out.notify.is_empty());
    assert!(out.memory.baselined());
    assert_eq!(sorted(out.memory.seen_ids()), vec!["a".to_string(), "b".to_string()]);
    assert_eq!(ids(&out.paid), vec!["b".to_string(), "a".to_string()]);
}

#[test]
fn later_poll_announces_only_new_payments_oldest_first() {
    let first = handle_transactions(PollMemory::fresh(), &vec![tx("a", "paid", 10, 100)]);
    let page = vec![
        tx("c", "paid", 30, 300),
        tx("a", "paid", 10, 100),
        tx("b", "paid", 20, 200),
    ];
    let second = handle_transactions(first.memory, &page);
    assert_eq!(ids(&second.notify), vec!["b".to_string(), "c".to_string()]);
    assert_eq!(
        sorted(second.memory.seen_ids()),
        vec!["a".to_string(), "b".to_string(), "c".to_string()]
    );
}

#[test]
fn same_page_twice_announces_nothing() {
    let page = vec![tx("a", "paid", 10, 100), tx("b", "paid", 20, 200)];
    let memory = PollMemory::from_stored(Some(true), Some(vec![]));
    let once = handle_transactions(memory, &page);
    assert_eq!(ids(&once.notify), vec!["a".to_string(), "b".to_string()]);
    let twice = handle_transactions(once.memory, &page);
    assert!(twice.notify.is_empty());
}

#[test]
fn unpaid_and_anonymous_transactions_are_ignored() {
    let page = vec![
        tx("a", "pending", 10, 100),
        tx("", "paid", 11, 100),
        tx("b", "PAID", 12, 100),
        tx("c", "Paid", 13, 100),
        tx("d", "refunded", 14, 100),
    ];
    let memory = PollMemory::from_stored(Some(true), None);
    let out = handle_transactions(memory, &page);
    assert_eq!(ids(&out.paid), vec!["b".to_string(), "c".to_string()]);
    assert_eq!(ids(&out.notify), vec!["b".to_string(), "c".to_string()]);
}

#[test]
fn repeated_id_in_one_page_is_announced_once() {
    let page = vec![tx("a", "paid", 10, 100), tx("a", "paid", 12, 100)];
    let out = handle_transactions(PollMemory::from_stored(Some(true), None), &page);
    assert_eq!(out.notify.len(), 1);
    assert_eq!(out.notify[0].created_at, 10);
}

#[test]
fn stored_ids_are_not_announced_again() {
    let memory = PollMemory::from_stored(Some(true), Some(vec!["a".to_string(), "a".to_string()]));
    assert_eq!(memory.seen_ids(), vec!["a".to_string()]);
    let out = handle_transactions(memory, &vec![tx("a", "paid", 5, 1), tx("z", "paid", 6, 1)]);
    assert_eq!(ids(&out.notify), vec!["z".to_string()]);
}

#[test]
fn reset_memory_makes_next_poll_silent_again() {
    let out = handle_transactions(PollMemory::fresh(), &vec![tx("x", "paid", 1, 1)]);
    assert!(out.notify.is_empty());
    let missing = PollMemory::from_stored(None, None);
    assert!(!missing.baselined());
    assert!(missing.seen_ids().is_empty());
}

#[test]
fn persisted_memory_reads_back() {
    let out = handle_transactions(PollMemory::fresh(), &vec![tx("x", "paid", 1, 1), tx("y", "paid", 2, 1)]);
    let stored_ids = out.memory.seen_ids();
    let back = PollMemory::from_stored(Some(out.memory.baselined()), Some(stored_ids.clone()));
    assert!(back.baselined());
    assert_eq!(sorted(back.seen_ids()), sorted(stored_ids));
}

#[test]
fn oversized_memory_keeps_only_the_page() {
    let stored: Vec<String> = (0..SEEN_CAP).map(|i| format!("old{i}")).collect();
    let memory = PollMemory::from_stored(Some(true), Some(stored));
    let page = vec![tx("new1", "paid", 50, 1), tx("new2", "paid", 40, 1)];
    let out = handle_transactions(memory, &page);
    assert_eq!(ids(&out.notify), vec!["new2".to_string(), "new1".to_string()]);
    assert_eq!(sorted(out.memory.seen_ids()), vec!["new1".to_string(), "new2".to_string()]);
}

#[test]
fn memory_at_the_cap_is_kept_whole() {
    let stored: Vec<String> = (0..SEEN_CAP - 1).map(|i| format!("old{i}")).collect();
    let memory = PollMemory::from_stored(Some(true), Some(stored));
    let out = handle_transactions(memory, &vec![tx("new", "paid", 1, 1)]);
    assert_eq!(out.memory.seen_ids().len(), SEEN_CAP);
}

#[test]
fn sort_by_time_is_stable_both_ways() {
    let v = vec![
        tx("a", "paid", 2, 0),
        tx("b", "paid", 1, 0),
        tx("c", "paid", 2, 0),
        tx("d", "paid", 1, 0),
        tx("e", "paid", 3, 0),
    ];
    let up = sort_by_time(&v, false);
    assert_eq!(ids(&up), vec!["b", "d", "a", "c", "e"].iter().map(|s| s.to_string()).collect::<Vec<_>>());
    let down = sort_by_time(&v, true);
    assert_eq!(ids(&down), vec!["e", "a", "c", "b", "d"].iter().map(|s| s.to_string()).collect::<Vec<_>>());
}

#[test]
fn sorting_keeps_every_transaction() {
    let v = vec![tx("a", "paid", 3, 0), tx("b", "paid", 1, 0), tx("a", "paid", 3, 0)];
    let up = sort_by_time(&v, false);
    assert_eq!(up.len(), v.len());
    assert_eq!(ids(&up), vec!["b".to_string(), "a".to_string(), "a".to_string()]);
}

#[test]
fn same_page_twice_leaves_memory_unchanged() {
    let page = vec![tx("a", "paid", 10, 100), tx("b", "paid", 20, 200)];
    let once = handle_transactions(PollMemory::from_stored(Some(true), Some(vec!["z".to_string()])), &page);
    let first = sorted(once.memory.seen_ids());
    let twice = handle_transactions(once.memory, &page);
    assert!(twice.notify.is_empty());
    assert_eq!(sorted(twice.memory.seen_ids()), first);
}

#[test]
fn long_page_of_few_ids_twice_is_silent() {
    let mut page: Vec<Transaction> = (0..SEEN_CAP as i64).map(|i| tx("y", "paid", 100 + i, 1)).collect();
    page.push(tx("x", "paid", 1, 1));
    let once = handle_transactions(PollMemory::from_stored(Some(true), None), &page);
    assert_eq!(ids(&once.notify), vec!["x".to_string(), "y".to_string()]);
    let first = sorted(once.memory.seen_ids());
    let twice = handle_transactions(once.memory, &page);
    assert!(twice.notify.is_empty());
    assert_eq!(sorted(twice.memory.seen_ids()), first);
}
