//! Polling decisions: what a fetched page of transactions means for the
//! notification ledger, the tray text, and the next wait.

use vstd::prelude::*;

use crate::clock::start_of_today;
use crate::creem::{CreemError, Transaction};
use crate::laws::{lemma_fresh_payments_are_the_new_ids, lemma_only_paid_transactions_count};
use crate::order::{lemma_stable_time_order_unique, sort_by_time, stable_time_order};
use crate::text::{
    all_ascii, ascii_upper, decimal, digit_char, eq_ignore_ascii_case, equal_ignoring_ascii_case,
    push_decimal, str_equal, to_uppercase, uppercased,
};
use crate::tray::RECENT_SLOTS;

verus! {

/// Sign, whole units, a point, and exactly two digits of minor units, for an
/// amount given in minor units (cents): `-1234` reads `-12.34`.
pub open spec fn amount_text(cents: int) -> Seq<char> {
    let m = if cents < 0 { -cents } else { cents };
    (if cents < 0 { seq!['-'] } else { Seq::<char>::empty() })
        + decimal((m / 100) as nat)
        + seq!['.', digit_char((m % 100) / 10), digit_char(m % 10)]
}

/// An amount in minor units followed, when a currency is given, by a space
/// and the currency in upper case: `(1999, "usd")` reads `19.99 USD`.
pub open spec fn money_text(cents: int, currency: Seq<char>) -> Seq<char> {
    amount_text(cents) + if currency.len() == 0 {
        Seq::<char>::empty()
    } else {
        seq![' '] + uppercased(currency)
    }
}

/// Renders an amount in minor units with two decimals and the upper-cased
/// currency code, e.g. `1999, "usd"` gives `"19.99 USD"`.
pub fn fmt_money(cents: i64, currency: &str) -> (r: String)
    ensures
        r@ == money_text(cents as int, currency@),
        currency@.len() > 0 && all_ascii(currency@) ==> uppercased(currency@) == currency@.map_values(
            |c: char| ascii_upper(c),
        ),
{
    let magnitude: u64 = if cents < 0 {
        ((-(cents + 1)) as u64) + 1
    } else {
        cents as u64
    };
    let mut out = String::new();
    if cents < 0 {
        out.append("-");
    }
    push_decimal(&mut out, magnitude / 100);
    out.append(".");
    push_decimal(&mut out, (magnitude % 100) / 10);
    push_decimal(&mut out, magnitude % 10);
    proof {
        reveal_strlit("-");
        reveal_strlit(".");
        assert(decimal(((magnitude % 100) / 10) as nat) == seq![digit_char(((magnitude % 100) / 10) as int)]);
        assert(decimal((magnitude % 10) as nat) == seq![digit_char((magnitude % 10) as int)]);
        assert(out@ =~= amount_text(cents as int));
    }
    if currency.unicode_len() == 0 {
        assert(out@ =~= money_text(cents as int, currency@));
        out
    } else {
        let upper = to_uppercase(currency);
        out.append(" ");
        out.append(upper.as_str());
        proof {
            reveal_strlit(" ");
            assert(out@ =~= money_text(cents as int, currency@));
        }
        out
    }
}

/// The label shown for a transaction type: invoices are subscriptions,
/// payments are one-time, an empty type reads "payment", any other type
/// is shown as is.
pub open spec fn kind_label_text(kind: Seq<char>) -> Seq<char> {
    if kind == "invoice"@ {
        "subscription"@
    } else if kind == "payment"@ {
        "one-time"@
    } else if kind.len() == 0 {
        "payment"@
    } else {
        kind
    }
}

/// Human label for a creem transaction `type`.
pub fn kind_label(kind: &str) -> (r: &str)
    ensures
        r@ == kind_label_text(kind@),
{
    if str_equal(kind, "invoice") {
        "subscription"
    } else if str_equal(kind, "payment") {
        "one-time"
    } else if kind.unicode_len() == 0 {
        "payment"
    } else {
        kind
    }
}


/// How many transaction ids the ledger remembers at most before trimming.
pub const SEEN_CAP: usize = 2000;

/// How many transactions one poll asks for.
pub const PAGE_SIZE: u32 = 50;

/// A transaction that counts as a payment: status `paid` in any ASCII case,
/// and a non-empty id.
pub open spec fn is_paid(t: Transaction) -> bool {
    equal_ignoring_ascii_case(t.status@, "paid"@) && t.id@.len() > 0
}

pub open spec fn paid_only() -> spec_fn(Transaction) -> bool {
    |t: Transaction| is_paid(t)
}

/// The character sequences of a list of strings.
pub open spec fn texts(s: Seq<String>) -> Seq<Seq<char>> {
    s.map_values(|x: String| x@)
}

/// The ids of a list of transactions, as a set.
pub open spec fn ids_of(s: Seq<Transaction>) -> Set<Seq<char>> {
    s.map_values(|t: Transaction| t.id@).to_set()
}

/// The payments of a batch (oldest first) that are announced, given the ids
/// already known: a payment is announced when its id is neither known nor
/// carried by an earlier payment of the same batch.
pub open spec fn fresh_payments(paid: Seq<Transaction>, seen: Set<Seq<char>>) -> Seq<Transaction>
    decreases paid.len(),
{
    if paid.len() == 0 {
        Seq::empty()
    } else {
        let earlier = paid.drop_last();
        let t = paid.last();
        let before = fresh_payments(earlier, seen);
        if seen.contains(t.id@) || ids_of(earlier).contains(t.id@) {
            before
        } else {
            before.push(t)
        }
    }
}

/// How many of the newest payments survive a trim.
pub open spec fn kept_count(n: nat) -> int {
    if n < SEEN_CAP {
        n as int
    } else {
        SEEN_CAP as int
    }
}

/// The ids remembered after a batch: the known ids plus the batch's; when
/// that exceeds `SEEN_CAP`, only the ids of the newest `SEEN_CAP` payments
/// of the batch (`newest` is the batch, newest first).
pub open spec fn remembered_ids(
    seen: Set<Seq<char>>,
    paid: Seq<Transaction>,
    newest: Seq<Transaction>,
) -> Set<Seq<char>> {
    let merged = seen.union(ids_of(paid));
    if merged.len() > SEEN_CAP {
        ids_of(newest.take(kept_count(newest.len())))
    } else {
        merged
    }
}

/// What the poller keeps between polls: whether the first (silent) poll has
/// happened, and the ids of the payments already seen.
pub struct PollMemory {
    baselined: bool,
    seen: Vec<String>,
}

pub struct PollMemoryView {
    pub baselined: bool,
    pub seen: Set<Seq<char>>,
}

/// The memory that persisted values stand for: a missing flag means not
/// baselined, missing ids mean none, and repeated ids count once.
pub open spec fn stored_memory(baselined: Option<bool>, seen_ids: Option<Seq<String>>) -> PollMemoryView {
    PollMemoryView {
        baselined: baselined == Some(true),
        seen: match seen_ids {
            Some(v) => texts(v).to_set(),
            None => Set::<Seq<char>>::empty(),
        },
    }
}

impl View for PollMemory {
    type V = PollMemoryView;

    closed spec fn view(&self) -> PollMemoryView {
        PollMemoryView { baselined: self.baselined, seen: texts(self.seen@).to_set() }
    }
}

impl PollMemory {
    #[verifier::type_invariant]
    closed spec fn ids_distinct(self) -> bool {
        texts(self.seen@).no_duplicates()
    }

    /// The state before any poll, and after a reset of the baseline: the
    /// next poll is silent and nothing is known yet.
    pub fn fresh() -> (r: PollMemory)
        ensures
            !r@.baselined,
            r@.seen == Set::<Seq<char>>::empty(),
    {
        let r = PollMemory { baselined: false, seen: Vec::new() };
        assert(texts(r.seen@).to_set() =~= Set::<Seq<char>>::empty());
        r
    }

    /// The memory as persisted: a missing flag means not baselined, missing
    /// ids mean none; repeated ids count once.
    pub fn from_stored(baselined: Option<bool>, seen_ids: Option<Vec<String>>) -> (r: PollMemory)
        ensures
            r@ == stored_memory(
                baselined,
                match seen_ids {
                    Some(v) => Some(v@),
                    None => None,
                },
            ),
    {
        let flag = match baselined {
            Some(b) => b,
            None => false,
        };
        let mut seen: Vec<String> = Vec::new();
        assert(texts(seen@).to_set() =~= Set::<Seq<char>>::empty());
        match seen_ids {
            Some(v) => {
                let n = v.len();
                let mut i: usize = 0;
                while i < n
                    invariant
                        n == v.len(),
                        i <= n,
                        texts(seen@).no_duplicates(),
                        texts(seen@).to_set() == texts(v@.take(i as int)).to_set(),
                    decreases n - i,
                {
                    remember(&mut seen, &v[i]);
                    proof {
                        assert(v@.take(i + 1) =~= v@.take(i as int).push(v@[i as int]));
                        v@.take(i as int).lemma_push_map_commute(|x: String| x@, v@[i as int]);
                        texts(v@.take(i as int)).lemma_push_to_set_commute(v@[i as int]@);
                    }
                    i = i + 1;
                }
                assert(v@.take(n as int) =~= v@);
            },
            None => {},
        }
        PollMemory { baselined: flag, seen }
    }

    /// Whether the silent first poll has happened.
    pub fn baselined(&self) -> (r: bool)
        ensures
            r == self@.baselined,
    {
        self.baselined
    }

    /// The remembered ids, each once, for persisting.
    pub fn seen_ids(&self) -> (r: Vec<String>)
        ensures
            texts(r@).no_duplicates(),
            texts(r@).to_set() == self@.seen,
    {
        proof { use_type_invariant(self); }
        self.seen.clone()
    }
}

/// Adds `id` to a list of distinct ids; says whether it was new.
fn remember(seen: &mut Vec<String>, id: &String) -> (added: bool)
    requires
        texts(old(seen)@).no_duplicates(),
    ensures
        texts(final(seen)@).no_duplicates(),
        texts(final(seen)@).to_set() == texts(old(seen)@).to_set().insert(id@),
        added == !texts(old(seen)@).to_set().contains(id@),
{
    let n = seen.len();
    let mut i: usize = 0;
    while i < n
        invariant
            n == seen.len(),
            i <= n,
            seen@ == old(seen)@,
            texts(seen@).no_duplicates(),
            forall|j: int| 0 <= j < i ==> (#[trigger] seen@[j])@ != id@,
        decreases n - i,
    {
        if seen[i] == *id {
            proof {
                assert(texts(seen@)[i as int] == id@);
                assert(texts(seen@).to_set().insert(id@) =~= texts(seen@).to_set());
            }
            return false;
        }
        i = i + 1;
    }
    let ghost before = seen@;
    assert(!texts(before).contains(id@)) by {
        if texts(before).contains(id@) {
            let j = choose|j: int| 0 <= j < texts(before).len() && texts(before)[j] == id@;
            assert(before[j]@ == id@);
        }
    }
    seen.push(id.clone());
    proof {
        before.lemma_push_map_commute(|x: String| x@, *id);
        assert(texts(seen@) == texts(before).push(id@));
        texts(before).lemma_push_to_set_commute(id@);
        assert(texts(seen@).no_duplicates()) by {
            assert forall|a: int, b: int| 0 <= a < b < texts(seen@).len() implies texts(seen@)[a]
                != texts(seen@)[b] by {
                if b == texts(seen@).len() - 1 {
                    assert(texts(before).contains(texts(before)[a]));
                }
            }
        }
    }
    true
}

/// The outcome of one successful fetch: the memory to keep, the page's
/// payments oldest first, and the payments to announce, in that order.
pub struct PollOutcome {
    pub memory: PollMemory,
    pub paid: Vec<Transaction>,
    pub notify: Vec<Transaction>,
}

/// Keeps the payments of a fetched page, oldest first, and decides which
/// of them are new. The first poll after a (re)baseline announces nothing
/// and only records what it saw; later polls announce each payment whose
/// id was not seen before, once.
pub fn handle_transactions(memory: PollMemory, txs: &Vec<Transaction>) -> (out: PollOutcome)
    ensures
        stable_time_order(txs@.filter(paid_only()), out.paid@, false),
        out.notify@ == if memory@.baselined {
            fresh_payments(out.paid@, memory@.seen)
        } else {
            Seq::<Transaction>::empty()
        },
        out.memory@.baselined,
        forall|newest: Seq<Transaction>| #[trigger]
            stable_time_order(out.paid@, newest, true) ==> out.memory@.seen == remembered_ids(
                memory@.seen,
                out.paid@,
                newest,
            ),
        forall|i: int|
            0 <= i < out.paid@.len() ==> equal_ignoring_ascii_case(
                (#[trigger] out.paid@[i]).status@,
                "paid"@,
            ) && out.paid@[i].id@.len() > 0 && txs@.contains(out.paid@[i]),
        forall|i: int|
            0 <= i < txs@.len() && equal_ignoring_ascii_case((#[trigger] txs@[i]).status@, "paid"@)
                && txs@[i].id@.len() > 0 ==> out.paid@.contains(txs@[i]),
        forall|i: int|
            0 <= i < out.notify@.len() ==> equal_ignoring_ascii_case(
                (#[trigger] out.notify@[i]).status@,
                "paid"@,
            ) && out.paid@.contains(out.notify@[i]),
{
    proof { use_type_invariant(&memory); }
    let ghost seen0 = memory@.seen;
    let n = txs.len();
    let mut candidates: Vec<Transaction> = Vec::new();
    let mut i: usize = 0;
    while i < n
        invariant
            n == txs.len(),
            i <= n,
            candidates@ == txs@.take(i as int).filter(paid_only()),
        decreases n - i,
    {
        let t = &txs[i];
        if eq_ignore_ascii_case(t.status.as_str(), "paid") && t.id.as_str().unicode_len() > 0 {
            candidates.push(t.clone());
        }
        proof {
            assert(txs@.take(i + 1) =~= txs@.take(i as int).push(txs@[i as int]));
            txs@.take(i as int).lemma_filter_push(txs@[i as int], paid_only());
        }
        i = i + 1;
    }
    assert(txs@.take(n as int) =~= txs@);
    let paid = sort_by_time(&candidates, false);
    proof {
        lemma_only_paid_transactions_count(txs@, paid@, seen0);
        lemma_fresh_payments_are_the_new_ids(paid@, seen0);
    }

    let baselined = memory.baselined;
    let mut seen = memory.seen;
    let mut notify: Vec<Transaction> = Vec::new();
    let m = paid.len();
    let mut j: usize = 0;
    assert(paid@.take(0) =~= Seq::<Transaction>::empty());
    assert(ids_of(paid@.take(0)) =~= Set::<Seq<char>>::empty());
    assert(seen0.union(ids_of(paid@.take(0))) =~= seen0);
    while j < m
        invariant
            m == paid.len(),
            j <= m,
            texts(seen@).no_duplicates(),
            texts(seen@).to_set() == seen0.union(ids_of(paid@.take(j as int))),
            notify@ == if baselined {
                fresh_payments(paid@.take(j as int), seen0)
            } else {
                Seq::<Transaction>::empty()
            },
        decreases m - j,
    {
        let ghost prefix = paid@.take(j as int);
        let added = remember(&mut seen, &paid[j].id);
        if baselined && added {
            notify.push(paid[j].clone());
        }
        proof {
            let t = paid@[j as int];
            assert(paid@.take(j + 1) =~= prefix.push(t));
            assert(paid@.take(j + 1).drop_last() =~= prefix);
            prefix.lemma_push_map_commute(|x: Transaction| x.id@, t);
            prefix.map_values(|x: Transaction| x.id@).lemma_push_to_set_commute(t.id@);
            assert(ids_of(paid@.take(j + 1)) == ids_of(prefix).insert(t.id@));
            assert(seen0.union(ids_of(paid@.take(j + 1))) =~= seen0.union(ids_of(prefix)).insert(
                t.id@,
            ));
        }
        j = j + 1;
    }
    assert(paid@.take(m as int) =~= paid@);
    proof {
        texts(seen@).unique_seq_to_set();
    }
    if seen.len() > SEEN_CAP {
        let newest = sort_by_time(&paid, true);
        let keep_n = if newest.len() < SEEN_CAP { newest.len() } else { SEEN_CAP };
        let mut keep: Vec<String> = Vec::new();
        let mut k: usize = 0;
        assert(texts(keep@).to_set() =~= ids_of(newest@.take(0)));
        while k < keep_n
            invariant
                keep_n <= newest.len(),
                k <= keep_n,
                texts(keep@).no_duplicates(),
                texts(keep@).to_set() == ids_of(newest@.take(k as int)),
            decreases keep_n - k,
        {
            let ghost prefix = newest@.take(k as int);
            remember(&mut keep, &newest[k].id);
            proof {
                let t = newest@[k as int];
                assert(newest@.take(k + 1) =~= prefix.push(t));
                prefix.lemma_push_map_commute(|x: Transaction| x.id@, t);
                prefix.map_values(|x: Transaction| x.id@).lemma_push_to_set_commute(t.id@);
            }
            k = k + 1;
        }
        proof {
            assert forall|d: Seq<Transaction>| #[trigger]
                stable_time_order(paid@, d, true) implies texts(keep@).to_set() == remembered_ids(
                seen0,
                paid@,
                d,
            ) by {
                lemma_stable_time_order_unique(paid@, d, newest@, true);
            }
        }
        PollOutcome { memory: PollMemory { baselined: true, seen: keep }, paid, notify }
    } else {
        PollOutcome { memory: PollMemory { baselined: true, seen }, paid, notify }
    }
}


/// The fewest seconds allowed between polls.
pub const MIN_INTERVAL: u64 = 15;

/// The longest wait after a rate limit, in seconds.
pub const MAX_BACKOFF: u64 = 300;

/// The poll interval when none is configured, in seconds.
pub fn default_interval() -> (r: u64)
    ensures
        r == 60,
{
    60
}

/// The settings as stored: test mode unless told otherwise, and the stored
/// interval (60 s when missing) raised to at least `MIN_INTERVAL`.
pub open spec fn config_value(test_mode: Option<bool>, interval: Option<u64>) -> (bool, u64) {
    let i = match interval {
        Some(v) => v,
        None => 60,
    };
    (
        match test_mode {
            Some(b) => b,
            None => true,
        },
        if i < MIN_INTERVAL { MIN_INTERVAL } else { i },
    )
}

/// Reads `(test_mode, interval_secs)` out of the stored settings.
pub fn config_from_stored(test_mode: Option<bool>, interval: Option<u64>) -> (r: (bool, u64))
    ensures
        r == config_value(test_mode, interval),
        r.1 >= MIN_INTERVAL,
{
    let mode = match test_mode {
        Some(b) => b,
        None => true,
    };
    let secs = match interval {
        Some(v) => v,
        None => default_interval(),
    };
    (mode, if secs < MIN_INTERVAL { MIN_INTERVAL } else { secs })
}

/// What happened in one round of the poll loop.
pub enum PollEvent {
    /// No API key is stored.
    MissingKey,
    /// The page was fetched (and handed to `handle_transactions`).
    Fetched,
    /// The request failed.
    Failed(CreemError),
}

/// What the loop does next: the tray header to show, if any, and how long
/// to sleep (a settings change may wake it earlier).
pub struct PollStep {
    pub header: Option<String>,
    pub wait_secs: u64,
}

/// The header and wait that follow an event, for a poll interval.
pub open spec fn step_for(event: PollEvent, interval: u64) -> (Option<Seq<char>>, int) {
    match event {
        PollEvent::MissingKey => (Some("Not configured — open Settings"@), 30),
        PollEvent::Fetched => (None, interval as int),
        PollEvent::Failed(e) => match e {
            CreemError::Unauthorized => (Some("Invalid API key"@), 60),
            CreemError::RateLimited(retry) => {
                let wanted = match retry {
                    Some(r) => r as int,
                    None => interval as int,
                };
                (
                    Some("Rate limited — backing off"@),
                    if wanted < interval { interval as int } else if wanted > MAX_BACKOFF {
                        MAX_BACKOFF as int
                    } else {
                        wanted
                    },
                )
            },
            _ => (
                Some("Connection error — retrying"@),
                if interval < 30 { 30 } else { interval as int },
            ),
        },
    }
}

pub open spec fn header_view(h: Option<String>) -> Option<Seq<char>> {
    match h {
        Some(s) => Some(s@),
        None => None,
    }
}

/// Decides the header and the wait after a round of the poll loop. A rate
/// limit waits for the Retry-After seconds, kept between the interval and
/// `MAX_BACKOFF`; that clamp needs the interval not to exceed `MAX_BACKOFF`.
pub fn next_poll_step(event: &PollEvent, interval: u64) -> (r: PollStep)
    requires
        event matches PollEvent::Failed(CreemError::RateLimited(_)) ==> interval <= MAX_BACKOFF,
    ensures
        (header_view(r.header), r.wait_secs as int) == step_for(*event, interval),
        event matches PollEvent::Failed(CreemError::RateLimited(_)) ==> interval <= r.wait_secs
            <= MAX_BACKOFF,
        r.wait_secs >= if interval < 30 { interval } else { 30 },
{
    match event {
        PollEvent::MissingKey => PollStep {
            header: Some(String::from_str("Not configured — open Settings")),
            wait_secs: 30,
        },
        PollEvent::Fetched => PollStep { header: None, wait_secs: interval },
        PollEvent::Failed(CreemError::Unauthorized) => PollStep {
            header: Some(String::from_str("Invalid API key")),
            wait_secs: 60,
        },
        PollEvent::Failed(CreemError::RateLimited(retry)) => {
            let wanted = match retry {
                Some(r) => *r,
                None => interval,
            };
            let secs = if wanted < interval {
                interval
            } else if wanted > MAX_BACKOFF {
                MAX_BACKOFF
            } else {
                wanted
            };
            PollStep { header: Some(String::from_str("Rate limited — backing off")), wait_secs: secs }
        },
        PollEvent::Failed(_) => PollStep {
            header: Some(String::from_str("Connection error — retrying")),
            wait_secs: if interval < 30 { 30 } else { interval },
        },
    }
}

/// The amount a transaction brought in: `amount_paid` when present, else
/// `amount`.
pub open spec fn paid_amount(t: Transaction) -> i64 {
    match t.amount_paid {
        Some(a) => a,
        None => t.amount,
    }
}

/// The notification line for a new payment: its amount and its type label.
pub open spec fn notification_text(t: Transaction) -> Seq<char> {
    money_text(paid_amount(t) as int, t.currency@) + " — "@ + kind_label_text(t.kind@)
}

/// The body of the "New payment" notification for a transaction.
pub fn notification_body(t: &Transaction) -> (r: String)
    ensures
        r@ == notification_text(*t),
{
    let amount = match t.amount_paid {
        Some(a) => a,
        None => t.amount,
    };
    let mut body = fmt_money(amount, t.currency.as_str());
    body.append(" — ");
    body.append(kind_label(t.kind.as_str()));
    body
}

/// Selects the transactions created at or after `start`.
pub open spec fn since(start: i64) -> spec_fn(Transaction) -> bool {
    |t: Transaction| t.created_at >= start
}

/// The sum of the amounts brought in by a list of transactions.
pub open spec fn amount_sum(s: Seq<Transaction>) -> int
    decreases s.len(),
{
    if s.len() == 0 {
        0
    } else {
        amount_sum(s.drop_last()) + paid_amount(s.last())
    }
}

/// Adding the amounts up one by one never leaves the `i64` range.
pub open spec fn running_sums_fit(s: Seq<Transaction>) -> bool {
    forall|k: int| 0 <= k <= s.len() ==> i64::MIN <= #[trigger] amount_sum(s.take(k)) <= i64::MAX
}

/// The tray header: today's total in the currency of today's first payment,
/// and today's payment count.
pub open spec fn header_text(today: Seq<Transaction>) -> Seq<char> {
    let currency = if today.len() > 0 {
        today[0].currency@
    } else {
        Seq::<char>::empty()
    };
    "Today: "@ + money_text(amount_sum(today), currency) + " ("@ + decimal(today.len()) + ")"@
}

/// The tray's text: a header line and the newest payments' amounts.
pub struct TrayText {
    pub header: String,
    pub recent: Vec<String>,
}

/// Adds up the amounts of the payments made at or after `start`, or `None`
/// if the running sum leaves the `i64` range.
pub fn today_total(paid: &Vec<Transaction>, start: i64) -> (r: Option<i64>)
    ensures
        r is Some <==> running_sums_fit(paid@.filter(since(start))),
        r matches Some(v) ==> v == amount_sum(paid@.filter(since(start))),
{
    let n = paid.len();
    let mut total: i64 = 0;
    let mut i: usize = 0;
    let ghost today = paid@.filter(since(start));
    assert(paid@.take(0).filter(since(start)) =~= Seq::<Transaction>::empty()) by {
        reveal(Seq::filter);
    }
    while i < n
        invariant
            n == paid.len(),
            i <= n,
            today == paid@.filter(since(start)),
            total == amount_sum(paid@.take(i as int).filter(since(start))),
            paid@.take(i as int).filter(since(start)).len() <= today.len(),
            paid@.take(i as int).filter(since(start)) == today.take(
                paid@.take(i as int).filter(since(start)).len() as int,
            ),
            forall|k: int|
                0 <= k <= paid@.take(i as int).filter(since(start)).len() ==> i64::MIN
                    <= #[trigger] amount_sum(today.take(k)) <= i64::MAX,
        decreases n - i,
    {
        let ghost prefix = paid@.take(i as int);
        let ghost before = prefix.filter(since(start));
        proof {
            assert(paid@.take(i + 1) =~= prefix.push(paid@[i as int]));
            prefix.lemma_filter_push(paid@[i as int], since(start));
            lemma_filter_prefix(paid@, i as int + 1, since(start));
        }
        let t = &paid[i];
        if t.created_at >= start {
            let amount = match t.amount_paid {
                Some(a) => a,
                None => t.amount,
            };
            match total.checked_add(amount) {
                Some(v) => {
                    total = v;
                },
                None => {
                    proof {
                        let after = before.push(paid@[i as int]);
                        assert(after.drop_last() =~= before);
                        assert(today.take(after.len() as int) == after);
                        assert(!(i64::MIN <= amount_sum(today.take(after.len() as int)) <= i64::MAX));
                    }
                    return None;
                },
            }
            proof {
                let after = before.push(paid@[i as int]);
                assert(after.drop_last() =~= before);
            }
        }
        i = i + 1;
    }
    assert(paid@.take(n as int) =~= paid@);
    assert(today.take(today.len() as int) =~= today);
    Some(total)
}

/// Filtering a prefix gives a prefix of the filtered whole.
proof fn lemma_filter_prefix(s: Seq<Transaction>, i: int, p: spec_fn(Transaction) -> bool)
    requires
        0 <= i <= s.len(),
    ensures
        s.take(i).filter(p).len() <= s.filter(p).len(),
        s.take(i).filter(p) == s.filter(p).take(s.take(i).filter(p).len() as int),
    decreases s.len() - i,
{
    if i == s.len() {
        assert(s.take(i) =~= s);
    } else {
        lemma_filter_prefix(s, i + 1, p);
        assert(s.take(i + 1) =~= s.take(i).push(s[i]));
        s.take(i).lemma_filter_push(s[i], p);
        let short = s.take(i).filter(p);
        let long = s.take(i + 1).filter(p);
        assert(short =~= long.take(short.len() as int));
    }
}

/// `t` is the tray text for `paid` with today starting at `start`: the
/// header per `header_text`, and the amounts of the newest payments, newest
/// first, at most `RECENT_SLOTS` of them.
pub open spec fn tray_shows(paid: Seq<Transaction>, start: i64, t: TrayText) -> bool {
    &&& t.header@ == header_text(paid.filter(since(start)))
    &&& forall|newest: Seq<Transaction>| #[trigger]
        stable_time_order(paid, newest, true) ==> {
            &&& t.recent@.len() == if newest.len() < RECENT_SLOTS {
                newest.len()
            } else {
                RECENT_SLOTS as nat
            }
            &&& forall|i: int|
                0 <= i < t.recent@.len() ==> (#[trigger] t.recent@[i])@ == money_text(
                    paid_amount(newest[i]) as int,
                    newest[i].currency@,
                )
        }
}

/// The tray text for a page of payments (oldest first) and the local
/// start of today. `recent` holds the amounts of the newest payments,
/// newest first, at most `RECENT_SLOTS` of them.
pub fn tray_text(paid: &Vec<Transaction>, start_of_today: i64) -> (r: TrayText)
    requires
        running_sums_fit(paid@.filter(since(start_of_today))),
    ensures
        tray_shows(paid@, start_of_today, r),
        r.recent@.len() <= RECENT_SLOTS,
{
    let ghost today = paid@.filter(since(start_of_today));
    let total = match today_total(paid, start_of_today) {
        Some(v) => v,
        None => 0,
    };
    let n = paid.len();
    let mut count: usize = 0;
    let mut currency = String::new();
    let mut i: usize = 0;
    assert(paid@.take(0).filter(since(start_of_today)) =~= Seq::<Transaction>::empty()) by {
        reveal(Seq::filter);
    }
    while i < n
        invariant
            n == paid.len(),
            i <= n,
            today == paid@.filter(since(start_of_today)),
            count == paid@.take(i as int).filter(since(start_of_today)).len(),
            count <= i,
            currency@ == if count > 0 { today[0].currency@ } else { Seq::<char>::empty() },
            count <= today.len(),
            paid@.take(i as int).filter(since(start_of_today)) == today.take(count as int),
        decreases n - i,
    {
        proof {
            let prefix = paid@.take(i as int);
            assert(paid@.take(i + 1) =~= prefix.push(paid@[i as int]));
            prefix.lemma_filter_push(paid@[i as int], since(start_of_today));
            lemma_filter_prefix(paid@, i as int + 1, since(start_of_today));
        }
        if paid[i].created_at >= start_of_today {
            if count == 0 {
                currency = paid[i].currency.clone();
                proof {
                    assert(today.take(1)[0] == paid@[i as int]);
                }
            }
            count = count + 1;
        }
        i = i + 1;
    }
    assert(paid@.take(n as int) =~= paid@);
    assert(today.take(count as int) =~= today);
    let mut header = String::from_str("Today: ");
    let money = fmt_money(total, currency.as_str());
    header.append(money.as_str());
    header.append(" (");
    push_decimal(&mut header, count as u64);
    header.append(")");

    let newest = sort_by_time(paid, true);
    let shown = if newest.len() < RECENT_SLOTS { newest.len() } else { RECENT_SLOTS };
    let mut recent: Vec<String> = Vec::new();
    let mut k: usize = 0;
    while k < shown
        invariant
            shown <= newest.len(),
            k <= shown,
            recent@.len() == k,
            forall|j: int|
                0 <= j < k ==> (#[trigger] recent@[j])@ == money_text(
                    paid_amount(newest@[j]) as int,
                    newest@[j].currency@,
                ),
        decreases shown - k,
    {
        let t = &newest[k];
        let amount = match t.amount_paid {
            Some(a) => a,
            None => t.amount,
        };
        recent.push(fmt_money(amount, t.currency.as_str()));
        k = k + 1;
    }
    proof {
        assert forall|d: Seq<Transaction>| #[trigger] stable_time_order(paid@, d, true) implies d
            == newest@ by {
            lemma_stable_time_order_unique(paid@, d, newest@, true);
        }
    }
    TrayText { header, recent }
}

/// The tray text for a page of payments as of now, or `None` when today's
/// total does not fit in an `i64`.
pub fn tray_totals(paid: &Vec<Transaction>) -> (r: Option<TrayText>)
    ensures
        (forall|s: i64| #[trigger] running_sums_fit(paid@.filter(since(s)))) ==> r is Some,
        r matches Some(t) ==> exists|start: i64| #[trigger]
            running_sums_fit(paid@.filter(since(start))) && tray_shows(paid@, start, t),
        r matches Some(t) ==> t.recent@.len() <= RECENT_SLOTS,
{
    let start = start_of_today();
    match today_total(paid, start) {
        Some(_) => {
            let t = tray_text(paid, start);
            Some(t)
        },
        None => None,
    }
}

} // verus!
