//! Properties of the notification ledger that span several polls.

use vstd::prelude::*;

use crate::creem::Transaction;
use crate::order::{
    in_time_order, lemma_stable_time_order_same_elements, stable_time_order, time_key,
};
use crate::poller::{
    fresh_payments, ids_of, kept_count, paid_only, remembered_ids, stored_memory, texts,
    PollMemoryView, SEEN_CAP,
};
use crate::text::equal_ignoring_ascii_case;

verus! {

proof fn lemma_ids_of_push(s: Seq<Transaction>, t: Transaction)
    ensures
        ids_of(s.push(t)) == ids_of(s).insert(t.id@),
{
    s.lemma_push_map_commute(|x: Transaction| x.id@, t);
    s.map_values(|x: Transaction| x.id@).lemma_push_to_set_commute(t.id@);
}

proof fn lemma_ids_of_contains(s: Seq<Transaction>, i: int)
    requires
        0 <= i < s.len(),
    ensures
        ids_of(s).contains(s[i].id@),
{
    assert(s.map_values(|x: Transaction| x.id@)[i] == s[i].id@);
}

proof fn lemma_ids_of_member(s: Seq<Transaction>, x: Seq<char>) -> (i: int)
    requires
        ids_of(s).contains(x),
    ensures
        0 <= i < s.len(),
        s[i].id@ == x,
{
    let m = s.map_values(|t: Transaction| t.id@);
    assert(m.contains(x));
    let i = choose|i: int| 0 <= i < m.len() && m[i] == x;
    i
}

/// The payments announced for a batch are exactly its payments with new
/// ids, one per id: the announced ids are the batch's ids minus the known
/// ones, no id is announced twice, every announced transaction comes from
/// the batch, and an oldest-first batch is announced oldest first.
pub proof fn lemma_fresh_payments_are_the_new_ids(paid: Seq<Transaction>, seen: Set<Seq<char>>)
    ensures
        ids_of(fresh_payments(paid, seen)) == ids_of(paid).difference(seen),
        forall|i: int, j: int|
            0 <= i < j < fresh_payments(paid, seen).len() ==> (#[trigger] fresh_payments(
                paid,
                seen,
            )[i]).id@ != (#[trigger] fresh_payments(paid, seen)[j]).id@,
        forall|i: int|
            0 <= i < fresh_payments(paid, seen).len() ==> paid.contains(
                #[trigger] fresh_payments(paid, seen)[i],
            ),
        in_time_order(paid, false) ==> in_time_order(fresh_payments(paid, seen), false),
    decreases paid.len(),
{
    if paid.len() == 0 {
        assert(ids_of(paid) =~= Set::<Seq<char>>::empty());
        assert(ids_of(fresh_payments(paid, seen)) =~= Set::<Seq<char>>::empty());
        assert(ids_of(paid).difference(seen) =~= Set::<Seq<char>>::empty());
    } else {
        let earlier = paid.drop_last();
        let t = paid.last();
        let before = fresh_payments(earlier, seen);
        let fresh = fresh_payments(paid, seen);
        lemma_fresh_payments_are_the_new_ids(earlier, seen);
        assert(paid =~= earlier.push(t));
        lemma_ids_of_push(earlier, t);
        if seen.contains(t.id@) || ids_of(earlier).contains(t.id@) {
            assert(fresh == before);
            assert(ids_of(fresh) =~= ids_of(paid).difference(seen));
            assert forall|i: int| 0 <= i < fresh.len() implies paid.contains(#[trigger] fresh[i]) by {
                let j = choose|j: int| 0 <= j < earlier.len() && earlier[j] == fresh[i];
                assert(paid[j] == fresh[i]);
            }
            if in_time_order(paid, false) {
                assert(in_time_order(earlier, false)) by {
                    assert forall|a: int, b: int| 0 <= a < b < earlier.len() implies time_key(
                        #[trigger] earlier[a],
                        false,
                    ) <= time_key(#[trigger] earlier[b], false) by {
                        assert(earlier[a] == paid[a] && earlier[b] == paid[b]);
                    }
                }
            }
        } else {
            assert(fresh == before.push(t));
            lemma_ids_of_push(before, t);
            assert(ids_of(fresh) =~= ids_of(paid).difference(seen));
            assert forall|i: int, j: int| 0 <= i < j < fresh.len() implies (#[trigger] fresh[i]).id@
                != (#[trigger] fresh[j]).id@ by {
                if j == fresh.len() - 1 {
                    assert(fresh[i] == before[i]);
                    lemma_ids_of_contains(before, i);
                } else {
                    assert(fresh[i] == before[i] && fresh[j] == before[j]);
                }
            }
            assert forall|i: int| 0 <= i < fresh.len() implies paid.contains(#[trigger] fresh[i]) by {
                if i == fresh.len() - 1 {
                    assert(paid[paid.len() - 1] == fresh[i]);
                } else {
                    assert(fresh[i] == before[i]);
                    let j = choose|j: int| 0 <= j < earlier.len() && earlier[j] == before[i];
                    assert(paid[j] == fresh[i]);
                }
            }
            if in_time_order(paid, false) {
                assert(in_time_order(earlier, false)) by {
                    assert forall|a: int, b: int| 0 <= a < b < earlier.len() implies time_key(
                        #[trigger] earlier[a],
                        false,
                    ) <= time_key(#[trigger] earlier[b], false) by {
                        assert(earlier[a] == paid[a] && earlier[b] == paid[b]);
                    }
                }
                assert forall|a: int, b: int| 0 <= a < b < fresh.len() implies time_key(
                    #[trigger] fresh[a],
                    false,
                ) <= time_key(#[trigger] fresh[b], false) by {
                    if b == fresh.len() - 1 {
                        assert(fresh[a] == before[a]);
                        let j = choose|j: int| 0 <= j < earlier.len() && earlier[j] == before[a];
                        assert(paid[j] == fresh[a]);
                        assert(paid[paid.len() - 1] == fresh[b]);
                    } else {
                        assert(fresh[a] == before[a] && fresh[b] == before[b]);
                    }
                }
            }
        }
    }
}

/// A stable ordering holds the same ids as its input.
proof fn lemma_stable_order_same_ids(a: Seq<Transaction>, b: Seq<Transaction>, newest_first: bool)
    requires
        stable_time_order(a, b, newest_first),
    ensures
        a.len() == b.len(),
        ids_of(a) == ids_of(b),
{
    lemma_stable_time_order_same_elements(a, b, newest_first);
    assert forall|x: Seq<char>| ids_of(a).contains(x) implies ids_of(b).contains(x) by {
        let i = lemma_ids_of_member(a, x);
        assert(b.contains(a[i]));
        let j = choose|j: int| 0 <= j < b.len() && b[j] == a[i];
        lemma_ids_of_contains(b, j);
    }
    assert forall|x: Seq<char>| ids_of(b).contains(x) implies ids_of(a).contains(x) by {
        let i = lemma_ids_of_member(b, x);
        assert(a.contains(b[i]));
        let j = choose|j: int| 0 <= j < a.len() && a[j] == b[i];
        lemma_ids_of_contains(a, j);
    }
    assert(ids_of(a) =~= ids_of(b));
}

/// The poll's batch survives the trim whole: it holds at most `SEEN_CAP`
/// payments, or the known ids and the batch's ids together are at most
/// `SEEN_CAP`, so that nothing is trimmed.
pub open spec fn batch_fits(seen: Set<Seq<char>>, paid: Seq<Transaction>) -> bool {
    paid.len() <= SEEN_CAP || seen.union(ids_of(paid)).len() <= SEEN_CAP
}

/// After a poll whose batch fits (see `batch_fits`), every id of the batch
/// is remembered.
pub proof fn lemma_batch_ids_are_remembered(
    seen: Set<Seq<char>>,
    paid: Seq<Transaction>,
    newest: Seq<Transaction>,
)
    requires
        seen.finite(),
        stable_time_order(paid, newest, true),
        batch_fits(seen, paid),
    ensures
        ids_of(paid).subset_of(remembered_ids(seen, paid, newest)),
{
    if seen.union(ids_of(paid)).len() > SEEN_CAP {
        lemma_stable_order_same_ids(paid, newest, true);
        assert(newest.take(kept_count(newest.len())) =~= newest);
    }
}

/// The ledger never grows past `SEEN_CAP` ids once it has been trimmed, and
/// otherwise holds at most `SEEN_CAP` ids.
pub proof fn lemma_remembered_ids_bounded(
    seen: Set<Seq<char>>,
    paid: Seq<Transaction>,
    newest: Seq<Transaction>,
)
    requires
        seen.finite(),
    ensures
        remembered_ids(seen, paid, newest).len() <= SEEN_CAP,
        remembered_ids(seen, paid, newest).finite(),
{
    broadcast use vstd::seq_lib::seq_to_set_is_finite;
    let merged = seen.union(ids_of(paid));
    if merged.len() > SEEN_CAP {
        let kept = newest.take(kept_count(newest.len()));
        kept.map_values(|t: Transaction| t.id@).lemma_cardinality_of_set();
    }
}

/// A payment announced by one poll is never announced by the next one,
/// whatever that next poll fetches, as long as the first poll's batch fits
/// (see `batch_fits`).
pub proof fn lemma_no_payment_announced_twice(
    seen: Set<Seq<char>>,
    paid: Seq<Transaction>,
    newest: Seq<Transaction>,
    next_paid: Seq<Transaction>,
)
    requires
        seen.finite(),
        stable_time_order(paid, newest, true),
        batch_fits(seen, paid),
    ensures
        forall|i: int, j: int|
            0 <= i < fresh_payments(paid, seen).len() && 0 <= j < fresh_payments(
                next_paid,
                remembered_ids(seen, paid, newest),
            ).len() ==> (#[trigger] fresh_payments(paid, seen)[i]).id@ != (
            #[trigger] fresh_payments(next_paid, remembered_ids(seen, paid, newest))[j]).id@,
{
    let first = fresh_payments(paid, seen);
    let after = remembered_ids(seen, paid, newest);
    let second = fresh_payments(next_paid, after);
    lemma_fresh_payments_are_the_new_ids(paid, seen);
    lemma_fresh_payments_are_the_new_ids(next_paid, after);
    lemma_batch_ids_are_remembered(seen, paid, newest);
    assert forall|i: int, j: int| 0 <= i < first.len() && 0 <= j < second.len() implies (
    #[trigger] first[i]).id@ != (#[trigger] second[j]).id@ by {
        lemma_ids_of_contains(first, i);
        lemma_ids_of_contains(second, j);
        let p = choose|p: int| 0 <= p < paid.len() && paid[p] == first[i];
        lemma_ids_of_contains(paid, p);
    }
}

/// Polling the same page again right after announces nothing and leaves
/// the remembered ids as they are, provided the page fits (see
/// `batch_fits`).
pub proof fn lemma_same_page_twice_is_silent(
    seen: Set<Seq<char>>,
    paid: Seq<Transaction>,
    newest: Seq<Transaction>,
)
    requires
        seen.finite(),
        stable_time_order(paid, newest, true),
        batch_fits(seen, paid),
    ensures
        fresh_payments(paid, remembered_ids(seen, paid, newest)) == Seq::<Transaction>::empty(),
        remembered_ids(remembered_ids(seen, paid, newest), paid, newest) == remembered_ids(
            seen,
            paid,
            newest,
        ),
{
    let after = remembered_ids(seen, paid, newest);
    lemma_batch_ids_are_remembered(seen, paid, newest);
    lemma_remembered_ids_bounded(seen, paid, newest);
    lemma_fresh_payments_are_the_new_ids(paid, after);
    let again = fresh_payments(paid, after);
    if again.len() > 0 {
        lemma_ids_of_contains(again, 0);
        assert(ids_of(paid).difference(after).contains(again[0].id@));
    }
    assert(again =~= Seq::<Transaction>::empty());
    assert(after.union(ids_of(paid)) =~= after);
}

/// Persisting the memory (its flag and its ids, in any order and with any
/// repetition) and reading it back gives the same memory.
pub proof fn lemma_persisted_memory_reads_back(memory: PollMemoryView, ids: Seq<String>)
    requires
        texts(ids).to_set() == memory.seen,
    ensures
        stored_memory(Some(memory.baselined), Some(ids)) == memory,
{
}


/// Only payments count: the oldest-first payments of a page are exactly
/// the page's transactions whose status is `paid` (in any ASCII case) and
/// whose id is not empty, and every payment announced from them is one.
pub proof fn lemma_only_paid_transactions_count(
    txs: Seq<Transaction>,
    paid: Seq<Transaction>,
    seen: Set<Seq<char>>,
)
    requires
        stable_time_order(txs.filter(paid_only()), paid, false),
    ensures
        forall|i: int|
            0 <= i < paid.len() ==> equal_ignoring_ascii_case((#[trigger] paid[i]).status@, "paid"@)
                && paid[i].id@.len() > 0 && txs.contains(paid[i]),
        forall|i: int|
            0 <= i < txs.len() && equal_ignoring_ascii_case((#[trigger] txs[i]).status@, "paid"@)
                && txs[i].id@.len() > 0 ==> paid.contains(txs[i]),
        forall|i: int|
            0 <= i < fresh_payments(paid, seen).len() ==> equal_ignoring_ascii_case(
                (#[trigger] fresh_payments(paid, seen)[i]).status@,
                "paid"@,
            ) && fresh_payments(paid, seen)[i].id@.len() > 0,
{
    let kept = txs.filter(paid_only());
    lemma_stable_time_order_same_elements(kept, paid, false);
    assert forall|i: int| 0 <= i < paid.len() implies equal_ignoring_ascii_case(
        (#[trigger] paid[i]).status@,
        "paid"@,
    ) && paid[i].id@.len() > 0 && txs.contains(paid[i]) by {
        assert(kept.contains(paid[i]));
        let j = choose|j: int| 0 <= j < kept.len() && kept[j] == paid[i];
        txs.lemma_filter_pred(paid_only(), j);
        txs.lemma_filter_contains_rev(paid_only(), paid[i]);
    }
    assert forall|i: int|
        0 <= i < txs.len() && equal_ignoring_ascii_case((#[trigger] txs[i]).status@, "paid"@)
            && txs[i].id@.len() > 0 implies paid.contains(txs[i]) by {
        txs.lemma_filter_contains(paid_only(), i);
    }
    lemma_fresh_payments_are_the_new_ids(paid, seen);
    assert forall|i: int| 0 <= i < fresh_payments(paid, seen).len() implies equal_ignoring_ascii_case(
        (#[trigger] fresh_payments(paid, seen)[i]).status@,
        "paid"@,
    ) && fresh_payments(paid, seen)[i].id@.len() > 0 by {
        let t = fresh_payments(paid, seen)[i];
        assert(paid.contains(t));
        let j = choose|j: int| 0 <= j < paid.len() && paid[j] == t;
        assert(equal_ignoring_ascii_case(paid[j].status@, "paid"@));
    }
}

} // verus!
