//! The tray menu's dynamic lines.

use vstd::prelude::*;

verus! {

/// How many recent payments the tray menu lists.
pub const RECENT_SLOTS: usize = 5;

/// The label of slot `i`: the `i`-th recent line, or a dash when there are
/// fewer lines than slots.
pub open spec fn slot_label(recent: Seq<Seq<char>>, i: int) -> Seq<char> {
    if i < recent.len() {
        recent[i]
    } else {
        "—"@
    }
}

/// The labels for the `RECENT_SLOTS` menu lines.
pub fn slot_labels(recent: &Vec<String>) -> (r: Vec<String>)
    ensures
        r@.len() == RECENT_SLOTS,
        forall|i: int|
            0 <= i < RECENT_SLOTS ==> (#[trigger] r@[i])@ == slot_label(
                recent@.map_values(|s: String| s@),
                i,
            ),
{
    let mut r: Vec<String> = Vec::new();
    let mut i: usize = 0;
    while i < RECENT_SLOTS
        invariant
            i <= RECENT_SLOTS,
            r@.len() == i,
            forall|j: int|
                0 <= j < i ==> (#[trigger] r@[j])@ == slot_label(
                    recent@.map_values(|s: String| s@),
                    j,
                ),
        decreases RECENT_SLOTS - i,
    {
        if i < recent.len() {
            r.push(recent[i].clone());
        } else {
            r.push(String::from_str("—"));
        }
        i = i + 1;
    }
    r
}

} // verus!
