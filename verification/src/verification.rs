//! The check that the recorded custody chain of a product is physically
//! plausible.
//!
//! The events of a product are taken in the order of their timestamps, and
//! among equal timestamps in the order in which they were recorded. The
//! chain is valid when every event and the one that follows it directly in
//! that order form an allowed step.

use crate::events::{EventView, TrackingEvent};
use crate::ledger::event_views;
use vstd::prelude::*;
use vstd::string::*;

verus! {

/// Whether an event of the type `next` may directly follow one of the type
/// `prev`.
pub open spec fn allowed_step(prev: Seq<char>, next: Seq<char>) -> bool {
    ||| prev == "PRODUCED"@ && next == "TRANSPORT"@
    ||| prev == "TRANSPORT"@ && next == "WAREHOUSE"@
    ||| prev == "WAREHOUSE"@ && next == "RETAIL"@
}

/// Whether the event at position `i` comes before the one at position `j`:
/// it has the earlier timestamp, or the same and the earlier position.
pub open spec fn comes_before(history: Seq<EventView>, i: int, j: int) -> bool {
    history[i].timestamp < history[j].timestamp || (history[i].timestamp == history[j].timestamp
        && i < j)
}

/// Whether the event at position `j` follows the one at position `i` with
/// no event between them.
#[verifier::opaque]
pub open spec fn follows_directly(history: Seq<EventView>, i: int, j: int) -> bool {
    &&& comes_before(history, i, j)
    &&& forall|k: int|
        0 <= k < history.len() ==> !(#[trigger] comes_before(history, i, k) && comes_before(
            history,
            k,
            j,
        ))
}

/// Whether every event and its direct follower form an allowed step.
pub open spec fn chain_is_valid(history: Seq<EventView>) -> bool {
    forall|i: int, j: int|
        0 <= i < history.len() && 0 <= j < history.len() && #[trigger] follows_directly(
            history,
            i,
            j,
        ) ==> allowed_step(history[i].event_type, history[j].event_type)
}

/// Whether `order` lists every position of `history` below `count` once, in
/// the order of [`comes_before`].
#[verifier::opaque]
pub open spec fn sorts(history: Seq<EventView>, order: Seq<usize>, count: int) -> bool {
    &&& order.len() == count
    &&& forall|a: int| 0 <= a < order.len() ==> 0 <= #[trigger] order[a] < count
    &&& forall|a: int, b: int|
        0 <= a < b < order.len() ==> comes_before(
            history,
            #[trigger] order[a] as int,
            #[trigger] order[b] as int,
        )
    &&& forall|i: int| 0 <= i < count ==> #[trigger] lists(order, i)
}

/// Whether `order` holds the position `i`.
pub open spec fn lists(order: Seq<usize>, i: int) -> bool {
    exists|a: int| 0 <= a < order.len() && #[trigger] order[a] == i
}

/// Whether the events that `order` lists at `a` and behind it form an allowed
/// step.
pub open spec fn step_at(history: Seq<EventView>, order: Seq<usize>, a: int) -> bool {
    allowed_step(
        history[order[a] as int].event_type,
        history[order[a + 1] as int].event_type,
    )
}

/// Whether an event of the type `next` may directly follow one of the type
/// `prev`.
pub fn step_allowed(prev: &String, next: &String) -> (allowed: bool)
    ensures
        allowed == allowed_step(prev@, next@),
{
    let produced = String::from_str("PRODUCED");
    let transport = String::from_str("TRANSPORT");
    let warehouse = String::from_str("WAREHOUSE");
    let retail = String::from_str("RETAIL");
    (*prev == produced && *next == transport) || (*prev == transport && *next == warehouse) || (
    *prev == warehouse && *next == retail)
}

/// The positions of `history` in the order of their timestamps, positions
/// with one timestamp in ascending order.
pub fn order_by_time(history: &Vec<TrackingEvent>) -> (order: Vec<usize>)
    ensures
        sorts(event_views(history@), order@, history@.len() as int),
{
    let ghost h = event_views(history@);
    let mut order: Vec<usize> = Vec::new();
    let mut next: usize = 0;
    proof {
        reveal(sorts);
    }
    while next < history.len()
        invariant
            next <= history@.len(),
            h == event_views(history@),
            sorts(h, order@, next as int),
        decreases history@.len() - next,
    {
        proof {
            reveal(sorts);
        }
        let stamp = history[next].timestamp;
        let mut at: usize = order.len();
        while at > 0 && history[order[at - 1]].timestamp > stamp
            invariant
                at <= order@.len(),
                next < history@.len(),
                h == event_views(history@),
                stamp == h[next as int].timestamp,
                sorts(h, order@, next as int),
                forall|a: int| 0 <= a < order@.len() ==> 0 <= #[trigger] order@[a] < next,
                forall|a: int|
                    at <= a < order@.len() ==> h[#[trigger] order@[a] as int].timestamp > stamp,
            decreases at,
        {
            proof {
                reveal(sorts);
            }
            at -= 1;
        }
        let ghost before = order@;
        order.insert(at, next);
        proof {
            let after = order@;
            assert forall|a: int, b: int| 0 <= a < b < after.len() implies comes_before(
                h,
                #[trigger] after[a] as int,
                #[trigger] after[b] as int,
            ) by {
                if b < at {
                    assert(after[a] == before[a] && after[b] == before[b]);
                } else if b == at {
                    assert(after[a] == before[a]);
                    if at > 0 {
                        assert(h[before[at - 1] as int].timestamp <= stamp);
                        if a < at - 1 {
                            assert(comes_before(h, before[a] as int, before[at - 1] as int));
                        }
                    }
                } else if a < at {
                    assert(after[a] == before[a] && after[b] == before[b - 1]);
                } else if a == at {
                    assert(after[b] == before[b - 1]);
                } else {
                    assert(after[a] == before[a - 1] && after[b] == before[b - 1]);
                }
            }
            assert forall|i: int| 0 <= i < next + 1 implies #[trigger] lists(after, i) by {
                if i == next {
                    assert(after[at as int] == i);
                } else {
                    assert(lists(before, i));
                    let a = choose|a: int| 0 <= a < before.len() && #[trigger] before[a] == i;
                    if a < at {
                        assert(after[a] == i);
                    } else {
                        assert(after[a + 1] == i);
                    }
                }
            }
            assert forall|a: int| 0 <= a < after.len() implies 0 <= #[trigger] after[a] < next
                + 1 by {
                if a < at {
                    assert(after[a] == before[a]);
                } else if a > at {
                    assert(after[a] == before[a - 1]);
                }
            }
        }
        next += 1;
    }
    order
}

/// Whether the custody chain that the events record is valid. A history of
/// one event, or of none, is valid: it has no step to check.
pub fn verify_chain(history: &Vec<TrackingEvent>) -> (valid: bool)
    ensures
        valid == chain_is_valid(event_views(history@)),
{
    let ghost h = event_views(history@);
    let order = order_by_time(history);
    let mut at: usize = 1;
    proof {
        lemma_sorted_bounds(h, order@);
    }
    while at < order.len()
        invariant
            1 <= at,
            h == event_views(history@),
            sorts(h, order@, history@.len() as int),
            forall|a: int| 0 <= a < order@.len() ==> 0 <= #[trigger] order@[a] < history@.len(),
            forall|a: int| 0 <= a && a + 1 < at ==> #[trigger] step_at(h, order@, a),
        decreases order@.len() - at,
    {
        let prev = &history[order[at - 1]];
        let next = &history[order[at]];
        if !step_allowed(&prev.event_type, &next.event_type) {
            proof {
                lemma_neighbours_follow_directly(h, order@, at - 1);
            }
            return false;
        }
        assert(step_at(h, order@, at - 1));
        at += 1;
    }
    proof {
        assert forall|i: int, j: int|
            0 <= i < h.len() && 0 <= j < h.len() && #[trigger] follows_directly(
                h,
                i,
                j,
            ) implies allowed_step(h[i].event_type, h[j].event_type) by {
            lemma_direct_followers_are_neighbours(h, order@, i, j);
            let a = choose|a: int|
                0 <= a && a + 1 < order@.len() && #[trigger] order@[a] == i && order@[a + 1] == j;
            assert(step_at(h, order@, a));
        }
    }
    true
}

/// A sorted listing holds positions of the history only.
proof fn lemma_sorted_bounds(history: Seq<EventView>, order: Seq<usize>)
    requires
        sorts(history, order, history.len() as int),
    ensures
        order.len() == history.len(),
        forall|a: int| 0 <= a < order.len() ==> 0 <= #[trigger] order[a] < history.len(),
{
    reveal(sorts);
}

/// In a sorted listing, an earlier position holds the earlier event.
proof fn lemma_sorted_positions(history: Seq<EventView>, order: Seq<usize>, a: int, b: int)
    requires
        sorts(history, order, history.len() as int),
        0 <= a < order.len(),
        0 <= b < order.len(),
        comes_before(history, order[a] as int, order[b] as int),
    ensures
        a < b,
{
    reveal(sorts);
    if b < a {
        assert(comes_before(history, order[b] as int, order[a] as int));
    }
}

/// Neighbours of a sorted listing follow each other directly.
proof fn lemma_neighbours_follow_directly(history: Seq<EventView>, order: Seq<usize>, a: int)
    requires
        sorts(history, order, history.len() as int),
        0 <= a,
        a + 1 < order.len(),
    ensures
        follows_directly(history, order[a] as int, order[a + 1] as int),
{
    reveal(sorts);
    reveal(follows_directly);
    let i = order[a] as int;
    let j = order[a + 1] as int;
    assert forall|k: int| 0 <= k < history.len() implies !(#[trigger] comes_before(history, i, k)
        && comes_before(history, k, j)) by {
        if comes_before(history, i, k) && comes_before(history, k, j) {
            assert(lists(order, k));
            let c = choose|c: int| 0 <= c < order.len() && #[trigger] order[c] == k;
            lemma_sorted_positions(history, order, a, c);
            lemma_sorted_positions(history, order, c, a + 1);
        }
    }
}

/// Events that follow each other directly are neighbours of a sorted
/// listing.
proof fn lemma_direct_followers_are_neighbours(
    history: Seq<EventView>,
    order: Seq<usize>,
    i: int,
    j: int,
)
    requires
        sorts(history, order, history.len() as int),
        0 <= i < history.len(),
        0 <= j < history.len(),
        follows_directly(history, i, j),
    ensures
        exists|a: int|
            0 <= a && a + 1 < order.len() && #[trigger] order[a] == i && order[a + 1] == j,
{
    reveal(sorts);
    reveal(follows_directly);
    assert(lists(order, i) && lists(order, j));
    let a = choose|a: int| 0 <= a < order.len() && #[trigger] order[a] == i;
    let b = choose|b: int| 0 <= b < order.len() && #[trigger] order[b] == j;
    lemma_sorted_positions(history, order, a, b);
    if b > a + 1 {
        let k = order[a + 1] as int;
        assert(comes_before(history, order[a] as int, order[a + 1] as int));
        assert(comes_before(history, order[a + 1] as int, order[b] as int));
        assert(comes_before(history, i, k) && comes_before(history, k, j));
    }
    assert(order[a] == i && order[a + 1] == j);
}

/// A history of at most one event is valid.
pub proof fn lemma_short_chain_is_valid(history: Seq<EventView>)
    requires
        history.len() <= 1,
    ensures
        chain_is_valid(history),
{
    reveal(follows_directly);
}

} // verus!
