//! Selecting items of a list without copying them.

use vstd::prelude::*;

verus! {

/// The items of a list whose mark is set, in the order of the list.
pub open spec fn marked<T>(items: Seq<T>, marks: Seq<bool>) -> Seq<T>
    decreases items.len(),
{
    if items.len() == 0 {
        Seq::empty()
    } else if marks.last() {
        marked(items.drop_last(), marks.drop_last()).push(items.last())
    } else {
        marked(items.drop_last(), marks.drop_last())
    }
}

/// The list in reverse order.
pub fn reversed<T>(items: Vec<T>) -> (back: Vec<T>)
    ensures
        back@ == items@.reverse(),
{
    let ghost all = items@;
    let mut items = items;
    let mut back: Vec<T> = Vec::new();
    while items.len() > 0
        invariant
            items@.len() <= all.len(),
            items@ == all.take(items@.len() as int),
            back@ == all.skip(items@.len() as int).reverse(),
        decreases items@.len(),
    {
        let ghost before = items@;
        let item = items.pop().unwrap();
        back.push(item);
        proof {
            assert(items@ =~= all.take(items@.len() as int));
            assert(item == all[items@.len() as int]);
            assert(back@ =~= all.skip(items@.len() as int).reverse());
        }
    }
    assert(all.skip(0) =~= all);
    back
}

/// Keeps the items whose mark is set, in their order.
pub fn keep_marked<T>(items: Vec<T>, marks: &Vec<bool>) -> (kept: Vec<T>)
    requires
        marks@.len() == items@.len(),
    ensures
        kept@ == marked(items@, marks@),
{
    let ghost all = items@;
    let total = items.len();
    let mut back = reversed(items);
    let mut kept: Vec<T> = Vec::new();
    let mut i: usize = 0;
    while i < total
        invariant
            i <= total,
            total == all.len(),
            marks@.len() == total,
            back@ == all.skip(i as int).reverse(),
            kept@ == marked(all.take(i as int), marks@.take(i as int)),
        decreases total - i,
    {
        let item = back.pop().unwrap();
        proof {
            assert(item == all[i as int]);
            assert(back@ =~= all.skip(i + 1).reverse());
            assert(all.take(i + 1).drop_last() =~= all.take(i as int));
            assert(marks@.take(i + 1).drop_last() =~= marks@.take(i as int));
            assert(all.take(i + 1).last() == all[i as int]);
            assert(marks@.take(i + 1).last() == marks@[i as int]);
        }
        if marks[i] {
            kept.push(item);
        }
        i += 1;
    }
    proof {
        assert(all.take(total as int) =~= all);
        assert(marks@.take(total as int) =~= marks@);
    }
    kept
}

/// Where each mark says whether the value of its item passes a test, the
/// values of the marked items are the values that pass the test.
pub proof fn lemma_marked_values<T, V>(
    items: Seq<T>,
    marks: Seq<bool>,
    value: spec_fn(T) -> V,
    test: spec_fn(V) -> bool,
)
    requires
        marks.len() == items.len(),
        forall|i: int| 0 <= i < items.len() ==> marks[i] == test(value(#[trigger] items[i])),
    ensures
        marked(items, marks).map_values(value) == items.map_values(value).filter(test),
    decreases items.len(),
{
    reveal(Seq::filter);
    let values = items.map_values(value);
    if items.len() == 0 {
        assert(marked(items, marks).map_values(value) =~= values.filter(test));
    } else {
        let front = items.drop_last();
        lemma_marked_values(front, marks.drop_last(), value, test);
        assert(values.drop_last() =~= front.map_values(value));
        assert(values.last() == value(items.last()));
        assert(marked(items, marks).map_values(value) =~= values.filter(test));
    }
}

} // verus!
