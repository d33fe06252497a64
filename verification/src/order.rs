//! The order of texts, and sorting that keeps the order of equals.
use crate::text::chars_of;
use vstd::prelude::*;

verus! {

// ---------------------------------------------------------------------------------------------
// The order of texts
// ---------------------------------------------------------------------------------------------

/// `left` stands before `right` in the order of their characters.
pub open spec fn precedes(left: Seq<char>, right: Seq<char>) -> bool
    decreases left.len(),
{
    if right.len() == 0 {
        false
    } else if left.len() == 0 {
        true
    } else if left[0] == right[0] {
        precedes(left.skip(1), right.skip(1))
    } else {
        left[0] < right[0]
    }
}

/// Of two different texts exactly one stands before the other.
pub proof fn lemma_precedes_total(left: Seq<char>, right: Seq<char>)
    ensures
        precedes(left, right) || precedes(right, left) || left == right,
        !(precedes(left, right) && precedes(right, left)),
        left == right ==> !precedes(left, right),
    decreases left.len(),
{
    if left.len() > 0 && right.len() > 0 && left[0] == right[0] {
        lemma_precedes_total(left.skip(1), right.skip(1));
        if left.skip(1) == right.skip(1) {
            assert forall|k: int| 0 <= k < left.len() implies left[k] == right[k] by {
                if k > 0 {
                    assert(left.skip(1)[k - 1] == left[k]);
                    assert(right.skip(1)[k - 1] == right[k]);
                }
            }
            assert(left.len() == right.len());
            assert(left == right);
        }
    } else if left.len() == 0 && right.len() == 0 {
        assert(left == right);
    }
}

/// The order of texts is transitive.
pub proof fn lemma_precedes_transitive(first: Seq<char>, second: Seq<char>, third: Seq<char>)
    requires
        precedes(first, second),
        precedes(second, third),
    ensures
        precedes(first, third),
    decreases first.len(),
{
    if first.len() > 0 && second.len() > 0 && third.len() > 0 && first[0] == second[0] && second[0]
        == third[0] {
        lemma_precedes_transitive(first.skip(1), second.skip(1), third.skip(1));
    }
}

/// Whether `left` stands before `right`.
pub fn text_precedes(left: &str, right: &str) -> (yes: bool)
    ensures
        yes == precedes(left@, right@),
{
    let first = chars_of(left);
    let second = chars_of(right);
    let mut i: usize = 0;
    assert(left@.skip(0) == left@);
    assert(right@.skip(0) == right@);
    while i < first.len() && i < second.len()
        invariant
            first@ == left@,
            second@ == right@,
            i <= first@.len(),
            i <= second@.len(),
            precedes(left@, right@) == precedes(left@.skip(i as int), right@.skip(i as int)),
        decreases first@.len() - i,
    {
        let ghost a = left@.skip(i as int);
        let ghost b = right@.skip(i as int);
        if first[i] != second[i] {
            assert(a[0] == left@[i as int] && b[0] == right@[i as int]);
            return first[i] < second[i];
        }
        assert(a[0] == b[0]);
        assert(a.skip(1) == left@.skip(i + 1));
        assert(b.skip(1) == right@.skip(i + 1));
        i += 1;
    }
    i < second.len()
}

// ---------------------------------------------------------------------------------------------
// Sorting
// ---------------------------------------------------------------------------------------------

/// Things that are listed in an order in which some may be tied.
pub trait Ranked: Sized {
    /// `self` may stand before `other`.
    spec fn ranks(self, other: Self) -> bool;

    /// Of two things at least one may stand before the other.
    proof fn ranks_total(left: Self, right: Self)
        ensures
            left.ranks(right) || right.ranks(left),
    ;

    /// The order is transitive.
    proof fn ranks_transitive(first: Self, second: Self, third: Self)
        requires
            first.ranks(second),
            second.ranks(third),
        ensures
            first.ranks(third),
    ;

    /// Whether `self` may stand before `other`.
    fn may_precede(&self, other: &Self) -> (yes: bool)
        ensures
            yes == self.ranks(*other),
    ;
}

/// The things that are tied with a given one.
pub open spec fn tied<T: Ranked>(item: T) -> spec_fn(T) -> bool {
    |other: T| item.ranks(other) && other.ranks(item)
}

/// Each thing may stand before all that come behind it.
pub open spec fn ordered<T: Ranked>(items: Seq<T>) -> bool {
    forall|i: int, j: int|
        0 <= i < j < items.len() ==> (#[trigger] items[i]).ranks(#[trigger] items[j])
}

/// `after` is `before` in order, and the things that are tied stand as they stood.
pub open spec fn sorts<T: Ranked>(before: Seq<T>, after: Seq<T>) -> bool {
    ordered(after) && forall|item: T|
        #[trigger] after.filter(tied(item)) == before.filter(tied(item))
}

/// Nothing is left where nothing satisfies the predicate.
pub proof fn lemma_filter_none<T>(items: Seq<T>, keep: spec_fn(T) -> bool)
    requires
        forall|i: int| 0 <= i < items.len() ==> !keep(#[trigger] items[i]),
    ensures
        items.filter(keep) == Seq::<T>::empty(),
    decreases items.len(),
{
    reveal(Seq::filter);
    if items.len() > 0 {
        assert forall|i: int| 0 <= i < items.drop_last().len() implies !keep(
            #[trigger] items.drop_last()[i],
        ) by {
            assert(items.drop_last()[i] == items[i]);
        }
        lemma_filter_none(items.drop_last(), keep);
        assert(!keep(items[items.len() - 1]));
    }
}

/// Where `item` goes in front of all that it may stand before, and behind all others, its ties
/// stand behind it.
proof fn lemma_insert<T: Ranked>(items: Seq<T>, item: T, at: int, class: T)
    requires
        0 <= at <= items.len(),
        forall|i: int| 0 <= i < at ==> !item.ranks(#[trigger] items[i]),
    ensures
        items.insert(at, item).filter(tied(class)) == (seq![item] + items).filter(tied(class)),
{
    let keep = tied(class);
    let head = items.take(at);
    let tail = items.skip(at);
    assert(items.insert(at, item) == head + (seq![item] + tail));
    assert(seq![item] + items == seq![item] + (head + tail));
    Seq::filter_distributes_over_add(head, seq![item] + tail, keep);
    Seq::filter_distributes_over_add(seq![item], tail, keep);
    Seq::filter_distributes_over_add(seq![item], head + tail, keep);
    Seq::filter_distributes_over_add(head, tail, keep);
    if keep(item) {
        assert forall|i: int| 0 <= i < head.len() implies !keep(#[trigger] head[i]) by {
            assert(head[i] == items[i]);
            if keep(head[i]) {
                T::ranks_transitive(item, class, head[i]);
            }
        }
        lemma_filter_none(head, keep);
        assert(head.filter(keep) + (seq![item].filter(keep) + tail.filter(keep)) == seq![
            item,
        ].filter(keep) + (head.filter(keep) + tail.filter(keep)));
    } else {
        assert(seq![item][0] == item);
        lemma_filter_none(seq![item], keep);
        assert(head.filter(keep) + (seq![item].filter(keep) + tail.filter(keep)) == seq![
            item,
        ].filter(keep) + (head.filter(keep) + tail.filter(keep)));
    }
}

/// Puts things in order; those that are tied stay in the order in which they came.
pub fn stable_sort<T: Ranked>(items: Vec<T>) -> (sorted: Vec<T>)
    ensures
        sorts(items@, sorted@),
        sorted@.len() == items@.len(),
{
    let ghost before = items@;
    let mut rest = items;
    let mut sorted: Vec<T> = Vec::new();
    proof {
        assert(before.skip(before.len() as int) == Seq::<T>::empty());
        assert(before.take(before.len() as int) == before);
    }
    while rest.len() > 0
        invariant
            rest@.len() <= before.len(),
            rest@ == before.take(rest@.len() as int),
            sorted@.len() + rest@.len() == before.len(),
            ordered(sorted@),
            forall|class: T| #[trigger]
                sorted@.filter(tied(class)) == before.skip(rest@.len() as int).filter(tied(class)),
        decreases rest@.len(),
    {
        let ghost count = rest@.len() as int;
        let ghost old_sorted = sorted@;
        let item = rest.pop().unwrap();
        assert(item == before[count - 1]);
        assert(rest@ == before.take(count - 1));
        let mut at: usize = 0;
        while at < sorted.len()
            invariant
                at <= sorted@.len(),
                forall|i: int| 0 <= i < at ==> !item.ranks(#[trigger] sorted@[i]),
            ensures
                at <= sorted@.len(),
                forall|i: int| 0 <= i < at ==> !item.ranks(#[trigger] sorted@[i]),
                at < sorted@.len() ==> item.ranks(sorted@[at as int]),
            decreases sorted@.len() - at,
        {
            if item.may_precede(&sorted[at]) {
                break;
            }
            at += 1;
        }
        sorted.insert(at, item);
        proof {
            let after = sorted@;
            assert(after == old_sorted.insert(at as int, item));
            assert forall|i: int, j: int| 0 <= i < j < after.len() implies (
            #[trigger] after[i]).ranks(#[trigger] after[j]) by {
                if j == at {
                    T::ranks_total(item, old_sorted[i]);
                } else if i == at {
                    if j - 1 > at {
                        T::ranks_transitive(item, old_sorted[at as int], old_sorted[j - 1]);
                    }
                } else if i < at && j > at {
                    assert(old_sorted[i].ranks(old_sorted[j - 1]));
                } else if i > at {
                    assert(old_sorted[i - 1].ranks(old_sorted[j - 1]));
                } else {
                    assert(old_sorted[i].ranks(old_sorted[j]));
                }
            }
            let tail = before.skip(count);
            assert(before.skip(count - 1) == seq![item] + tail);
            assert forall|class: T| #[trigger]
                after.filter(tied(class)) == before.skip(count - 1).filter(tied(class)) by {
                lemma_insert(old_sorted, item, at as int, class);
                Seq::filter_distributes_over_add(seq![item], old_sorted, tied(class));
                Seq::filter_distributes_over_add(seq![item], tail, tied(class));
                assert(old_sorted.filter(tied(class)) == tail.filter(tied(class)));
            }
        }
    }
    assert(before.skip(0) == before);
    sorted
}

/// What stands first among the tied is the first thing, where that is one of them.
proof fn lemma_first_tied<T: Ranked>(items: Seq<T>, class: T)
    requires
        items.len() > 0,
        tied(class)(items[0]),
    ensures
        items.filter(tied(class)) == seq![items[0]] + items.skip(1).filter(tied(class)),
{
    let first = seq![items[0]];
    assert(items == first + items.skip(1));
    Seq::filter_distributes_over_add(first, items.skip(1), tied(class));
    assert(first.filter(tied(class)) == first) by {
        reveal(Seq::filter);
        assert(first.drop_last() == Seq::<T>::empty());
        assert(first.last() == items[0]);
        assert(Seq::<T>::empty().push(items[0]) == first);
    }
}

proof fn lemma_one_result<T: Ranked>(left: Seq<T>, right: Seq<T>)
    requires
        ordered(left),
        ordered(right),
        forall|class: T| #[trigger] left.filter(tied(class)) == right.filter(tied(class)),
    ensures
        left == right,
    decreases left.len(),
{
    if left.len() == 0 {
        if right.len() > 0 {
            let class = right[0];
            T::ranks_total(class, class);
            lemma_first_tied(right, class);
            assert(left.filter(tied(class)) == right.filter(tied(class)));
            left.lemma_filter_len(tied(class));
        }
        assert(left == right);
    } else {
        let x = left[0];
        T::ranks_total(x, x);
        lemma_first_tied(left, x);
        assert(left.filter(tied(x)) == right.filter(tied(x)));
        right.lemma_filter_len(tied(x));
        let y = right[0];
        T::ranks_total(y, y);
        lemma_first_tied(right, y);
        assert(left.filter(tied(y)) == right.filter(tied(y)));
        lemma_leads(right, x);
        lemma_leads(left, y);
        lemma_first_tied(right, x);
        assert(left.filter(tied(x))[0] == x);
        assert(right.filter(tied(x))[0] == y);
        let a = left.skip(1);
        let b = right.skip(1);
        assert(ordered(a)) by {
            assert forall|i: int, j: int| 0 <= i < j < a.len() implies (#[trigger] a[i]).ranks(
                #[trigger] a[j],
            ) by {
                assert(left[i + 1].ranks(left[j + 1]));
            }
        }
        assert(ordered(b)) by {
            assert forall|i: int, j: int| 0 <= i < j < b.len() implies (#[trigger] b[i]).ranks(
                #[trigger] b[j],
            ) by {
                assert(right[i + 1].ranks(right[j + 1]));
            }
        }
        assert forall|class: T| #[trigger] a.filter(tied(class)) == b.filter(tied(class)) by {
            let keep = tied(class);
            let first = seq![x];
            assert(left == first + a);
            assert(right == first + b);
            Seq::filter_distributes_over_add(first, a, keep);
            Seq::filter_distributes_over_add(first, b, keep);
            assert(left.filter(keep) == right.filter(keep));
            let n = first.filter(keep).len() as int;
            assert((first.filter(keep) + a.filter(keep)).skip(n) == a.filter(keep));
            assert((first.filter(keep) + b.filter(keep)).skip(n) == b.filter(keep));
        }
        lemma_one_result(a, b);
        assert(left == seq![x] + a);
        assert(right == seq![x] + b);
    }
}

/// Sorting has only one result.
pub proof fn sorting_has_one_result<T: Ranked>(before: Seq<T>, left: Seq<T>, right: Seq<T>)
    requires
        sorts(before, left),
        sorts(before, right),
    ensures
        left == right,
{
    assert forall|class: T| #[trigger] left.filter(tied(class)) == right.filter(tied(class)) by {
        assert(left.filter(tied(class)) == before.filter(tied(class)));
        assert(right.filter(tied(class)) == before.filter(tied(class)));
    }
    lemma_one_result(left, right);
}

/// A filter that keeps a thing keeps all of its copies.
proof fn lemma_filter_copies<T>(items: Seq<T>, keep: spec_fn(T) -> bool, item: T)
    requires
        keep(item),
    ensures
        items.filter(keep).to_multiset().count(item) == items.to_multiset().count(item),
    decreases items.len(),
{
    reveal(Seq::filter);
    if items.len() > 0 {
        let rest = items.drop_last();
        lemma_filter_copies(rest, keep, item);
        rest.to_multiset_ensures();
        rest.filter(keep).to_multiset_ensures();
        assert(rest.push(items.last()) == items);
    }
}

/// Sorting loses nothing and adds nothing.
pub proof fn sorting_keeps_everything<T: Ranked>(before: Seq<T>, after: Seq<T>)
    requires
        sorts(before, after),
    ensures
        after.to_multiset() == before.to_multiset(),
        after.len() == before.len(),
{
    assert forall|item: T| #[trigger] after.to_multiset().count(item)
        == before.to_multiset().count(item) by {
        T::ranks_total(item, item);
        assert(tied(item)(item));
        assert(after.filter(tied(item)) == before.filter(tied(item)));
        lemma_filter_copies(after, tied(item), item);
        lemma_filter_copies(before, tied(item), item);
    }
    assert(after.to_multiset() =~= before.to_multiset());
    after.to_multiset_ensures();
    before.to_multiset_ensures();
}

/// The first of an ordered sequence may stand before whatever is tied with one of its things.
proof fn lemma_leads<T: Ranked>(right: Seq<T>, x: T)
    requires
        ordered(right),
        right.len() > 0,
        right.filter(tied(x)).len() > 0,
    ensures
        right[0].ranks(x),
{
    let keep = tied(x);
    let found = right.filter(keep)[0];
    right.lemma_filter_pred(keep, 0);
    lemma_filter_source(right, keep, 0);
    let i = choose|i: int| 0 <= i < right.len() && #[trigger] right[i] == found;
    if i > 0 {
        T::ranks_transitive(right[0], right[i], x);
    }
}

/// What a filter keeps comes from what it was given.
pub proof fn lemma_filter_source<T>(items: Seq<T>, keep: spec_fn(T) -> bool, j: int)
    requires
        0 <= j < items.filter(keep).len(),
    ensures
        exists|i: int| 0 <= i < items.len() && #[trigger] items[i] == items.filter(keep)[j],
    decreases items.len(),
{
    reveal(Seq::filter);
    if items.len() > 0 {
        let shorter = items.drop_last();
        if j < shorter.filter(keep).len() {
            lemma_filter_source(shorter, keep, j);
            let i = choose|i: int|
                0 <= i < shorter.len() && #[trigger] shorter[i] == shorter.filter(keep)[j];
            assert(items[i] == items.filter(keep)[j]);
        } else {
            assert(items[items.len() - 1] == items.filter(keep)[j]);
        }
    }
}

/// Everything is left where everything satisfies the predicate.
pub proof fn lemma_filter_all<T>(items: Seq<T>, keep: spec_fn(T) -> bool)
    requires
        forall|k: int| 0 <= k < items.len() ==> keep(#[trigger] items[k]),
    ensures
        items.filter(keep) == items,
    decreases items.len(),
{
    reveal(Seq::filter);
    if items.len() > 0 {
        let shorter = items.drop_last();
        assert forall|k: int| 0 <= k < shorter.len() implies keep(#[trigger] shorter[k]) by {
            assert(items[k] == shorter[k]);
        }
        lemma_filter_all(shorter, keep);
        assert(keep(items[items.len() - 1]));
        assert(shorter.push(items.last()) == items);
    }
}

/// Something is left exactly where it was there and satisfies the predicate.
pub proof fn lemma_filter_has<T>(items: Seq<T>, keep: spec_fn(T) -> bool, item: T)
    ensures
        items.filter(keep).contains(item) <==> items.contains(item) && keep(item),
{
    if items.filter(keep).contains(item) {
        let j = choose|j: int| 0 <= j < items.filter(keep).len() && items.filter(keep)[j] == item;
        items.lemma_filter_pred(keep, j);
        lemma_filter_source(items, keep, j);
    }
    if items.contains(item) && keep(item) {
        let i = choose|i: int| 0 <= i < items.len() && items[i] == item;
        items.lemma_filter_contains(keep, i);
    }
}

/// Of two texts with the same start the one stands before the other whose next character is the
/// smaller, and one that ends stands before one that goes on.
pub proof fn the_first_difference_decides(
    start: Seq<char>,
    left: Seq<char>,
    right: Seq<char>,
)
    ensures
        left.len() > 0 && right.len() > 0 && left[0] != right[0] ==> (precedes(
            start + left,
            start + right,
        ) <==> left[0] < right[0]),
        right.len() > 0 ==> precedes(start, start + right),
        !precedes(start, start),
    decreases start.len(),
{
    if start.len() == 0 {
        assert(start + left == left);
        assert(start + right == right);
        assert(start == Seq::<char>::empty());
    } else {
        let rest = start.skip(1);
        the_first_difference_decides(rest, left, right);
        assert((start + left).skip(1) == rest + left);
        assert((start + right).skip(1) == rest + right);
        assert((start + left)[0] == start[0] && (start + right)[0] == start[0]);
    }
}

/// Sorting puts nothing behind what it should stand before, keeps the order of what is tied, and
/// leaves what is in order as it is.
pub proof fn sorted_things_are_in_order<T: Ranked>(before: Seq<T>, after: Seq<T>, i: int, j: int)
    requires
        sorts(before, after),
        0 <= i < j < after.len(),
    ensures
        after[i].ranks(after[j]),
        ordered(before) ==> after == before,
{
    if ordered(before) {
        assert(sorts(before, before));
        sorting_has_one_result(before, before, after);
    }
}

} // verus!
