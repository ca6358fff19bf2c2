//! Orders on texts and lists of texts, and a stable sort for ranked items.

use vstd::prelude::*;
use crate::text;

verus! {

/// Whether `left` comes before `right` in the order of their code points,
/// which is also the order of their UTF-8 bytes.
pub open spec fn text_before(left: Seq<char>, right: Seq<char>) -> bool
    decreases left.len(),
{
    if right.len() == 0 {
        false
    } else if left.len() == 0 {
        true
    } else if left[0] != right[0] {
        left[0] < right[0]
    } else {
        text_before(left.skip(1), right.skip(1))
    }
}

/// No text comes before itself.
pub proof fn lemma_text_before_irreflexive(a: Seq<char>)
    ensures
        !text_before(a, a),
    decreases a.len(),
{
    if a.len() > 0 {
        lemma_text_before_irreflexive(a.skip(1));
    }
}

/// The order of texts is transitive.
pub proof fn lemma_text_before_transitive(a: Seq<char>, b: Seq<char>, c: Seq<char>)
    requires
        text_before(a, b),
        text_before(b, c),
    ensures
        text_before(a, c),
    decreases a.len(),
{
    if a.len() > 0 && a[0] == b[0] && b[0] == c[0] {
        lemma_text_before_transitive(a.skip(1), b.skip(1), c.skip(1));
    }
}

/// Of two different texts one comes before the other, and not both.
pub proof fn lemma_text_before_total(a: Seq<char>, b: Seq<char>)
    ensures
        a == b || text_before(a, b) || text_before(b, a),
        !(text_before(a, b) && text_before(b, a)),
    decreases a.len(),
{
    if a.len() > 0 && b.len() > 0 {
        if a[0] == b[0] {
            lemma_text_before_total(a.skip(1), b.skip(1));
            if a.skip(1) == b.skip(1) {
                assert(a =~= seq![a[0]] + a.skip(1));
                assert(b =~= seq![b[0]] + b.skip(1));
            }
        }
    } else if a.len() == 0 && b.len() == 0 {
        assert(a =~= b);
    }
}

/// All that holds between three texts by their order.
pub proof fn lemma_text_order(a: Seq<char>, b: Seq<char>, c: Seq<char>)
    ensures
        a == b || text_before(a, b) || text_before(b, a),
        b == c || text_before(b, c) || text_before(c, b),
        a == c || text_before(a, c) || text_before(c, a),
        !(text_before(a, b) && text_before(b, a)),
        !(text_before(b, c) && text_before(c, b)),
        !(text_before(a, c) && text_before(c, a)),
        !text_before(a, a),
        text_before(a, b) && text_before(b, c) ==> text_before(a, c),
        text_before(c, b) && text_before(b, a) ==> text_before(c, a),
{
    lemma_text_before_total(a, b);
    lemma_text_before_total(b, c);
    lemma_text_before_total(a, c);
    lemma_text_before_total(a, a);
    if text_before(a, b) && text_before(b, c) {
        lemma_text_before_transitive(a, b, c);
    }
    if text_before(c, b) && text_before(b, a) {
        lemma_text_before_transitive(c, b, a);
    }
}

/// Whether `left` comes before `right`.
pub fn comes_before(left: &str, right: &str) -> (b: bool)
    ensures
        b == text_before(left@, right@),
{
    let a = text::chars_of(left);
    let c = text::chars_of(right);
    let mut i: usize = 0;
    assert(a@.skip(0) == a@);
    assert(c@.skip(0) == c@);
    while i < a.len() && i < c.len() && a[i] == c[i]
        invariant
            a@ == left@,
            c@ == right@,
            i <= a@.len(),
            i <= c@.len(),
            text_before(left@, right@) == text_before(a@.skip(i as int), c@.skip(i as int)),
        decreases a@.len() - i,
    {
        assert(a@.skip(i as int).skip(1) == a@.skip(i + 1));
        assert(c@.skip(i as int).skip(1) == c@.skip(i + 1));
        i += 1;
    }
    if i == c.len() {
        false
    } else if i == a.len() {
        true
    } else {
        a[i] < c[i]
    }
}

/// Whether one list of texts comes before another: by the first place where
/// they differ, a list before its extensions.
pub open spec fn texts_before(left: Seq<Seq<char>>, right: Seq<Seq<char>>) -> bool
    decreases left.len(),
{
    if right.len() == 0 {
        false
    } else if left.len() == 0 {
        true
    } else if left[0] != right[0] {
        text_before(left[0], right[0])
    } else {
        texts_before(left.skip(1), right.skip(1))
    }
}

/// The order of lists of texts is transitive.
pub proof fn lemma_texts_before_transitive(
    a: Seq<Seq<char>>,
    b: Seq<Seq<char>>,
    c: Seq<Seq<char>>,
)
    requires
        texts_before(a, b),
        texts_before(b, c),
    ensures
        texts_before(a, c),
    decreases a.len(),
{
    if a.len() > 0 {
        if a[0] == b[0] && b[0] == c[0] {
            lemma_texts_before_transitive(a.skip(1), b.skip(1), c.skip(1));
        } else if a[0] != b[0] && b[0] != c[0] {
            lemma_text_before_transitive(a[0], b[0], c[0]);
            if a[0] == c[0] {
                lemma_text_before_irreflexive(a[0]);
            }
        }
    }
}

/// Of two different lists of texts one comes before the other, and not both.
pub proof fn lemma_texts_before_total(a: Seq<Seq<char>>, b: Seq<Seq<char>>)
    ensures
        a == b || texts_before(a, b) || texts_before(b, a),
        !(texts_before(a, b) && texts_before(b, a)),
    decreases a.len(),
{
    if a.len() > 0 && b.len() > 0 {
        if a[0] == b[0] {
            lemma_texts_before_total(a.skip(1), b.skip(1));
            if a.skip(1) == b.skip(1) {
                assert(a =~= seq![a[0]] + a.skip(1));
                assert(b =~= seq![b[0]] + b.skip(1));
            }
        } else {
            lemma_text_before_total(a[0], b[0]);
        }
    } else if a.len() == 0 && b.len() == 0 {
        assert(a =~= b);
    }
}

/// Whether the list `left` comes before the list `right`.
pub fn texts_come_before(left: &Vec<String>, right: &Vec<String>) -> (b: bool)
    ensures
        b == texts_before(text::views(left@), text::views(right@)),
{
    let ghost l = text::views(left@);
    let ghost r = text::views(right@);
    let mut i: usize = 0;
    assert(l.skip(0) == l);
    assert(r.skip(0) == r);
    while i < left.len() && i < right.len() && text::text_eq(left[i].as_str(), right[i].as_str())
        invariant
            l == text::views(left@),
            r == text::views(right@),
            i <= left@.len(),
            i <= right@.len(),
            texts_before(l, r) == texts_before(l.skip(i as int), r.skip(i as int)),
        decreases left@.len() - i,
    {
        assert(l.skip(i as int).skip(1) == l.skip(i + 1));
        assert(r.skip(i as int).skip(1) == r.skip(i + 1));
        i += 1;
    }
    if i == right.len() {
        false
    } else if i == left.len() {
        true
    } else {
        comes_before(left[i].as_str(), right[i].as_str())
    }
}

// ---------------------------------------------------------------------------
// Stable sorting

/// Items with a rank: `precedes` is a strict order up to ties.
pub trait Ranked: Sized {
    /// Whether this item ranks strictly before the other.
    spec fn precedes(&self, other: &Self) -> bool;

    /// Ranks are ordered: two items do not precede each other, and an item
    /// that does not follow a second, which does not follow a third, does not
    /// follow the third.
    proof fn rank_order(a: &Self, b: &Self, c: &Self)
        ensures
            !(a.precedes(b) && b.precedes(a)),
            !b.precedes(a) && !c.precedes(b) ==> !c.precedes(a),
    ;

    /// Whether this item ranks strictly before the other.
    fn ranks_before(&self, other: &Self) -> (b: bool)
        ensures
            b == self.precedes(other),
    ;
}

/// Where `item` goes in `sorted`: behind the last item that it does not precede.
pub open spec fn insert_at<T: Ranked>(sorted: Seq<T>, item: T) -> int
    decreases sorted.len(),
{
    if sorted.len() > 0 && item.precedes(&sorted.last()) {
        insert_at(sorted.drop_last(), item)
    } else {
        sorted.len() as int
    }
}

/// `sorted` with `item` at its place.
pub open spec fn insert_ranked<T: Ranked>(sorted: Seq<T>, item: T) -> Seq<T> {
    sorted.insert(insert_at(sorted, item), item)
}

/// The items by rank; items that tie keep their order.
pub open spec fn ranked<T: Ranked>(items: Seq<T>) -> Seq<T>
    decreases items.len(),
{
    if items.len() == 0 {
        items
    } else {
        insert_ranked(ranked(items.drop_last()), items.last())
    }
}

/// Whether no item precedes an earlier one.
pub open spec fn in_rank_order<T: Ranked>(items: Seq<T>) -> bool {
    forall|i: int, j: int|
        #![trigger items[i], items[j]]
        0 <= i < j < items.len() ==> !items[j].precedes(&items[i])
}

proof fn lemma_insert_at_range<T: Ranked>(sorted: Seq<T>, item: T)
    ensures
        0 <= insert_at(sorted, item) <= sorted.len(),
        forall|k: int|
            insert_at(sorted, item) <= k < sorted.len() ==> item.precedes(&#[trigger] sorted[k]),
        insert_at(sorted, item) > 0 ==> !item.precedes(&sorted[insert_at(sorted, item) - 1]),
    decreases sorted.len(),
{
    if sorted.len() > 0 && item.precedes(&sorted.last()) {
        lemma_insert_at_range(sorted.drop_last(), item);
        let at = insert_at(sorted.drop_last(), item);
        assert forall|k: int| at <= k < sorted.len() implies item.precedes(
            &#[trigger] sorted[k],
        ) by {
            if k < sorted.len() - 1 {
                assert(sorted.drop_last()[k] == sorted[k]);
            }
        }
    }
}

/// Inserting at its place keeps the rank order.
proof fn lemma_insert_ranked<T: Ranked>(sorted: Seq<T>, item: T)
    requires
        in_rank_order(sorted),
    ensures
        in_rank_order(insert_ranked(sorted, item)),
{
    lemma_insert_at_range(sorted, item);
    let at = insert_at(sorted, item);
    let out = insert_ranked(sorted, item);
    assert forall|i: int, j: int|
        #![trigger out[i], out[j]]
        0 <= i < j < out.len() implies !out[j].precedes(&out[i]) by {
        if j == at {
            assert(out[j] == item);
            assert(out[i] == sorted[i]);
            assert(!item.precedes(&sorted[at - 1]));
            if i < at - 1 {
                assert(!sorted[at - 1].precedes(&sorted[i]));
                T::rank_order(&sorted[i], &sorted[at - 1], &item);
            }
        } else if i == at {
            assert(out[j] == sorted[j - 1]);
            T::rank_order(&item, &sorted[j - 1], &item);
        } else {
            let a = if i < at { i } else { i - 1 };
            let b = if j < at { j } else { j - 1 };
            assert(out[i] == sorted[a]);
            assert(out[j] == sorted[b]);
        }
    }
}

/// Whether two items rank alike.
pub open spec fn ranks_alike<T: Ranked>(a: T, b: T) -> bool {
    !a.precedes(&b) && !b.precedes(&a)
}

/// The items that rank like one, in order.
pub open spec fn alike<T: Ranked>(items: Seq<T>, item: T) -> Seq<T>
    decreases items.len(),
{
    if items.len() == 0 {
        items
    } else if ranks_alike(items.last(), item) {
        alike(items.drop_last(), item).push(items.last())
    } else {
        alike(items.drop_last(), item)
    }
}

proof fn lemma_alike_concat<T: Ranked>(a: Seq<T>, b: Seq<T>, item: T)
    ensures
        alike(a + b, item) == alike(a, item) + alike(b, item),
    decreases b.len(),
{
    if b.len() == 0 {
        assert(a + b =~= a);
        assert(alike(a, item) + alike(b, item) =~= alike(a, item));
    } else {
        assert((a + b).drop_last() =~= a + b.drop_last());
        lemma_alike_concat(a, b.drop_last(), item);
        assert(alike(a + b, item) =~= alike(a, item) + alike(b, item));
    }
}

proof fn lemma_none_alike<T: Ranked>(items: Seq<T>, item: T)
    requires
        forall|i: int| 0 <= i < items.len() ==> !ranks_alike(#[trigger] items[i], item),
    ensures
        alike(items, item) == Seq::<T>::empty(),
    decreases items.len(),
{
    if items.len() > 0 {
        assert(!ranks_alike(items[items.len() - 1], item));
        lemma_none_alike(items.drop_last(), item);
    } else {
        assert(items =~= Seq::<T>::empty());
    }
}

proof fn lemma_insert_keeps_alike<T: Ranked>(sorted: Seq<T>, new: T, item: T)
    requires
        in_rank_order(sorted),
    ensures
        alike(insert_ranked(sorted, new), item) == alike(sorted.push(new), item),
{
    lemma_insert_at_range(sorted, new);
    let at = insert_at(sorted, new);
    let before = sorted.take(at);
    let behind = sorted.skip(at);
    assert(sorted =~= before + behind);
    assert(insert_ranked(sorted, new) =~= before + seq![new] + behind);
    assert(sorted.push(new) =~= before + behind + seq![new]);
    lemma_alike_concat(before + seq![new], behind, item);
    lemma_alike_concat(before, seq![new], item);
    lemma_alike_concat(before + behind, seq![new], item);
    lemma_alike_concat(before, behind, item);
    reveal_with_fuel(alike, 2);
    assert(seq![new].drop_last() =~= Seq::<T>::empty());
    if ranks_alike(new, item) {
        assert forall|i: int| 0 <= i < behind.len() implies !ranks_alike(
            #[trigger] behind[i],
            item,
        ) by {
            assert(behind[i] == sorted[at + i]);
            assert(new.precedes(&sorted[at + i]));
            T::rank_order(&behind[i], &item, &new);
            T::rank_order(&new, &item, &behind[i]);
            T::rank_order(&new, &behind[i], &item);
        }
        lemma_none_alike(behind, item);
    }
    assert(alike(insert_ranked(sorted, new), item) =~= alike(sorted.push(new), item));
}

/// The sort is stable: items that rank alike keep their order.
pub proof fn lemma_ranked_is_stable<T: Ranked>(items: Seq<T>, item: T)
    ensures
        alike(ranked(items), item) == alike(items, item),
    decreases items.len(),
{
    if items.len() > 0 {
        let rest = items.drop_last();
        lemma_ranked_is_stable(rest, item);
        lemma_ranked(rest);
        lemma_insert_keeps_alike(ranked(rest), items.last(), item);
        assert(ranked(rest).push(items.last()).drop_last() =~= ranked(rest));
    }
}

/// Sorting puts the items in rank order and neither adds nor drops one.
pub proof fn lemma_ranked<T: Ranked>(items: Seq<T>)
    ensures
        in_rank_order(ranked(items)),
        ranked(items).to_multiset() == items.to_multiset(),
        ranked(items).len() == items.len(),
    decreases items.len(),
{
    if items.len() > 0 {
        let rest = items.drop_last();
        lemma_ranked(rest);
        lemma_insert_ranked(ranked(rest), items.last());
        lemma_insert_at_range(ranked(rest), items.last());
        let at = insert_at(ranked(rest), items.last());
        ranked(rest).to_multiset_ensures();
        rest.to_multiset_ensures();
        vstd::seq_lib::to_multiset_insert(ranked(rest), at, items.last());
        assert(items =~= rest.push(items.last()));
        assert(rest.push(items.last()).to_multiset() =~= rest.to_multiset().insert(items.last()));
    }
}

/// What holds of every item of a list holds of every item of the list in another
/// order.
pub proof fn lemma_all_in_any_order<T>(list: Seq<T>, other: Seq<T>, holds: spec_fn(T) -> bool)
    requires
        other.to_multiset() == list.to_multiset(),
        forall|i: int| 0 <= i < list.len() ==> holds(#[trigger] list[i]),
    ensures
        forall|i: int| 0 <= i < other.len() ==> holds(#[trigger] other[i]),
        forall|item: T| list.contains(item) == #[trigger] other.contains(item),
{
    list.to_multiset_ensures();
    other.to_multiset_ensures();
    assert forall|item: T| list.contains(item) == #[trigger] other.contains(item) by {
        assert(list.contains(item) == (list.to_multiset().count(item) > 0));
        assert(other.contains(item) == (other.to_multiset().count(item) > 0));
    }
    assert forall|i: int| 0 <= i < other.len() implies holds(#[trigger] other[i]) by {
        assert(other.contains(other[i]));
        let k = choose|k: int| 0 <= k < list.len() && list[k] == other[i];
        assert(holds(list[k]));
    }
}

/// Where any two items of a list are apart, so are any two items of the list in
/// another order.
pub proof fn lemma_apart_in_any_order<T>(
    list: Seq<T>,
    other: Seq<T>,
    apart: spec_fn(T, T) -> bool,
    k: int,
    l: int,
)
    requires
        other.to_multiset() == list.to_multiset(),
        0 <= k < l < other.len(),
        forall|x: T, y: T| #[trigger] apart(x, y) == apart(y, x),
        forall|i: int, j: int|
            #![trigger list[i], list[j]]
            0 <= i < j < list.len() ==> apart(list[i], list[j]),
    ensures
        apart(other[k], other[l]),
{
    list.to_multiset_ensures();
    other.to_multiset_ensures();
    let x = other[k];
    let y = other[l];
    assert(other.contains(x) && other.contains(y));
    assert(other.to_multiset().count(x) > 0 && other.to_multiset().count(y) > 0);
    assert(list.contains(x) && list.contains(y));
    let a = choose|a: int| 0 <= a < list.len() && list[a] == x;
    let b = choose|b: int| 0 <= b < list.len() && list[b] == y;
    if a != b {
        if a < b {
            assert(apart(list[a], list[b]));
        } else {
            assert(apart(list[b], list[a]));
        }
    } else {
        // The item stands twice in `other`, so it stands twice in `list`.
        let rest = other.remove(l);
        vstd::seq_lib::to_multiset_remove(other, l);
        rest.to_multiset_ensures();
        assert(rest[k] == x);
        assert(rest.contains(x));
        assert(rest.to_multiset().count(x) >= 1);
        assert(other.to_multiset().count(x) >= 2);
        let left = list.remove(a);
        vstd::seq_lib::to_multiset_remove(list, a);
        left.to_multiset_ensures();
        assert(left.to_multiset().count(x) >= 1);
        assert(left.contains(x));
        let c = choose|c: int| 0 <= c < left.len() && left[c] == x;
        let d = if c < a {
            c
        } else {
            c + 1
        };
        assert(list[d] == x);
        if d < a {
            assert(apart(list[d], list[a]));
        } else {
            assert(apart(list[a], list[d]));
        }
    }
}

/// Sorts by rank; items that tie keep their order.
pub fn sort_ranked<T: Ranked>(items: Vec<T>) -> (out: Vec<T>)
    ensures
        out@ == ranked(items@),
{
    let mut rest = items;
    let mut sorted: Vec<T> = Vec::new();
    let ghost all = items@;
    let ghost mut done: int = 0;
    assert(all.take(0) == Seq::<T>::empty());
    while rest.len() > 0
        invariant
            0 <= done <= all.len(),
            rest@ == all.skip(done),
            sorted@ == ranked(all.take(done)),
        decreases rest@.len(),
    {
        let item = rest.remove(0);
        proof {
            assert(item == all[done]);
            assert(all.take(done + 1).drop_last() == all.take(done));
            lemma_insert_at_range(sorted@, item);
        }
        let mut at: usize = sorted.len();
        assert(sorted@.take(at as int) == sorted@);
        while at > 0 && item.ranks_before(&sorted[at - 1])
            invariant
                at <= sorted@.len(),
                insert_at(sorted@.take(at as int), item) == insert_at(sorted@, item),
            decreases at,
        {
            assert(sorted@.take(at as int).drop_last() == sorted@.take(at - 1));
            at -= 1;
        }
        sorted.insert(at, item);
        proof {
            done = done + 1;
        }
    }
    assert(all.take(done) == all);
    sorted
}

impl Ranked for String {
    open spec fn precedes(&self, other: &Self) -> bool {
        text_before(self@, other@)
    }

    proof fn rank_order(a: &Self, b: &Self, c: &Self) {
        lemma_text_before_total(a@, b@);
        lemma_text_before_total(b@, c@);
        lemma_text_before_total(a@, c@);
        if !text_before(b@, a@) && !text_before(c@, b@) && text_before(c@, a@) {
            if text_before(a@, b@) {
                lemma_text_before_transitive(c@, a@, b@);
            } else {
                assert(a@ == b@);
            }
        }
    }

    fn ranks_before(&self, other: &Self) -> (b: bool) {
        comes_before(self.as_str(), other.as_str())
    }
}

// ---------------------------------------------------------------------------
// Sorted lists without repetition

/// A strict order of texts in which texts may tie.
pub trait TextOrder: Sized {
    /// Whether `a` comes before `b`.
    spec fn before(a: Seq<char>, b: Seq<char>) -> bool;

    /// The order is strict and transitive, also through ties.
    proof fn order_laws(a: Seq<char>, b: Seq<char>, c: Seq<char>)
        ensures
            !(Self::before(a, b) && Self::before(b, a)),
            Self::before(a, b) && Self::before(b, c) ==> Self::before(a, c),
            Self::before(a, b) && !Self::before(b, c) && !Self::before(c, b) ==> Self::before(a, c),
            !Self::before(a, b) && !Self::before(b, a) && Self::before(b, c) ==> Self::before(a, c),
    ;

    /// Whether `a` comes before `b`.
    fn is_before(a: &str, b: &str) -> (r: bool)
        ensures
            r == Self::before(a@, b@),
    ;
}

/// `list`, which is ascending, with `item` at its place, unless `item` ties
/// with one that is there.
pub open spec fn placed<O: TextOrder>(list: Seq<Seq<char>>, item: Seq<char>) -> Seq<Seq<char>>
    decreases list.len(),
{
    if list.len() == 0 || O::before(list.last(), item) {
        list.push(item)
    } else if O::before(item, list.last()) {
        placed::<O>(list.drop_last(), item).push(list.last())
    } else {
        list
    }
}

/// The items in ascending order; of items that tie, the first one only.
pub open spec fn distinct<O: TextOrder>(items: Seq<Seq<char>>) -> Seq<Seq<char>>
    decreases items.len(),
{
    if items.len() == 0 {
        items
    } else {
        placed::<O>(distinct::<O>(items.drop_last()), items.last())
    }
}

/// Whether each item comes before the ones behind it.
pub open spec fn ascending<O: TextOrder>(items: Seq<Seq<char>>) -> bool {
    forall|i: int, j: int|
        #![trigger items[i], items[j]]
        0 <= i < j < items.len() ==> O::before(items[i], items[j])
}

/// Whether `item` ties with `other`.
pub open spec fn ties<O: TextOrder>(item: Seq<char>, other: Seq<char>) -> bool {
    !O::before(item, other) && !O::before(other, item)
}

proof fn lemma_placed<O: TextOrder>(list: Seq<Seq<char>>, item: Seq<char>)
    requires
        ascending::<O>(list),
    ensures
        ascending::<O>(placed::<O>(list, item)),
        forall|k: int|
            0 <= k < placed::<O>(list, item).len() ==> list.contains(
                #[trigger] placed::<O>(list, item)[k],
            ) || placed::<O>(list, item)[k] == item,
        forall|k: int|
            0 <= k < list.len() ==> placed::<O>(list, item).contains(#[trigger] list[k]),
        exists|k: int|
            0 <= k < placed::<O>(list, item).len() && ties::<O>(
                #[trigger] placed::<O>(list, item)[k],
                item,
            ),
    decreases list.len(),
{
    O::order_laws(item, item, item);
    let out = placed::<O>(list, item);
    if list.len() == 0 || O::before(list.last(), item) {
        assert(out[out.len() - 1] == item);
        assert forall|i: int, j: int|
            #![trigger out[i], out[j]]
            0 <= i < j < out.len() implies O::before(out[i], out[j]) by {
            if j == list.len() && i < list.len() - 1 {
                O::order_laws(list[i], list.last(), item);
            }
        }
        assert forall|k: int| 0 <= k < list.len() implies out.contains(#[trigger] list[k]) by {
            assert(out[k] == list[k]);
        }
        assert forall|k: int| 0 <= k < out.len() implies list.contains(#[trigger] out[k]) || out[k]
            == item by {
            if k < list.len() {
                assert(list[k] == out[k]);
            }
        }
    } else if O::before(item, list.last()) {
        let shorter = list.drop_last();
        lemma_placed::<O>(shorter, item);
        let inner = placed::<O>(shorter, item);
        assert forall|i: int, j: int|
            #![trigger out[i], out[j]]
            0 <= i < j < out.len() implies O::before(out[i], out[j]) by {
            if j == inner.len() {
                assert(out[i] == inner[i]);
                if inner[i] != item {
                    assert(shorter.contains(inner[i]));
                    let k = choose|k: int| 0 <= k < shorter.len() && shorter[k] == inner[i];
                    assert(O::before(list[k], list[list.len() - 1]));
                }
            } else {
                assert(out[i] == inner[i] && out[j] == inner[j]);
            }
        }
        assert forall|k: int| 0 <= k < list.len() implies out.contains(#[trigger] list[k]) by {
            if k < shorter.len() {
                assert(inner.contains(shorter[k]));
                let m = choose|m: int| 0 <= m < inner.len() && inner[m] == shorter[k];
                assert(out[m] == list[k]);
            } else {
                assert(out[inner.len() as int] == list[k]);
            }
        }
        assert forall|k: int| 0 <= k < out.len() implies list.contains(#[trigger] out[k]) || out[k]
            == item by {
            if k < inner.len() {
                assert(out[k] == inner[k]);
                if shorter.contains(inner[k]) {
                    let m = choose|m: int| 0 <= m < shorter.len() && shorter[m] == inner[k];
                    assert(list[m] == out[k]);
                }
            } else {
                assert(list[list.len() - 1] == out[k]);
            }
        }
        let m = choose|m: int| 0 <= m < inner.len() && ties::<O>(#[trigger] inner[m], item);
        assert(out[m] == inner[m]);
    } else {
        assert(ties::<O>(out[out.len() - 1], item));
    }
}

/// Whether an item of the list ties with `item`.
pub open spec fn has_tie<O: TextOrder>(list: Seq<Seq<char>>, item: Seq<char>) -> bool {
    exists|k: int| 0 <= k < list.len() && ties::<O>(#[trigger] list[k], item)
}

proof fn lemma_distinct_ascending<O: TextOrder>(items: Seq<Seq<char>>)
    ensures
        ascending::<O>(distinct::<O>(items)),
    decreases items.len(),
{
    if items.len() > 0 {
        lemma_distinct_ascending::<O>(items.drop_last());
        lemma_placed::<O>(distinct::<O>(items.drop_last()), items.last());
    }
}

proof fn lemma_distinct_member<O: TextOrder>(items: Seq<Seq<char>>, item: Seq<char>)
    requires
        distinct::<O>(items).contains(item),
    ensures
        items.contains(item),
    decreases items.len(),
{
    let rest = items.drop_last();
    let inner = distinct::<O>(rest);
    lemma_distinct_ascending::<O>(rest);
    lemma_placed::<O>(inner, items.last());
    let out = distinct::<O>(items);
    let k = choose|k: int| 0 <= k < out.len() && out[k] == item;
    if item == items.last() {
        assert(items[items.len() - 1] == item);
    } else {
        assert(inner.contains(out[k]));
        lemma_distinct_member::<O>(rest, item);
        let n = choose|n: int| 0 <= n < rest.len() && rest[n] == item;
        assert(items[n] == item);
    }
}

proof fn lemma_distinct_covers<O: TextOrder>(items: Seq<Seq<char>>, i: int)
    requires
        0 <= i < items.len(),
    ensures
        has_tie::<O>(distinct::<O>(items), items[i]),
    decreases items.len(),
{
    let rest = items.drop_last();
    let inner = distinct::<O>(rest);
    lemma_distinct_ascending::<O>(rest);
    lemma_placed::<O>(inner, items.last());
    let out = distinct::<O>(items);
    if i < rest.len() {
        lemma_distinct_covers::<O>(rest, i);
        let m = choose|m: int| 0 <= m < inner.len() && ties::<O>(#[trigger] inner[m], rest[i]);
        assert(out.contains(inner[m]));
        let k = choose|k: int| 0 <= k < out.len() && out[k] == inner[m];
        assert(ties::<O>(out[k], items[i]));
    }
}

/// A list without repetition is ascending, holds items of the list only, and
/// for each of them one that ties with it.
pub proof fn lemma_distinct<O: TextOrder>(items: Seq<Seq<char>>)
    ensures
        ascending::<O>(distinct::<O>(items)),
        forall|item: Seq<char>|
            #[trigger] distinct::<O>(items).contains(item) ==> items.contains(item),
        forall|i: int|
            0 <= i < items.len() ==> has_tie::<O>(distinct::<O>(items), #[trigger] items[i]),
{
    lemma_distinct_ascending::<O>(items);
    assert forall|item: Seq<char>| #[trigger]
        distinct::<O>(items).contains(item) implies items.contains(item) by {
        lemma_distinct_member::<O>(items, item);
    }
    assert forall|i: int| 0 <= i < items.len() implies has_tie::<O>(
        distinct::<O>(items),
        #[trigger] items[i],
    ) by {
        lemma_distinct_covers::<O>(items, i);
    }
}

proof fn lemma_placed_at<O: TextOrder>(list: Seq<Seq<char>>, item: Seq<char>, at: int)
    requires
        0 <= at <= list.len(),
        forall|k: int| at <= k < list.len() ==> O::before(item, #[trigger] list[k]),
        forall|k: int| at <= k < list.len() ==> !O::before(#[trigger] list[k], item),
        at > 0 ==> !O::before(item, list[at - 1]),
    ensures
        at == 0 || O::before(list[at - 1], item) ==> placed::<O>(list, item) == list.insert(
            at,
            item,
        ),
        at > 0 && !O::before(list[at - 1], item) ==> placed::<O>(list, item) == list,
    decreases list.len(),
{
    if at < list.len() {
        let shorter = list.drop_last();
        assert(list[list.len() - 1] == list.last());
        lemma_placed_at::<O>(shorter, item, at);
        if at == 0 || O::before(list[at - 1], item) {
            assert(shorter.insert(at, item).push(list.last()) =~= list.insert(at, item));
        } else {
            assert(shorter.push(list.last()) =~= list);
        }
    } else {
        assert(list.insert(at, item) =~= list.push(item));
    }
}

/// The items in ascending order; of items that tie, the first one only.
pub fn distinct_texts<O: TextOrder>(items: Vec<String>) -> (out: Vec<String>)
    ensures
        text::views(out@) == distinct::<O>(text::views(items@)),
{
    let ghost all = text::views(items@);
    let mut out: Vec<String> = Vec::new();
    let mut i: usize = 0;
    assert(all.take(0) == Seq::<Seq<char>>::empty());
    assert(text::views(out@) == Seq::<Seq<char>>::empty());
    while i < items.len()
        invariant
            i <= items@.len(),
            all == text::views(items@),
            text::views(out@) == distinct::<O>(all.take(i as int)),
        decreases items@.len() - i,
    {
        let item = items[i].as_str();
        let ghost before = text::views(out@);
        assert(item@ == all[i as int]);
        let mut at: usize = out.len();
        while at > 0 && O::is_before(item, out[at - 1].as_str())
            invariant
                at <= out@.len(),
                before == text::views(out@),
                forall|k: int| at <= k < before.len() ==> O::before(item@, #[trigger] before[k]),
                forall|k: int| at <= k < before.len() ==> !O::before(#[trigger] before[k], item@),
            decreases at,
        {
            assert(before[at - 1] == out@[at - 1]@);
            proof {
                O::order_laws(item@, before[at - 1], item@);
            }
            at -= 1;
        }
        proof {
            assert(all.take(i + 1).drop_last() == all.take(i as int));
            if at > 0 {
                assert(before[at - 1] == out@[at - 1]@);
            }
            lemma_placed_at::<O>(before, item@, at as int);
        }
        if at == 0 || O::is_before(out[at - 1].as_str(), item) {
            out.insert(at, item.to_owned());
            assert(text::views(out@) =~= before.insert(at as int, item@));
        }
        i += 1;
    }
    assert(all.take(items@.len() as int) == all);
    out
}

/// The order of texts by their characters, in which only equal texts tie.
pub struct ByText;

impl TextOrder for ByText {
    open spec fn before(a: Seq<char>, b: Seq<char>) -> bool {
        text_before(a, b)
    }

    proof fn order_laws(a: Seq<char>, b: Seq<char>, c: Seq<char>) {
        lemma_text_before_total(a, b);
        lemma_text_before_total(b, c);
        lemma_text_before_total(a, c);
        if text_before(a, b) && text_before(b, c) {
            lemma_text_before_transitive(a, b, c);
        }
    }

    fn is_before(a: &str, b: &str) -> (r: bool) {
        comes_before(a, b)
    }
}

/// Texts are ordered by the first character in which they differ, and a text comes before
/// those that it begins.
pub proof fn lemma_first_difference_decides(start: Seq<char>, a: Seq<char>, b: Seq<char>)
    requires
        b.len() > 0,
        a.len() == 0 || a[0] < b[0],
    ensures
        text_before(start + a, start + b),
        !text_before(start + b, start + a),
    decreases start.len(),
{
    if start.len() == 0 {
        assert(start + a =~= a);
        assert(start + b =~= b);
    } else {
        let rest = start.skip(1);
        lemma_first_difference_decides(rest, a, b);
        assert((start + a).skip(1) =~= rest + a);
        assert((start + b).skip(1) =~= rest + b);
        assert((start + a)[0] == (start + b)[0]);
    }
    lemma_text_before_total(start + a, start + b);
}

/// Lists of texts are ordered by the first text in which they differ, and a list comes
/// before those that it begins.
pub proof fn lemma_first_text_decides(
    start: Seq<Seq<char>>,
    a: Seq<Seq<char>>,
    b: Seq<Seq<char>>,
)
    requires
        b.len() > 0,
        a.len() == 0 || text_before(a[0], b[0]),
    ensures
        texts_before(start + a, start + b),
    decreases start.len(),
{
    if start.len() == 0 {
        assert(start + a =~= a);
        assert(start + b =~= b);
        if a.len() > 0 {
            lemma_text_before_irreflexive(a[0]);
        }
    } else {
        let rest = start.skip(1);
        lemma_first_text_decides(rest, a, b);
        assert((start + a).skip(1) =~= rest + a);
        assert((start + b).skip(1) =~= rest + b);
        assert((start + a)[0] == (start + b)[0]);
        lemma_text_before_irreflexive(start[0]);
    }
}

} // verus!
