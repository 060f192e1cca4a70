//! The order of paths, and stable sorting by it.

use vstd::prelude::*;
use vstd::multiset::Multiset;
use crate::path::{
    components, part_views, parts, path_depth, path_under, same_path, Component, FsPath, PathPart,
};

verus! {

/// Byte strings in lexicographic order.
pub open spec fn bytes_less(a: Seq<u8>, b: Seq<u8>) -> bool
    decreases b.len(),
{
    if b.len() == 0 {
        false
    } else if a.len() == 0 {
        true
    } else if a[0] == b[0] {
        bytes_less(a.skip(1), b.skip(1))
    } else {
        a[0] < b[0]
    }
}

/// The place of a kind of component among the kinds.
pub open spec fn part_rank(p: PathPart) -> int {
    match p {
        PathPart::Root => 0,
        PathPart::Current => 1,
        PathPart::Parent => 2,
        PathPart::Normal(_) => 3,
    }
}

/// Components by kind, ordinary ones by name.
pub open spec fn part_less(a: PathPart, b: PathPart) -> bool {
    match (a, b) {
        (PathPart::Normal(x), PathPart::Normal(y)) => bytes_less(x, y),
        _ => part_rank(a) < part_rank(b),
    }
}

/// Component lists in lexicographic order.
pub open spec fn parts_less(a: Seq<PathPart>, b: Seq<PathPart>) -> bool
    decreases b.len(),
{
    if b.len() == 0 {
        false
    } else if a.len() == 0 {
        true
    } else if a[0] == b[0] {
        parts_less(a.skip(1), b.skip(1))
    } else {
        part_less(a[0], b[0])
    }
}

/// Paths in the order of their components.
pub open spec fn path_less(a: Seq<u8>, b: Seq<u8>) -> bool {
    parts_less(parts(a), parts(b))
}

/// Whether one byte string comes before another.
pub fn is_bytes_less(a: &[u8], b: &[u8]) -> (r: bool)
    ensures
        r == bytes_less(a@, b@),
{
    let mut i: usize = 0;
    assert(a@.skip(0) =~= a@);
    assert(b@.skip(0) =~= b@);
    loop
        invariant
            i <= a.len(),
            i <= b.len(),
            bytes_less(a@, b@) == bytes_less(a@.skip(i as int), b@.skip(i as int)),
        decreases b.len() - i,
    {
        if i == b.len() {
            return false;
        }
        if i == a.len() {
            return true;
        }
        if a[i] != b[i] {
            return a[i] < b[i];
        }
        assert(a@.skip(i as int).skip(1) =~= a@.skip(i + 1));
        assert(b@.skip(i as int).skip(1) =~= b@.skip(i + 1));
        i += 1;
    }
}

fn rank(p: &Component) -> (r: u8)
    ensures
        r == part_rank(p@),
{
    match p {
        Component::Root => 0,
        Component::Current => 1,
        Component::Parent => 2,
        Component::Normal(_) => 3,
    }
}

fn is_part_less(a: &Component, b: &Component) -> (r: bool)
    ensures
        r == part_less(a@, b@),
{
    match (a, b) {
        (Component::Normal(x), Component::Normal(y)) => is_bytes_less(x.as_slice(), y.as_slice()),
        _ => rank(a) < rank(b),
    }
}

/// Whether one path comes before another.
pub fn is_path_less(a: &[u8], b: &[u8]) -> (r: bool)
    ensures
        r == path_less(a@, b@),
{
    let x = components(a);
    let y = components(b);
    let ghost xs = part_views(x@);
    let ghost ys = part_views(y@);
    let mut i: usize = 0;
    assert(xs.skip(0) =~= xs);
    assert(ys.skip(0) =~= ys);
    loop
        invariant
            i <= x.len(),
            i <= y.len(),
            xs == part_views(x@),
            ys == part_views(y@),
            parts_less(xs, ys) == parts_less(xs.skip(i as int), ys.skip(i as int)),
            xs == parts(a@),
            ys == parts(b@),
        decreases y.len() - i,
    {
        if i == y.len() {
            return false;
        }
        if i == x.len() {
            return true;
        }
        assert(xs.skip(i as int)[0] == x@[i as int]@);
        assert(ys.skip(i as int)[0] == y@[i as int]@);
        if !x[i].same(&y[i]) {
            return is_part_less(&x[i], &y[i]);
        }
        assert(xs.skip(i as int).skip(1) =~= xs.skip(i + 1));
        assert(ys.skip(i as int).skip(1) =~= ys.skip(i + 1));
        i += 1;
    }
}

/// The ways in which items are sorted by their keys.
#[derive(Clone, Copy, Debug, PartialEq, Eq, Structural)]
pub enum SortOrder {
    ByPath,
    DeepestFirst,
    ByBytes,
}

/// One key must come before another.
pub open spec fn must_precede(order: SortOrder, a: Seq<u8>, b: Seq<u8>) -> bool {
    match order {
        SortOrder::ByPath => path_less(a, b),
        SortOrder::DeepestFirst => parts(a).len() > parts(b).len(),
        SortOrder::ByBytes => bytes_less(a, b),
    }
}

/// Whether one key must come before another.
pub fn precedes(order: SortOrder, a: &[u8], b: &[u8]) -> (r: bool)
    ensures
        r == must_precede(order, a@, b@),
{
    match order {
        SortOrder::ByPath => is_path_less(a, b),
        SortOrder::DeepestFirst => path_depth(a) > path_depth(b),
        SortOrder::ByBytes => is_bytes_less(a, b),
    }
}

/// Where an item belongs in a sorted run, after all that need not follow it.
pub open spec fn place<T>(order: SortOrder, s: Seq<T>, x: T, key: spec_fn(T) -> Seq<u8>) -> int
    decreases s.len(),
{
    if s.len() == 0 || !must_precede(order, key(x), key(s.last())) {
        s.len() as int
    } else {
        place(order, s.drop_last(), x, key)
    }
}

/// Items in a given order of their keys; those that need not change places keep
/// theirs.
pub open spec fn sorted_by<T>(order: SortOrder, s: Seq<T>, key: spec_fn(T) -> Seq<u8>) -> Seq<T>
    decreases s.len(),
{
    if s.len() == 0 {
        s
    } else {
        let before = sorted_by(order, s.drop_last(), key);
        before.insert(place(order, before, s.last(), key), s.last())
    }
}

proof fn lemma_place_range<T>(order: SortOrder, s: Seq<T>, x: T, key: spec_fn(T) -> Seq<u8>)
    ensures
        0 <= place(order, s, x, key) <= s.len(),
    decreases s.len(),
{
    if s.len() > 0 && must_precede(order, key(x), key(s.last())) {
        lemma_place_range(order, s.drop_last(), x, key);
    }
}

proof fn lemma_place_map<A, B>(
    order: SortOrder,
    s: Seq<A>,
    x: A,
    f: spec_fn(A) -> B,
    ka: spec_fn(A) -> Seq<u8>,
    kb: spec_fn(B) -> Seq<u8>,
)
    requires
        forall|a: A| ka(a) == kb(#[trigger] f(a)),
    ensures
        place(order, s, x, ka) == place(order, s.map_values(f), f(x), kb),
    decreases s.len(),
{
    if s.len() > 0 {
        assert(s.map_values(f).last() == f(s.last()));
        assert(s.map_values(f).drop_last() =~= s.drop_last().map_values(f));
        lemma_place_map(order, s.drop_last(), x, f, ka, kb);
    }
}

/// Sorting items and then looking at them gives what sorting their views gives.
pub proof fn lemma_sorted_map<A, B>(
    order: SortOrder,
    s: Seq<A>,
    f: spec_fn(A) -> B,
    ka: spec_fn(A) -> Seq<u8>,
    kb: spec_fn(B) -> Seq<u8>,
)
    requires
        forall|a: A| ka(a) == kb(#[trigger] f(a)),
    ensures
        sorted_by(order, s, ka).map_values(f) == sorted_by(order, s.map_values(f), kb),
    decreases s.len(),
{
    if s.len() > 0 {
        let rest = s.drop_last();
        lemma_sorted_map(order, rest, f, ka, kb);
        assert(s.map_values(f).drop_last() =~= rest.map_values(f));
        let before = sorted_by(order, rest, ka);
        lemma_place_range(order, before, s.last(), ka);
        lemma_place_map(order, before, s.last(), f, ka, kb);
        assert(sorted_by(order, s, ka).map_values(f) =~= sorted_by(order, s.map_values(f), kb));
    } else {
        assert(sorted_by(order, s, ka).map_values(f) =~= sorted_by(order, s.map_values(f), kb));
    }
}

/// Sorting keeps every item, as often as it was there.
pub proof fn lemma_sorting_keeps_items<T>(order: SortOrder, s: Seq<T>, key: spec_fn(T) -> Seq<u8>)
    ensures
        sorted_by(order, s, key).to_multiset() == s.to_multiset(),
        sorted_by(order, s, key).len() == s.len(),
    decreases s.len(),
{
    broadcast use vstd::seq_lib::group_to_multiset_ensures;

    if s.len() > 0 {
        let before = sorted_by(order, s.drop_last(), key);
        lemma_sorting_keeps_items(order, s.drop_last(), key);
        lemma_place_range(order, before, s.last(), key);
        let at = place(order, before, s.last(), key);
        vstd::seq_lib::to_multiset_insert(before, at, s.last());
        assert(s =~= s.drop_last().push(s.last()));
        assert(sorted_by(order, s, key).to_multiset() =~= s.to_multiset());
    }
}

/// Sorting keeps the members of a list.
pub proof fn lemma_sorting_keeps_members<T>(
    order: SortOrder,
    s: Seq<T>,
    key: spec_fn(T) -> Seq<u8>,
)
    ensures
        forall|x: T|
            #![trigger s.contains(x)]
            #![trigger sorted_by(order, s, key).contains(x)]
            s.contains(x) == sorted_by(order, s, key).contains(x),
{
    broadcast use vstd::seq_lib::group_to_multiset_ensures;

    let sorted = sorted_by(order, s, key);
    lemma_sorting_keeps_items(order, s, key);
    assert forall|x: T| s.contains(x) == sorted.contains(x) by {
        assert(s.contains(x) <==> s.to_multiset().count(x) > 0);
        assert(sorted.contains(x) <==> sorted.to_multiset().count(x) > 0);
    }
}

/// Sorting with one more item puts that item in its place.
pub proof fn lemma_sorted_insert<T>(order: SortOrder, s: Seq<T>, x: T, key: spec_fn(T) -> Seq<u8>)
    ensures
        sorted_by(order, s.push(x), key) == sorted_by(order, s, key).insert(
            place(order, sorted_by(order, s, key), x, key),
            x,
        ),
        0 <= place(order, sorted_by(order, s, key), x, key) <= sorted_by(order, s, key).len(),
{
    assert(s.push(x).drop_last() =~= s);
    lemma_place_range(order, sorted_by(order, s, key), x, key);
}

/// No two items are at the same path.
pub open spec fn distinct_by<T>(items: Seq<T>, key: spec_fn(T) -> Seq<u8>) -> bool {
    forall|i: int, j: int|
        0 <= i < j < items.len() ==> !same_path(key(#[trigger] items[i]), key(#[trigger] items[j]))
}

proof fn lemma_insert_distinct<T>(items: Seq<T>, at: int, x: T, key: spec_fn(T) -> Seq<u8>)
    requires
        0 <= at <= items.len(),
        distinct_by(items, key),
        forall|i: int| 0 <= i < items.len() ==> !same_path(key(#[trigger] items[i]), key(x)),
    ensures
        distinct_by(items.insert(at, x), key),
{
    let grown = items.insert(at, x);
    assert forall|i: int, j: int| 0 <= i < j < grown.len() implies !same_path(
        key(#[trigger] grown[i]),
        key(#[trigger] grown[j]),
    ) by {
        let a = if i < at {
            i
        } else {
            i - 1
        };
        let b = if j < at {
            j
        } else {
            j - 1
        };
        if i != at {
            assert(grown[i] == items[a]);
        }
        if j != at {
            assert(grown[j] == items[b]);
        }
    }
}

/// An item at a path of its own keeps a list without repetitions so.
pub proof fn lemma_push_distinct<T>(items: Seq<T>, x: T, key: spec_fn(T) -> Seq<u8>)
    requires
        distinct_by(items, key),
        forall|i: int| 0 <= i < items.len() ==> !same_path(key(#[trigger] items[i]), key(x)),
    ensures
        distinct_by(items.push(x), key),
        forall|y: T| #[trigger] items.push(x).contains(y) <==> items.contains(y) || y == x,
{
    let grown = items.push(x);
    lemma_insert_distinct(items, items.len() as int, x, key);
    assert(items.insert(items.len() as int, x) =~= grown);
    assert forall|y: T| #[trigger] items.push(x).contains(y) <==> items.contains(y) || y == x by {
        assert(grown[items.len() as int] == x);
        if items.contains(y) {
            let k = choose|k: int| 0 <= k < items.len() && items[k] == y;
            assert(grown[k] == y);
        }
        if grown.contains(y) {
            let k = choose|k: int| 0 <= k < grown.len() && grown[k] == y;
            if k < items.len() {
                assert(items[k] == y);
            }
        }
    }
}

/// Sorting keeps a list without repetitions so.
pub proof fn lemma_sorting_keeps_distinct<T>(
    order: SortOrder,
    s: Seq<T>,
    key: spec_fn(T) -> Seq<u8>,
)
    requires
        distinct_by(s, key),
    ensures
        distinct_by(sorted_by(order, s, key), key),
    decreases s.len(),
{
    if s.len() > 0 {
        let front = s.drop_last();
        let before = sorted_by(order, front, key);
        assert forall|i: int, j: int| 0 <= i < j < front.len() implies !same_path(
            key(#[trigger] front[i]),
            key(#[trigger] front[j]),
        ) by {
            assert(front[i] == s[i] && front[j] == s[j]);
        }
        lemma_sorting_keeps_distinct(order, front, key);
        lemma_sorting_keeps_members(order, front, key);
        let last = s.last();
        assert forall|i: int| 0 <= i < before.len() implies !same_path(
            key(#[trigger] before[i]),
            key(last),
        ) by {
            assert(before.contains(before[i]));
            assert(front.contains(before[i]));
            let k = choose|k: int| 0 <= k < front.len() && front[k] == before[i];
            assert(s[k] == before[i]);
            assert(s[s.len() - 1] == last);
        }
        lemma_place_range(order, before, last, key);
        lemma_insert_distinct(before, place(order, before, last, key), last, key);
    }
}

proof fn lemma_bytes_order(a: Seq<u8>, b: Seq<u8>, c: Seq<u8>)
    ensures
        bytes_less(a, c) ==> bytes_less(a, b) || bytes_less(b, c),
        !(bytes_less(a, b) && bytes_less(b, a)),
    decreases a.len() + b.len() + c.len(),
{
    if a.len() > 0 && b.len() > 0 && c.len() > 0 {
        lemma_bytes_order(a.skip(1), b.skip(1), c.skip(1));
    } else if a.len() > 0 && b.len() > 0 {
        lemma_bytes_order(a.skip(1), b.skip(1), c);
    }
}

proof fn lemma_part_order(a: PathPart, b: PathPart, c: PathPart)
    ensures
        part_less(a, c) ==> a == b || b == c || part_less(a, b) || part_less(b, c),
        a == c || a == b || b == c || (part_less(a, c) ==> part_less(a, b) || part_less(b, c)),
        !(part_less(a, b) && part_less(b, a)),
        !part_less(a, a),
{
    match (a, b, c) {
        (PathPart::Normal(x), PathPart::Normal(y), PathPart::Normal(z)) => {
            lemma_bytes_order(x, y, z);
            lemma_bytes_order(x, x, x);
        },
        (PathPart::Normal(x), PathPart::Normal(y), _) => {
            lemma_bytes_order(x, y, y);
            lemma_bytes_order(x, x, x);
        },
        (PathPart::Normal(x), _, _) => {
            lemma_bytes_order(x, x, x);
        },
        _ => {},
    }
}

proof fn lemma_unequal_parts(a: PathPart, b: PathPart)
    requires
        a != b,
    ensures
        part_less(a, b) || part_less(b, a),
{
    match (a, b) {
        (PathPart::Normal(x), PathPart::Normal(y)) => {
            lemma_unequal_bytes(x, y);
        },
        _ => {},
    }
}

proof fn lemma_unequal_bytes(a: Seq<u8>, b: Seq<u8>)
    requires
        a != b,
    ensures
        bytes_less(a, b) || bytes_less(b, a),
    decreases a.len() + b.len(),
{
    if a.len() > 0 && b.len() > 0 {
        if a[0] == b[0] {
            assert(a.skip(1) != b.skip(1)) by {
                assert(a =~= seq![a[0]] + a.skip(1));
                assert(b =~= seq![b[0]] + b.skip(1));
            }
            lemma_unequal_bytes(a.skip(1), b.skip(1));
        }
    } else {
        assert(a.len() == 0 && b.len() == 0 ==> a =~= b);
    }
}

proof fn lemma_parts_order(a: Seq<PathPart>, b: Seq<PathPart>, c: Seq<PathPart>)
    ensures
        parts_less(a, c) ==> parts_less(a, b) || parts_less(b, c),
        !(parts_less(a, b) && parts_less(b, a)),
    decreases a.len() + b.len() + c.len(),
{
    if a.len() > 0 && b.len() > 0 {
        lemma_part_order(a[0], b[0], b[0]);
        if c.len() > 0 {
            lemma_part_order(a[0], b[0], c[0]);
            if b[0] != c[0] {
                lemma_unequal_parts(b[0], c[0]);
            }
            if a[0] != b[0] {
                lemma_unequal_parts(a[0], b[0]);
            }
            lemma_part_order(b[0], c[0], c[0]);
            lemma_parts_order(a.skip(1), b.skip(1), c.skip(1));
        } else {
            lemma_parts_order(a.skip(1), b.skip(1), c);
        }
    }
}

proof fn lemma_order(order: SortOrder, a: Seq<u8>, b: Seq<u8>, c: Seq<u8>)
    ensures
        must_precede(order, a, c) ==> must_precede(order, a, b) || must_precede(order, b, c),
        !(must_precede(order, a, b) && must_precede(order, b, a)),
{
    lemma_bytes_order(a, b, c);
    lemma_parts_order(parts(a), parts(b), parts(c));
}

proof fn lemma_place_splits<T>(order: SortOrder, s: Seq<T>, x: T, key: spec_fn(T) -> Seq<u8>, k: int)
    requires
        0 <= k < s.len(),
    ensures
        k >= place(order, s, x, key) ==> must_precede(order, key(x), key(s[k])),
        k == place(order, s, x, key) - 1 ==> !must_precede(order, key(x), key(s[k])),
    decreases s.len(),
{
    if must_precede(order, key(x), key(s.last())) {
        lemma_place_range(order, s.drop_last(), x, key);
        if k < s.len() - 1 {
            lemma_place_splits(order, s.drop_last(), x, key, k);
        }
    }
}

/// Sorting puts items in order: none comes after one that it must precede.
pub proof fn law_sorting_puts_in_order<T>(
    order: SortOrder,
    s: Seq<T>,
    key: spec_fn(T) -> Seq<u8>,
    i: int,
    j: int,
)
    requires
        0 <= i < j < sorted_by(order, s, key).len(),
    ensures
        !must_precede(order, key(sorted_by(order, s, key)[j]), key(sorted_by(order, s, key)[i])),
    decreases s.len(),
{
    if s.len() > 0 {
        let before = sorted_by(order, s.drop_last(), key);
        let x = s.last();
        lemma_place_range(order, before, x, key);
        let at = place(order, before, x, key);
        let a = if i < at {
            i
        } else {
            i - 1
        };
        let b = if j < at {
            j
        } else {
            j - 1
        };
        if i != at && j != at {
            law_sorting_puts_in_order(order, s.drop_last(), key, a, b);
        } else if i == at {
            lemma_place_splits(order, before, x, key, b);
            lemma_order(order, key(x), key(before[b]), key(x));
        } else {
            lemma_place_splits(order, before, x, key, at - 1);
            if a < at - 1 {
                law_sorting_puts_in_order(order, s.drop_last(), key, a, at - 1);
                lemma_order(order, key(x), key(before[at - 1]), key(before[a]));
            }
        }
    }
}

/// Items in order: none comes after one that it must precede.
pub open spec fn in_order<T>(order: SortOrder, s: Seq<T>, key: spec_fn(T) -> Seq<u8>) -> bool {
    forall|i: int, j: int|
        0 <= i < j < s.len() ==> !must_precede(order, key(#[trigger] s[j]), key(#[trigger] s[i]))
}

/// Items in order stay as they are when they are sorted.
pub proof fn law_sorting_keeps_an_order<T>(order: SortOrder, s: Seq<T>, key: spec_fn(T) -> Seq<u8>)
    requires
        in_order(order, s, key),
    ensures
        sorted_by(order, s, key) == s,
    decreases s.len(),
{
    if s.len() > 0 {
        let front = s.drop_last();
        assert forall|i: int, j: int| 0 <= i < j < front.len() implies !must_precede(
            order,
            key(#[trigger] front[j]),
            key(#[trigger] front[i]),
        ) by {
            assert(front[i] == s[i] && front[j] == s[j]);
        }
        law_sorting_keeps_an_order(order, front, key);
        if front.len() > 0 {
            assert(front.last() == s[front.len() - 1]);
            assert(s.last() == s[s.len() - 1]);
        }
        assert(front.insert(front.len() as int, s.last()) =~= s);
    }
}

/// Sorted items are in order.
pub proof fn lemma_sorted_in_order<T>(order: SortOrder, s: Seq<T>, key: spec_fn(T) -> Seq<u8>)
    ensures
        in_order(order, sorted_by(order, s, key), key),
{
    let sorted = sorted_by(order, s, key);
    assert forall|i: int, j: int| 0 <= i < j < sorted.len() implies !must_precede(
        order,
        key(#[trigger] sorted[j]),
        key(#[trigger] sorted[i]),
    ) by {
        law_sorting_puts_in_order(order, s, key, i, j);
    }
}

/// A choice of items in order is in order.
pub proof fn lemma_filtered_in_order<T>(
    order: SortOrder,
    s: Seq<T>,
    key: spec_fn(T) -> Seq<u8>,
    keep: spec_fn(T) -> bool,
)
    requires
        in_order(order, s, key),
    ensures
        in_order(order, s.filter(keep), key),
        forall|x: T| #[trigger] s.filter(keep).contains(x) <==> s.contains(x) && keep(x),
    decreases s.len(),
{
    reveal(Seq::filter);
    let kept = s.filter(keep);
    if s.len() > 0 {
        let front = s.drop_last();
        let before = front.filter(keep);
        assert forall|i: int, j: int| 0 <= i < j < front.len() implies !must_precede(
            order,
            key(#[trigger] front[j]),
            key(#[trigger] front[i]),
        ) by {
            assert(front[i] == s[i] && front[j] == s[j]);
        }
        lemma_filtered_in_order(order, front, key, keep);
        let last = s.len() - 1;
        assert forall|i: int, j: int| 0 <= i < j < kept.len() implies !must_precede(
            order,
            key(#[trigger] kept[j]),
            key(#[trigger] kept[i]),
        ) by {
            assert(kept[i] == before[i]);
            if j < before.len() {
                assert(kept[j] == before[j]);
            } else {
                assert(before.contains(before[i]));
                let k = choose|k: int| 0 <= k < front.len() && front[k] == before[i];
                assert(s[k] == before[i]);
                assert(kept[j] == s[last]);
            }
        }
        assert forall|x: T| #[trigger] kept.contains(x) <==> s.contains(x) && keep(x) by {
            assert(before.contains(x) <==> front.contains(x) && keep(x));
            if s.contains(x) && keep(x) {
                let k = choose|k: int| 0 <= k < s.len() && s[k] == x;
                if k < last {
                    assert(front[k] == x);
                    let i = choose|i: int| 0 <= i < before.len() && before[i] == x;
                    assert(kept[i] == x);
                } else {
                    assert(kept[before.len() as int] == x);
                }
            }
            if kept.contains(x) {
                let i = choose|i: int| 0 <= i < kept.len() && kept[i] == x;
                if i < before.len() {
                    assert(before[i] == x);
                    let k = choose|k: int| 0 <= k < front.len() && front[k] == x;
                    assert(s[k] == x);
                } else {
                    assert(s[last] == x);
                }
            }
        }
    }
}

/// A choice of items at different paths has different paths.
pub proof fn lemma_filtered_distinct<T>(
    s: Seq<T>,
    key: spec_fn(T) -> Seq<u8>,
    keep: spec_fn(T) -> bool,
)
    requires
        distinct_by(s, key),
    ensures
        distinct_by(s.filter(keep), key),
        forall|x: T| #[trigger] s.filter(keep).contains(x) ==> s.contains(x) && keep(x),
    decreases s.len(),
{
    reveal(Seq::filter);
    let kept = s.filter(keep);
    if s.len() > 0 {
        let front = s.drop_last();
        let before = front.filter(keep);
        let last = s.len() - 1;
        assert forall|i: int, j: int| 0 <= i < j < front.len() implies !same_path(
            key(#[trigger] front[i]),
            key(#[trigger] front[j]),
        ) by {
            assert(front[i] == s[i] && front[j] == s[j]);
        }
        lemma_filtered_distinct(front, key, keep);
        assert forall|i: int, j: int| 0 <= i < j < kept.len() implies !same_path(
            key(#[trigger] kept[i]),
            key(#[trigger] kept[j]),
        ) by {
            assert(kept[i] == before[i]);
            if j < before.len() {
                assert(kept[j] == before[j]);
            } else {
                assert(before.contains(before[i]));
                let k = choose|k: int| 0 <= k < front.len() && front[k] == before[i];
                assert(s[k] == before[i]);
                assert(kept[j] == s[last]);
            }
        }
        assert forall|x: T| #[trigger] kept.contains(x) implies s.contains(x) && keep(x) by {
            let i = choose|i: int| 0 <= i < kept.len() && kept[i] == x;
            if i < before.len() {
                assert(before[i] == x);
                assert(before.contains(x));
                let k = choose|k: int| 0 <= k < front.len() && front[k] == x;
                assert(s[k] == x);
            } else {
                assert(s[last] == x);
            }
        }
    }
}

/// Sorted deepest first, a path comes before every other path that it lies under.
pub proof fn law_deepest_first_empties_directories_before_they_go<T>(
    s: Seq<T>,
    key: spec_fn(T) -> Seq<u8>,
    i: int,
    j: int,
)
    requires
        0 <= i < sorted_by(SortOrder::DeepestFirst, s, key).len(),
        0 <= j < sorted_by(SortOrder::DeepestFirst, s, key).len(),
        path_under(
            key(sorted_by(SortOrder::DeepestFirst, s, key)[i]),
            key(sorted_by(SortOrder::DeepestFirst, s, key)[j]),
        ),
        !same_path(
            key(sorted_by(SortOrder::DeepestFirst, s, key)[i]),
            key(sorted_by(SortOrder::DeepestFirst, s, key)[j]),
        ),
    ensures
        i < j,
{
    let all = sorted_by(SortOrder::DeepestFirst, s, key);
    let inner = parts(key(all[i]));
    let outer = parts(key(all[j]));
    assert(inner.len() > outer.len()) by {
        if inner.len() == outer.len() {
            assert(inner =~= outer);
        }
    }
    if j < i {
        law_sorting_puts_in_order(SortOrder::DeepestFirst, s, key, j, i);
    }
}

/// Something that has a key to be sorted by.
pub trait Keyed: Sized {
    /// The bytes of the key.
    spec fn location(&self) -> Seq<u8>;

    /// The bytes of the key.
    fn key_bytes(&self) -> (r: &[u8])
        ensures
            r@ == self.location(),
    ;
}

/// Something whose key is a path.
pub trait Located: Keyed {
    /// The path.
    fn path_ref(&self) -> (r: &FsPath)
        ensures
            r@ == self.location(),
    ;
}

/// The key by which items are sorted.
pub open spec fn location_key<T: Keyed>() -> spec_fn(T) -> Seq<u8> {
    |x: T| x.location()
}

/// Sorts items by their keys; those that need not change places keep theirs.
pub fn sort_located<T: Keyed>(order: SortOrder, items: Vec<T>) -> (r: Vec<T>)
    ensures
        r@ == sorted_by(order, items@, location_key::<T>()),
{
    let mut rest = items;
    let ghost all = items@;
    let mut reversed: Vec<T> = Vec::new();
    while rest.len() > 0
        invariant
            all == rest@ + reversed@.reverse(),
        decreases rest.len(),
    {
        let ghost before = rest@;
        let ghost done = reversed@;
        let x = rest.pop().unwrap();
        reversed.push(x);
        assert(reversed@.reverse() =~= seq![x] + done.reverse());
        assert(before =~= rest@.push(x));
        assert(all =~= rest@ + reversed@.reverse());
    }
    assert(all =~= reversed@.reverse());
    let ghost key = location_key::<T>();
    let mut out: Vec<T> = Vec::new();
    let ghost mut n: int = 0;
    while reversed.len() > 0
        invariant
            0 <= n <= all.len(),
            key == location_key::<T>(),
            all.skip(n) == reversed@.reverse(),
            out@ == sorted_by(order, all.take(n), key),
        decreases reversed.len(),
    {
        let ghost before = reversed@;
        let x = reversed.pop().unwrap();
        assert(before.reverse()[0] == x);
        assert(all.skip(n)[0] == x);
        assert(all.skip(n + 1) =~= all.skip(n).skip(1));
        assert(reversed@.reverse() =~= before.reverse().skip(1));
        let mut at: usize = out.len();
        let ghost s = out@;
        assert(s.take(at as int) =~= s);
        while at > 0 && precedes(order, x.key_bytes(), out[at - 1].key_bytes())
            invariant
                at <= out.len(),
                out@ == s,
                key == location_key::<T>(),
                place(order, s, x, key) == place(order, s.take(at as int), x, key),
            decreases at,
        {
            assert(s.take(at as int).drop_last() =~= s.take(at - 1));
            assert(s.take(at as int).last() == s[at - 1]);
            at -= 1;
        }
        proof {
            if at > 0 {
                assert(s.take(at as int).last() == s[at - 1]);
            }
            assert(place(order, s, x, key) == at as int);
            assert(all.take(n + 1).drop_last() =~= all.take(n));
            assert(all.take(n + 1).last() == x);
            n = n + 1;
        }
        out.insert(at, x);
    }
    assert(all.take(n) =~= all) by {
        assert(all.skip(n).len() == 0);
    }
    out
}

impl Keyed for FsPath {
    open spec fn location(&self) -> Seq<u8> {
        self@
    }

    fn key_bytes(&self) -> (r: &[u8]) {
        self.bytes.as_slice()
    }
}

impl Located for FsPath {
    fn path_ref(&self) -> (r: &FsPath) {
        self
    }
}

/// Byte strings are in one line: of two that differ one comes before the other and
/// not the other way round, none comes before itself, and what comes before another
/// comes before all that follow that one.
pub proof fn law_byte_strings_are_in_one_line(a: Seq<u8>, b: Seq<u8>, c: Seq<u8>)
    ensures
        !bytes_less(a, a),
        bytes_less(a, b) ==> !bytes_less(b, a),
        a != b ==> bytes_less(a, b) || bytes_less(b, a),
        bytes_less(a, b) && bytes_less(b, c) ==> bytes_less(a, c),
{
    lemma_bytes_order(a, a, a);
    lemma_bytes_order(a, b, b);
    lemma_bytes_order(a, c, b);
    lemma_bytes_order(b, c, c);
    if a != b {
        lemma_unequal_bytes(a, b);
    }
}

/// The first byte in which two byte strings differ decides their order; where one is
/// the start of the other, the shorter comes first.
pub proof fn law_the_first_difference_decides(a: Seq<u8>, b: Seq<u8>, k: int)
    requires
        0 <= k <= a.len(),
        k <= b.len(),
        a.take(k) == b.take(k),
        k < a.len() && k < b.len() ==> a[k] != b[k],
    ensures
        bytes_less(a, b) <==> (k < b.len() && (k == a.len() || a[k] < b[k])),
    decreases k,
{
    if k > 0 {
        assert(a[0] == a.take(k)[0] && b[0] == b.take(k)[0]);
        assert(a.skip(1).take(k - 1) =~= a.take(k).skip(1));
        assert(b.skip(1).take(k - 1) =~= b.take(k).skip(1));
        law_the_first_difference_decides(a.skip(1), b.skip(1), k - 1);
    }
}

/// The first component in which two paths differ decides their order: two names by
/// their bytes, and else the root before the current directory, that before the
/// parent, and that before every name. A path comes before all that lie below it.
pub proof fn law_the_first_component_that_differs_decides(a: Seq<u8>, b: Seq<u8>, k: int)
    requires
        0 <= k <= parts(a).len(),
        k <= parts(b).len(),
        parts(a).take(k) == parts(b).take(k),
        k < parts(a).len() && k < parts(b).len() ==> parts(a)[k] != parts(b)[k],
    ensures
        k == parts(b).len() ==> !path_less(a, b),
        k == parts(a).len() && k < parts(b).len() ==> path_less(a, b),
        k < parts(a).len() && k < parts(b).len() ==> match (parts(a)[k], parts(b)[k]) {
            (PathPart::Normal(x), PathPart::Normal(y)) => path_less(a, b) == bytes_less(x, y),
            (PathPart::Root, _) => path_less(a, b),
            (_, PathPart::Root) => !path_less(a, b),
            (PathPart::Current, _) => path_less(a, b),
            (_, PathPart::Current) => !path_less(a, b),
            (PathPart::Parent, _) => path_less(a, b),
            (_, PathPart::Parent) => !path_less(a, b),
        },
{
    lemma_first_part_decides(parts(a), parts(b), k);
}

proof fn lemma_first_part_decides(a: Seq<PathPart>, b: Seq<PathPart>, k: int)
    requires
        0 <= k <= a.len(),
        k <= b.len(),
        a.take(k) == b.take(k),
        k < a.len() && k < b.len() ==> a[k] != b[k],
    ensures
        parts_less(a, b) <==> (k < b.len() && (k == a.len() || part_less(a[k], b[k]))),
    decreases k,
{
    if k > 0 {
        assert(a[0] == a.take(k)[0] && b[0] == b.take(k)[0]);
        assert(a.skip(1).take(k - 1) =~= a.take(k).skip(1));
        assert(b.skip(1).take(k - 1) =~= b.take(k).skip(1));
        lemma_first_part_decides(a.skip(1), b.skip(1), k - 1);
    }
}

/// What an order asks for: by path, that of the components; deepest first, that a
/// path of more components comes first; by bytes, that of the bytes.
pub proof fn law_orders_ask_for_their_own(a: Seq<u8>, b: Seq<u8>)
    ensures
        must_precede(SortOrder::ByPath, a, b) <==> path_less(a, b),
        must_precede(SortOrder::DeepestFirst, a, b) <==> parts(b).len() < parts(a).len(),
        must_precede(SortOrder::ByBytes, a, b) <==> bytes_less(a, b),
{
}

} // verus!
