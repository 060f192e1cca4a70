//! What filtering says of single items of a list.

use vstd::multiset::Multiset;
use vstd::prelude::*;

verus! {

/// The item at a place is the only one of a kind.
pub open spec fn sole<T>(s: Seq<T>, kind: spec_fn(T) -> bool, i: int) -> bool {
    &&& 0 <= i < s.len()
    &&& kind(s[i])
    &&& forall|j: int| 0 <= j < s.len() && j != i ==> !kind(#[trigger] s[j])
}

/// No item is of a kind.
pub open spec fn none_of<T>(s: Seq<T>, kind: spec_fn(T) -> bool) -> bool {
    forall|j: int| 0 <= j < s.len() ==> !kind(#[trigger] s[j])
}

/// A list that was filtered has the items of the kind and no others.
pub proof fn lemma_filter_has<T>(s: Seq<T>, kind: spec_fn(T) -> bool, x: T)
    ensures
        s.filter(kind).contains(x) == (s.contains(x) && kind(x)),
    decreases s.len(),
{
    reveal(Seq::filter);
    if s.len() > 0 {
        let front = s.drop_last();
        let last = s.last();
        lemma_filter_has(front, kind, x);
        assert(s =~= front.push(last));
        lemma_push_has(front, last, x);
        lemma_push_has(front.filter(kind), last, x);
    }
}

/// What a list holds with one more item.
pub proof fn lemma_push_has<T>(s: Seq<T>, last: T, x: T)
    ensures
        s.push(last).contains(x) == (s.contains(x) || x == last),
{
    let grown = s.push(last);
    assert(grown[s.len() as int] == last);
    if s.contains(x) {
        let i = choose|i: int| 0 <= i < s.len() && s[i] == x;
        assert(grown[i] == x);
    }
    if grown.contains(x) {
        let i = choose|i: int| 0 <= i < grown.len() && grown[i] == x;
        if i < s.len() {
            assert(s[i] == x);
        }
    }
}

/// Filtering leaves nothing where no item is of the kind.
pub proof fn lemma_filter_none<T>(s: Seq<T>, kind: spec_fn(T) -> bool)
    ensures
        s.filter(kind).len() == 0 <==> none_of(s, kind),
        none_of(s, kind) ==> s.filter(|x: T| !kind(x)) == s,
    decreases s.len(),
{
    reveal(Seq::filter);
    let other = |x: T| !kind(x);
    if s.len() > 0 {
        let front = s.drop_last();
        lemma_filter_none(front, kind);
        if none_of(s, kind) {
            assert forall|j: int| 0 <= j < front.len() implies !kind(#[trigger] front[j]) by {
                assert(front[j] == s[j]);
            }
            assert(!kind(s[s.len() - 1]));
            assert(front.push(s.last()) =~= s);
        }
        if s.filter(kind).len() == 0 {
            assert forall|j: int| 0 <= j < s.len() implies !kind(#[trigger] s[j]) by {
                if j < front.len() {
                    assert(front[j] == s[j]);
                }
            }
        }
    } else {
        assert(s.filter(other) =~= s);
    }
}

/// Filtering leaves one item where one is of the kind, and that one.
pub proof fn lemma_filter_sole<T>(s: Seq<T>, kind: spec_fn(T) -> bool, i: int)
    requires
        sole(s, kind, i),
    ensures
        s.filter(kind) == seq![s[i]],
        s.filter(|x: T| !kind(x)) == s.remove(i),
    decreases s.len(),
{
    reveal(Seq::filter);
    let other = |x: T| !kind(x);
    let front = s.drop_last();
    if i == s.len() - 1 {
        assert(none_of(front, kind)) by {
            assert forall|j: int| 0 <= j < front.len() implies !kind(#[trigger] front[j]) by {
                assert(front[j] == s[j]);
            }
        }
        lemma_filter_none(front, kind);
        assert(s.filter(kind) =~= seq![s[i]]);
        assert(s.remove(i) =~= front);
    } else {
        assert(front[i] == s[i]);
        assert forall|j: int| 0 <= j < front.len() && j != i implies !kind(
            #[trigger] front[j],
        ) by {
            assert(front[j] == s[j]);
        }
        lemma_filter_sole(front, kind, i);
        assert(!kind(s[s.len() - 1]));
        assert(s.remove(i) =~= front.remove(i).push(s.last()));
    }
}

/// Where filtering leaves one item, one is of the kind.
pub proof fn lemma_one_is_sole<T>(s: Seq<T>, kind: spec_fn(T) -> bool)
    requires
        s.filter(kind).len() == 1,
    ensures
        exists|i: int| sole(s, kind, i),
    decreases s.len(),
{
    reveal(Seq::filter);
    let front = s.drop_last();
    if s.len() > 0 {
        if kind(s.last()) {
            lemma_filter_none(front, kind);
            assert forall|j: int| 0 <= j < s.len() && j != s.len() - 1 implies !kind(
                #[trigger] s[j],
            ) by {
                assert(front[j] == s[j]);
            }
            assert(sole(s, kind, s.len() - 1));
        } else {
            lemma_one_is_sole(front, kind);
            let i = choose|i: int| sole(front, kind, i);
            assert(front[i] == s[i]);
            assert forall|j: int| 0 <= j < s.len() && j != i implies !kind(#[trigger] s[j]) by {
                if j < front.len() {
                    assert(front[j] == s[j]);
                }
            }
            assert(sole(s, kind, i));
        }
    }
}

/// A list is made of the items of a kind and of the others, counted by what stands for
/// each of them.
pub proof fn lemma_filter_parts<T, U>(s: Seq<T>, kind: spec_fn(T) -> bool, f: spec_fn(T) -> U)
    ensures
        s.map_values(f).to_multiset() == s.filter(kind).map_values(f).to_multiset().add(
            s.filter(|x: T| !kind(x)).map_values(f).to_multiset(),
        ),
    decreases s.len(),
{
    broadcast use vstd::seq_lib::group_to_multiset_ensures;

    reveal(Seq::filter);
    let other = |x: T| !kind(x);
    if s.len() > 0 {
        let front = s.drop_last();
        let last = s.last();
        lemma_filter_parts(front, kind, f);
        assert(s.map_values(f) =~= front.map_values(f).push(f(last)));
        if kind(last) {
            assert(s.filter(kind).map_values(f) =~= front.filter(kind).map_values(f).push(f(last)));
        } else {
            assert(s.filter(other).map_values(f) =~= front.filter(other).map_values(f).push(
                f(last),
            ));
        }
        assert(s.map_values(f).to_multiset() =~= s.filter(kind).map_values(f).to_multiset().add(
            s.filter(other).map_values(f).to_multiset(),
        ));
    } else {
        let none: Multiset<U> = Multiset::empty();
        assert(s.map_values(f) =~= Seq::<U>::empty());
        assert(s.filter(kind).map_values(f) =~= Seq::<U>::empty());
        assert(s.filter(other).map_values(f) =~= Seq::<U>::empty());
        assert(none.add(none) =~= none);
    }
}

/// Filtering twice leaves the items of both kinds.
pub proof fn lemma_filter_twice<T>(
    s: Seq<T>,
    first: spec_fn(T) -> bool,
    second: spec_fn(T) -> bool,
    both: spec_fn(T) -> bool,
)
    requires
        forall|x: T| #[trigger] both(x) == (first(x) && second(x)),
    ensures
        s.filter(first).filter(second) == s.filter(both),
    decreases s.len(),
{
    reveal(Seq::filter);
    if s.len() > 0 {
        let front = s.drop_last();
        lemma_filter_twice(front, first, second, both);
        let kept = front.filter(first);
        assert(both(s.last()) == (first(s.last()) && second(s.last())));
        if first(s.last()) {
            assert(kept.push(s.last()).drop_last() =~= kept);
            assert(kept.push(s.last()).last() == s.last());
        }
    } else {
        assert(s.filter(first) =~= Seq::empty());
        assert(s.filter(first).filter(second) =~= Seq::empty());
    }
}

/// Filtering keeps an item that is added if it is of the kind.
pub proof fn lemma_filter_push<T>(s: Seq<T>, x: T, kind: spec_fn(T) -> bool)
    ensures
        s.push(x).filter(kind) == if kind(x) {
            s.filter(kind).push(x)
        } else {
            s.filter(kind)
        },
{
    reveal(Seq::filter);
    assert(s.push(x).drop_last() =~= s);
}

/// Two kinds that agree on the items of a list leave the same of it.
pub proof fn lemma_filter_alike<T>(s: Seq<T>, a: spec_fn(T) -> bool, b: spec_fn(T) -> bool)
    requires
        forall|i: int| 0 <= i < s.len() ==> a(#[trigger] s[i]) == b(s[i]),
    ensures
        s.filter(a) == s.filter(b),
    decreases s.len(),
{
    reveal(Seq::filter);
    if s.len() > 0 {
        let front = s.drop_last();
        assert forall|i: int| 0 <= i < front.len() implies a(#[trigger] front[i]) == b(front[i]) by {
            assert(front[i] == s[i]);
        }
        lemma_filter_alike(front, a, b);
        assert(a(s[s.len() - 1]) == b(s[s.len() - 1]));
    }
}

/// What two lists hold together.
pub proof fn lemma_joined_has<T>(a: Seq<T>, b: Seq<T>, x: T)
    ensures
        (a + b).contains(x) <==> a.contains(x) || b.contains(x),
{
    let whole = a + b;
    if a.contains(x) {
        assert(whole[a.index_of(x)] == x);
    }
    if b.contains(x) {
        assert(whole[a.len() + b.index_of(x)] == x);
    }
    if whole.contains(x) {
        let k = whole.index_of(x);
        if k < a.len() {
            assert(a[k] == x);
        } else {
            assert(b[k - a.len()] == x);
        }
    }
}

} // verus!
