//! Sets of paths, in the order in which the paths came.

use vstd::prelude::*;
use crate::order::Located;
use crate::path::{
    components, lemma_parent_shorter, parent, part_views, parts, path_under, Component, FsPath,
    PathPart,
};

verus! {

/// The component lists of some paths.
pub open spec fn all_parts(paths: Seq<Seq<u8>>) -> Seq<Seq<PathPart>> {
    paths.map_values(|p: Seq<u8>| parts(p))
}

/// Paths without repetition; those with equal components count as one.
pub struct PathSet {
    pub members: Vec<Vec<Component>>,
}

impl View for PathSet {
    type V = Seq<Seq<PathPart>>;

    open spec fn view(&self) -> Seq<Seq<PathPart>> {
        self.members@.map_values(|m: Vec<Component>| part_views(m@))
    }
}

fn same_members_at(a: &Vec<Component>, b: &Vec<Component>) -> (r: bool)
    ensures
        r == (part_views(a@) == part_views(b@)),
{
    if a.len() != b.len() {
        assert(part_views(a@).len() != part_views(b@).len());
        return false;
    }
    let mut i: usize = 0;
    while i < a.len()
        invariant
            i <= a.len(),
            a.len() == b.len(),
            forall|k: int| 0 <= k < i ==> a@[k]@ == b@[k]@,
        decreases a.len() - i,
    {
        if !a[i].same(&b[i]) {
            assert(part_views(a@)[i as int] != part_views(b@)[i as int]);
            return false;
        }
        i += 1;
    }
    assert(part_views(a@) =~= part_views(b@));
    true
}

impl PathSet {
    /// The set without members.
    pub fn new() -> (r: PathSet)
        ensures
            r@ == Seq::<Seq<PathPart>>::empty(),
    {
        let r = PathSet { members: Vec::new() };
        assert(r@ =~= Seq::<Seq<PathPart>>::empty());
        r
    }

    fn holds(&self, wanted: &Vec<Component>) -> (r: bool)
        ensures
            r == self@.contains(part_views(wanted@)),
    {
        let mut i: usize = 0;
        while i < self.members.len()
            invariant
                i <= self.members.len(),
                forall|k: int| 0 <= k < i ==> #[trigger] self@[k] != part_views(wanted@),
            decreases self.members.len() - i,
        {
            assert(self@[i as int] == part_views(self.members@[i as int]@));
            if same_members_at(&self.members[i], wanted) {
                return true;
            }
            i += 1;
        }
        assert(self@.len() == self.members@.len());
        false
    }

    /// Whether a path is in the set.
    pub fn contains(&self, path: &FsPath) -> (r: bool)
        ensures
            r == self@.contains(parts(path@)),
    {
        let wanted = components(path.bytes.as_slice());
        self.holds(&wanted)
    }

    /// Adds a path and tells whether it was not there before.
    pub fn insert(&mut self, path: &FsPath) -> (fresh: bool)
        ensures
            fresh == !old(self)@.contains(parts(path@)),
            final(self)@ == if fresh {
                old(self)@.push(parts(path@))
            } else {
                old(self)@
            },
            final(self)@.to_set() == old(self)@.to_set().insert(parts(path@)),
    {
        let wanted = components(path.bytes.as_slice());
        let ghost before = self@;
        proof {
            lemma_grown_set(before, parts(path@));
        }
        if self.holds(&wanted) {
            return false;
        }
        self.members.push(wanted);
        assert(self@ =~= before.push(parts(path@)));
        true
    }

    fn within(&self, other: &PathSet) -> (r: bool)
        ensures
            r == self@.to_set().subset_of(other@.to_set()),
    {
        let mut i: usize = 0;
        while i < self.members.len()
            invariant
                i <= self.members.len(),
                forall|k: int| 0 <= k < i ==> other@.contains(#[trigger] self@[k]),
            decreases self.members.len() - i,
        {
            assert(self@[i as int] == part_views(self.members@[i as int]@));
            if !other.holds(&self.members[i]) {
                assert(self@.to_set().contains(self@[i as int]));
                assert(!other@.to_set().contains(self@[i as int]));
                return false;
            }
            i += 1;
        }
        assert(self@.len() == self.members@.len());
        assert forall|x: Seq<PathPart>| self@.to_set().contains(x) implies other@.to_set().contains(
            x,
        ) by {
            let k = choose|k: int| 0 <= k < self@.len() && self@[k] == x;
            assert(other@.contains(self@[k]));
        }
        true
    }

    /// Whether two sets have the same members.
    pub fn same_members(&self, other: &PathSet) -> (r: bool)
        ensures
            r == (self@.to_set() == other@.to_set()),
    {
        let r = self.within(other) && other.within(self);
        proof {
            if r {
                assert(self@.to_set() =~= other@.to_set());
            }
        }
        r
    }
}

/// A set keeps one member for each path that was put in, whatever the order.
pub proof fn lemma_grown_set(members: Seq<Seq<PathPart>>, x: Seq<PathPart>)
    ensures
        members.push(x).to_set() == members.to_set().insert(x),
        members.contains(x) ==> members.to_set().insert(x) == members.to_set(),
{
    let grown = members.push(x);
    assert forall|y: Seq<PathPart>| grown.to_set().contains(y) <==> members.to_set().insert(
        x,
    ).contains(y) by {
        if members.to_set().insert(x).contains(y) {
            if y == x {
                assert(grown[members.len() as int] == x);
            } else {
                let k = choose|k: int| 0 <= k < members.len() && members[k] == y;
                assert(grown[k] == y);
            }
        }
        if grown.to_set().contains(y) {
            let k = choose|k: int| 0 <= k < grown.len() && grown[k] == y;
            if k < members.len() {
                assert(members[k] == y);
            }
        }
    }
    assert(grown.to_set() =~= members.to_set().insert(x));
    if members.contains(x) {
        assert(members.to_set().insert(x) =~= members.to_set());
    }
}

/// The set of some paths.
pub open spec fn path_set(paths: Seq<Seq<u8>>) -> Set<Seq<PathPart>> {
    all_parts(paths).to_set()
}

/// The set of some paths and one more.
pub proof fn lemma_path_set_push(paths: Seq<Seq<u8>>, p: Seq<u8>)
    ensures
        path_set(paths.push(p)) == path_set(paths).insert(parts(p)),
{
    lemma_grown_set(all_parts(paths), parts(p));
    assert(all_parts(paths.push(p)) =~= all_parts(paths).push(parts(p)));
}

/// The set of two runs of paths.
pub proof fn lemma_path_set_concat(a: Seq<Seq<u8>>, b: Seq<Seq<u8>>)
    ensures
        path_set(a + b) == path_set(a).union(path_set(b)),
    decreases b.len(),
{
    if b.len() == 0 {
        assert(a + b =~= a);
        assert(path_set(b) =~= Set::empty()) by {
            assert(all_parts(b).len() == 0);
        }
        assert(path_set(a).union(path_set(b)) =~= path_set(a));
    } else {
        lemma_path_set_concat(a, b.drop_last());
        assert(a + b =~= (a + b.drop_last()).push(b.last()));
        assert(b =~= b.drop_last().push(b.last()));
        lemma_path_set_push(a + b.drop_last(), b.last());
        lemma_path_set_push(b.drop_last(), b.last());
        assert(path_set(a + b) =~= path_set(a).union(path_set(b)));
    }
}

/// The paths of some located items.
pub open spec fn locations<T: Located>(items: Seq<T>) -> Seq<Seq<u8>> {
    items.map_values(|x: T| x.location())
}

/// Collects the paths of some located items.
pub fn collect_paths<T: Located>(items: &Vec<T>) -> (r: PathSet)
    ensures
        r@.to_set() == path_set(locations(items@)),
{
    let ghost all = locations(items@);
    let mut out = PathSet::new();
    let mut i: usize = 0;
    proof {
        assert(all_parts(all.take(0)) =~= Seq::<Seq<PathPart>>::empty());
    }
    while i < items.len()
        invariant
            i <= items.len(),
            all == locations(items@),
            out@.to_set() == path_set(all.take(i as int)),
        decreases items.len() - i,
    {
        proof {
            lemma_path_set_push(all.take(i as int), all[i as int]);
            assert(all.take(i + 1) =~= all.take(i as int).push(all[i as int]));
        }
        let _ = out.insert(items[i].path_ref());
        i += 1;
    }
    assert(all.take(i as int) =~= all);
    out
}

/// The directories above a path that lie at or below another, nearest first.
pub open spec fn ancestors_within(p: Seq<u8>, base: Seq<u8>) -> Seq<Seq<u8>>
    decreases p.len() via ancestors_within_decreases
{
    match parent(p) {
        None => Seq::empty(),
        Some(above) => if path_under(above, base) {
            seq![above] + ancestors_within(above, base)
        } else {
            Seq::empty()
        },
    }
}

#[via_fn]
proof fn ancestors_within_decreases(p: Seq<u8>, base: Seq<u8>) {
    lemma_parent_shorter(p);
}

/// The directories above some paths that lie at or below one, path by path.
pub open spec fn ancestors_of_all(paths: Seq<Seq<u8>>, base: Seq<u8>) -> Seq<Seq<u8>>
    decreases paths.len(),
{
    if paths.len() == 0 {
        Seq::empty()
    } else {
        ancestors_of_all(paths.drop_last(), base) + ancestors_within(paths.last(), base)
    }
}

/// The directories of a tree that holds nothing but some files: its root and what
/// lies between the root and the files.
pub open spec fn tree_dirs(base: Seq<u8>, files: Seq<Seq<u8>>) -> Set<Seq<PathPart>> {
    path_set(seq![base] + ancestors_of_all(files, base))
}

fn add_ancestors(set: &mut PathSet, path: &FsPath, base: &FsPath)
    ensures
        final(set)@.to_set() == old(set)@.to_set().union(
            path_set(ancestors_within(path@, base@)),
        ),
{
    let ghost start = set@.to_set();
    let ghost goal = start.union(path_set(ancestors_within(path@, base@)));
    let mut next = path.parent();
    let ghost mut at = path@;
    loop
        invariant
            next is Some == parent(at) is Some,
            next is Some ==> next->0@ == parent(at)->0,
            set@.to_set().union(path_set(ancestors_within(at, base@))) == goal,
        ensures
            set@.to_set() == goal,
        decreases at.len(),
    {
        proof {
            lemma_parent_shorter(at);
        }
        let directory = match next {
            None => {
                proof {
                    assert(path_set(Seq::empty()) =~= Set::empty()) by {
                        assert(all_parts(Seq::empty()).len() == 0);
                    }
                    assert(set@.to_set().union(Set::empty()) =~= set@.to_set());
                }
                break;
            },
            Some(directory) => directory,
        };
        if !directory.starts_with(base) {
            proof {
                assert(path_set(Seq::empty()) =~= Set::empty()) by {
                    assert(all_parts(Seq::empty()).len() == 0);
                }
                assert(set@.to_set().union(Set::empty()) =~= set@.to_set());
            }
            break;
        }
        let ghost before = set@.to_set();
        let _ = set.insert(&directory);
        proof {
            let here = directory@;
            let rest = ancestors_within(here, base@);
            lemma_path_set_concat(seq![here], rest);
            assert(seq![here] =~= Seq::<Seq<u8>>::empty().push(here));
            lemma_path_set_push(Seq::empty(), here);
            assert(path_set(Seq::empty()) =~= Set::empty()) by {
                assert(all_parts(Seq::empty()).len() == 0);
            }
            assert(before.insert(parts(here)).union(path_set(rest)) =~= before.union(
                path_set(seq![here] + rest),
            ));
            at = here;
        }
        next = directory.parent();
    }
}

/// The directories of a tree that holds nothing but some files.
pub fn tree_directories<T: Located>(base: &FsPath, files: &Vec<T>) -> (r: PathSet)
    ensures
        r@.to_set() == tree_dirs(base@, locations(files@)),
{
    let ghost all = locations(files@);
    let mut out = PathSet::new();
    let _ = out.insert(base);
    let mut i: usize = 0;
    proof {
        assert(all.take(0) =~= Seq::<Seq<u8>>::empty());
        assert(seq![base@] + ancestors_of_all(all.take(0), base@) =~= Seq::<Seq<u8>>::empty().push(
            base@,
        ));
        lemma_path_set_push(Seq::empty(), base@);
        assert(path_set(Seq::empty()) =~= Set::empty()) by {
            assert(all_parts(Seq::empty()).len() == 0);
        }
        assert(Seq::<Seq<PathPart>>::empty().to_set() =~= Set::empty());
    }
    while i < files.len()
        invariant
            i <= files.len(),
            all == locations(files@),
            out@.to_set() == path_set(seq![base@] + ancestors_of_all(all.take(i as int), base@)),
        decreases files.len() - i,
    {
        proof {
            assert(all.take(i + 1).drop_last() =~= all.take(i as int));
            let known = seq![base@] + ancestors_of_all(all.take(i as int), base@);
            let more = ancestors_within(all[i as int], base@);
            lemma_path_set_concat(known, more);
            assert(known + more =~= seq![base@] + ancestors_of_all(all.take(i + 1), base@));
        }
        add_ancestors(&mut out, files[i].path_ref(), base);
        i += 1;
    }
    assert(all.take(i as int) =~= all);
    out
}

/// A set of paths holds the components of each of them, and of no others.
pub proof fn law_path_sets_hold_their_paths(paths: Seq<Seq<u8>>, wanted: Seq<PathPart>)
    ensures
        path_set(paths).contains(wanted) <==> exists|i: int|
            0 <= i < paths.len() && parts(#[trigger] paths[i]) == wanted,
{
    let all = all_parts(paths);
    if path_set(paths).contains(wanted) {
        assert(all.contains(wanted));
        let i = all.index_of(wanted);
        assert(parts(paths[i]) == wanted);
    }
    if exists|i: int| 0 <= i < paths.len() && parts(#[trigger] paths[i]) == wanted {
        let i = choose|i: int| 0 <= i < paths.len() && parts(#[trigger] paths[i]) == wanted;
        assert(all[i] == wanted);
        assert(all.contains(wanted));
    }
}

/// Every directory above a path that is gone through lies at or below the base, and each is
/// right above the one before; it ends only where the next one up lies outside.
pub proof fn law_ancestors_climb_to_the_base(p: Seq<u8>, base: Seq<u8>, i: int)
    requires
        0 <= i < ancestors_within(p, base).len(),
    ensures
        path_under(ancestors_within(p, base)[i], base),
        parent(if i == 0 {
            p
        } else {
            ancestors_within(p, base)[i - 1]
        }) == Some(ancestors_within(p, base)[i]),
        i == ancestors_within(p, base).len() - 1 ==> (parent(ancestors_within(p, base)[i]) is None
            || !path_under(parent(ancestors_within(p, base)[i])->0, base)),
    decreases p.len(),
{
    lemma_parent_shorter(p);
    let above = parent(p)->0;
    let rest = ancestors_within(above, base);
    if i > 0 {
        law_ancestors_climb_to_the_base(above, base, i - 1);
        assert(ancestors_within(p, base)[i] == rest[i - 1]);
        if i > 1 {
            assert(ancestors_within(p, base)[i - 1] == rest[i - 2]);
        }
    } else if ancestors_within(p, base).len() == 1 {
        assert(rest.len() == 0);
    }
}

/// The directories of a tree are its root and those above its files that lie in it.
pub proof fn law_tree_directories_lead_to_the_files(
    base: Seq<u8>,
    files: Seq<Seq<u8>>,
    wanted: Seq<PathPart>,
)
    ensures
        tree_dirs(base, files).contains(wanted) <==> wanted == parts(base) || exists|i: int, k: int|
            0 <= i < files.len() && 0 <= k < ancestors_within(files[i], base).len() && parts(
                #[trigger] ancestors_within(files[i], base)[k],
            ) == wanted,
{
    let above = ancestors_of_all(files, base);
    let all = seq![base] + above;
    law_path_sets_hold_their_paths(all, wanted);
    if wanted == parts(base) {
        assert(parts(all[0]) == wanted);
    }
    if tree_dirs(base, files).contains(wanted) && wanted != parts(base) {
        let j = choose|j: int| 0 <= j < all.len() && parts(#[trigger] all[j]) == wanted;
        assert(j > 0);
        assert(above[j - 1] == all[j]);
        lemma_ancestors_from(files, base, j - 1);
    }
    if exists|i: int, k: int|
        0 <= i < files.len() && 0 <= k < ancestors_within(files[i], base).len() && parts(
            #[trigger] ancestors_within(files[i], base)[k],
        ) == wanted {
        let (i, k) = choose|i: int, k: int|
            0 <= i < files.len() && 0 <= k < ancestors_within(files[i], base).len() && parts(
                #[trigger] ancestors_within(files[i], base)[k],
            ) == wanted;
        let j = lemma_ancestors_hold(files, base, i, k);
        assert(all[j + 1] == above[j]);
        assert(parts(all[j + 1]) == wanted);
    }
}

proof fn lemma_ancestors_from(files: Seq<Seq<u8>>, base: Seq<u8>, j: int)
    requires
        0 <= j < ancestors_of_all(files, base).len(),
    ensures
        exists|i: int, k: int|
            0 <= i < files.len() && 0 <= k < ancestors_within(files[i], base).len()
                && #[trigger] ancestors_within(files[i], base)[k] == ancestors_of_all(files, base)[j],
    decreases files.len(),
{
    let front = files.drop_last();
    let before = ancestors_of_all(front, base);
    let last = ancestors_within(files.last(), base);
    if j < before.len() {
        lemma_ancestors_from(front, base, j);
        let (i, k) = choose|i: int, k: int|
            0 <= i < front.len() && 0 <= k < ancestors_within(front[i], base).len()
                && #[trigger] ancestors_within(front[i], base)[k] == before[j];
        assert(front[i] == files[i]);
        assert(ancestors_within(files[i], base)[k] == ancestors_of_all(files, base)[j]);
    } else {
        let k = j - before.len();
        let i = files.len() - 1;
        assert(files[i] == files.last());
        assert(ancestors_within(files[i], base)[k] == ancestors_of_all(files, base)[j]);
    }
}

proof fn lemma_ancestors_hold(files: Seq<Seq<u8>>, base: Seq<u8>, i: int, k: int) -> (j: int)
    requires
        0 <= i < files.len(),
        0 <= k < ancestors_within(files[i], base).len(),
    ensures
        0 <= j < ancestors_of_all(files, base).len(),
        ancestors_of_all(files, base)[j] == ancestors_within(files[i], base)[k],
    decreases files.len(),
{
    let front = files.drop_last();
    let before = ancestors_of_all(front, base);
    if i < front.len() {
        assert(front[i] == files[i]);
        lemma_ancestors_hold(front, base, i, k)
    } else {
        before.len() + k
    }
}

} // verus!
