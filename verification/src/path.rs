//! Unix paths as bytes, compared and taken apart by their components.

use vstd::prelude::*;
use vstd::string::*;
use vstd::utf8::*;
use crate::error::{fail, failure, Failure, ManagedError, ManagedResult};
use crate::text::{bytes_eq, is_one_line, one_line, text_bytes, text_join, utf8, utf8_str};

verus! {

/// The most bytes that a stored path may need, its line end included.
pub const MAX_POINTER_BYTES: usize = 4096;

/// One component of a path.
pub enum PathPart {
    Root,
    Current,
    Parent,
    Normal(Seq<u8>),
}

/// The pieces of a path between its separators.
pub open spec fn segments(p: Seq<u8>) -> Seq<Seq<u8>>
    decreases p.len(),
{
    if p.len() == 0 {
        seq![Seq::<u8>::empty()]
    } else {
        let before = segments(p.drop_last());
        if p.last() == 47 {
            before.push(Seq::<u8>::empty())
        } else {
            before.drop_last().push(before.last().push(p.last()))
        }
    }
}

/// A path that starts at the root.
pub open spec fn is_absolute(p: Seq<u8>) -> bool {
    p.len() > 0 && p[0] == 47
}

/// The component that a piece stands for: empty pieces stand for none, and a
/// single dot only counts at the start of a relative path.
pub open spec fn part_of(segment: Seq<u8>, leading: bool) -> Option<PathPart> {
    if segment.len() == 0 {
        None
    } else if segment =~= seq![46u8] {
        if leading {
            Some(PathPart::Current)
        } else {
            None
        }
    } else if segment =~= seq![46u8, 46u8] {
        Some(PathPart::Parent)
    } else {
        Some(PathPart::Normal(segment))
    }
}

/// The components that a run of pieces stands for.
pub open spec fn parts_of(segs: Seq<Seq<u8>>, absolute: bool) -> Seq<PathPart>
    decreases segs.len(),
{
    if segs.len() == 0 {
        Seq::empty()
    } else {
        let before = parts_of(segs.drop_last(), absolute);
        match part_of(segs.last(), segs.len() == 1 && !absolute) {
            Some(part) => before.push(part),
            None => before,
        }
    }
}

/// The components of a path.
pub open spec fn parts(p: Seq<u8>) -> Seq<PathPart> {
    let body = parts_of(segments(p), is_absolute(p));
    if is_absolute(p) {
        seq![PathPart::Root] + body
    } else {
        body
    }
}

/// Two paths with the same components.
pub open spec fn same_path(a: Seq<u8>, b: Seq<u8>) -> bool {
    parts(a) == parts(b)
}

/// A path at or below another one.
pub open spec fn path_under(p: Seq<u8>, base: Seq<u8>) -> bool {
    parts(base).is_prefix_of(parts(p))
}

/// A path with another one appended; an absolute one takes its place.
pub open spec fn join(a: Seq<u8>, b: Seq<u8>) -> Seq<u8> {
    if is_absolute(b) {
        b
    } else if a.len() > 0 && a.last() != 47 {
        a.push(47) + b
    } else {
        a + b
    }
}

/// A path with a relative text appended.
pub open spec fn child(a: Seq<u8>, b: Seq<char>) -> Seq<u8> {
    join(a, utf8(b))
}

/// The name of the last component, where that is an ordinary one.
pub open spec fn file_name(p: Seq<u8>) -> Option<Seq<u8>> {
    if parts(p).len() > 0 {
        match parts(p).last() {
            PathPart::Normal(name) => Some(name),
            _ => None,
        }
    } else {
        None
    }
}

/// An absolute path without parent steps.
pub open spec fn absolute_normal(p: Seq<u8>) -> bool {
    is_absolute(p) && forall|i: int|
        0 <= i < parts(p).len() ==> #[trigger] parts(p)[i] != PathPart::Parent && parts(p)[i]
            != PathPart::Current
}

/// One component of a path.
#[derive(Debug)]
pub enum Component {
    Root,
    Current,
    Parent,
    Normal(Vec<u8>),
}

impl View for Component {
    type V = PathPart;

    open spec fn view(&self) -> PathPart {
        match self {
            Component::Root => PathPart::Root,
            Component::Current => PathPart::Current,
            Component::Parent => PathPart::Parent,
            Component::Normal(name) => PathPart::Normal(name@),
        }
    }
}

/// The components that some values stand for.
pub open spec fn part_views(cs: Seq<Component>) -> Seq<PathPart> {
    cs.map_values(|c: Component| c@)
}

impl Component {
    /// Whether two components are the same.
    pub fn same(&self, other: &Component) -> (r: bool)
        ensures
            r == (self@ == other@),
    {
        match (self, other) {
            (Component::Root, Component::Root) => true,
            (Component::Current, Component::Current) => true,
            (Component::Parent, Component::Parent) => true,
            (Component::Normal(a), Component::Normal(b)) => bytes_eq(a.as_slice(), b.as_slice()),
            _ => false,
        }
    }
}

/// A path as the bytes it was given in.
#[derive(Debug)]
pub struct FsPath {
    pub bytes: Vec<u8>,
}

impl View for FsPath {
    type V = Seq<u8>;

    open spec fn view(&self) -> Seq<u8> {
        self.bytes@
    }
}

/// A spec-level split into components, one piece at a time.
proof fn lemma_segments_nonempty(p: Seq<u8>)
    ensures
        segments(p).len() >= 1,
    decreases p.len(),
{
    if p.len() > 0 {
        lemma_segments_nonempty(p.drop_last());
    }
}

/// The pieces of a path between its separators.
pub(crate) fn split_segments(p: &[u8]) -> (r: Vec<Vec<u8>>)
    ensures
        r@.map_values(|v: Vec<u8>| v@) == segments(p@),
{
    let mut done: Vec<Vec<u8>> = Vec::new();
    let mut current: Vec<u8> = Vec::new();
    let mut i: usize = 0;
    assert(done@.map_values(|v: Vec<u8>| v@).push(current@) =~= segments(p@.take(0)));
    while i < p.len()
        invariant
            i <= p.len(),
            done@.map_values(|v: Vec<u8>| v@).push(current@) == segments(p@.take(i as int)),
        decreases p.len() - i,
    {
        let ghost before = done@.map_values(|v: Vec<u8>| v@).push(current@);
        assert(p@.take(i + 1).drop_last() =~= p@.take(i as int));
        if p[i] == 47 {
            let ghost old_done = done@;
            let ghost piece = current;
            done.push(current);
            current = Vec::new();
            assert(done@.map_values(|v: Vec<u8>| v@) =~= before);
            assert(done@.map_values(|v: Vec<u8>| v@).push(current@) =~= segments(p@.take(i + 1)));
        } else {
            current.push(p[i]);
            assert(before.drop_last() =~= done@.map_values(|v: Vec<u8>| v@));
            assert(done@.map_values(|v: Vec<u8>| v@).push(current@) =~= segments(p@.take(i + 1)));
        }
        i += 1;
    }
    assert(p@.take(i as int) =~= p@);
    let ghost whole = done@.map_values(|v: Vec<u8>| v@).push(current@);
    done.push(current);
    assert(done@.map_values(|v: Vec<u8>| v@) =~= whole);
    done
}

/// Whether a path starts at the root.
pub fn path_is_absolute(p: &[u8]) -> (r: bool)
    ensures
        r == is_absolute(p@),
{
    p.len() > 0 && p[0] == 47
}

/// The components of a path.
pub fn components(p: &[u8]) -> (r: Vec<Component>)
    ensures
        part_views(r@) == parts(p@),
{
    let absolute = path_is_absolute(p);
    let segs = split_segments(p);
    let ghost specs = segs@.map_values(|v: Vec<u8>| v@);
    let mut out: Vec<Component> = Vec::new();
    if absolute {
        out.push(Component::Root);
    }
    let ghost head = part_views(out@);
    let mut i: usize = 0;
    assert(part_views(out@) =~= head + parts_of(specs.take(0), absolute));
    while i < segs.len()
        invariant
            i <= segs.len(),
            specs == segs@.map_values(|v: Vec<u8>| v@),
            part_views(out@) == head + parts_of(specs.take(i as int), absolute),
        decreases segs.len() - i,
    {
        let ghost before = out@;
        assert(specs.take(i + 1).drop_last() =~= specs.take(i as int));
        assert(specs.take(i + 1).last() == segs@[i as int]@);
        let leading = i == 0 && !absolute;
        let seg = &segs[i];
        let ghost part = part_of(seg@, leading);
        if seg.len() == 0 {
        } else if seg.len() == 1 && seg[0] == 46 {
            assert(seg@ =~= seq![46u8]);
            if leading {
                out.push(Component::Current);
            }
        } else if seg.len() == 2 && seg[0] == 46 && seg[1] == 46 {
            assert(seg@ =~= seq![46u8, 46u8]);
            out.push(Component::Parent);
        } else {
            out.push(Component::Normal(seg.clone()));
        }
        proof {
            if let Some(x) = part {
                assert(part_views(out@) =~= part_views(before).push(x));
                assert(part_views(out@) =~= head + parts_of(specs.take(i + 1), absolute));
            } else {
                assert(out@ == before);
            }
        }
        i += 1;
    }
    assert(specs.take(i as int) =~= specs);
    assert(part_views(out@) =~= parts(p@));
    out
}

/// Whether two component lists agree on the first `n` places.
fn same_components(a: &[Component], b: &[Component], n: usize) -> (r: bool)
    requires
        n <= a.len(),
        n <= b.len(),
    ensures
        r == (part_views(a@).take(n as int) == part_views(b@).take(n as int)),
{
    let mut i: usize = 0;
    while i < n
        invariant
            i <= n <= a.len(),
            n <= b.len(),
            forall|k: int| 0 <= k < i ==> a@[k]@ == b@[k]@,
        decreases n - i,
    {
        if !a[i].same(&b[i]) {
            assert(part_views(a@).take(n as int)[i as int] != part_views(b@).take(n as int)[i as int]);
            return false;
        }
        i += 1;
    }
    assert(part_views(a@).take(n as int) =~= part_views(b@).take(n as int));
    true
}

/// Whether two paths have the same components.
pub fn paths_equal(a: &[u8], b: &[u8]) -> (r: bool)
    ensures
        r == same_path(a@, b@),
{
    let x = components(a);
    let y = components(b);
    if x.len() != y.len() {
        assert(part_views(x@).len() != part_views(y@).len());
        return false;
    }
    let r = same_components(x.as_slice(), y.as_slice(), x.len());
    assert(part_views(x@).take(x@.len() as int) =~= part_views(x@));
    assert(part_views(y@).take(y@.len() as int) =~= part_views(y@));
    r
}

/// Whether a path lies at or below another one.
pub fn path_starts_with(p: &[u8], base: &[u8]) -> (r: bool)
    ensures
        r == path_under(p@, base@),
{
    let x = components(p);
    let y = components(base);
    if y.len() > x.len() {
        assert(part_views(y@).len() > part_views(x@).len());
        return false;
    }
    let r = same_components(x.as_slice(), y.as_slice(), y.len());
    assert(part_views(y@).take(y@.len() as int) =~= part_views(y@));
    assert(part_views(x@).take(y@.len() as int) =~= part_views(x@).subrange(0, y@.len() as int));
    r
}

/// Where the part of a path begins that holds its removable components: after
/// the root, or after the dot that a relative path starts with.
pub open spec fn body_start(p: Seq<u8>) -> int {
    if is_absolute(p) {
        1
    } else if p.len() > 0 && p[0] == 46 && (p.len() == 1 || p[1] == 47) {
        1
    } else {
        0
    }
}

/// Where the last piece of a path begins, looking back no further than `from`.
pub open spec fn last_piece(p: Seq<u8>, from: int) -> int
    decreases p.len(),
{
    if p.len() == 0 || p.len() <= from {
        from
    } else if p.last() == 47 {
        p.len() as int
    } else {
        last_piece(p.drop_last(), from)
    }
}

/// A path without its last piece and the separator before that.
pub open spec fn without_last_piece(p: Seq<u8>) -> Seq<u8> {
    let at = last_piece(p, body_start(p));
    if at > body_start(p) {
        p.take(at - 1)
    } else {
        p.take(body_start(p))
    }
}

/// The last piece of a path stands for no component.
pub open spec fn ends_idle(p: Seq<u8>) -> bool {
    let last = p.skip(last_piece(p, body_start(p)));
    last.len() == 0 || last =~= seq![46u8]
}

/// A path without trailing separators and dots.
pub open spec fn trim_end(p: Seq<u8>) -> Seq<u8>
    decreases p.len(),
{
    if p.len() > body_start(p) && ends_idle(p) && without_last_piece(p).len() < p.len() {
        trim_end(without_last_piece(p))
    } else {
        p
    }
}

/// The path above a path; the root and the empty path have none.
pub open spec fn parent(p: Seq<u8>) -> Option<Seq<u8>> {
    let q = trim_end(p);
    if q.len() > body_start(q) {
        Some(trim_end(without_last_piece(q)))
    } else if q.len() > 0 && !is_absolute(q) {
        Some(Seq::<u8>::empty())
    } else {
        None
    }
}

fn body_start_of(p: &[u8]) -> (r: usize)
    ensures
        r == body_start(p@),
        r <= p.len(),
{
    if p.len() == 0 {
        0
    } else if p[0] == 47 {
        1
    } else if p[0] == 46 && (p.len() == 1 || p[1] == 47) {
        1
    } else {
        0
    }
}

fn last_piece_of(p: &[u8], from: usize) -> (r: usize)
    requires
        from <= p.len(),
    ensures
        r == last_piece(p@, from as int),
        from <= r <= p.len(),
{
    let mut end: usize = p.len();
    assert(p@.take(end as int) =~= p@);
    while end > from && p[end - 1] != 47
        invariant
            from <= end <= p.len(),
            last_piece(p@.take(end as int), from as int) == last_piece(p@, from as int),
        decreases end,
    {
        assert(p@.take(end as int).drop_last() =~= p@.take(end - 1));
        assert(p@.take(end as int).last() == p@[end - 1]);
        end -= 1;
    }
    end
}

/// The number of bytes that are left of a path without its last piece.
fn without_last_len(p: &[u8]) -> (r: usize)
    ensures
        r <= p.len(),
        p@.take(r as int) == without_last_piece(p@),
        r == without_last_piece(p@).len(),
{
    let start: usize = body_start_of(p);
    let at: usize = last_piece_of(p, start);
    if at > start {
        at - 1
    } else {
        start
    }
}

fn piece_is_idle(p: &[u8]) -> (r: bool)
    ensures
        r == ends_idle(p@),
{
    let start: usize = body_start_of(p);
    let at: usize = last_piece_of(p, start);
    let idle = at == p.len() || (at + 1 == p.len() && p[at] == 46);
    proof {
        let last = p@.skip(at as int);
        if idle && at < p.len() {
            assert(last =~= seq![46u8]);
        }
        if last =~= seq![46u8] {
            assert(last[0] == p@[at as int]);
        }
    }
    idle
}

fn trimmed_len(p: &[u8]) -> (r: usize)
    ensures
        r <= p.len(),
        p@.take(r as int) == trim_end(p@),
{
    let mut n: usize = p.len();
    assert(p@.take(n as int) =~= p@);
    loop
        invariant
            n <= p.len(),
            trim_end(p@.take(n as int)) == trim_end(p@),
        decreases n,
    {
        let q = vstd::slice::slice_subrange(p, 0, n);
        assert(q@ =~= p@.take(n as int));
        if n > body_start_of(q) && piece_is_idle(q) {
            let m: usize = without_last_len(q);
            if m < n {
                assert(p@.take(n as int).take(m as int) =~= p@.take(m as int));
                n = m;
                continue;
            }
        }
        return n;
    }
}

proof fn lemma_last_piece_range(p: Seq<u8>, from: int)
    requires
        0 <= from <= p.len(),
    ensures
        from <= last_piece(p, from) <= p.len(),
    decreases p.len(),
{
    if p.len() > from && p.last() != 47 {
        lemma_last_piece_range(p.drop_last(), from);
    }
}

proof fn lemma_without_last_shorter(p: Seq<u8>)
    requires
        p.len() > body_start(p),
    ensures
        without_last_piece(p).len() < p.len(),
{
    lemma_last_piece_range(p, body_start(p));
}

proof fn lemma_trim_no_longer(p: Seq<u8>)
    ensures
        trim_end(p).len() <= p.len(),
    decreases p.len(),
{
    if p.len() > body_start(p) && ends_idle(p) && without_last_piece(p).len() < p.len() {
        lemma_trim_no_longer(without_last_piece(p));
    }
}

/// What is above a path is shorter than the path.
pub proof fn lemma_parent_shorter(p: Seq<u8>)
    ensures
        parent(p) is Some ==> parent(p)->0.len() < p.len(),
{
    let q = trim_end(p);
    lemma_trim_no_longer(p);
    if q.len() > body_start(q) {
        lemma_without_last_shorter(q);
        lemma_trim_no_longer(without_last_piece(q));
    }
}

/// What is wrong with a path that is to be stored: it must be absolute,
/// normalized and fit on one line.
pub open spec fn stored_path_failure(p: Seq<u8>, label: Seq<char>) -> Option<Failure> {
    match absolute_normal_failure(p, label) {
        Some(f) => Some(f),
        None => path_text_failure(p),
    }
}

/// Checks a path that is to be stored.
pub fn check_stored_path(path: &FsPath, label: &str) -> (r: ManagedResult<()>)
    ensures
        failure(r) == stored_path_failure(path@, label@),
{
    match require_absolute_normal(path, label) {
        Ok(_) => {},
        Err(e) => {
            return Err(e);
        },
    }
    match path_text(path) {
        Ok(_) => Ok(()),
        Err(e) => Err(e),
    }
}

impl FsPath {
    /// The path with the bytes of a text.
    pub fn from_text(s: &str) -> (r: FsPath)
        ensures
            r@ == utf8(s@),
    {
        FsPath { bytes: text_bytes(s) }
    }

    /// The path with some bytes.
    pub fn from_bytes(bytes: Vec<u8>) -> (r: FsPath)
        ensures
            r@ == bytes@,
    {
        FsPath { bytes }
    }

    /// The empty path.
    pub fn empty() -> (r: FsPath)
        ensures
            r@ == Seq::<u8>::empty(),
    {
        FsPath { bytes: Vec::new() }
    }

    /// A copy of the path.
    pub fn copy(&self) -> (r: FsPath)
        ensures
            r@ == self@,
    {
        FsPath { bytes: self.bytes.clone() }
    }

    /// Whether the two paths have the same components.
    pub fn same(&self, other: &FsPath) -> (r: bool)
        ensures
            r == same_path(self@, other@),
    {
        paths_equal(self.bytes.as_slice(), other.bytes.as_slice())
    }

    /// Whether the path lies at or below `base`.
    pub fn starts_with(&self, base: &FsPath) -> (r: bool)
        ensures
            r == path_under(self@, base@),
    {
        path_starts_with(self.bytes.as_slice(), base.bytes.as_slice())
    }

    /// The path with other bytes appended as a path.
    pub fn join_bytes(&self, tail: &[u8]) -> (r: FsPath)
        ensures
            r@ == join(self@, tail@),
    {
        let mut bytes: Vec<u8> = Vec::new();
        if !path_is_absolute(tail) {
            bytes = self.bytes.clone();
            if bytes.len() > 0 && bytes[bytes.len() - 1] != 47 {
                bytes.push(47);
            }
        }
        let ghost head = bytes@;
        let mut i: usize = 0;
        while i < tail.len()
            invariant
                i <= tail.len(),
                bytes@ == head + tail@.take(i as int),
            decreases tail.len() - i,
        {
            bytes.push(tail[i]);
            i += 1;
            assert(bytes@ =~= head + tail@.take(i as int));
        }
        assert(bytes@ =~= join(self@, tail@));
        FsPath { bytes }
    }

    /// The path with a text appended as a path.
    pub fn join(&self, tail: &str) -> (r: FsPath)
        ensures
            r@ == child(self@, tail@),
    {
        self.join_bytes(tail.as_bytes())
    }

    /// The path above this one.
    pub fn parent(&self) -> (r: Option<FsPath>)
        ensures
            r is Some == parent(self@) is Some,
            r is Some ==> r->0@ == parent(self@)->0,
    {
        let p = self.bytes.as_slice();
        let n: usize = trimmed_len(p);
        let q = vstd::slice::slice_subrange(p, 0, n);
        assert(q@ =~= trim_end(self@));
        if n > body_start_of(q) {
            let m: usize = without_last_len(q);
            let above = vstd::slice::slice_subrange(q, 0, m);
            assert(above@ =~= without_last_piece(q@));
            let k: usize = trimmed_len(above);
            let kept = vstd::slice::slice_subrange(above, 0, k);
            assert(kept@ =~= trim_end(above@));
            Some(FsPath { bytes: vstd::slice::slice_to_vec(kept) })
        } else if n > 0 && q[0] != 47 {
            Some(FsPath { bytes: Vec::new() })
        } else {
            None
        }
    }

    /// The name of the last component, where that is an ordinary one.
    pub fn file_name(&self) -> (r: Option<Vec<u8>>)
        ensures
            r is Some == file_name(self@) is Some,
            r is Some ==> r->0@ == file_name(self@)->0,
    {
        let cs = components(self.bytes.as_slice());
        assert(part_views(cs@).len() == cs@.len());
        if cs.len() == 0 {
            return None;
        }
        assert(parts(self@).last() == cs@[cs@.len() - 1]@);
        match &cs[cs.len() - 1] {
            Component::Normal(name) => Some(name.clone()),
            _ => None,
        }
    }

    /// Whether the last component is an ordinary one with the given name.
    pub fn file_name_is(&self, name: &str) -> (r: bool)
        ensures
            r == (file_name(self@) == Some(utf8(name@))),
    {
        match self.file_name() {
            Some(found) => bytes_eq(found.as_slice(), name.as_bytes()),
            None => false,
        }
    }

    /// The number of components.
    pub fn depth(&self) -> (r: usize)
        ensures
            r == parts(self@).len(),
    {
        path_depth(self.bytes.as_slice())
    }

    /// Whether the path is empty.
    pub fn is_empty(&self) -> (r: bool)
        ensures
            r == (self@.len() == 0),
    {
        self.bytes.len() == 0
    }
}

/// The number of components of a path.
pub fn path_depth(p: &[u8]) -> (r: usize)
    ensures
        r == parts(p@).len(),
{
    let cs = components(p);
    assert(part_views(cs@).len() == cs@.len());
    cs.len()
}

/// The text of a component in a relative path.
pub open spec fn part_text(part: PathPart) -> Seq<u8> {
    match part {
        PathPart::Root => seq![47u8],
        PathPart::Current => seq![46u8],
        PathPart::Parent => seq![46u8, 46u8],
        PathPart::Normal(name) => name,
    }
}

/// A relative path made of some components.
pub open spec fn render(ps: Seq<PathPart>) -> Seq<u8>
    decreases ps.len(),
{
    if ps.len() == 0 {
        Seq::empty()
    } else {
        join(render(ps.drop_last()), part_text(ps.last()))
    }
}

/// The relative path from `base` to `p`, where `p` lies at or below it.
pub open spec fn relative_to(p: Seq<u8>, base: Seq<u8>) -> Seq<u8> {
    render(parts(p).skip(parts(base).len() as int))
}

/// The relative path made of the components from `from` on.
fn render_from(cs: &[Component], from: usize) -> (r: FsPath)
    requires
        from <= cs.len(),
    ensures
        r@ == render(part_views(cs@).skip(from as int)),
{
    let mut out = FsPath::empty();
    let mut i: usize = from;
    let ghost all = part_views(cs@);
    assert(all.subrange(from as int, from as int) =~= Seq::<PathPart>::empty());
    while i < cs.len()
        invariant
            from <= i <= cs.len(),
            all == part_views(cs@),
            out@ == render(all.subrange(from as int, i as int)),
        decreases cs.len() - i,
    {
        assert(all.subrange(from as int, i + 1).drop_last() =~= all.subrange(from as int, i as int));
        assert(all.subrange(from as int, i + 1).last() == cs@[i as int]@);
        match &cs[i] {
            Component::Root => {
                let piece: [u8; 1] = [47];
                assert(piece@ =~= seq![47u8]);
                out = out.join_bytes(piece.as_slice());
            },
            Component::Current => {
                let piece: [u8; 1] = [46];
                assert(piece@ =~= seq![46u8]);
                out = out.join_bytes(piece.as_slice());
            },
            Component::Parent => {
                let piece: [u8; 2] = [46, 46];
                assert(piece@ =~= seq![46u8, 46u8]);
                out = out.join_bytes(piece.as_slice());
            },
            Component::Normal(name) => {
                out = out.join_bytes(name.as_slice());
            },
        }
        i += 1;
    }
    assert(all.subrange(from as int, i as int) =~= all.skip(from as int));
    out
}

/// The relative path from `base` to `p`, or nothing where `p` lies elsewhere.
pub fn strip_prefix(p: &FsPath, base: &FsPath) -> (r: Option<FsPath>)
    ensures
        r is Some == path_under(p@, base@),
        r is Some ==> r->0@ == relative_to(p@, base@),
{
    if !p.starts_with(base) {
        return None;
    }
    let cs = components(p.bytes.as_slice());
    let n: usize = base.depth();
    assert(part_views(cs@).len() == cs@.len());
    Some(render_from(cs.as_slice(), n))
}

/// What is wrong with a path that must be absolute and normalized.
pub open spec fn absolute_normal_failure(p: Seq<u8>, label: Seq<char>) -> Option<Failure> {
    if absolute_normal(p) {
        None
    } else {
        Some(("unsafe_install_path"@, label + " must be an absolute normalized path"@))
    }
}

/// Whether a path is absolute and free of dot components.
pub fn is_absolute_normal(p: &FsPath) -> (r: bool)
    ensures
        r == absolute_normal(p@),
{
    if !path_is_absolute(p.bytes.as_slice()) {
        return false;
    }
    let cs = components(p.bytes.as_slice());
    assert(part_views(cs@).len() == cs@.len());
    let mut i: usize = 0;
    while i < cs.len()
        invariant
            i <= cs.len(),
            part_views(cs@) == parts(p@),
            is_absolute(p@),
            forall|k: int|
                0 <= k < i ==> #[trigger] parts(p@)[k] != PathPart::Parent && parts(p@)[k]
                    != PathPart::Current,
        decreases cs.len() - i,
    {
        assert(parts(p@)[i as int] == cs@[i as int]@);
        match &cs[i] {
            Component::Parent | Component::Current => {
                return false;
            },
            _ => {},
        }
        i += 1;
    }
    true
}

/// Hands an absolute normalized path back and refuses any other.
pub fn require_absolute_normal(path: &FsPath, label: &str) -> (r: ManagedResult<FsPath>)
    ensures
        failure(r) == absolute_normal_failure(path@, label@),
        r is Ok ==> r->Ok_0@ == path@,
{
    if !is_absolute_normal(path) {
        return Err(
            ManagedError::with_message(
                "unsafe_install_path",
                text_join(label, " must be an absolute normalized path"),
            ),
        );
    }
    Ok(path.copy())
}

/// What is wrong with a path that is to be stored as one line of text.
pub open spec fn path_text_failure(p: Seq<u8>) -> Option<Failure> {
    if !valid_utf8(p) {
        Some(("unsafe_install_path"@, "persisted paths must be valid UTF-8"@))
    } else if p.len() == 0 || !one_line(decode_utf8(p)) || p.len() + 1 > MAX_POINTER_BYTES {
        Some(
            (
                "unsafe_install_path"@,
                "persisted paths must be non-empty, one-line, and pointer-bounded"@,
            ),
        )
    } else {
        None
    }
}

/// The text of a path that can be stored as one line.
pub fn path_text(path: &FsPath) -> (r: ManagedResult<String>)
    ensures
        failure(r) == path_text_failure(path@),
        r is Ok ==> utf8(r->Ok_0@) == path@ && r->Ok_0@ == decode_utf8(path@),
{
    let bytes = path.bytes.as_slice();
    let Some(value) = utf8_str(bytes) else {
        return fail("unsafe_install_path", "persisted paths must be valid UTF-8");
    };
    proof {
        encode_utf8_decode_utf8(value@);
    }
    if bytes.len() == 0 || !is_one_line(value) || bytes.len() >= MAX_POINTER_BYTES {
        return fail(
            "unsafe_install_path",
            "persisted paths must be non-empty, one-line, and pointer-bounded",
        );
    }
    Ok(value.to_owned())
}

/// What is wrong with a path that must consist of the root and ordinary names.
pub open spec fn normal_components_failure(p: Seq<u8>) -> Option<Failure> {
    if !is_absolute(p) {
        Some(("unsafe_install_path"@, "absolute path has no root"@))
    } else if exists|i: int| 1 <= i < parts(p).len() && !(#[trigger] parts(p)[i] is Normal) {
        Some(("unsafe_install_path"@, "path contains an unsupported component"@))
    } else {
        None
    }
}

/// The names below the root of an absolute path.
pub open spec fn normal_names(p: Seq<u8>) -> Seq<Seq<u8>> {
    parts(p).skip(1).map_values(|part: PathPart| part_text(part))
}

/// The names below the root of an absolute path, in order.
pub fn normal_components(path: &FsPath) -> (r: ManagedResult<Vec<Vec<u8>>>)
    ensures
        failure(r) == normal_components_failure(path@),
        r is Ok ==> r->Ok_0@.map_values(|v: Vec<u8>| v@) == normal_names(path@),
{
    let bytes = path.bytes.as_slice();
    if !path_is_absolute(bytes) {
        return fail("unsafe_install_path", "absolute path has no root");
    }
    let cs = components(bytes);
    assert(part_views(cs@).len() == cs@.len());
    let mut names: Vec<Vec<u8>> = Vec::new();
    let mut i: usize = 1;
    assert(names@.map_values(|v: Vec<u8>| v@) =~= normal_names(path@).take(0));
    while i < cs.len()
        invariant
            1 <= i <= cs.len(),
            part_views(cs@) == parts(path@),
            is_absolute(path@),
            names@.map_values(|v: Vec<u8>| v@) == normal_names(path@).take(i - 1),
            forall|k: int| 1 <= k < i ==> #[trigger] parts(path@)[k] is Normal,
        decreases cs.len() - i,
    {
        let ghost before = names@;
        assert(parts(path@)[i as int] == cs@[i as int]@);
        match &cs[i] {
            Component::Normal(name) => {
                names.push(name.clone());
            },
            _ => {
                return fail("unsafe_install_path", "path contains an unsupported component");
            },
        }
        proof {
            assert(normal_names(path@)[i - 1] == part_text(parts(path@)[i as int]));
            assert(before.len() == i - 1) by {
                assert(before.map_values(|v: Vec<u8>| v@).len() == before.len());
            }
            assert(names@ == before.push(names@.last()));
            assert(before.map_values(|v: Vec<u8>| v@) == normal_names(path@).take(i - 1));
            let grown = names@.map_values(|v: Vec<u8>| v@);
            assert forall|k: int| 0 <= k < i implies grown[k] == normal_names(path@)[k] by {
                if k < i - 1 {
                    assert(grown[k] == before.map_values(|v: Vec<u8>| v@)[k]);
                    assert(normal_names(path@).take(i - 1)[k] == normal_names(path@)[k]);
                }
            }
            assert(grown =~= normal_names(path@).take(i as int));
        }
        i += 1;
    }
    assert(normal_names(path@).take(i - 1) =~= normal_names(path@));
    Ok(names)
}

/// Bytes that can be the name of an ordinary component.
pub open spec fn ordinary_name(name: Seq<u8>) -> bool {
    name.len() > 0 && !name.contains(47) && name != seq![46u8] && name != seq![46u8, 46u8]
}

proof fn lemma_one_segment(segment: Seq<u8>, absolute: bool)
    ensures
        parts_of(seq![segment], absolute) == match part_of(segment, !absolute) {
            Some(part) => seq![part],
            None => Seq::<PathPart>::empty(),
        },
{
    let one = seq![segment];
    assert(one.drop_last() =~= Seq::<Seq<u8>>::empty());
    assert(parts_of(one.drop_last(), absolute) =~= Seq::<PathPart>::empty());
    assert(one.last() == segment);
    match part_of(segment, !absolute) {
        Some(part) => {
            assert(Seq::<PathPart>::empty().push(part) =~= seq![part]);
        },
        None => {},
    }
}

proof fn lemma_segments_joined(a: Seq<u8>, b: Seq<u8>)
    ensures
        segments(a.push(47) + b) == segments(a) + segments(b),
    decreases b.len(),
{
    let whole = a.push(47) + b;
    lemma_segments_nonempty(a);
    if b.len() == 0 {
        assert(whole =~= a.push(47));
        assert(whole.drop_last() =~= a);
        assert(segments(whole) =~= segments(a) + segments(b));
    } else {
        lemma_segments_joined(a, b.drop_last());
        lemma_segments_nonempty(b.drop_last());
        assert(whole.drop_last() =~= a.push(47) + b.drop_last());
        assert(whole.last() == b.last());
        let before = segments(b.drop_last());
        let all = segments(a) + before;
        assert(all.last() == before.last());
        assert(all.drop_last() =~= segments(a) + before.drop_last());
        assert(segments(whole) =~= segments(a) + segments(b));
    }
}

proof fn lemma_single_segment(name: Seq<u8>)
    requires
        !name.contains(47),
    ensures
        segments(name) == seq![name],
    decreases name.len(),
{
    if name.len() > 0 {
        assert(!name.drop_last().contains(47)) by {
            if name.drop_last().contains(47) {
                let k = choose|k: int| 0 <= k < name.len() - 1 && name.drop_last()[k] == 47;
                assert(name[k] == 47);
            }
        }
        assert(name[name.len() - 1] != 47) by {
            if name[name.len() - 1] == 47 {
                assert(name.contains(47));
            }
        }
        lemma_single_segment(name.drop_last());
        assert(name.drop_last().push(name.last()) =~= name);
        assert(segments(name) =~= seq![name]);
    } else {
        assert(name =~= Seq::<u8>::empty());
    }
}

proof fn lemma_segments_hold_no_separator(p: Seq<u8>, i: int)
    requires
        0 <= i < segments(p).len(),
    ensures
        !segments(p)[i].contains(47),
    decreases p.len(),
{
    if p.len() > 0 {
        let before = segments(p.drop_last());
        lemma_segments_nonempty(p.drop_last());
        if p.last() == 47 {
            if i < before.len() {
                lemma_segments_hold_no_separator(p.drop_last(), i);
            }
        } else {
            lemma_segments_hold_no_separator(
                p.drop_last(),
                if i < before.len() - 1 {
                    i
                } else {
                    before.len() - 1
                },
            );
            if i == before.len() - 1 {
                let last = before.last().push(p.last());
                if last.contains(47) {
                    let k = choose|k: int| 0 <= k < last.len() && last[k] == 47;
                    assert(before.last()[k] == 47);
                    assert(before.last().contains(47));
                }
            }
        }
    }
}

proof fn lemma_parts_of_joined(a: Seq<Seq<u8>>, b: Seq<Seq<u8>>, absolute: bool)
    requires
        a.len() >= 1,
    ensures
        parts_of(a + b, absolute) == parts_of(a, absolute) + parts_of(b, true),
    decreases b.len(),
{
    if b.len() == 0 {
        assert(a + b =~= a);
        assert(parts_of(a, absolute) + parts_of(b, true) =~= parts_of(a, absolute));
    } else {
        lemma_parts_of_joined(a, b.drop_last(), absolute);
        assert((a + b).drop_last() =~= a + b.drop_last());
        assert((a + b).last() == b.last());
        assert(parts_of(a + b, absolute) =~= parts_of(a, absolute) + parts_of(b, true));
    }
}

proof fn lemma_parts_names(segs: Seq<Seq<u8>>, absolute: bool, i: int)
    requires
        0 <= i < parts_of(segs, absolute).len(),
        forall|k: int| 0 <= k < segs.len() ==> !(#[trigger] segs[k]).contains(47),
    ensures
        match parts_of(segs, absolute)[i] {
            PathPart::Normal(name) => ordinary_name(name),
            _ => true,
        },
    decreases segs.len(),
{
    if segs.len() > 0 {
        let before = parts_of(segs.drop_last(), absolute);
        if i < before.len() {
            assert forall|k: int| 0 <= k < segs.drop_last().len() implies !(
            #[trigger] segs.drop_last()[k]).contains(47) by {
                assert(segs.drop_last()[k] == segs[k]);
            }
            lemma_parts_names(segs.drop_last(), absolute, i);
        } else {
            assert(!segs[segs.len() - 1].contains(47));
        }
    }
}

/// The ordinary components of a path have ordinary names.
pub proof fn law_components_have_ordinary_names(p: Seq<u8>, i: int)
    requires
        0 <= i < parts(p).len(),
    ensures
        match parts(p)[i] {
            PathPart::Normal(name) => ordinary_name(name),
            _ => true,
        },
{
    let body = parts_of(segments(p), is_absolute(p));
    assert forall|k: int| 0 <= k < segments(p).len() implies !(#[trigger] segments(p)[k]).contains(
        47,
    ) by {
        lemma_segments_hold_no_separator(p, k);
    }
    if is_absolute(p) {
        if i > 0 {
            lemma_parts_names(segments(p), true, i - 1);
        }
    } else {
        lemma_parts_names(segments(p), false, i);
    }
}

/// Joining a relative path to a path appends its components; a dot at its start
/// counts for nothing.
pub proof fn law_joining_appends_components(a: Seq<u8>, b: Seq<u8>)
    requires
        a.len() > 0,
        !is_absolute(b),
    ensures
        parts(join(a, b)) == parts(a) + parts_of(segments(b), true),
        is_absolute(join(a, b)) == is_absolute(a),
{
    let whole = join(a, b);
    assert(whole[0] == a[0]);
    if a.last() != 47 {
        lemma_segments_joined(a, b);
        lemma_segments_nonempty(a);
        lemma_parts_of_joined(segments(a), segments(b), is_absolute(a));
    } else {
        let front = a.drop_last();
        assert(a =~= front.push(47));
        assert(whole =~= front.push(47) + b);
        lemma_segments_joined(front, b);
        lemma_segments_nonempty(front);
        lemma_parts_of_joined(segments(front), segments(b), is_absolute(a));
        assert(segments(a) =~= segments(front).push(Seq::<u8>::empty()));
        assert(segments(a).drop_last() =~= segments(front));
        assert(parts_of(segments(a), is_absolute(a)) == parts_of(segments(front), is_absolute(a)));
    }
    assert(parts(whole) =~= parts(a) + parts_of(segments(b), true));
}

/// Joining a name to a path appends one component.
pub proof fn law_joining_a_name_appends_it(a: Seq<u8>, name: Seq<u8>)
    requires
        a.len() > 0,
        ordinary_name(name),
    ensures
        parts(join(a, name)) == parts(a).push(PathPart::Normal(name)),
        is_absolute(join(a, name)) == is_absolute(a),
        path_under(join(a, name), a),
{
    lemma_ordinary_alone(name);
    law_joining_appends_components(a, name);
    assert(parts(join(a, name)) =~= parts(a).push(PathPart::Normal(name)));
}

proof fn lemma_ordinary_alone(name: Seq<u8>)
    requires
        ordinary_name(name),
    ensures
        !is_absolute(name),
        parts_of(segments(name), true) == seq![PathPart::Normal(name)],
        parts(name) == seq![PathPart::Normal(name)],
{
    assert(name[0] != 47) by {
        if name[0] == 47 {
            assert(name.contains(47));
        }
    }
    lemma_single_segment(name);
    lemma_one_segment(name, true);
    lemma_one_segment(name, false);
}

proof fn lemma_dots_alone()
    ensures
        !is_absolute(seq![46u8, 46u8]),
        parts_of(segments(seq![46u8, 46u8]), true) == seq![PathPart::Parent],
        parts(seq![46u8, 46u8]) == seq![PathPart::Parent],
{
    let dots = seq![46u8, 46u8];
    assert(!dots.contains(47)) by {
        if dots.contains(47) {
            let k = choose|k: int| 0 <= k < 2 && dots[k] == 47;
            assert(dots[k] == 46);
        }
    }
    lemma_single_segment(dots);
    lemma_one_segment(dots, true);
    lemma_one_segment(dots, false);
}

proof fn lemma_last_piece_splits(p: Seq<u8>, from: int)
    requires
        1 <= from <= p.len(),
        p[from - 1] == 47,
    ensures
        from <= last_piece(p, from) <= p.len(),
        p[last_piece(p, from) - 1] == 47,
        !p.skip(last_piece(p, from)).contains(47),
    decreases p.len(),
{
    let at = last_piece(p, from);
    if p.len() > from && p.last() != 47 {
        let front = p.drop_last();
        lemma_last_piece_splits(front, from);
        assert(front[at - 1] == p[at - 1]);
        assert(p.skip(at) =~= front.skip(at).push(p.last()));
        if p.skip(at).contains(47) {
            let k = choose|k: int| 0 <= k < p.skip(at).len() && p.skip(at)[k] == 47;
            assert(front.skip(at)[k] == 47);
            assert(front.skip(at).contains(47));
        }
    } else {
        assert(at == p.len());
        assert(p.skip(at) =~= Seq::<u8>::empty());
    }
}

proof fn lemma_root_parts()
    ensures
        parts(seq![47u8]) == seq![PathPart::Root],
{
    let root = seq![47u8];
    let empty = Seq::<u8>::empty();
    assert(root.drop_last() =~= empty);
    assert(segments(empty) =~= seq![empty]);
    assert(segments(root) =~= seq![empty, empty]);
    let two = seq![empty, empty];
    assert(two.drop_last() =~= seq![empty]);
    lemma_one_segment(empty, true);
    assert(parts_of(two, true) == parts_of(two.drop_last(), true));
    assert(parts(root) =~= seq![PathPart::Root]);
}

proof fn lemma_without_last_parts(p: Seq<u8>)
    requires
        is_absolute(p),
    ensures
        is_absolute(without_last_piece(p)),
        ends_idle(p) ==> parts(p) == parts(without_last_piece(p)),
        !ends_idle(p) ==> parts(p).len() > 0 && parts(without_last_piece(p))
            == parts(p).drop_last(),
{
    lemma_last_piece_splits(p, 1);
    let at = last_piece(p, 1);
    let last = p.skip(at);
    let front = p.take(at - 1);
    assert(p =~= front.push(47) + last);
    lemma_segments_joined(front, last);
    lemma_single_segment(last);
    lemma_segments_nonempty(front);
    lemma_parts_of_joined(segments(front), seq![last], true);
    lemma_one_segment(last, true);
    let q = without_last_piece(p);
    let tail = parts_of(seq![last], true);
    if at > 1 {
        assert(q == front);
        assert(q[0] == 47);
        assert(parts(p) =~= parts(q) + tail);
    } else {
        assert(front =~= Seq::<u8>::empty());
        assert(q =~= seq![47u8]);
        lemma_root_parts();
        assert(segments(front) =~= seq![Seq::<u8>::empty()]);
        lemma_one_segment(Seq::<u8>::empty(), true);
        assert(parts(p) =~= parts(q) + tail);
    }
    if ends_idle(p) {
        assert(tail =~= Seq::<PathPart>::empty());
        assert(parts(p) =~= parts(q));
    } else {
        assert(tail.len() == 1);
        assert(parts(p).drop_last() =~= parts(q));
    }
}

proof fn lemma_trim_keeps_parts(p: Seq<u8>)
    requires
        is_absolute(p),
    ensures
        is_absolute(trim_end(p)),
        parts(trim_end(p)) == parts(p),
        trim_end(p).len() > 1 ==> !ends_idle(trim_end(p)),
    decreases p.len(),
{
    lemma_without_last_parts(p);
    if p.len() > 1 {
        lemma_without_last_shorter(p);
        if ends_idle(p) {
            lemma_trim_keeps_parts(without_last_piece(p));
        }
    }
}

/// What is above an absolute path has its components without the last; the root has
/// nothing above it.
pub proof fn law_parent_drops_the_last_component(p: Seq<u8>)
    requires
        is_absolute(p),
    ensures
        parent(p) is Some == (parts(p).len() > 1),
        parent(p) is Some ==> is_absolute(parent(p)->0) && parts(parent(p)->0) == parts(
            p,
        ).drop_last(),
{
    let q = trim_end(p);
    lemma_trim_keeps_parts(p);
    if q.len() > 1 {
        lemma_without_last_parts(q);
        lemma_trim_keeps_parts(without_last_piece(q));
        let above = without_last_piece(q);
        assert(parts(above).len() >= 1) by {
            assert(parts(above) == seq![PathPart::Root] + parts_of(segments(above), true));
        }
        assert(parts(q).len() == parts(above).len() + 1);
    } else {
        assert(q =~= seq![47u8]);
        lemma_root_parts();
    }
}

/// A component that can be written in a relative path.
pub open spec fn step_ok(part: PathPart) -> bool {
    match part {
        PathPart::Parent => true,
        PathPart::Normal(name) => ordinary_name(name),
        _ => false,
    }
}

/// A relative path that is made of components has these components.
pub proof fn law_rendered_components_read_back(ps: Seq<PathPart>)
    requires
        forall|i: int| 0 <= i < ps.len() ==> step_ok(#[trigger] ps[i]),
    ensures
        parts(render(ps)) == ps,
        !is_absolute(render(ps)),
        ps.len() > 0 ==> render(ps).len() > 0,
    decreases ps.len(),
{
    let empty = Seq::<u8>::empty();
    if ps.len() == 0 {
        assert(segments(empty) =~= seq![empty]);
        lemma_one_segment(empty, false);
        assert(ps =~= Seq::<PathPart>::empty());
    } else {
        let front = ps.drop_last();
        assert forall|i: int| 0 <= i < front.len() implies step_ok(#[trigger] front[i]) by {
            assert(front[i] == ps[i]);
        }
        law_rendered_components_read_back(front);
        assert(step_ok(ps[ps.len() - 1]));
        let text = part_text(ps.last());
        match ps.last() {
            PathPart::Normal(name) => {
                lemma_ordinary_alone(name);
            },
            _ => {
                lemma_dots_alone();
            },
        }
        if front.len() == 0 {
            assert(render(front) =~= empty);
            assert(join(render(front), text) =~= text);
            assert(ps =~= seq![ps.last()]);
        } else {
            law_joining_appends_components(render(front), text);
            assert(ps =~= front.push(ps.last()));
            assert(parts(render(ps)) =~= ps);
        }
    }
}

proof fn lemma_leading_dot(segs: Seq<Seq<u8>>)
    requires
        parts_of(segs, false).len() == 0 || parts_of(segs, false)[0] != PathPart::Current,
    ensures
        parts_of(segs, true) == parts_of(segs, false),
    decreases segs.len(),
{
    if segs.len() > 0 {
        let before = parts_of(segs.drop_last(), false);
        let whole = parts_of(segs, false);
        if before.len() > 0 {
            assert(before[0] == whole[0]);
        }
        lemma_leading_dot(segs.drop_last());
        if segs.len() == 1 {
            assert(segs.drop_last() =~= Seq::<Seq<u8>>::empty());
            if segs.last() == seq![46u8] {
                assert(whole[0] == PathPart::Current);
            }
        }
    }
}

pub proof fn lemma_joined_render(base: Seq<u8>, ps: Seq<PathPart>)
    requires
        forall|i: int| 0 <= i < ps.len() ==> step_ok(#[trigger] ps[i]),
    ensures
        parts(join(base, render(ps))) == parts(base) + ps,
        base.len() > 0 ==> is_absolute(join(base, render(ps))) == is_absolute(base),
{
    law_rendered_components_read_back(ps);
    let steps = render(ps);
    if base.len() == 0 {
        let empty = Seq::<PathPart>::empty();
        law_rendered_components_read_back(empty);
        assert(render(empty) =~= base);
        assert(join(base, steps) =~= steps);
        assert(empty + ps =~= ps);
    } else {
        if ps.len() > 0 {
            assert(step_ok(ps[0]));
        }
        lemma_leading_dot(segments(steps));
        law_joining_appends_components(base, steps);
    }
}

/// A path that is made of the components of a path has these components.
pub proof fn law_path_is_made_of_its_components(p: Seq<u8>)
    ensures
        parts(render(parts(p))) == parts(p),
{
    lemma_taken_components(p, parts(p).len() as int);
    assert(parts(p).take(parts(p).len() as int) =~= parts(p));
}

pub proof fn lemma_no_components()
    ensures
        parts(Seq::empty()) == Seq::<PathPart>::empty(),
{
    let empty = Seq::<PathPart>::empty();
    law_rendered_components_read_back(empty);
    assert(render(empty) =~= Seq::<u8>::empty());
}

proof fn lemma_taken_components(p: Seq<u8>, n: int)
    requires
        0 <= n <= parts(p).len(),
    ensures
        parts(render(parts(p).take(n))) == parts(p).take(n),
        n > 0 ==> render(parts(p).take(n)).len() > 0,
    decreases n,
{
    let ps = parts(p).take(n);
    let empty = Seq::<PathPart>::empty();
    if n == 0 {
        law_rendered_components_read_back(empty);
        assert(ps =~= empty);
    } else if n == 1 {
        assert(ps.drop_last() =~= empty);
        let first = ps.last();
        assert(ps =~= seq![first]);
        assert(render(empty) =~= Seq::<u8>::empty());
        assert(join(render(empty), part_text(first)) =~= part_text(first));
        law_components_have_ordinary_names(p, 0);
        match first {
            PathPart::Root => {
                lemma_root_parts();
            },
            PathPart::Current => {
                lemma_dot_alone();
            },
            PathPart::Parent => {
                lemma_dots_alone();
            },
            PathPart::Normal(name) => {
                lemma_ordinary_alone(name);
            },
        }
    } else {
        let front = parts(p).take(n - 1);
        assert(ps.drop_last() =~= front);
        lemma_taken_components(p, n - 1);
        lemma_later_components(p, n - 1);
        match ps.last() {
            PathPart::Normal(name) => {
                lemma_ordinary_alone(name);
            },
            _ => {
                lemma_dots_alone();
            },
        }
        law_joining_appends_components(render(front), part_text(ps.last()));
        assert(ps =~= front.push(ps.last()));
        assert(parts(render(ps)) =~= ps);
    }
}

/// What lies below a directory lies in the same place below the directory that this
/// is moved to.
pub proof fn law_moving_keeps_what_is_below(p: Seq<u8>, source: Seq<u8>, destination: Seq<u8>)
    requires
        absolute_normal(p),
        is_absolute(source),
        path_under(p, source),
        absolute_normal(destination),
    ensures
        ({
            let there = join(destination, relative_to(p, source));
            &&& parts(there) == parts(destination) + parts(p).skip(parts(source).len() as int)
            &&& absolute_normal(there)
            &&& path_under(there, destination)
        }),
{
    let ps = parts(p).skip(parts(source).len() as int);
    assert(parts(source).len() >= 1) by {
        assert(parts(source)[0] == PathPart::Root);
    }
    assert forall|i: int| 0 <= i < ps.len() implies step_ok(#[trigger] ps[i]) by {
        let k = i + parts(source).len();
        assert(ps[i] == parts(p)[k]);
        lemma_later_components(p, k);
    }
    lemma_joined_render(destination, ps);
    let there = join(destination, relative_to(p, source));
    assert forall|i: int| 0 <= i < parts(there).len() implies #[trigger] parts(there)[i]
        != PathPart::Parent && parts(there)[i] != PathPart::Current by {
        if i < parts(destination).len() {
            assert(parts(there)[i] == parts(destination)[i]);
        } else {
            let k = i - parts(destination).len() + parts(source).len();
            assert(parts(there)[i] == parts(p)[k]);
        }
    }
    assert(parts(there).take(parts(destination).len() as int) =~= parts(destination));
}

pub proof fn lemma_later_components(p: Seq<u8>, k: int)
    requires
        0 < k < parts(p).len(),
    ensures
        step_ok(parts(p)[k]),
{
    let body = parts_of(segments(p), is_absolute(p));
    assert(parts(p)[k] == if is_absolute(p) {
        body[k - 1]
    } else {
        body[k]
    });
    lemma_no_root_in_parts(segments(p), is_absolute(p));
    law_components_have_ordinary_names(p, k);
}

/// A path below another one that names a place goes on in steps.
pub proof fn law_what_is_below_goes_on_in_steps(p: Seq<u8>, base: Seq<u8>, k: int)
    requires
        path_under(p, base),
        base.len() > 0,
        parts(base).len() <= k < parts(p).len(),
    ensures
        step_ok(parts(p)[k]),
{
    lemma_named_place(base);
    lemma_later_components(p, k);
}

proof fn lemma_named_place(p: Seq<u8>)
    requires
        p.len() > 0,
    ensures
        parts(p).len() > 0,
{
    if p[0] != 47 {
        lemma_first_segment(p);
        lemma_first_part(segments(p));
    }
}

proof fn lemma_first_segment(p: Seq<u8>)
    requires
        p.len() > 0,
        p[0] != 47,
    ensures
        segments(p).len() > 0,
        segments(p)[0].len() > 0,
    decreases p.len(),
{
    let front = p.drop_last();
    lemma_segments_nonempty(front);
    if p.len() > 1 {
        assert(front[0] == p[0]);
        lemma_first_segment(front);
    }
}

proof fn lemma_first_part(segs: Seq<Seq<u8>>)
    requires
        segs.len() > 0,
        segs[0].len() > 0,
    ensures
        parts_of(segs, false).len() > 0,
    decreases segs.len(),
{
    if segs.len() > 1 {
        assert(segs.drop_last()[0] == segs[0]);
        lemma_first_part(segs.drop_last());
    }
}

proof fn lemma_no_root_in_parts(segs: Seq<Seq<u8>>, absolute: bool)
    ensures
        forall|i: int|
            0 <= i < parts_of(segs, absolute).len() ==> #[trigger] parts_of(segs, absolute)[i]
                != PathPart::Root && (parts_of(segs, absolute)[i] == PathPart::Current ==> i == 0
                && !absolute),
    decreases segs.len(),
{
    if segs.len() > 0 {
        lemma_no_root_in_parts(segs.drop_last(), absolute);
        if segs.len() == 1 {
            assert(segs.drop_last() =~= Seq::<Seq<u8>>::empty());
        }
    }
}

/// A dot alone is a path of one component that leads nowhere.
pub proof fn lemma_dot_alone()
    ensures
        parts(seq![46u8]) == seq![PathPart::Current],
        !is_absolute(seq![46u8]),
{
    let dot = seq![46u8];
    assert(!dot.contains(47)) by {
        if dot.contains(47) {
            let k = choose|k: int| 0 <= k < 1 && dot[k] == 47;
            assert(dot[k] == 46);
        }
    }
    lemma_single_segment(dot);
    lemma_one_segment(dot, false);
}

/// A path that is joined to another stands for itself where it is absolute.
pub proof fn law_absolute_paths_take_over(a: Seq<u8>, b: Seq<u8>)
    ensures
        b.len() > 0 && b[0] == 0x2f ==> join(a, b) == b,
        is_absolute(a) <==> a.len() > 0 && a[0] == 0x2f,
{
}

/// A path lies at or below itself and everything that is above what it lies below; two
/// paths that lie below each other are the same.
pub proof fn law_lying_below_is_an_order(a: Seq<u8>, b: Seq<u8>, c: Seq<u8>)
    ensures
        path_under(a, a),
        path_under(a, b) && path_under(b, c) ==> path_under(a, c),
        path_under(a, b) && path_under(b, a) ==> same_path(a, b),
        path_under(a, b) <==> parts(b).len() <= parts(a).len() && forall|i: int|
            0 <= i < parts(b).len() ==> #[trigger] parts(a)[i] == parts(b)[i],
{
    let (x, y, z) = (parts(a), parts(b), parts(c));
    assert(x.take(x.len() as int) =~= x);
    if path_under(a, b) {
        assert(x.take(y.len() as int) =~= y);
        assert forall|i: int| 0 <= i < y.len() implies #[trigger] x[i] == y[i] by {
            assert(x.take(y.len() as int)[i] == x[i]);
        }
    }
    if path_under(a, b) && path_under(b, c) {
        assert forall|i: int| 0 <= i < z.len() implies x[i] == z[i] by {
            assert(y.take(z.len() as int)[i] == y[i]);
            assert(x[i] == y[i]);
        }
        assert(x.take(z.len() as int) =~= z);
    }
    if path_under(a, b) && path_under(b, a) {
        assert(x =~= y);
    }
    if y.len() <= x.len() && forall|i: int| 0 <= i < y.len() ==> #[trigger] x[i] == y[i] {
        assert(x.take(y.len() as int) =~= y);
    }
}

/// The name of a path is its last component, where that is an ordinary one.
pub proof fn law_names_are_last_components(p: Seq<u8>, name: Seq<u8>)
    ensures
        file_name(p) == Some(name) <==> parts(p).len() > 0 && parts(p)[parts(p).len() - 1]
            == PathPart::Normal(name),
{
}

/// A path can be stored just when it is absolute, of plain names throughout, and text of
/// one line that is short enough for a pointer.
pub proof fn law_stored_paths_are_absolute_lines(p: Seq<u8>, label: Seq<char>)
    ensures
        stored_path_failure(p, label) is None <==> {
            &&& is_absolute(p)
            &&& forall|i: int|
                0 <= i < parts(p).len() ==> !(#[trigger] parts(p)[i] is Parent) && !(parts(p)[i]
                    is Current)
            &&& valid_utf8(p)
            &&& p.len() <= 4095
            &&& forall|i: int|
                0 <= i < decode_utf8(p).len() ==> #[trigger] decode_utf8(p)[i] != '\n'
                    && decode_utf8(p)[i] != '\r'
        },
        stored_path_failure(p, label) is Some ==> (stored_path_failure(p, label)->0).0
            == "unsafe_install_path"@,
        absolute_normal_failure(p, label) is None <==> absolute_normal(p),
{
    let text = decode_utf8(p);
    if one_line(text) {
        assert forall|i: int| 0 <= i < text.len() implies #[trigger] text[i] != '\n' && text[i]
            != '\r' by {
            assert(text.contains(text[i]));
        }
    }
    if forall|i: int| 0 <= i < text.len() ==> #[trigger] text[i] != '\n' && text[i] != '\r' {
        assert(one_line(text));
    }
    if is_absolute(p) && (forall|i: int|
        0 <= i < parts(p).len() ==> !(#[trigger] parts(p)[i] is Parent) && !(parts(p)[i]
            is Current)) {
        assert(absolute_normal(p));
    }
}

/// A path is of plain names just when it is absolute and everything after the root is an
/// ordinary name; these are its names.
pub proof fn law_plain_paths_have_names(p: Seq<u8>, i: int)
    ensures
        normal_components_failure(p) is None <==> is_absolute(p) && forall|k: int|
            1 <= k < parts(p).len() ==> #[trigger] parts(p)[k] is Normal,
        normal_components_failure(p) is None && 0 <= i < parts(p).len() - 1 ==> normal_names(
            p,
        ).len() == parts(p).len() - 1 && parts(p)[i + 1] == PathPart::Normal(normal_names(p)[i]),
{
}

} // verus!
