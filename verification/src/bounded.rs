//! Reads that never take more than they are permitted to.

use vstd::prelude::*;
use vstd::string::*;
use vstd::utf8::*;
use crate::digest::{
    absorbed, digest_ok, finish_hex, sha256_start, sha256_text, sha256_update, Sha256State,
};
use crate::error::{fail, failure, or_else, Failure, ManagedError, ManagedResult};
use crate::json::{json_parsed, parse_json, Json, JsonView};
use crate::text::{utf8, utf8_str};

verus! {

/// The most bytes of one file of the installation.
pub const MAX_OWNED_FILE_BYTES: u64 = 67108864;

/// The most bytes of a tree.
pub const MAX_PURGE_BYTES: u64 = 1073741824;

/// The size of the pieces in which files are read.
pub const CHUNK_BYTES: u64 = 8192;

/// What a source has yet to give.
pub enum Rest {
    /// These bytes, and then the end.
    Ends(Seq<u8>),
    /// These bytes, and then an error with this text.
    Fails(Seq<u8>, Seq<char>),
    /// More bytes, whenever it is asked.
    Endless,
    /// Nothing that is known: what it gives can change while it is read.
    Unknown,
}

/// What a read that asks for some bytes gives, and what is left then. A source of
/// which more is known gives at least one byte and at most as many as it is asked
/// for, until it comes to its end or its error.
pub open spec fn read_fits(before: Rest, max: usize, r: Result<Vec<u8>, String>, after: Rest) -> bool {
    max > 0 ==> match before {
        Rest::Unknown => true,
        Rest::Endless => r is Ok && 0 < r->Ok_0@.len() <= max && after == Rest::Endless,
        Rest::Ends(bytes) => {
            &&& r is Ok
            &&& r->Ok_0@.len() <= max
            &&& r->Ok_0@.is_prefix_of(bytes)
            &&& r->Ok_0@.len() == 0 ==> bytes.len() == 0
            &&& after == Rest::Ends(bytes.skip(r->Ok_0@.len() as int))
        },
        Rest::Fails(bytes, error) => if bytes.len() == 0 {
            r is Err && r->Err_0@ == error
        } else {
            &&& r is Ok
            &&& 0 < r->Ok_0@.len() <= max
            &&& r->Ok_0@.is_prefix_of(bytes)
            &&& after == Rest::Fails(bytes.skip(r->Ok_0@.len() as int), error)
        },
    }
}

/// The bytes that a read gave.
pub open spec fn read_bytes(r: Result<Vec<u8>, String>) -> Seq<u8> {
    match r {
        Ok(bytes) => bytes@,
        Err(_) => Seq::empty(),
    }
}

/// What a read gave: bytes, or the text of an error.
pub open spec fn read_view(r: Result<Vec<u8>, String>) -> Result<Seq<u8>, Seq<char>> {
    match r {
        Ok(bytes) => Ok(bytes@),
        Err(error) => Err(error@),
    }
}

/// Where bytes come from. What it has given and has yet to give is spoken of in
/// contracts alone.
pub trait ByteSource: Sized {
    /// What it has given so far.
    open spec fn given(&self) -> Seq<u8> {
        Seq::empty()
    }

    /// What the last read gave.
    open spec fn last(&self) -> Result<Seq<u8>, Seq<char>> {
        Ok(Seq::empty())
    }

    /// What it has yet to give.
    open spec fn rest(&self) -> Rest {
        Rest::Unknown
    }

    /// The next bytes, at most as many as asked for and none at the end, or the text
    /// of the operating system's error.
    fn read(&mut self, max: usize) -> (r: Result<Vec<u8>, String>)
        ensures
            r is Ok ==> r->Ok_0@.len() <= max,
            final(self).given() == old(self).given() + read_bytes(r),
            final(self).last() == read_view(r),
            read_fits(old(self).rest(), max, r, final(self).rest()),
    ;
}

/// Where bytes go to. What it has taken is spoken of in contracts alone.
pub trait ByteSink: Sized {
    /// What it has taken so far.
    open spec fn taken(&self) -> Seq<u8> {
        Seq::empty()
    }

    /// The error of the last write, if it failed.
    open spec fn refusal(&self) -> Option<Seq<char>> {
        None
    }

    /// It takes whatever it is given.
    open spec fn takes_all(&self) -> bool {
        false
    }

    /// Takes some bytes, or gives the text of the operating system's error, and may
    /// then have taken some of them.
    fn write(&mut self, bytes: &[u8]) -> (r: Result<(), String>)
        ensures
            r is Ok ==> final(self).taken() == old(self).taken() + bytes@,
            final(self).refusal() == match r {
                Ok(_) => None,
                Err(error) => Some(error@),
            },
            old(self).taken().is_prefix_of(final(self).taken()),
            final(self).taken().is_prefix_of(old(self).taken() + bytes@),
            old(self).takes_all() ==> r is Ok && final(self).takes_all(),
    ;
}

/// Bytes in memory, read from the front.
pub struct MemorySource {
    pub bytes: Vec<u8>,
    pub at: usize,
    pub gave: Ghost<Seq<u8>>,
}

impl MemorySource {
    /// A source of some bytes.
    pub fn new(bytes: Vec<u8>) -> (r: Self)
        ensures
            r.given() == Seq::<u8>::empty(),
            r.rest() == Rest::Ends(bytes@),
    {
        let r = MemorySource { bytes, at: 0, gave: Ghost(Seq::empty()) };
        assert(r.given() =~= Seq::<u8>::empty());
        assert(bytes@.skip(0) =~= bytes@);
        r
    }
}

impl ByteSource for MemorySource {
    open spec fn given(&self) -> Seq<u8> {
        if self.at <= self.bytes@.len() {
            self.bytes@.take(self.at as int)
        } else {
            self.bytes@
        }
    }

    open spec fn last(&self) -> Result<Seq<u8>, Seq<char>> {
        Ok(self.gave@)
    }

    open spec fn rest(&self) -> Rest {
        if self.at <= self.bytes@.len() {
            Rest::Ends(self.bytes@.skip(self.at as int))
        } else {
            Rest::Ends(Seq::empty())
        }
    }

    fn read(&mut self, max: usize) -> (r: Result<Vec<u8>, String>) {
        let ghost all = self.bytes@;
        if self.at >= self.bytes.len() {
            assert(self.given() + Seq::<u8>::empty() =~= self.given());
            assert(self.rest() == Rest::Ends(Seq::empty()) || all.skip(self.at as int)
                =~= Seq::empty());
            assert(Seq::<u8>::empty().skip(0) =~= Seq::<u8>::empty());
            let nothing: Vec<u8> = Vec::new();
            self.gave = Ghost(nothing@);
            return Ok(nothing);
        }
        let left: usize = self.bytes.len() - self.at;
        let count: usize = if left < max {
            left
        } else {
            max
        };
        let from: usize = self.at;
        let chunk = vstd::slice::slice_to_vec(
            vstd::slice::slice_subrange(self.bytes.as_slice(), from, from + count),
        );
        self.at = from + count;
        self.gave = Ghost(chunk@);
        assert(all.take(from as int) + chunk@ =~= all.take(from + count));
        assert(all.skip(from as int).skip(count as int) =~= all.skip(from + count));
        assert(chunk@ =~= all.skip(from as int).take(count as int));
        Ok(chunk)
    }
}

/// Bytes in memory, written at the end.
#[derive(Debug)]
pub struct MemorySink {
    pub bytes: Vec<u8>,
}

impl MemorySink {
    /// A sink that has taken nothing.
    pub fn new() -> (r: Self)
        ensures
            r.taken() == Seq::<u8>::empty(),
            r.takes_all(),
    {
        MemorySink { bytes: Vec::new() }
    }
}

impl ByteSink for MemorySink {
    open spec fn taken(&self) -> Seq<u8> {
        self.bytes@
    }

    open spec fn refusal(&self) -> Option<Seq<char>> {
        None
    }

    open spec fn takes_all(&self) -> bool {
        true
    }

    fn write(&mut self, bytes: &[u8]) -> (r: Result<(), String>) {
        self.bytes.extend_from_slice(bytes);
        Ok(())
    }
}

/// How much of a file, and of all files together, has been read.
#[derive(Clone, Copy, Debug)]
pub struct ReadBudget {
    pub file_limit: u64,
    pub total_limit: u64,
    pub file_bytes: u64,
    pub total: u64,
}

impl ReadBudget {
    /// How many bytes may still be read.
    pub open spec fn permitted_bytes(self) -> int {
        let of_file = if self.file_bytes < self.file_limit {
            self.file_limit - self.file_bytes
        } else {
            0
        };
        let of_total = if self.total < self.total_limit {
            self.total_limit - self.total
        } else {
            0
        };
        if of_file < of_total {
            of_file
        } else {
            of_total
        }
    }

    /// The budget after some bytes were read.
    pub open spec fn spent(self, n: int) -> ReadBudget {
        ReadBudget {
            file_bytes: (self.file_bytes + n) as u64,
            total: (self.total + n) as u64,
            ..self
        }
    }

    /// A budget for the next file.
    pub fn new(file_limit: u64, total: u64, total_limit: u64) -> (r: ReadBudget)
        ensures
            r == (ReadBudget { file_limit, total_limit, file_bytes: 0, total }),
    {
        ReadBudget { file_limit, total_limit, file_bytes: 0, total }
    }

    /// How many bytes may still be read.
    pub fn permitted(&self) -> (r: u64)
        ensures
            r == self.permitted_bytes(),
    {
        let of_file: u64 = if self.file_bytes < self.file_limit {
            self.file_limit - self.file_bytes
        } else {
            0
        };
        let of_total: u64 = if self.total < self.total_limit {
            self.total_limit - self.total
        } else {
            0
        };
        if of_file < of_total {
            of_file
        } else {
            of_total
        }
    }

    /// How many bytes the next read asks for: one more than is permitted, so that
    /// a file that has too many is noticed, in pieces of bounded size.
    pub fn request(&self) -> (r: usize)
        ensures
            r == if self.permitted_bytes() + 1 < CHUNK_BYTES {
                self.permitted_bytes() + 1
            } else {
                CHUNK_BYTES as int
            },
    {
        let permitted: u64 = self.permitted();
        if permitted >= CHUNK_BYTES - 1 {
            CHUNK_BYTES as usize
        } else {
            (permitted + 1) as usize
        }
    }

    /// Charges some bytes that were read, if they are permitted.
    pub fn charge(&mut self, n: usize) -> (ok: bool)
        ensures
            ok == (n <= old(self).permitted_bytes()),
            *final(self) == if ok {
                old(self).spent(n as int)
            } else {
                *old(self)
            },
    {
        if n as u64 > self.permitted() {
            return false;
        }
        self.file_bytes = self.file_bytes + n as u64;
        self.total = self.total + n as u64;
        true
    }
}

/// Charging never takes a budget past a limit that it was within.
pub proof fn law_charging_respects_both_limits(b: ReadBudget, n: int)
    requires
        0 < n <= b.permitted_bytes(),
    ensures
        b.spent(n).file_bytes <= b.file_limit,
        b.spent(n).total <= b.total_limit,
        b.spent(n).total - b.total == b.spent(n).file_bytes - b.file_bytes,
{
}

/// What is wrong with what a read gave.
pub open spec fn chunk_failure(
    budget: ReadBudget,
    read: Result<Vec<u8>, String>,
    code: Seq<char>,
    read_failed: Seq<char>,
    exceeded: Seq<char>,
) -> Option<Failure> {
    match read {
        Err(e) => Some((code, read_failed + ": "@ + e@)),
        Ok(chunk) => if chunk@.len() > budget.permitted_bytes() {
            Some((code, exceeded))
        } else {
            None
        },
    }
}

/// Accepts what a read gave, if it is permitted.
pub fn admit_chunk(
    budget: &ReadBudget,
    read: Result<Vec<u8>, String>,
    code: &'static str,
    read_failed: &str,
    exceeded: &str,
) -> (r: ManagedResult<Vec<u8>>)
    ensures
        failure(r) == chunk_failure(*budget, read, code@, read_failed@, exceeded@),
        r is Ok ==> read is Ok && r->Ok_0 == read->Ok_0,
{
    match read {
        Err(e) => Err(ManagedError::io(code, read_failed, e.as_str())),
        Ok(chunk) => {
            if chunk.len() as u64 > budget.permitted() {
                return fail(code, exceeded);
            }
            Ok(chunk)
        },
    }
}

/// Takes what a read gave into a digest, if it is permitted, and tells whether the
/// file has ended.
pub fn take_chunk(
    budget: &mut ReadBudget,
    hasher: &mut Sha256State,
    read: Result<Vec<u8>, String>,
    code: &'static str,
    read_failed: &str,
    exceeded: &str,
) -> (r: ManagedResult<bool>)
    ensures
        failure(r) == chunk_failure(*old(budget), read, code@, read_failed@, exceeded@),
        r is Err ==> *final(budget) == *old(budget) && absorbed(*final(hasher)) == absorbed(
            *old(hasher),
        ),
        r is Ok ==> read is Ok && r->Ok_0 == (read->Ok_0@.len() == 0) && *final(budget) == old(
            budget,
        ).spent(read->Ok_0@.len() as int) && absorbed(*final(hasher)) == absorbed(*old(hasher))
            + read->Ok_0@,
{
    let chunk = admit_chunk(budget, read, code, read_failed, exceeded)?;
    let _ = budget.charge(chunk.len());
    sha256_update(hasher, chunk.as_slice());
    Ok(chunk.len() == 0)
}

/// What a reader comes to that may take some number of bytes.
pub enum Reading {
    /// All bytes, up to the end.
    Whole(Seq<u8>),
    /// These bytes, and then the error of the source.
    Failed(Seq<u8>, Seq<char>),
    /// There are more bytes than it may take.
    TooMany,
}

/// What a reader comes to that may take some number of bytes, where it is known what
/// the source has to give.
pub open spec fn reading(rest: Rest, permitted: int) -> Option<Reading> {
    match rest {
        Rest::Unknown => None,
        Rest::Endless => Some(Reading::TooMany),
        Rest::Ends(bytes) => if bytes.len() <= permitted {
            Some(Reading::Whole(bytes))
        } else {
            Some(Reading::TooMany)
        },
        Rest::Fails(bytes, error) => if bytes.len() <= permitted {
            Some(Reading::Failed(bytes, error))
        } else {
            Some(Reading::TooMany)
        },
    }
}

/// What came after what was there before.
pub open spec fn gained(before: Seq<u8>, after: Seq<u8>) -> Seq<u8> {
    after.skip(before.len() as int)
}

/// Some bytes of a source were read, and this is left of it.
pub open spec fn read_up_to(start: Rest, bytes: Seq<u8>, now: Rest) -> bool {
    match start {
        Rest::Unknown => true,
        Rest::Endless => now == Rest::Endless,
        Rest::Ends(all) => bytes.is_prefix_of(all) && now == Rest::Ends(
            all.skip(bytes.len() as int),
        ),
        Rest::Fails(all, error) => bytes.is_prefix_of(all) && now == Rest::Fails(
            all.skip(bytes.len() as int),
            error,
        ),
    }
}

proof fn lemma_nothing_read(start: Rest)
    ensures
        read_up_to(start, Seq::empty(), start),
{
    match start {
        Rest::Ends(all) => {
            assert(all.skip(0) =~= all);
        },
        Rest::Fails(all, _) => {
            assert(all.skip(0) =~= all);
        },
        _ => {},
    }
}

proof fn lemma_read_on(
    start: Rest,
    bytes: Seq<u8>,
    now: Rest,
    max: usize,
    r: Result<Vec<u8>, String>,
    after: Rest,
)
    requires
        max > 0,
        read_up_to(start, bytes, now),
        read_fits(now, max, r, after),
        r is Ok,
    ensures
        read_up_to(start, bytes + r->Ok_0@, after),
{
    let more = r->Ok_0@;
    let n = bytes.len() as int;
    let m = more.len() as int;
    match start {
        Rest::Ends(all) => {
            assert(all.skip(n).skip(m) =~= all.skip(n + m));
            assert(bytes + more =~= all.take(n + m)) by {
                assert(bytes =~= all.take(n));
                assert(more =~= all.skip(n).take(m));
            }
        },
        Rest::Fails(all, _) => {
            assert(all.skip(n).skip(m) =~= all.skip(n + m));
            assert(bytes + more =~= all.take(n + m)) by {
                assert(bytes =~= all.take(n));
                assert(more =~= all.skip(n).take(m));
            }
        },
        _ => {},
    }
}

proof fn lemma_spending(b: ReadBudget, n: int, m: int)
    requires
        0 <= n <= b.permitted_bytes(),
    ensures
        b.spent(n).permitted_bytes() == b.permitted_bytes() - n,
        0 <= m ==> b.spent(n).spent(m) == b.spent(n + m) || n + m > b.permitted_bytes(),
{
}

proof fn lemma_gained(before: Seq<u8>, now: Seq<u8>, more: Seq<u8>)
    requires
        before.is_prefix_of(now),
    ensures
        before.is_prefix_of(now + more),
        gained(before, now + more) == gained(before, now) + more,
        gained(before, now).is_prefix_of(gained(before, now + more)),
        now == before + gained(before, now),
        gained(before, now).len() == now.len() - before.len(),
{
    assert(gained(before, now + more) =~= gained(before, now) + more);
    assert(now =~= before + gained(before, now));
}

/// What becomes of a file that is read to its end: it is whole, or the reader failed
/// with the error of the source or for too many bytes.
pub open spec fn drained(
    what: Reading,
    code: Seq<char>,
    read_failed: Seq<char>,
    exceeded: Seq<char>,
) -> Option<Failure> {
    match what {
        Reading::Whole(_) => None,
        Reading::Failed(_, error) => Some((code, read_failed + ": "@ + error)),
        Reading::TooMany => Some((code, exceeded)),
    }
}

/// The bytes that a reader takes in, where that does not depend on the pieces in
/// which they come.
pub open spec fn bytes_read(what: Reading) -> Option<Seq<u8>> {
    match what {
        Reading::Whole(bytes) => Some(bytes),
        Reading::Failed(bytes, _) => Some(bytes),
        Reading::TooMany => None,
    }
}

/// What is wrong with what was read of a file, whatever that was: the last read failed,
/// or there are too many bytes.
pub open spec fn reading_failure(
    count: nat,
    last: Result<Seq<u8>, Seq<char>>,
    permitted: int,
    code: Seq<char>,
    read_failed: Seq<char>,
    exceeded: Seq<char>,
) -> Option<Failure> {
    match last {
        Err(error) => Some((code, read_failed + ": "@ + error)),
        Ok(_) => if count > permitted {
            Some((code, exceeded))
        } else {
            None
        },
    }
}

/// Nothing more came.
pub open spec fn at_end(last: Result<Seq<u8>, Seq<char>>) -> bool {
    last is Ok && last->Ok_0.len() == 0
}

/// Reads a file to its end within a budget and takes its bytes into a digest.
/// Fails under the given code where the source fails or has too many bytes.
fn drain<S: ByteSource>(
    source: &mut S,
    budget: &mut ReadBudget,
    hasher: &mut Sha256State,
    code: &'static str,
    read_failed: &str,
    exceeded: &str,
) -> (r: ManagedResult<()>)
    ensures
        old(source).given().is_prefix_of(final(source).given()),
        r is Ok ==> read_up_to(
            old(source).rest(),
            gained(old(source).given(), final(source).given()),
            final(source).rest(),
        ),
        absorbed(*old(hasher)).is_prefix_of(absorbed(*final(hasher))),
        ({
            let came = gained(old(source).given(), final(source).given());
            let hashed = gained(absorbed(*old(hasher)), absorbed(*final(hasher)));
            &&& hashed.is_prefix_of(came)
            &&& hashed.len() <= old(budget).permitted_bytes()
            &&& came.len() <= old(budget).permitted_bytes() + 1
            &&& r is Ok ==> at_end(final(source).last())
            &&& failure(r) == reading_failure(
                came.len(),
                final(source).last(),
                old(budget).permitted_bytes(),
                code@,
                read_failed@,
                exceeded@,
            )
            &&& *final(budget) == old(budget).spent(hashed.len() as int)
            &&& r is Ok ==> hashed == came
            &&& match reading(old(source).rest(), old(budget).permitted_bytes()) {
                None => true,
                Some(what) => failure(r) == drained(what, code@, read_failed@, exceeded@) && (
                bytes_read(what) is Some ==> hashed == bytes_read(what)->0),
            }
        }),
        r is Err ==> r->Err_0.code@ == code@,
{
    let ghost start = *budget;
    let ghost g0 = source.given();
    let ghost h0 = absorbed(*hasher);
    let ghost rest = source.rest();
    proof {
        lemma_nothing_read(rest);
        assert(gained(g0, g0) =~= Seq::empty());
        assert(gained(h0, h0) =~= Seq::empty());
    }
    loop
        invariant
            start == *old(budget),
            g0 == old(source).given(),
            h0 == absorbed(*old(hasher)),
            rest == old(source).rest(),
            g0.is_prefix_of(source.given()),
            h0.is_prefix_of(absorbed(*hasher)),
            gained(h0, absorbed(*hasher)) == gained(g0, source.given()),
            gained(g0, source.given()).len() <= start.permitted_bytes(),
            *budget == start.spent(gained(g0, source.given()).len() as int),
            read_up_to(rest, gained(g0, source.given()), source.rest()),
        decreases budget.permitted_bytes(),
    {
        let ghost before = source.given();
        let ghost so_far = gained(g0, before);
        let ghost now = source.rest();
        let ghost hashed = absorbed(*hasher);
        let ask: usize = budget.request();
        let read = source.read(ask);
        proof {
            lemma_gained(g0, before, read_bytes(read));
            lemma_gained(h0, hashed, read_bytes(read));
            lemma_spending(start, so_far.len() as int, read_bytes(read).len() as int);
            if read is Ok {
                lemma_read_on(rest, so_far, now, ask, read, source.rest());
            }
        }
        if take_chunk(budget, hasher, read, code, read_failed, exceeded)? {
            proof {
                assert(read_bytes(read) =~= Seq::empty());
                assert(so_far + read_bytes(read) =~= so_far);
                assert(hashed + read_bytes(read) =~= hashed);
                if rest is Ends {
                    assert(rest->Ends_0.skip(so_far.len() as int).len() == 0);
                    assert(so_far =~= rest->Ends_0);
                }
            }
            return Ok(());
        }
    }
}

/// What a reader of a file of a tree comes to.
pub open spec fn tree_reading(rest: Rest, file_limit: u64, total: u64, total_limit: u64) -> Option<
    Reading,
> {
    reading(rest, tree_permitted(file_limit, total, total_limit))
}

/// How many bytes may be read of the next file of a tree.
pub open spec fn tree_permitted(file_limit: u64, total: u64, total_limit: u64) -> int {
    (ReadBudget { file_limit, total_limit, file_bytes: 0, total }).permitted_bytes()
}

/// Reads a file to its end within the limits of one file and of all files, and
/// gives the number of its bytes.
pub fn digest_bounded_reader<S: ByteSource>(
    source: &mut S,
    file_limit: u64,
    total: &mut u64,
    total_limit: u64,
) -> (r: ManagedResult<u64>)
    ensures
        old(source).given().is_prefix_of(final(source).given()),
        r is Ok ==> read_up_to(
            old(source).rest(),
            gained(old(source).given(), final(source).given()),
            final(source).rest(),
        ),
        r is Ok ==> r->Ok_0 == gained(old(source).given(), final(source).given()).len()
            && *final(total) == *old(total) + r->Ok_0 && at_end(final(source).last()),
        failure(r) == reading_failure(
            gained(old(source).given(), final(source).given()).len(),
            final(source).last(),
            tree_permitted(file_limit, *old(total), total_limit),
            "bundle_invalid"@,
            "cannot read opened package file"@,
            "package tree exceeds its actual-read byte limit"@,
        ),
        match tree_reading(old(source).rest(), file_limit, *old(total), total_limit) {
            None => true,
            Some(what) => failure(r) == drained(
                what,
                "bundle_invalid"@,
                "cannot read opened package file"@,
                "package tree exceeds its actual-read byte limit"@,
            ) && (bytes_read(what) is Some ==> *final(total) == *old(total)
                + bytes_read(what)->0.len()) && (what is Whole ==> r->Ok_0
                == what->Whole_0.len()),
        },
        *old(total) <= *final(total) <= *old(total) + file_limit,
        *old(total) <= total_limit ==> *final(total) <= total_limit,
        r is Err ==> r->Err_0.code@ == "bundle_invalid"@,
{
    let mut hasher = sha256_start();
    digest_bounded_reader_with_tree(source, file_limit, total, total_limit, &mut hasher)
}

/// Reads a file to its end within the limits of one file and of all files, takes
/// its bytes into the digest of a tree, and gives their number.
pub fn digest_bounded_reader_with_tree<S: ByteSource>(
    source: &mut S,
    file_limit: u64,
    total: &mut u64,
    total_limit: u64,
    tree_hasher: &mut Sha256State,
) -> (r: ManagedResult<u64>)
    ensures
        old(source).given().is_prefix_of(final(source).given()),
        r is Ok ==> read_up_to(
            old(source).rest(),
            gained(old(source).given(), final(source).given()),
            final(source).rest(),
        ),
        absorbed(*old(tree_hasher)).is_prefix_of(absorbed(*final(tree_hasher))),
        ({
            let came = gained(old(source).given(), final(source).given());
            let hashed = gained(absorbed(*old(tree_hasher)), absorbed(*final(tree_hasher)));
            &&& hashed.is_prefix_of(came)
            &&& *final(total) == *old(total) + hashed.len()
            &&& r is Ok ==> hashed == came && r->Ok_0 == came.len()
            &&& came.len() <= file_limit + 1
            &&& r is Ok ==> at_end(final(source).last())
            &&& failure(r) == reading_failure(
                came.len(),
                final(source).last(),
                tree_permitted(file_limit, *old(total), total_limit),
                "bundle_invalid"@,
                "cannot read opened package file"@,
                "package tree exceeds its actual-read byte limit"@,
            )
            &&& match tree_reading(old(source).rest(), file_limit, *old(total), total_limit) {
                None => true,
                Some(what) => failure(r) == drained(
                    what,
                    "bundle_invalid"@,
                    "cannot read opened package file"@,
                    "package tree exceeds its actual-read byte limit"@,
                ) && (bytes_read(what) is Some ==> hashed == bytes_read(what)->0),
            }
        }),
        *old(total) <= *final(total) <= *old(total) + file_limit,
        *old(total) <= total_limit ==> *final(total) <= total_limit,
        r is Err ==> r->Err_0.code@ == "bundle_invalid"@,
{
    let mut budget = ReadBudget::new(file_limit, *total, total_limit);
    let result = drain(
        source,
        &mut budget,
        tree_hasher,
        "bundle_invalid",
        "cannot read opened package file",
        "package tree exceeds its actual-read byte limit",
    );
    *total = budget.total;
    match result {
        Ok(()) => Ok(budget.file_bytes),
        Err(e) => Err(e),
    }
}

/// The size and the digest of a file that was read.
#[derive(Debug)]
pub struct BoundedDigest {
    pub bytes: u64,
    pub sha256: String,
}

/// The size and the digest are those of some bytes.
pub open spec fn digest_of(digest: BoundedDigest, bytes: Seq<u8>) -> bool {
    digest.bytes == bytes.len() && digest.sha256@ == sha256_text(bytes) && digest_ok(
        digest.sha256@,
    )
}

/// Reads a staged file to its end within the limits of one file and of all files.
pub fn digest_bounded_stage_file<S: ByteSource>(
    source: &mut S,
    file_limit: u64,
    total: &mut u64,
    total_limit: u64,
    code: &'static str,
) -> (r: ManagedResult<BoundedDigest>)
    ensures
        old(source).given().is_prefix_of(final(source).given()),
        r is Ok ==> read_up_to(
            old(source).rest(),
            gained(old(source).given(), final(source).given()),
            final(source).rest(),
        ),
        r is Ok ==> digest_of(r->Ok_0, gained(old(source).given(), final(source).given()))
            && *final(total) == *old(total) + r->Ok_0.bytes && at_end(final(source).last()),
        failure(r) == reading_failure(
            gained(old(source).given(), final(source).given()).len(),
            final(source).last(),
            tree_permitted(file_limit, *old(total), total_limit),
            code@,
            "cannot read opened transaction stage file"@,
            "transaction stage exceeds its actual-read byte limit"@,
        ),
        match tree_reading(old(source).rest(), file_limit, *old(total), total_limit) {
            None => true,
            Some(what) => failure(r) == drained(
                what,
                code@,
                "cannot read opened transaction stage file"@,
                "transaction stage exceeds its actual-read byte limit"@,
            ) && (bytes_read(what) is Some ==> *final(total) == *old(total)
                + bytes_read(what)->0.len()) && (what is Whole ==> digest_of(
                r->Ok_0,
                what->Whole_0,
            )),
        },
        *old(total) <= *final(total) <= *old(total) + file_limit,
        *old(total) <= total_limit ==> *final(total) <= total_limit,
        r is Err ==> r->Err_0.code@ == code@,
{
    let mut hasher = sha256_start();
    let mut budget = ReadBudget::new(file_limit, *total, total_limit);
    let result = drain(
        source,
        &mut budget,
        &mut hasher,
        code,
        "cannot read opened transaction stage file",
        "transaction stage exceeds its actual-read byte limit",
    );
    *total = budget.total;
    assert(gained(Seq::empty(), absorbed(hasher)) =~= absorbed(hasher));
    match result {
        Ok(()) => Ok(BoundedDigest { bytes: budget.file_bytes, sha256: finish_hex(hasher) }),
        Err(e) => Err(e),
    }
}

/// Accounts for a piece that was written, or tells why it was not.
pub fn settle_written(
    budget: &mut ReadBudget,
    tree_hasher: &mut Sha256State,
    chunk: &Vec<u8>,
    written: Result<(), String>,
) -> (r: ManagedResult<()>)
    requires
        chunk@.len() <= old(budget).permitted_bytes(),
    ensures
        failure(r) == match written {
            Ok(_) => None,
            Err(e) => Some(
                ("generation_failed"@, "cannot write owned tree file"@ + ": "@ + e@),
            ),
        },
        r is Err ==> *final(budget) == *old(budget) && absorbed(*final(tree_hasher)) == absorbed(
            *old(tree_hasher),
        ),
        r is Ok ==> *final(budget) == old(budget).spent(chunk@.len() as int) && absorbed(
            *final(tree_hasher),
        ) == absorbed(*old(tree_hasher)) + chunk@,
{
    match written {
        Ok(_) => {
            let _ = budget.charge(chunk.len());
            sha256_update(tree_hasher, chunk.as_slice());
            Ok(())
        },
        Err(e) => Err(
            ManagedError::io("generation_failed", "cannot write owned tree file", e.as_str()),
        ),
    }
}

/// What is wrong with what was read of a file that is copied, whatever that was.
pub open spec fn copy_failure(count: nat, last: Result<Seq<u8>, Seq<char>>, permitted: int) -> Option<
    Failure,
> {
    reading_failure(
        count,
        last,
        permitted,
        "bundle_invalid"@,
        "cannot read opened bundle file"@,
        "bundle tree exceeds its actual-copy byte limit"@,
    )
}

/// A copy fails for what was read, or else for what the sink refused.
pub open spec fn copy_failed<T>(
    r: ManagedResult<T>,
    read: Option<Failure>,
    refusal: Option<Seq<char>>,
) -> bool {
    match read {
        Some(f) => failure(r) == Some(f),
        None => r is Err ==> refusal is Some && failure(r) == Some(
            ("generation_failed"@, "cannot write owned tree file"@ + ": "@ + refusal->0),
        ),
    }
}

/// Copies a file within the limits of one file and of all files, takes its bytes
/// into the digest of a tree, and gives their number.
pub fn copy_bounded_reader<S: ByteSource, W: ByteSink>(
    source: &mut S,
    sink: &mut W,
    file_limit: u64,
    total: &mut u64,
    total_limit: u64,
    tree_hasher: &mut Sha256State,
) -> (r: ManagedResult<u64>)
    ensures
        old(source).given().is_prefix_of(final(source).given()),
        r is Ok ==> read_up_to(
            old(source).rest(),
            gained(old(source).given(), final(source).given()),
            final(source).rest(),
        ),
        old(sink).taken().is_prefix_of(final(sink).taken()),
        absorbed(*old(tree_hasher)).is_prefix_of(absorbed(*final(tree_hasher))),
        ({
            let came = gained(old(source).given(), final(source).given());
            let went = gained(old(sink).taken(), final(sink).taken());
            let hashed = gained(absorbed(*old(tree_hasher)), absorbed(*final(tree_hasher)));
            &&& hashed.is_prefix_of(went)
            &&& went.is_prefix_of(came)
            &&& *final(total) == *old(total) + hashed.len()
            &&& r is Ok ==> hashed == came && went == came && r->Ok_0 == came.len()
            &&& came.len() <= file_limit + 1
            &&& r is Ok == (at_end(final(source).last()) && copy_failure(
                came.len(),
                final(source).last(),
                tree_permitted(file_limit, *old(total), total_limit),
            ) is None)
            &&& copy_failed(
                r,
                copy_failure(
                    came.len(),
                    final(source).last(),
                    tree_permitted(file_limit, *old(total), total_limit),
                ),
                final(sink).refusal(),
            )
            &&& old(sink).takes_all() ==> match tree_reading(
                old(source).rest(),
                file_limit,
                *old(total),
                total_limit,
            ) {
                None => true,
                Some(what) => failure(r) == drained(
                    what,
                    "bundle_invalid"@,
                    "cannot read opened bundle file"@,
                    "bundle tree exceeds its actual-copy byte limit"@,
                ) && (bytes_read(what) is Some ==> hashed == bytes_read(what)->0 && went
                    == bytes_read(what)->0),
            }
        }),
        *old(total) <= *final(total) <= *old(total) + file_limit,
        *old(total) <= total_limit ==> *final(total) <= total_limit,
        r is Err ==> r->Err_0.code@ == "bundle_invalid"@ || (r->Err_0.code@ == "generation_failed"@
            && !old(sink).takes_all()),
{
    let mut budget = ReadBudget::new(file_limit, *total, total_limit);
    let ghost start = budget;
    let ghost g0 = source.given();
    let ghost w0 = sink.taken();
    let ghost h0 = absorbed(*tree_hasher);
    let ghost rest = source.rest();
    proof {
        lemma_nothing_read(rest);
        assert(gained(g0, g0) =~= Seq::empty());
        assert(gained(w0, w0) =~= Seq::empty());
        assert(gained(h0, h0) =~= Seq::empty());
    }
    loop
        invariant
            start == (ReadBudget { file_limit, total_limit, file_bytes: 0, total: *old(total) }),
            g0 == old(source).given(),
            w0 == old(sink).taken(),
            h0 == absorbed(*old(tree_hasher)),
            rest == old(source).rest(),
            *total == budget.total,
            g0.is_prefix_of(source.given()),
            w0.is_prefix_of(sink.taken()),
            h0.is_prefix_of(absorbed(*tree_hasher)),
            gained(w0, sink.taken()) == gained(g0, source.given()),
            gained(h0, absorbed(*tree_hasher)) == gained(g0, source.given()),
            gained(g0, source.given()).len() <= start.permitted_bytes(),
            budget == start.spent(gained(g0, source.given()).len() as int),
            read_up_to(rest, gained(g0, source.given()), source.rest()),
            old(sink).takes_all() ==> sink.takes_all(),
        decreases budget.permitted_bytes(),
    {
        let ghost before = source.given();
        let ghost so_far = gained(g0, before);
        let ghost now = source.rest();
        let ghost wrote = sink.taken();
        let ghost hashed = absorbed(*tree_hasher);
        let ask: usize = budget.request();
        let read = source.read(ask);
        proof {
            lemma_gained(g0, before, read_bytes(read));
            lemma_gained(w0, wrote, read_bytes(read));
            lemma_gained(h0, hashed, read_bytes(read));
            lemma_spending(start, so_far.len() as int, read_bytes(read).len() as int);
            if read is Ok {
                lemma_read_on(rest, so_far, now, ask, read, source.rest());
            }
        }
        let chunk = admit_chunk(
            &budget,
            read,
            "bundle_invalid",
            "cannot read opened bundle file",
            "bundle tree exceeds its actual-copy byte limit",
        )?;
        if chunk.len() == 0 {
            proof {
                assert(chunk@ =~= Seq::empty());
                assert(so_far + chunk@ =~= so_far);
                if rest is Ends {
                    assert(rest->Ends_0.skip(so_far.len() as int).len() == 0);
                    assert(so_far =~= rest->Ends_0);
                }
            }
            return Ok(budget.file_bytes);
        }
        let written = sink.write(chunk.as_slice());
        proof {
            let more = gained(wrote, sink.taken());
            assert(more.is_prefix_of(chunk@)) by {
                assert((wrote + chunk@).skip(wrote.len() as int) =~= chunk@);
                assert(more =~= chunk@.take(more.len() as int));
            }
            assert(sink.taken() =~= wrote + more);
            lemma_gained(w0, wrote, more);
            assert((so_far + more).is_prefix_of(so_far + chunk@)) by {
                assert(so_far + more =~= (so_far + chunk@).take((so_far + more).len() as int));
            }
            assert(so_far.is_prefix_of(so_far + more));
        }
        settle_written(&mut budget, tree_hasher, &chunk, written)?;
        *total = budget.total;
    }
}

/// What is wrong with the length of a file that was read to its end.
pub open spec fn length_failure(
    what: Reading,
    reported: u64,
    code: Seq<char>,
    message: Seq<char>,
) -> Option<Failure> {
    if what is Whole && what->Whole_0.len() != reported {
        Some((code, message))
    } else {
        None
    }
}

/// What is wrong with a file of a bundle that is copied, where it is known what the
/// source has to give.
pub open spec fn owned_copy_failure(rest: Rest, reported: u64) -> Option<Option<Failure>> {
    if reported > MAX_OWNED_FILE_BYTES {
        Some(Some(("bundle_invalid"@, "bundle file exceeds the copy limit"@)))
    } else {
        match tree_reading(rest, MAX_OWNED_FILE_BYTES, 0, MAX_OWNED_FILE_BYTES) {
            None => None,
            Some(what) => Some(
                or_else(
                    drained(
                        what,
                        "bundle_invalid"@,
                        "cannot read opened bundle file"@,
                        "bundle tree exceeds its actual-copy byte limit"@,
                    ),
                    length_failure(
                        what,
                        reported,
                        "bundle_invalid"@,
                        "bundle file size changed while it was copied"@,
                    ),
                ),
            ),
        }
    }
}

/// Copies a file of a bundle, which must have the length that was reported for it.
pub fn copy_owned_file<S: ByteSource, W: ByteSink>(source: &mut S, sink: &mut W, reported: u64) -> (r:
    ManagedResult<()>)
    ensures
        old(source).given().is_prefix_of(final(source).given()),
        old(sink).taken().is_prefix_of(final(sink).taken()),
        reported > MAX_OWNED_FILE_BYTES ==> *final(source) == *old(source) && *final(sink) == *old(
            sink,
        ),
        r is Ok ==> ({
            let came = gained(old(source).given(), final(source).given());
            &&& came.len() == reported && at_end(final(source).last())
            &&& gained(old(sink).taken(), final(sink).taken()) == came
        }),
        reported <= MAX_OWNED_FILE_BYTES ==> ({
            let came = gained(old(source).given(), final(source).given());
            copy_failed(
                r,
                or_else(
                    copy_failure(came.len(), final(source).last(), MAX_OWNED_FILE_BYTES as int),
                    if at_end(final(source).last()) && came.len() != reported {
                        Some(
                            (
                                "bundle_invalid"@,
                                "bundle file size changed while it was copied"@,
                            ),
                        )
                    } else {
                        None
                    },
                ),
                final(sink).refusal(),
            )
        }),
        reported > MAX_OWNED_FILE_BYTES || old(sink).takes_all() ==> (match owned_copy_failure(
            old(source).rest(),
            reported,
        ) {
            None => true,
            Some(f) => failure(r) == f && (r is Ok ==> old(source).rest() is Ends && gained(
                old(sink).taken(),
                final(sink).taken(),
            ) == old(source).rest()->Ends_0),
        }),
        r is Err ==> r->Err_0.code@ == "bundle_invalid"@ || (r->Err_0.code@ == "generation_failed"@
            && !old(sink).takes_all()),
{
    if reported > MAX_OWNED_FILE_BYTES {
        return fail("bundle_invalid", "bundle file exceeds the copy limit");
    }
    let mut hasher = sha256_start();
    let mut total: u64 = 0;
    let copied = copy_bounded_reader(
        source,
        sink,
        MAX_OWNED_FILE_BYTES,
        &mut total,
        MAX_OWNED_FILE_BYTES,
        &mut hasher,
    )?;
    if copied != reported {
        return fail("bundle_invalid", "bundle file size changed while it was copied");
    }
    Ok(())
}

/// What becomes of a file of the installation that is read for its digest: the bytes
/// that it is the digest of, or the failure. Nothing where it is not known what the
/// source has to give.
pub open spec fn owned_reading(rest: Rest, expected_len: u64, code: Seq<char>) -> Option<
    Result<Seq<u8>, Failure>,
> {
    if expected_len > MAX_OWNED_FILE_BYTES {
        Some(Err((code, "owned file exceeds the hashing limit"@)))
    } else {
        match reading(rest, MAX_OWNED_FILE_BYTES as int) {
            None => None,
            Some(Reading::Failed(_, error)) => Some(
                Err((code, "cannot hash an owned file"@ + ": "@ + error)),
            ),
            Some(Reading::TooMany) => Some(
                Err((code, "owned file exceeds the actual-read hashing limit"@)),
            ),
            Some(Reading::Whole(bytes)) => if bytes.len() == expected_len {
                Some(Ok(bytes))
            } else {
                Some(Err((code, "owned file size changed while it was hashed"@)))
            },
        }
    }
}

/// Reads a file of the installation to its end and gives its digest. It must have
/// the length that was reported for it.
pub fn digest_opened_owned_file<S: ByteSource>(
    source: &mut S,
    expected_len: u64,
    code: &'static str,
) -> (r: ManagedResult<String>)
    ensures
        old(source).given().is_prefix_of(final(source).given()),
        r is Ok ==> read_up_to(
            old(source).rest(),
            gained(old(source).given(), final(source).given()),
            final(source).rest(),
        ),
        expected_len > MAX_OWNED_FILE_BYTES ==> *final(source) == *old(source),
        r is Ok ==> ({
            let came = gained(old(source).given(), final(source).given());
            &&& came.len() == expected_len && at_end(final(source).last())
            &&& r->Ok_0@ == sha256_text(came) && digest_ok(r->Ok_0@)
        }),
        failure(r) == if expected_len > MAX_OWNED_FILE_BYTES {
            Some((code@, "owned file exceeds the hashing limit"@))
        } else {
            let came = gained(old(source).given(), final(source).given());
            or_else(
                reading_failure(
                    came.len(),
                    final(source).last(),
                    MAX_OWNED_FILE_BYTES as int,
                    code@,
                    "cannot hash an owned file"@,
                    "owned file exceeds the actual-read hashing limit"@,
                ),
                if came.len() != expected_len {
                    Some((code@, "owned file size changed while it was hashed"@))
                } else {
                    None
                },
            )
        },
        match owned_reading(old(source).rest(), expected_len, code@) {
            None => true,
            Some(Err(f)) => failure(r) == Some(f),
            Some(Ok(bytes)) => r is Ok && r->Ok_0@ == sha256_text(bytes),
        },
        r is Err ==> r->Err_0.code@ == code@,
{
    if expected_len > MAX_OWNED_FILE_BYTES {
        return fail(code, "owned file exceeds the hashing limit");
    }
    let mut hasher = sha256_start();
    let mut budget = ReadBudget::new(MAX_OWNED_FILE_BYTES, 0, MAX_OWNED_FILE_BYTES);
    drain(
        source,
        &mut budget,
        &mut hasher,
        code,
        "cannot hash an owned file",
        "owned file exceeds the actual-read hashing limit",
    )?;
    assert(gained(Seq::empty(), absorbed(hasher)) =~= absorbed(hasher));
    finish_owned_digest(budget.file_bytes, expected_len, hasher, code)
}

/// Ends the digest of a file, which must have the length that was reported for
/// it.
pub fn finish_owned_digest(
    read: u64,
    expected_len: u64,
    hasher: Sha256State,
    code: &'static str,
) -> (r: ManagedResult<String>)
    ensures
        failure(r) == if read != expected_len {
            Some((code@, "owned file size changed while it was hashed"@))
        } else {
            None
        },
        r is Ok ==> r->Ok_0@ == sha256_text(absorbed(hasher)) && digest_ok(r->Ok_0@),
{
    if read != expected_len {
        return fail(code, "owned file size changed while it was hashed");
    }
    Ok(finish_hex(hasher))
}

/// What is wrong with a file that was read, by the length reported for it.
pub open spec fn read_failure(
    read: int,
    expected_len: u64,
    limit: u64,
    code: Seq<char>,
) -> Option<Failure> {
    if expected_len > limit {
        Some((code, "managed file exceeds its limit"@))
    } else if read != expected_len {
        Some((code, "managed file size changed while it was read"@))
    } else {
        None
    }
}

/// Accepts the bytes of a file that has the length reported for it.
pub fn check_read_length(bytes: Vec<u8>, expected_len: u64, limit: u64, code: &'static str) -> (r:
    ManagedResult<Vec<u8>>)
    ensures
        failure(r) == read_failure(bytes@.len() as int, expected_len, limit, code@),
        r is Ok ==> r->Ok_0@ == bytes@,
{
    if expected_len > limit {
        return fail(code, "managed file exceeds its limit");
    }
    if bytes.len() as u64 != expected_len {
        return fail(code, "managed file size changed while it was read");
    }
    Ok(bytes)
}

/// The number of bytes at which a read of a whole file stops: one more than the limit.
pub open spec fn read_ceiling(limit: u64) -> u64 {
    if limit == u64::MAX {
        limit
    } else {
        (limit + 1) as u64
    }
}

/// How many bytes the next read of a whole file asks for: what is left up to the
/// ceiling, in pieces of bounded size.
pub fn next_request(read: u64, ceiling: u64) -> (r: usize)
    requires
        read <= ceiling,
    ensures
        r == if ceiling - read < CHUNK_BYTES {
            ceiling - read
        } else {
            CHUNK_BYTES as int
        },
{
    let left: u64 = ceiling - read;
    if left < CHUNK_BYTES {
        left as usize
    } else {
        CHUNK_BYTES as usize
    }
}

/// What becomes of a whole file that is read: its bytes, or the failure. Nothing where
/// it is not known what the source has to give, or where there is no limit.
pub open spec fn whole_reading(rest: Rest, expected_len: u64, limit: u64, code: Seq<char>) -> Option<
    Result<Seq<u8>, Failure>,
> {
    let changed = (code, "managed file size changed while it was read"@);
    if expected_len > limit {
        Some(Err((code, "managed file exceeds its limit"@)))
    } else if limit == u64::MAX {
        None
    } else {
        match reading(rest, limit as int) {
            None => None,
            Some(Reading::Failed(_, error)) => Some(
                Err((code, "cannot read a managed text file"@ + ": "@ + error)),
            ),
            Some(Reading::TooMany) => Some(Err(changed)),
            Some(Reading::Whole(bytes)) => if bytes.len() == expected_len {
                Some(Ok(bytes))
            } else {
                Some(Err(changed))
            },
        }
    }
}

/// What is wrong with what was read of a whole file, whatever that was.
pub open spec fn whole_failure(
    count: nat,
    last: Result<Seq<u8>, Seq<char>>,
    expected_len: u64,
    limit: u64,
    code: Seq<char>,
) -> Option<Failure> {
    if expected_len > limit {
        Some((code, "managed file exceeds its limit"@))
    } else {
        match last {
            Err(error) => Some((code, "cannot read a managed text file"@ + ": "@ + error)),
            Ok(_) => if count != expected_len {
                Some((code, "managed file size changed while it was read"@))
            } else {
                None
            },
        }
    }
}

/// Reads a whole file, which must have the length that was reported for it. At
/// most one byte more than the limit is taken, and none where the reported length is
/// over the limit.
pub fn read_bounded_opened_bytes<S: ByteSource>(
    source: &mut S,
    expected_len: u64,
    limit: u64,
    code: &'static str,
) -> (r: ManagedResult<Vec<u8>>)
    ensures
        old(source).given().is_prefix_of(final(source).given()),
        r is Ok ==> read_up_to(
            old(source).rest(),
            gained(old(source).given(), final(source).given()),
            final(source).rest(),
        ),
        expected_len > limit ==> *final(source) == *old(source),
        gained(old(source).given(), final(source).given()).len() <= read_ceiling(limit),
        r is Ok ==> expected_len <= limit && r->Ok_0@.len() == expected_len && r->Ok_0@ == gained(
            old(source).given(),
            final(source).given(),
        ) && (limit < u64::MAX ==> at_end(final(source).last())),
        failure(r) == whole_failure(
            gained(old(source).given(), final(source).given()).len(),
            final(source).last(),
            expected_len,
            limit,
            code@,
        ),
        match whole_reading(old(source).rest(), expected_len, limit, code@) {
            None => true,
            Some(Err(f)) => failure(r) == Some(f),
            Some(Ok(bytes)) => r is Ok && r->Ok_0@ == bytes,
        },
        r is Err ==> r->Err_0.code@ == code@,
{
    let ghost g0 = source.given();
    let ghost rest = source.rest();
    proof {
        lemma_nothing_read(rest);
        assert(gained(g0, g0) =~= Seq::empty());
    }
    if expected_len > limit {
        return fail(code, "managed file exceeds its limit");
    }
    let ceiling: u64 = if limit == u64::MAX {
        limit
    } else {
        limit + 1
    };
    let mut bytes: Vec<u8> = Vec::new();
    loop
        invariant
            g0 == old(source).given(),
            rest == old(source).rest(),
            ceiling == read_ceiling(limit),
            expected_len <= limit,
            bytes@.len() <= ceiling,
            g0.is_prefix_of(source.given()),
            bytes@ == gained(g0, source.given()),
            read_up_to(rest, bytes@, source.rest()),
            bytes@.len() > 0 ==> source.last() is Ok,
        ensures
            source.last() is Ok,
            bytes@.len() == ceiling || at_end(source.last()),
            bytes@.len() == ceiling || rest is Unknown || (rest is Ends && bytes@
                == rest->Ends_0),
        decreases ceiling - bytes@.len(),
    {
        let ask: usize = next_request(bytes.len() as u64, ceiling);
        if ask == 0 {
            break;
        }
        let ghost before = source.given();
        let ghost so_far = bytes@;
        let ghost now = source.rest();
        let read = source.read(ask);
        proof {
            lemma_gained(g0, before, read_bytes(read));
            if read is Ok {
                lemma_read_on(rest, so_far, now, ask, read, source.rest());
            }
        }
        let mut chunk = match read {
            Ok(chunk) => chunk,
            Err(e) => {
                assert(before + Seq::<u8>::empty() =~= before);
                return Err(ManagedError::io(code, "cannot read a managed text file", e.as_str()));
            },
        };
        if chunk.len() == 0 {
            proof {
                assert(so_far + chunk@ =~= so_far);
                if rest is Ends {
                    assert(rest->Ends_0.skip(so_far.len() as int).len() == 0);
                    assert(so_far =~= rest->Ends_0);
                }
            }
            break;
        }
        bytes.append(&mut chunk);
    }
    check_read_length(bytes, expected_len, limit, code)
}

/// Accepts bytes that are text.
pub fn check_text(bytes: &Vec<u8>, code: &'static str) -> (r: ManagedResult<String>)
    ensures
        failure(r) == if valid_utf8(bytes@) {
            None
        } else {
            Some((code@, "managed text file is not valid UTF-8"@))
        },
        r is Ok ==> utf8(r->Ok_0@) == bytes@,
{
    match utf8_str(bytes.as_slice()) {
        Some(text) => Ok(text.to_owned()),
        None => fail(code, "managed text file is not valid UTF-8"),
    }
}

/// Reads a whole text file, which must have the length that was reported for it.
pub fn read_bounded_opened_utf8<S: ByteSource>(
    source: &mut S,
    expected_len: u64,
    limit: u64,
    code: &'static str,
) -> (r: ManagedResult<String>)
    ensures
        old(source).given().is_prefix_of(final(source).given()),
        r is Ok ==> read_up_to(
            old(source).rest(),
            gained(old(source).given(), final(source).given()),
            final(source).rest(),
        ),
        expected_len > limit ==> *final(source) == *old(source),
        r is Ok ==> expected_len <= limit && utf8(r->Ok_0@).len() == expected_len && utf8(r->Ok_0@)
            == gained(old(source).given(), final(source).given()),
        failure(r) == ({
            let came = gained(old(source).given(), final(source).given());
            or_else(
                whole_failure(came.len(), final(source).last(), expected_len, limit, code@),
                if valid_utf8(came) {
                    None
                } else {
                    Some((code@, "managed text file is not valid UTF-8"@))
                },
            )
        }),
        match whole_reading(old(source).rest(), expected_len, limit, code@) {
            None => true,
            Some(Err(f)) => failure(r) == Some(f),
            Some(Ok(bytes)) => if valid_utf8(bytes) {
                r is Ok && utf8(r->Ok_0@) == bytes
            } else {
                failure(r) == Some((code@, "managed text file is not valid UTF-8"@))
            },
        },
        r is Err ==> r->Err_0.code@ == code@,
{
    let bytes = read_bounded_opened_bytes(source, expected_len, limit, code)?;
    check_text(&bytes, code)
}

/// Accepts bytes that are a JSON document.
pub fn check_json(bytes: &Vec<u8>, code: &'static str) -> (r: ManagedResult<Json>)
    ensures
        crate::pi::json_outcome(r) == match json_parsed(bytes@) {
            Ok(v) => Ok::<JsonView, Failure>(v),
            Err(e) => Err((code@, e)),
        },
{
    match parse_json(bytes.as_slice()) {
        Ok(v) => Ok(v),
        Err(e) => Err(ManagedError::with_message(code, e)),
    }
}

/// Reads a whole JSON file, which must have the length that was reported for it.
pub fn parse_bounded_opened_json<S: ByteSource>(
    source: &mut S,
    expected_len: u64,
    limit: u64,
    code: &'static str,
) -> (r: ManagedResult<Json>)
    ensures
        old(source).given().is_prefix_of(final(source).given()),
        r is Ok ==> read_up_to(
            old(source).rest(),
            gained(old(source).given(), final(source).given()),
            final(source).rest(),
        ),
        expected_len > limit ==> *final(source) == *old(source),
        r is Ok ==> ({
            let came = gained(old(source).given(), final(source).given());
            &&& expected_len <= limit && came.len() == expected_len
            &&& json_parsed(came) == Ok::<JsonView, Seq<char>>(r->Ok_0@)
        }),
        failure(r) == ({
            let came = gained(old(source).given(), final(source).given());
            or_else(
                whole_failure(came.len(), final(source).last(), expected_len, limit, code@),
                match json_parsed(came) {
                    Ok(_) => None,
                    Err(e) => Some((code@, e)),
                },
            )
        }),
        match whole_reading(old(source).rest(), expected_len, limit, code@) {
            None => true,
            Some(Err(f)) => failure(r) == Some(f),
            Some(Ok(bytes)) => crate::pi::json_outcome(r) == match json_parsed(bytes) {
                Ok(v) => Ok::<JsonView, Failure>(v),
                Err(e) => Err((code@, e)),
            },
        },
        r is Err ==> r->Err_0.code@ == code@,
{
    let bytes = read_bounded_opened_bytes(source, expected_len, limit, code)?;
    check_json(&bytes, code)
}

/// What becomes of output that is collected from a program: the bytes so far, or
/// nothing where they would be too many.
pub open spec fn collected(output: Seq<u8>, chunk: Seq<u8>, limit: usize) -> Option<Seq<u8>> {
    if output.len() + chunk.len() > limit {
        None
    } else {
        Some(output + chunk)
    }
}

/// Takes in the next output of a program, unless that would be too much.
pub fn collect_output(output: &mut Vec<u8>, chunk: Vec<u8>, limit: usize) -> (ok: bool)
    ensures
        ok == collected(old(output)@, chunk@, limit) is Some,
        ok ==> Some(final(output)@) == collected(old(output)@, chunk@, limit),
        !ok ==> final(output)@ == old(output)@,
{
    if chunk.len() > limit || output.len() > limit - chunk.len() {
        return false;
    }
    let mut chunk = chunk;
    output.append(&mut chunk);
    true
}

/// A budget permits what both of its limits leave, and nothing once either is reached.
pub proof fn law_budgets_permit_what_is_left(b: ReadBudget)
    ensures
        ({
            let n = b.permitted_bytes();
            &&& n >= 0
            &&& b.file_bytes <= b.file_limit ==> n <= b.file_limit - b.file_bytes
            &&& b.total <= b.total_limit ==> n <= b.total_limit - b.total
            &&& b.file_bytes >= b.file_limit || b.total >= b.total_limit ==> n == 0
            &&& b.file_bytes < b.file_limit && b.total < b.total_limit ==> n == b.file_limit
                - b.file_bytes || n == b.total_limit - b.total
        }),
{
}

/// A source is read whole just when it ends within what is permitted; an error counts only
/// where it comes within that, and everything else is too much.
pub proof fn law_readings_stay_within_what_is_permitted(rest: Rest, permitted: int)
    ensures
        reading(rest, permitted) is None <==> rest is Unknown,
        reading(rest, permitted) is Some ==> match reading(rest, permitted)->0 {
            Reading::Whole(bytes) => rest == Rest::Ends(bytes) && bytes.len() <= permitted,
            Reading::Failed(bytes, error) => rest == Rest::Fails(bytes, error) && bytes.len()
                <= permitted,
            Reading::TooMany => rest is Endless || (rest is Ends && rest->Ends_0.len() > permitted)
                || (rest is Fails && rest->Fails_0.len() > permitted),
        },
{
}

/// A file of the installation has a digest just when it is read to its end and has the
/// length that was reported for it, within the limit; the digest is then of all its bytes.
pub proof fn law_digests_are_of_whole_files(rest: Rest, expected_len: u64, code: Seq<char>)
    ensures
        ({
            let r = owned_reading(rest, expected_len, code);
            &&& r is Some && r->0 is Ok ==> rest == Rest::Ends(r->0->Ok_0) && r->0->Ok_0.len()
                == expected_len && expected_len <= 67_108_864
            &&& rest is Ends && rest->Ends_0.len() == expected_len && expected_len <= 67_108_864
                ==> r == Some(Ok::<Seq<u8>, Failure>(rest->Ends_0))
            &&& r is Some && r->0 is Err ==> (r->0->Err_0).0 == code
            &&& expected_len > 67_108_864 ==> r is Some && r->0 is Err
        }),
{
}

/// A file is read as a whole just when it ends with the length that was reported for it,
/// within its limit; its bytes are then all of it.
pub proof fn law_whole_files_have_their_length(
    rest: Rest,
    expected_len: u64,
    limit: u64,
    code: Seq<char>,
)
    requires
        limit < u64::MAX,
    ensures
        ({
            let r = whole_reading(rest, expected_len, limit, code);
            &&& r is Some && r->0 is Ok ==> rest == Rest::Ends(r->0->Ok_0) && r->0->Ok_0.len()
                == expected_len && expected_len <= limit
            &&& rest is Ends && rest->Ends_0.len() == expected_len && expected_len <= limit ==> r
                == Some(Ok::<Seq<u8>, Failure>(rest->Ends_0))
            &&& r is Some && r->0 is Err ==> (r->0->Err_0).0 == code
            &&& expected_len > limit ==> r is Some && r->0 is Err
        }),
{
}

/// A file of a bundle is copied without fault just when it ends with the length that was
/// reported for it, within the limit.
pub proof fn law_copied_files_keep_their_length(rest: Rest, reported: u64)
    ensures
        owned_copy_failure(rest, reported) == Some(None::<Failure>) <==> (rest is Ends
            && rest->Ends_0.len() == reported && reported <= 67_108_864),
        owned_copy_failure(rest, reported) is None ==> rest is Unknown,
{
}

/// Output is collected whole, in its order, up to the limit; beyond it nothing is.
pub proof fn law_output_is_collected_up_to_the_limit(output: Seq<u8>, chunk: Seq<u8>, limit: usize)
    ensures
        collected(output, chunk, limit) is Some <==> output.len() + chunk.len() <= limit,
        collected(output, chunk, limit) is Some ==> collected(output, chunk, limit)->0 == output
            + chunk,
        read_ceiling(u64::MAX) == u64::MAX,
{
}

/// What was read of a file is at fault just when its last read failed, or it is not of the
/// length that was reported, or that is above the limit.
pub proof fn law_faults_are_told_by_length(
    count: nat,
    last: Result<Seq<u8>, Seq<char>>,
    expected_len: u64,
    limit: u64,
    code: Seq<char>,
)
    ensures
        whole_failure(count, last, expected_len, limit, code) is None <==> (expected_len <= limit
            && last is Ok && count == expected_len),
        read_failure(count as int, expected_len, limit, code) is None <==> (expected_len <= limit
            && count == expected_len),
        forall|permitted: int|
            #![trigger copy_failure(count, last, permitted)]
            copy_failure(count, last, permitted) is None <==> (last is Ok && count <= permitted),
{
}

/// A digest is of some bytes just when it says how many they are and is the digest of them
/// all.
pub proof fn law_digests_say_size_and_content(digest: BoundedDigest, bytes: Seq<u8>)
    requires
        digest_of(digest, bytes),
    ensures
        digest.bytes == bytes.len(),
        digest.sha256@ == sha256_text(bytes),
        digest_ok(digest.sha256@),
{
}

/// What a source gives is what it has, from its front: a read gives up to as many bytes as
/// it is asked for, at least one unless it is at its end, and the rest is what follows them.
pub proof fn law_sources_give_what_they_have(
    bytes: Seq<u8>,
    max: usize,
    r: Result<Vec<u8>, String>,
    after: Rest,
)
    requires
        max > 0,
        read_fits(Rest::Ends(bytes), max, r, after),
    ensures
        r is Ok,
        r->Ok_0@.len() <= max,
        after is Ends,
        r->Ok_0@ + after->Ends_0 == bytes,
        r->Ok_0@.len() == 0 ==> bytes.len() == 0,
{
    assert(r->Ok_0@ + bytes.skip(r->Ok_0@.len() as int) =~= bytes);
}

/// What was read of a source and what is left of it are together what it had.
pub proof fn law_what_was_read_and_what_is_left_are_the_whole(
    all: Seq<u8>,
    bytes: Seq<u8>,
    now: Rest,
)
    requires
        read_up_to(Rest::Ends(all), bytes, now),
    ensures
        now is Ends,
        bytes + now->Ends_0 == all,
{
    assert(bytes + all.skip(bytes.len() as int) =~= all);
}

/// A chunk is taken just when it was read and is within what the budget permits.
pub proof fn law_chunks_are_taken_within_the_budget(
    budget: ReadBudget,
    read: Result<Vec<u8>, String>,
    code: Seq<char>,
    read_failed: Seq<char>,
    exceeded: Seq<char>,
)
    ensures
        chunk_failure(budget, read, code, read_failed, exceeded) is None <==> (read is Ok
            && read->Ok_0@.len() <= budget.permitted_bytes()),
{
}

} // verus!
