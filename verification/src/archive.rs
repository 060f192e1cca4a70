//! Release archives: a tar stream with exactly the listed entries.

use vstd::prelude::*;
use vstd::string::*;
use vstd::utf8::*;
use crate::error::{fail, failure, or_else, outcome, Failure, ManagedError, ManagedResult};
use crate::path::{
    absolute_normal, absolute_normal_failure, parent, require_absolute_normal, segments, FsPath,
};
use crate::text::{bytes_eq, utf8, utf8_str};

verus! {

/// The most bytes of an archive once it is expanded.
pub const MAX_ARCHIVE_EXPANDED_BYTES: usize = 33554432;

/// The most entries that are looked at in an archive.
pub const MAX_ARCHIVE_ENTRIES: usize = 25;

/// A failure of an archive.
pub open spec fn bad_archive(message: Seq<char>) -> Option<Failure> {
    Some(("archive_invalid"@, message))
}

/// A byte that pads numeric fields.
pub open spec fn is_padding(b: u8) -> bool {
    b == 0 || b == 32
}

/// A field without the padding at its start.
pub open spec fn trim_front(s: Seq<u8>) -> Seq<u8>
    decreases s.len(),
{
    if s.len() > 0 && is_padding(s[0]) {
        trim_front(s.skip(1))
    } else {
        s
    }
}

/// A field without the padding at its end.
pub open spec fn trim_back(s: Seq<u8>) -> Seq<u8>
    decreases s.len(),
{
    if s.len() > 0 && is_padding(s.last()) {
        trim_back(s.drop_last())
    } else {
        s
    }
}

/// The number that some octal digits stand for.
pub open spec fn octal_value(s: Seq<u8>) -> nat
    decreases s.len(),
{
    if s.len() == 0 {
        0
    } else {
        (8 * octal_value(s.drop_last()) + (s.last() as int - 48)) as nat
    }
}

/// Every byte is an octal digit.
pub open spec fn octal_digits(s: Seq<u8>) -> bool {
    forall|i: int| 0 <= i < s.len() ==> 48 <= #[trigger] s[i] <= 55
}

/// The number in a numeric field, or what is wrong with the field.
pub open spec fn tar_number(field: Seq<u8>) -> Result<nat, Failure> {
    let digits = trim_back(trim_front(field));
    if !valid_utf8(field) {
        Err(("archive_invalid"@, "tar numeric field is not UTF-8"@))
    } else if digits.len() == 0 || !octal_digits(digits) {
        Err(("archive_invalid"@, "tar numeric field is not canonical octal"@))
    } else if octal_value(digits) > u64::MAX {
        Err(("archive_invalid"@, "tar numeric field overflow"@))
    } else {
        Ok(octal_value(digits))
    }
}

proof fn lemma_octal_grows(s: Seq<u8>, n: int)
    requires
        0 <= n <= s.len(),
        octal_digits(s),
    ensures
        octal_value(s.take(n)) <= octal_value(s),
    decreases s.len() - n,
{
    if n == s.len() {
        assert(s.take(n) =~= s);
    } else {
        lemma_octal_grows(s, n + 1);
        assert(s.take(n + 1).drop_last() =~= s.take(n));
        assert(s.take(n + 1).last() == s[n]);
    }
}

/// Reads a numeric field.
pub fn parse_tar_octal(field: &[u8]) -> (r: ManagedResult<u64>)
    ensures
        match r {
            Ok(v) => tar_number(field@) == Ok::<nat, Failure>(v as nat),
            Err(e) => tar_number(field@) == Err::<nat, Failure>(e@),
        },
{
    if utf8_str(field).is_none() {
        return fail("archive_invalid", "tar numeric field is not UTF-8");
    }
    let mut from: usize = 0;
    assert(field@.skip(0) =~= field@);
    while from < field.len() && (field[from] == 0 || field[from] == 32)
        invariant
            from <= field.len(),
            trim_front(field@) == trim_front(field@.skip(from as int)),
        decreases field.len() - from,
    {
        assert(field@.skip(from as int)[0] == field@[from as int]);
        assert(field@.skip(from as int).skip(1) =~= field@.skip(from + 1));
        from += 1;
    }
    let ghost front = field@.skip(from as int);
    assert(trim_front(field@) == front) by {
        if from < field.len() {
            assert(front[0] == field@[from as int]);
        }
    }
    let mut to: usize = field.len();
    assert(field@.subrange(from as int, to as int) =~= front);
    while to > from && (field[to - 1] == 0 || field[to - 1] == 32)
        invariant
            from <= to <= field.len(),
            trim_back(front) == trim_back(field@.subrange(from as int, to as int)),
        decreases to,
    {
        let ghost s = field@.subrange(from as int, to as int);
        assert(s.last() == field@[to - 1]);
        assert(s.drop_last() =~= field@.subrange(from as int, to - 1));
        to -= 1;
    }
    let ghost digits = field@.subrange(from as int, to as int);
    assert(trim_back(front) == digits) by {
        if to > from {
            assert(digits.last() == field@[to - 1]);
        }
    }
    if to == from {
        return fail("archive_invalid", "tar numeric field is not canonical octal");
    }
    let mut i: usize = from;
    while i < to
        invariant
            from <= i <= to <= field.len(),
            digits == field@.subrange(from as int, to as int),
            digits == trim_back(trim_front(field@)),
            valid_utf8(field@),
            forall|k: int| 0 <= k < i - from ==> 48 <= #[trigger] digits[k] <= 55,
        decreases to - i,
    {
        assert(digits[i - from] == field@[i as int]);
        if field[i] < 48 || field[i] > 55 {
            return fail("archive_invalid", "tar numeric field is not canonical octal");
        }
        i += 1;
    }
    assert(octal_digits(digits));
    let mut value: u64 = 0;
    let mut j: usize = from;
    assert(digits.take(0) =~= Seq::<u8>::empty());
    while j < to
        invariant
            from <= j <= to <= field.len(),
            from < to,
            digits == field@.subrange(from as int, to as int),
            digits == trim_back(trim_front(field@)),
            valid_utf8(field@),
            octal_digits(digits),
            value == octal_value(digits.take(j - from)),
        decreases to - j,
    {
        let ghost n: int = j - from;
        proof {
            assert(digits[n] == field@[j as int]);
            assert(digits.take(n + 1).drop_last() =~= digits.take(n));
            assert(digits.take(n + 1).last() == digits[n]);
            lemma_octal_grows(digits, n + 1);
        }
        let digit: u64 = (field[j] - 48) as u64;
        if value > 0x1fff_ffff_ffff_ffff {
            return fail("archive_invalid", "tar numeric field overflow");
        }
        value = 8 * value + digit;
        j += 1;
    }
    assert(digits.take(j - from) =~= digits);
    Ok(value)
}

/// The position of the first zero byte, or the number of bytes.
pub open spec fn zero_at(s: Seq<u8>) -> int
    decreases s.len(),
{
    if s.len() == 0 || s[0] == 0 {
        0
    } else {
        1 + zero_at(s.skip(1))
    }
}

/// The text in a text field, or what is wrong with the field.
pub open spec fn tar_string(field: Seq<u8>) -> Result<Seq<u8>, Failure> {
    let end = zero_at(field);
    if exists|i: int| end <= i < field.len() && #[trigger] field[i] != 0 {
        Err(("archive_invalid"@, "tar string has data after NUL"@))
    } else if !valid_utf8(field.take(end)) {
        Err(("archive_invalid"@, "tar path is not UTF-8"@))
    } else {
        Ok(field.take(end))
    }
}

fn read_string(field: &[u8]) -> (r: ManagedResult<Vec<u8>>)
    ensures
        match r {
            Ok(v) => tar_string(field@) == Ok::<Seq<u8>, Failure>(v@),
            Err(e) => tar_string(field@) == Err::<Seq<u8>, Failure>(e@),
        },
{
    let mut end: usize = 0;
    assert(field@.skip(0) =~= field@);
    while end < field.len() && field[end] != 0
        invariant
            end <= field.len(),
            zero_at(field@) == end + zero_at(field@.skip(end as int)),
        decreases field.len() - end,
    {
        assert(field@.skip(end as int)[0] == field@[end as int]);
        assert(field@.skip(end as int).skip(1) =~= field@.skip(end + 1));
        end += 1;
    }
    assert(zero_at(field@) == end) by {
        if end < field.len() {
            assert(field@.skip(end as int)[0] == field@[end as int]);
        }
    }
    let mut i: usize = end;
    while i < field.len()
        invariant
            end <= i <= field.len(),
            zero_at(field@) == end,
            forall|k: int| end <= k < i ==> #[trigger] field@[k] == 0,
        decreases field.len() - i,
    {
        if field[i] != 0 {
            return fail("archive_invalid", "tar string has data after NUL");
        }
        i += 1;
    }
    let text = vstd::slice::slice_subrange(field, 0, end);
    assert(text@ =~= field@.take(end as int));
    if utf8_str(text).is_none() {
        return fail("archive_invalid", "tar path is not UTF-8");
    }
    Ok(vstd::slice::slice_to_vec(text))
}

/// Two separators in a row.
pub open spec fn doubled_separator(p: Seq<u8>) -> bool {
    exists|i: int| 0 <= i < p.len() - 1 && #[trigger] p[i] == 47 && p[i + 1] == 47
}

/// A piece of a path that is one or two dots.
pub open spec fn dot_piece(s: Seq<u8>) -> bool {
    s == seq![46u8] || s == seq![46u8, 46u8]
}

/// A relative path without empty pieces in it, dots and line breaks.
pub open spec fn normalized_relative(p: Seq<u8>) -> bool {
    &&& p.len() > 0
    &&& p[0] != 47
    &&& !doubled_separator(p)
    &&& !p.contains(13)
    &&& !p.contains(10)
    &&& forall|i: int| 0 <= i < segments(p).len() ==> !dot_piece(#[trigger] segments(p)[i])
}

/// The name of the entry that a header describes, or what is wrong with it.
pub open spec fn tar_name(header: Seq<u8>) -> Result<Seq<u8>, Failure> {
    match tar_string(header.subrange(0, 100)) {
        Err(f) => Err(f),
        Ok(name) => match tar_string(header.subrange(345, 500)) {
            Err(f) => Err(f),
            Ok(prefix) => {
                let combined = if prefix.len() == 0 {
                    name
                } else {
                    prefix.push(47) + name
                };
                if normalized_relative(combined) {
                    Ok(combined)
                } else {
                    Err(("archive_invalid"@, "tar path is not normalized and relative"@))
                }
            },
        },
    }
}

fn has_dot_piece(p: &[u8]) -> (r: bool)
    ensures
        r == exists|i: int| 0 <= i < segments(p@).len() && dot_piece(#[trigger] segments(p@)[i]),
{
    let pieces = crate::path::split_segments(p);
    let ghost views = segments(p@);
    assert(views.len() == pieces@.len());
    let mut i: usize = 0;
    while i < pieces.len()
        invariant
            i <= pieces.len(),
            views == segments(p@),
            views == pieces@.map_values(|v: Vec<u8>| v@),
            forall|k: int| 0 <= k < i ==> !dot_piece(#[trigger] views[k]),
        decreases pieces.len() - i,
    {
        let piece = &pieces[i];
        assert(views[i as int] == piece@);
        let dots = (piece.len() == 1 && piece[0] == 46) || (piece.len() == 2 && piece[0] == 46
            && piece[1] == 46);
        proof {
            if dots {
                assert(piece@ =~= seq![46u8] || piece@ =~= seq![46u8, 46u8]);
            }
        }
        if dots {
            return true;
        }
        i += 1;
    }
    false
}

fn is_normalized_relative(p: &[u8]) -> (r: bool)
    ensures
        r == normalized_relative(p@),
{
    if p.len() == 0 || p[0] == 47 {
        return false;
    }
    let mut i: usize = 0;
    while i < p.len()
        invariant
            i <= p.len(),
            forall|k: int| 0 <= k < i ==> p@[k] != 13 && p@[k] != 10,
            forall|k: int| 0 <= k < i && k + 1 < p.len() ==> !(#[trigger] p@[k] == 47 && p@[k + 1] == 47),
        decreases p.len() - i,
    {
        if p[i] == 13 || p[i] == 10 {
            assert(p@.contains(p@[i as int]));
            return false;
        }
        if p[i] == 47 && i + 1 < p.len() && p[i + 1] == 47 {
            assert(p@[i as int] == 47);
            return false;
        }
        i += 1;
    }
    !has_dot_piece(p)
}

/// Reads the name of the entry that a header describes.
pub fn parse_tar_name(header: &[u8]) -> (r: ManagedResult<Vec<u8>>)
    requires
        header@.len() >= 500,
    ensures
        match r {
            Ok(v) => tar_name(header@) == Ok::<Seq<u8>, Failure>(v@),
            Err(e) => tar_name(header@) == Err::<Seq<u8>, Failure>(e@),
        },
{
    let name = read_string(vstd::slice::slice_subrange(header, 0, 100))?;
    let prefix = read_string(vstd::slice::slice_subrange(header, 345, 500))?;
    let combined = if prefix.len() == 0 {
        name
    } else {
        let mut joined = prefix;
        joined.push(47);
        let ghost head = joined@;
        let mut i: usize = 0;
        while i < name.len()
            invariant
                i <= name.len(),
                joined@ == head + name@.take(i as int),
            decreases name.len() - i,
        {
            joined.push(name[i]);
            i += 1;
            assert(joined@ =~= head + name@.take(i as int));
        }
        assert(joined@ =~= head + name@);
        joined
    };
    if !is_normalized_relative(combined.as_slice()) {
        return fail("archive_invalid", "tar path is not normalized and relative");
    }
    Ok(combined)
}

/// The entries of a release: names, whether each is a directory, and modes.
pub open spec fn manifest() -> Seq<(Seq<char>, bool, u32)> {
    seq![
        ("bin/"@, true, 0o700u32),
        ("bin/herdr-a2a"@, false, 0o700u32),
        ("metadata/"@, true, 0o700u32),
        ("metadata/ownership-template.json"@, false, 0o600u32),
        ("pi/"@, true, 0o700u32),
        ("pi/extensions/"@, true, 0o700u32),
        ("pi/extensions/herdr-a2a.ts"@, false, 0o600u32),
        ("pi/package.json"@, false, 0o600u32),
        ("pi/src/"@, true, 0o700u32),
        ("pi/src/inbox-pump.ts"@, false, 0o600u32),
        ("pi/src/session-client.ts"@, false, 0o600u32),
        ("pi/src/team-command.ts"@, false, 0o600u32),
        ("pi/skills/"@, true, 0o700u32),
        ("pi/skills/herdr-a2a/"@, true, 0o700u32),
        ("pi/skills/herdr-a2a/SKILL.md"@, false, 0o600u32),
        ("scripts/"@, true, 0o700u32),
        ("scripts/dispatch.sh"@, false, 0o700u32),
        ("scripts/uninstall.sh"@, false, 0o600u32),
    ]
}

/// The position of a name in the manifest, or the number of its entries.
pub open spec fn manifest_at(name: Seq<u8>, from: int) -> int
    decreases manifest().len() - from,
{
    if from >= manifest().len() {
        manifest().len() as int
    } else if utf8(manifest()[from].0) == name {
        from
    } else {
        manifest_at(name, from + 1)
    }
}

fn manifest_entry(i: usize) -> (r: (&'static str, bool, u32))
    requires
        i < 18,
    ensures
        (r.0@, r.1, r.2) == manifest()[i as int],
{
    if i == 0 {
        ("bin/", true, 0o700)
    } else if i == 1 {
        ("bin/herdr-a2a", false, 0o700)
    } else if i == 2 {
        ("metadata/", true, 0o700)
    } else if i == 3 {
        ("metadata/ownership-template.json", false, 0o600)
    } else if i == 4 {
        ("pi/", true, 0o700)
    } else if i == 5 {
        ("pi/extensions/", true, 0o700)
    } else if i == 6 {
        ("pi/extensions/herdr-a2a.ts", false, 0o600)
    } else if i == 7 {
        ("pi/package.json", false, 0o600)
    } else if i == 8 {
        ("pi/src/", true, 0o700)
    } else if i == 9 {
        ("pi/src/inbox-pump.ts", false, 0o600)
    } else if i == 10 {
        ("pi/src/session-client.ts", false, 0o600)
    } else if i == 11 {
        ("pi/src/team-command.ts", false, 0o600)
    } else if i == 12 {
        ("pi/skills/", true, 0o700)
    } else if i == 13 {
        ("pi/skills/herdr-a2a/", true, 0o700)
    } else if i == 14 {
        ("pi/skills/herdr-a2a/SKILL.md", false, 0o600)
    } else if i == 15 {
        ("scripts/", true, 0o700)
    } else if i == 16 {
        ("scripts/dispatch.sh", false, 0o700)
    } else {
        ("scripts/uninstall.sh", false, 0o600)
    }
}

fn find_in_manifest(name: &[u8]) -> (r: usize)
    ensures
        r == manifest_at(name@, 0),
        r <= 18,
{
    let mut i: usize = 0;
    while i < 18
        invariant
            i <= 18,
            manifest_at(name@, 0) == manifest_at(name@, i as int),
        decreases 18 - i,
    {
        let entry = manifest_entry(i);
        if bytes_eq(entry.0.as_bytes(), name) {
            return i;
        }
        i += 1;
    }
    18
}

/// An entry of a release archive: its name, what it is, and where its data is.
#[derive(Debug)]
pub struct ReleaseEntry {
    pub name: Vec<u8>,
    pub directory: bool,
    pub mode: u32,
    pub start: usize,
    pub end: usize,
}

/// What an entry says.
pub struct ReleaseView {
    pub name: Seq<u8>,
    pub directory: bool,
    pub mode: u32,
    pub start: int,
    pub end: int,
}

impl View for ReleaseEntry {
    type V = ReleaseView;

    open spec fn view(&self) -> ReleaseView {
        ReleaseView {
            name: self.name@,
            directory: self.directory,
            mode: self.mode,
            start: self.start as int,
            end: self.end as int,
        }
    }
}

/// The entries that some values stand for.
pub open spec fn release_views(s: Seq<ReleaseEntry>) -> Seq<ReleaseView> {
    s.map_values(|e: ReleaseEntry| e@)
}

/// Every byte from one position to another is zero.
pub open spec fn zero_between(bytes: Seq<u8>, from: int, to: int) -> bool {
    forall|i: int| from <= i < to ==> #[trigger] bytes[i] == 0
}

/// The sum of the bytes of a header, with the field of the sum itself counted as
/// blanks, up to a position.
pub open spec fn header_sum(header: Seq<u8>, n: int) -> nat
    decreases n,
{
    if n <= 0 {
        0
    } else {
        header_sum(header, n - 1) + (if 148 <= n - 1 < 156 {
            32nat
        } else {
            header[n - 1] as nat
        })
    }
}

/// An entry has a name.
pub open spec fn name_seen(entries: Seq<ReleaseView>, name: Seq<u8>) -> bool {
    exists|i: int| 0 <= i < entries.len() && (#[trigger] entries[i]).name == name
}

/// The type, the size and the mode of an entry are as they must be.
pub open spec fn entry_safe(header: Seq<u8>, expected: (Seq<char>, bool, u32), mode: nat, size: nat) -> bool {
    &&& expected.1 ==> header[156] == 53 && size == 0
    &&& !expected.1 ==> header[156] == 48 || header[156] == 0
    &&& mode % 512 == expected.2
}

/// The entry whose header is at a position, or what is wrong with it.
pub open spec fn entry_at(bytes: Seq<u8>, offset: int, seen: Seq<ReleaseView>) -> Result<
    ReleaseView,
    Failure,
> {
    let header = bytes.subrange(offset, offset + 512);
    match tar_number(header.subrange(148, 156)) {
        Err(f) => Err(f),
        Ok(stored) => if stored != header_sum(header, 512) {
            Err(("archive_invalid"@, "release archive header checksum is invalid"@))
        } else {
            match tar_name(header) {
                Err(f) => Err(f),
                Ok(name) => {
                    let at = manifest_at(name, 0);
                    if at >= manifest().len() {
                        Err(
                            (
                                "archive_invalid"@,
                                "release archive contains an unexpected entry"@,
                            ),
                        )
                    } else if name_seen(seen, name) {
                        Err(
                            (
                                "archive_invalid"@,
                                "release archive contains a duplicate entry"@,
                            ),
                        )
                    } else {
                        sized_entry(bytes, offset, header, name, manifest()[at])
                    }
                },
            }
        },
    }
}

/// The entry with a known name, or what is wrong with the rest of its header.
pub open spec fn sized_entry(
    bytes: Seq<u8>,
    offset: int,
    header: Seq<u8>,
    name: Seq<u8>,
    expected: (Seq<char>, bool, u32),
) -> Result<ReleaseView, Failure> {
    match tar_number(header.subrange(100, 108)) {
        Err(f) => Err(f),
        Ok(mode) => match tar_number(header.subrange(124, 136)) {
            Err(f) => Err(f),
            Ok(size) => if size > usize::MAX {
                Err(("archive_invalid"@, "release entry size is unrepresentable"@))
            } else if !entry_safe(header, expected, mode, size) {
                Err(
                    (
                        "archive_invalid"@,
                        "release archive entry has an unsafe type, size, or mode"@,
                    ),
                )
            } else if offset + 512 + size > usize::MAX {
                Err(("archive_invalid"@, "archive size overflow"@))
            } else if offset + 512 + size > bytes.len() {
                Err(("archive_invalid"@, "truncated release entry"@))
            } else if size + 511 > usize::MAX {
                Err(("archive_invalid"@, "archive padding overflow"@))
            } else if offset + 512 + padded(size) > usize::MAX {
                Err(("archive_invalid"@, "archive offset overflow"@))
            } else {
                Ok(
                    ReleaseView {
                        name,
                        directory: expected.1,
                        mode: expected.2,
                        start: offset + 512,
                        end: offset + 512 + size,
                    },
                )
            },
        },
    }
}

/// A size rounded up to whole blocks.
pub open spec fn padded(size: nat) -> int {
    (size as int + 511) / 512 * 512
}

/// The bytes that are left to be read, where a header is among them.
pub open spec fn bytes_left(bytes: Seq<u8>, offset: int) -> nat {
    if 0 <= offset && offset + 512 <= bytes.len() {
        (bytes.len() - offset) as nat
    } else {
        0
    }
}

/// The entries of an archive from a position on, after those already seen, or
/// what is wrong with it.
pub open spec fn entries_from(bytes: Seq<u8>, offset: int, seen: Seq<ReleaseView>) -> Result<
    Seq<ReleaseView>,
    Failure,
>
    decreases bytes_left(bytes, offset),
{
    if offset < 0 || offset + 512 > bytes.len() {
        Err(
            (
                "archive_invalid"@,
                "release archive has no complete two-block end marker"@,
            ),
        )
    } else if zero_between(bytes, offset, offset + 512) {
        if offset + 1024 > usize::MAX {
            Err(("archive_invalid"@, "archive end offset overflow"@))
        } else if offset + 1024 > bytes.len() || !zero_between(
            bytes,
            offset + 512,
            bytes.len() as int,
        ) {
            Err(
                (
                    "archive_invalid"@,
                    "release archive requires two zero end blocks and zero-only remainder"@,
                ),
            )
        } else {
            Ok(seen)
        }
    } else if seen.len() >= MAX_ARCHIVE_ENTRIES {
        Err(("archive_invalid"@, "release archive has too many entries"@))
    } else {
        match entry_at(bytes, offset, seen) {
            Err(f) => Err(f),
            Ok(e) => entries_from(
                bytes,
                offset + 512 + padded((e.end - e.start) as nat),
                seen.push(e),
            ),
        }
    }
}

/// Every listed entry is there.
pub open spec fn manifest_complete(entries: Seq<ReleaseView>) -> bool {
    forall|i: int| 0 <= i < manifest().len() ==> name_seen(entries, utf8(#[trigger] manifest()[i].0))
}

/// The entries of a release archive, or what is wrong with it.
pub open spec fn release_entries(bytes: Seq<u8>) -> Result<Seq<ReleaseView>, Failure> {
    match entries_from(bytes, 0, Seq::empty()) {
        Err(f) => Err(f),
        Ok(entries) => if manifest_complete(entries) {
            Ok(entries)
        } else {
            Err(("archive_invalid"@, "release archive manifest is incomplete"@))
        },
    }
}

fn is_zero_between(bytes: &[u8], from: usize, to: usize) -> (r: bool)
    requires
        from <= to <= bytes@.len(),
    ensures
        r == zero_between(bytes@, from as int, to as int),
{
    let mut i: usize = from;
    while i < to
        invariant
            from <= i <= to <= bytes.len(),
            forall|k: int| from <= k < i ==> #[trigger] bytes@[k] == 0,
        decreases to - i,
    {
        if bytes[i] != 0 {
            return false;
        }
        i += 1;
    }
    true
}

fn sum_header(header: &[u8]) -> (r: u64)
    requires
        header@.len() == 512,
    ensures
        r == header_sum(header@, 512),
{
    let mut sum: u64 = 0;
    let mut i: usize = 0;
    while i < 512
        invariant
            i <= 512,
            header@.len() == 512,
            sum == header_sum(header@, i as int),
            sum <= 255 * i,
        decreases 512 - i,
    {
        if 148 <= i && i < 156 {
            sum += 32;
        } else {
            sum += header[i] as u64;
        }
        i += 1;
    }
    sum
}

fn is_name_seen(entries: &Vec<ReleaseEntry>, name: &[u8]) -> (r: bool)
    ensures
        r == name_seen(release_views(entries@), name@),
{
    let ghost views = release_views(entries@);
    let mut i: usize = 0;
    while i < entries.len()
        invariant
            i <= entries.len(),
            views == release_views(entries@),
            forall|k: int| 0 <= k < i ==> (#[trigger] views[k]).name != name@,
        decreases entries.len() - i,
    {
        assert(views[i as int] == entries@[i as int]@);
        if bytes_eq(entries[i].name.as_slice(), name) {
            return true;
        }
        i += 1;
    }
    false
}

fn read_sized_entry(
    bytes: &[u8],
    offset: usize,
    header: &[u8],
    name: Vec<u8>,
    at: usize,
) -> (r: ManagedResult<ReleaseEntry>)
    requires
        at < 18,
        header@.len() == 512,
        offset + 512 <= bytes@.len(),
    ensures
        outcome(r) == sized_entry(bytes@, offset as int, header@, name@, manifest()[at as int]),
{
    let expected = manifest_entry(at);
    let mode: u64 = parse_tar_octal(vstd::slice::slice_subrange(header, 100, 108))?;
    let raw_size: u64 = parse_tar_octal(vstd::slice::slice_subrange(header, 124, 136))?;
    if raw_size > usize::MAX as u64 {
        return fail("archive_invalid", "release entry size is unrepresentable");
    }
    let size: usize = raw_size as usize;
    let typeflag: u8 = header[156];
    let masked: u32 = (mode % 512) as u32;
    if (expected.1 && (typeflag != 53 || size != 0)) || (!expected.1 && typeflag != 48 && typeflag
        != 0) || masked != expected.2 {
        return fail(
            "archive_invalid",
            "release archive entry has an unsafe type, size, or mode",
        );
    }
    assert(bytes@.len() == bytes.len());
    let start: usize = offset + 512;
    let Some(end) = start.checked_add(size) else {
        return fail("archive_invalid", "archive size overflow");
    };
    if end > bytes.len() {
        return fail("archive_invalid", "truncated release entry");
    }
    let Some(rounded) = size.checked_add(511) else {
        return fail("archive_invalid", "archive padding overflow");
    };
    let blocks: usize = rounded / 512;
    let room: usize = blocks * 512;
    if start.checked_add(room).is_none() {
        return fail("archive_invalid", "archive offset overflow");
    }
    Ok(ReleaseEntry { name, directory: expected.1, mode: masked, start, end })
}

fn read_entry(bytes: &[u8], offset: usize, seen: &Vec<ReleaseEntry>) -> (r: ManagedResult<
    ReleaseEntry,
>)
    requires
        offset + 512 <= bytes@.len(),
    ensures
        outcome(r) == entry_at(bytes@, offset as int, release_views(seen@)),
{
    assert(bytes@.len() == bytes.len());
    let header = vstd::slice::slice_subrange(bytes, offset, offset + 512);
    let stored: u64 = parse_tar_octal(vstd::slice::slice_subrange(header, 148, 156))?;
    if stored != sum_header(header) {
        return fail("archive_invalid", "release archive header checksum is invalid");
    }
    let name = parse_tar_name(header)?;
    let at: usize = find_in_manifest(name.as_slice());
    if at >= 18 {
        return fail("archive_invalid", "release archive contains an unexpected entry");
    }
    if is_name_seen(seen, name.as_slice()) {
        return fail("archive_invalid", "release archive contains a duplicate entry");
    }
    read_sized_entry(bytes, offset, header, name, at)
}

fn is_manifest_complete(entries: &Vec<ReleaseEntry>) -> (r: bool)
    ensures
        r == manifest_complete(release_views(entries@)),
{
    let mut i: usize = 0;
    while i < 18
        invariant
            i <= 18,
            forall|k: int|
                0 <= k < i ==> name_seen(
                    release_views(entries@),
                    utf8(#[trigger] manifest()[k].0),
                ),
        decreases 18 - i,
    {
        let entry = manifest_entry(i);
        if !is_name_seen(entries, entry.0.as_bytes()) {
            assert(!name_seen(release_views(entries@), utf8(manifest()[i as int].0)));
            return false;
        }
        i += 1;
    }
    true
}

/// A list of entries or a failure.
pub open spec fn release_outcome(r: Result<Vec<ReleaseEntry>, ManagedError>) -> Result<
    Seq<ReleaseView>,
    Failure,
> {
    match r {
        Ok(v) => Ok(release_views(v@)),
        Err(e) => Err(e@),
    }
}

/// Reads a release archive: the stream must hold exactly the listed entries, each
/// once, of the listed kind and mode, and end properly.
pub fn extract_validated_tar(bytes: &[u8]) -> (r: ManagedResult<Vec<ReleaseEntry>>)
    ensures
        release_outcome(r) == release_entries(bytes@),
{
    let mut entries: Vec<ReleaseEntry> = Vec::new();
    let mut offset: usize = 0;
    assert(release_views(entries@) =~= Seq::<ReleaseView>::empty());
    loop
        invariant
            entries_from(bytes@, 0, Seq::empty()) == entries_from(
                bytes@,
                offset as int,
                release_views(entries@),
            ),
        decreases usize::MAX - offset,
    {
        if bytes.len() < 512 || offset > bytes.len() - 512 {
            return fail(
                "archive_invalid",
                "release archive has no complete two-block end marker",
            );
        }
        if is_zero_between(bytes, offset, offset + 512) {
            let Some(second_end) = offset.checked_add(1024) else {
                return fail("archive_invalid", "archive end offset overflow");
            };
            if second_end > bytes.len() || !is_zero_between(bytes, offset + 512, bytes.len()) {
                return fail(
                    "archive_invalid",
                    "release archive requires two zero end blocks and zero-only remainder",
                );
            }
            if !is_manifest_complete(&entries) {
                return fail("archive_invalid", "release archive manifest is incomplete");
            }
            return Ok(entries);
        }
        assert(release_views(entries@).len() == entries@.len());
        if entries.len() >= MAX_ARCHIVE_ENTRIES {
            return fail("archive_invalid", "release archive has too many entries");
        }
        let entry = read_entry(bytes, offset, &entries)?;
        let size: usize = entry.end - entry.start;
        let blocks: usize = (size + 511) / 512;
        let next: usize = offset + 512 + blocks * 512;
        let ghost before = release_views(entries@);
        let ghost added = entry@;
        entries.push(entry);
        assert(release_views(entries@) =~= before.push(added));
        offset = next;
    }
}

/// The entries seen so far are listed ones, each once, of the listed kind and
/// mode, with their data inside the archive.
pub open spec fn entries_listed(entries: Seq<ReleaseView>, len: int) -> bool {
    &&& forall|i: int|
        0 <= i < entries.len() ==> {
            let at = manifest_at((#[trigger] entries[i]).name, 0);
            &&& at < manifest().len()
            &&& entries[i].directory == manifest()[at].1
            &&& entries[i].mode == manifest()[at].2
            &&& 0 <= entries[i].start <= entries[i].end <= len
            &&& entries[i].directory ==> entries[i].start == entries[i].end
        }
    &&& forall|i: int, j: int|
        0 <= i < j < entries.len() ==> (#[trigger] entries[i]).name != (#[trigger] entries[j]).name
}

proof fn lemma_entries_stay_listed(bytes: Seq<u8>, offset: int, seen: Seq<ReleaseView>)
    requires
        entries_listed(seen, bytes.len() as int),
        entries_from(bytes, offset, seen) is Ok,
    ensures
        entries_listed(entries_from(bytes, offset, seen)->Ok_0, bytes.len() as int),
    decreases bytes_left(bytes, offset),
{
    if !zero_between(bytes, offset, offset + 512) {
        let e = entry_at(bytes, offset, seen)->Ok_0;
        let grown = seen.push(e);
        assert(entries_listed(grown, bytes.len() as int)) by {
            assert forall|i: int, j: int| 0 <= i < j < grown.len() implies (
            #[trigger] grown[i]).name != (#[trigger] grown[j]).name by {
                if j == seen.len() {
                    assert(grown[i] == seen[i]);
                    assert(!name_seen(seen, e.name));
                }
            }
        }
        lemma_entries_stay_listed(
            bytes,
            offset + 512 + padded((e.end - e.start) as nat),
            grown,
        );
    }
}

/// An archive that is accepted holds exactly the listed entries: each of them is
/// there, none twice, none of another kind or mode, and no data outside it.
pub proof fn law_accepted_archive_is_the_manifest(bytes: Seq<u8>)
    requires
        release_entries(bytes) is Ok,
    ensures
        entries_listed(release_entries(bytes)->Ok_0, bytes.len() as int),
        manifest_complete(release_entries(bytes)->Ok_0),
{
    lemma_entries_stay_listed(bytes, 0, Seq::empty());
}

/// What stands in the way of extracting a release.
pub open spec fn release_failure(
    archive: Seq<u8>,
    destination: Seq<u8>,
    archive_check: Option<Failure>,
    destination_exists: bool,
) -> Option<Failure> {
    or_else(
        absolute_normal_failure(archive, "release archive"@),
        or_else(
            absolute_normal_failure(destination, "release destination"@),
            or_else(
                archive_check,
                if destination_exists {
                    bad_archive("release destination already exists"@)
                } else if parent(destination) is None {
                    bad_archive("release destination has no parent"@)
                } else {
                    None
                },
            ),
        ),
    )
}

/// Checks where a release comes from and goes to, and tells the directory that it
/// is put into.
pub fn plan_release(
    archive: &FsPath,
    destination: &FsPath,
    archive_check: &ManagedResult<()>,
    destination_exists: bool,
) -> (r: ManagedResult<FsPath>)
    ensures
        failure(r) == release_failure(
            archive@,
            destination@,
            failure(*archive_check),
            destination_exists,
        ),
        r is Ok ==> Some(r->Ok_0@) == parent(destination@),
{
    let _ = require_absolute_normal(archive, "release archive")?;
    let _ = require_absolute_normal(destination, "release destination")?;
    match archive_check {
        Ok(_) => {},
        Err(e) => {
            return Err(e.copy());
        },
    }
    if destination_exists {
        return fail("archive_invalid", "release destination already exists");
    }
    match destination.parent() {
        Some(directory) => Ok(directory),
        None => fail("archive_invalid", "release destination has no parent"),
    }
}

/// A numeric field is read as the octal number between its padding, which is blanks and
/// zero bytes at either end; there must be digits and nothing else, and the number must
/// fit in 64 bits.
pub proof fn law_numeric_fields_are_octal(field: Seq<u8>, n: nat)
    ensures
        tar_number(field) == Ok::<nat, Failure>(n) <==> (valid_utf8(field) && n <= u64::MAX
            && trim_back(trim_front(field)).len() > 0 && n == octal_value(
            trim_back(trim_front(field)),
        ) && forall|i: int|
            0 <= i < trim_back(trim_front(field)).len() ==> 0x30 <= #[trigger] trim_back(
                trim_front(field),
            )[i] <= 0x37),
        tar_number(field) is Err ==> tar_number(field)->Err_0.0 == "archive_invalid"@,
{
}

/// Each octal digit counts eight times what the next one does.
pub proof fn law_octal_digits_count_by_place(s: Seq<u8>, digit: u8)
    requires
        0x30 <= digit <= 0x37,
    ensures
        octal_value(s.push(digit)) == 8 * octal_value(s) + (digit - 0x30),
        octal_value(Seq::empty()) == 0,
{
    assert(s.push(digit).drop_last() =~= s);
}

/// Padding is taken off both ends of a field, all of it, and nothing else.
pub proof fn law_padding_is_taken_off_the_ends(s: Seq<u8>)
    ensures
        ({
            let kept = trim_back(trim_front(s));
            &&& kept.len() > 0 ==> kept[0] != 0 && kept[0] != 0x20 && kept.last() != 0
                && kept.last() != 0x20
            &&& exists|i: int, j: int|
                0 <= i <= j <= s.len() && kept == #[trigger] s.subrange(i, j) && (forall|k: int|
                    0 <= k < i || j <= k < s.len() ==> #[trigger] s[k] == 0 || s[k] == 0x20)
        }),
{
    let i = lemma_front(s);
    let rest = trim_front(s);
    let n = lemma_back(rest);
    let kept = trim_back(rest);
    assert(kept =~= s.subrange(i, i + n));
    assert forall|k: int| 0 <= k < i || i + n <= k < s.len() implies #[trigger] s[k] == 0 || s[k]
        == 0x20 by {
        if k >= i + n {
            assert(rest[k - i] == s[k]);
        }
    }
    if kept.len() > 0 {
        assert(kept[0] == rest[0]);
    }
}

proof fn lemma_front(s: Seq<u8>) -> (i: int)
    ensures
        0 <= i <= s.len(),
        trim_front(s) == s.skip(i),
        forall|k: int| 0 <= k < i ==> is_padding(#[trigger] s[k]),
        trim_front(s).len() > 0 ==> !is_padding(trim_front(s)[0]),
    decreases s.len(),
{
    if s.len() > 0 && is_padding(s[0]) {
        let j = lemma_front(s.skip(1));
        assert(s.skip(1).skip(j) =~= s.skip(j + 1));
        assert forall|k: int| 0 <= k < j + 1 implies is_padding(#[trigger] s[k]) by {
            if k > 0 {
                assert(s.skip(1)[k - 1] == s[k]);
            }
        }
        j + 1
    } else {
        assert(s.skip(0) =~= s);
        0
    }
}

proof fn lemma_back(s: Seq<u8>) -> (n: int)
    ensures
        0 <= n <= s.len(),
        trim_back(s) == s.take(n),
        forall|k: int| n <= k < s.len() ==> is_padding(#[trigger] s[k]),
        trim_back(s).len() > 0 ==> !is_padding(trim_back(s).last()),
    decreases s.len(),
{
    if s.len() > 0 && is_padding(s.last()) {
        let n = lemma_back(s.drop_last());
        assert(s.drop_last().take(n) =~= s.take(n));
        assert forall|k: int| n <= k < s.len() implies is_padding(#[trigger] s[k]) by {
            if k < s.len() - 1 {
                assert(s.drop_last()[k] == s[k]);
            }
        }
        n
    } else {
        assert(s.take(s.len() as int) =~= s);
        s.len() as int
    }
}

/// A text field is what stands before its first zero byte, and only zero bytes may follow.
pub proof fn law_text_fields_end_at_a_zero(field: Seq<u8>, n: int)
    requires
        0 <= n <= field.len(),
        forall|i: int| 0 <= i < n ==> #[trigger] field[i] != 0,
        n < field.len() ==> field[n] == 0,
    ensures
        tar_string(field) is Ok <==> valid_utf8(field.take(n)) && forall|i: int|
            n <= i < field.len() ==> #[trigger] field[i] == 0,
        tar_string(field) is Ok ==> tar_string(field)->Ok_0 == field.take(n),
{
    lemma_zero_found(field, n);
}

proof fn lemma_zero_found(s: Seq<u8>, n: int)
    requires
        0 <= n <= s.len(),
        forall|i: int| 0 <= i < n ==> #[trigger] s[i] != 0,
        n < s.len() ==> s[n] == 0,
    ensures
        zero_at(s) == n,
    decreases n,
{
    if n > 0 {
        assert(s[0] != 0);
        assert forall|i: int| 0 <= i < n - 1 implies #[trigger] s.skip(1)[i] != 0 by {
            assert(s.skip(1)[i] == s[i + 1]);
        }
        lemma_zero_found(s.skip(1), n - 1);
    }
}

/// The name of an entry is the name field, behind the prefix field and a separator where
/// that is not empty; it must be relative, with no empty piece between others, no dots as a
/// piece and no line ends.
pub proof fn law_names_are_relative(header: Seq<u8>)
    requires
        header.len() == 512,
        tar_name(header) is Ok,
    ensures
        ({
            let name = tar_name(header)->Ok_0;
            let field = tar_string(header.subrange(0, 100));
            let prefix = tar_string(header.subrange(345, 500));
            &&& field is Ok && prefix is Ok
            &&& prefix->Ok_0.len() == 0 ==> name == field->Ok_0
            &&& prefix->Ok_0.len() > 0 ==> name == prefix->Ok_0 + seq![0x2fu8] + field->Ok_0
            &&& name.len() > 0 && name[0] != 0x2f
            &&& forall|i: int|
                0 <= i < name.len() ==> #[trigger] name[i] != 0x0a && name[i] != 0x0d
            &&& forall|i: int|
                0 <= i < name.len() - 1 ==> !(#[trigger] name[i] == 0x2f && name[i + 1] == 0x2f)
            &&& forall|i: int|
                0 <= i < segments(name).len() ==> #[trigger] segments(name)[i] != seq![0x2eu8]
                    && segments(name)[i] != seq![0x2eu8, 0x2eu8]
        }),
{
    let name = tar_name(header)->Ok_0;
    let field = tar_string(header.subrange(0, 100))->Ok_0;
    let prefix = tar_string(header.subrange(345, 500))->Ok_0;
    assert(prefix.push(47) + field =~= prefix + seq![0x2fu8] + field);
    assert forall|i: int| 0 <= i < name.len() implies #[trigger] name[i] != 0x0a && name[i] != 0x0d by {
        assert(name.contains(name[i]));
    }
    assert forall|i: int| 0 <= i < segments(name).len() implies #[trigger] segments(name)[i]
        != seq![0x2eu8] && segments(name)[i] != seq![0x2eu8, 0x2eu8] by {
        assert(!dot_piece(segments(name)[i]));
    }
}

/// The sum of a header counts every byte as it is, but each of the eight bytes of the sum
/// itself as a blank.
pub proof fn law_header_sums_count_every_byte(header: Seq<u8>, n: int)
    requires
        0 <= n,
    ensures
        header_sum(header, 0) == 0,
        header_sum(header, n + 1) == header_sum(header, n) + (if 148 <= n && n <= 155 {
            0x20nat
        } else {
            header[n] as nat
        }),
{
}

/// An entry that is accepted has a header whose sum is right, is a listed one that was not
/// seen yet, of the listed kind and mode, and has all of its data in the archive, right
/// after its header.
pub proof fn law_accepted_entries_are_listed_ones(
    bytes: Seq<u8>,
    offset: int,
    seen: Seq<ReleaseView>,
)
    requires
        0 <= offset,
        offset + 512 <= bytes.len(),
        entry_at(bytes, offset, seen) is Ok,
    ensures
        ({
            let e = entry_at(bytes, offset, seen)->Ok_0;
            let header = bytes.subrange(offset, offset + 512);
            let mode = tar_number(header.subrange(100, 108));
            let size = tar_number(header.subrange(124, 136));
            &&& tar_number(header.subrange(148, 156)) == Ok::<nat, Failure>(header_sum(header, 512))
            &&& tar_name(header) == Ok::<Seq<u8>, Failure>(e.name)
            &&& exists|k: int|
                0 <= k < manifest().len() && utf8((#[trigger] manifest()[k]).0) == e.name
                    && manifest()[k].1 == e.directory && manifest()[k].2 == e.mode
            &&& forall|i: int| 0 <= i < seen.len() ==> (#[trigger] seen[i]).name != e.name
            &&& mode is Ok && mode->Ok_0 % 0o1000 == e.mode
            &&& size is Ok && e.end - e.start == size->Ok_0
            &&& e.directory ==> header[156] == 0x35 && e.start == e.end
            &&& !e.directory ==> header[156] == 0x30 || header[156] == 0
            &&& e.start == offset + 512
            &&& e.start <= e.end <= bytes.len()
        }),
{
    let e = entry_at(bytes, offset, seen)->Ok_0;
    lemma_manifest_found(e.name, 0);
}

proof fn lemma_manifest_found(name: Seq<u8>, from: int)
    requires
        0 <= from,
        manifest_at(name, from) < manifest().len(),
    ensures
        from <= manifest_at(name, from),
        utf8(manifest()[manifest_at(name, from)].0) == name,
    decreases manifest().len() - from,
{
    if utf8(manifest()[from].0) != name {
        lemma_manifest_found(name, from + 1);
    }
}

/// Data takes whole blocks, and no block more than it needs.
pub proof fn law_data_fills_whole_blocks(size: nat)
    ensures
        padded(size) % 512 == 0,
        size <= padded(size) < size + 512,
{
}

/// An archive that is accepted ends with two blocks of zero bytes or more, and nothing
/// after them.
pub proof fn law_accepted_archives_end_in_zeros(bytes: Seq<u8>)
    requires
        release_entries(bytes) is Ok,
    ensures
        exists|end: int|
            0 <= end && end + 1024 <= bytes.len() && #[trigger] zero_between(
                bytes,
                end,
                bytes.len() as int,
            ),
        release_entries(bytes)->Ok_0.len() <= 25,
{
    lemma_ends_in_zeros(bytes, 0, Seq::empty());
}

proof fn lemma_ends_in_zeros(bytes: Seq<u8>, offset: int, seen: Seq<ReleaseView>)
    requires
        entries_from(bytes, offset, seen) is Ok,
        seen.len() <= 25,
    ensures
        exists|end: int|
            0 <= end && end + 1024 <= bytes.len() && #[trigger] zero_between(
                bytes,
                end,
                bytes.len() as int,
            ),
        entries_from(bytes, offset, seen)->Ok_0.len() <= 25,
    decreases bytes_left(bytes, offset),
{
    if zero_between(bytes, offset, offset + 512) {
        assert(zero_between(bytes, offset, bytes.len() as int)) by {
            assert forall|i: int| offset <= i < bytes.len() implies #[trigger] bytes[i] == 0 by {
                if i >= offset + 512 {
                    assert(zero_between(bytes, offset + 512, bytes.len() as int));
                }
            }
        }
    } else {
        let e = entry_at(bytes, offset, seen)->Ok_0;
        let next = offset + 512 + padded((e.end - e.start) as nat);
        lemma_ends_in_zeros(bytes, next, seen.push(e));
    }
}

/// The listed directories are private, and of the listed files two may be run: the binary
/// and the dispatcher.
pub proof fn law_listed_modes_are_private(i: int)
    requires
        0 <= i < manifest().len(),
    ensures
        manifest().len() == 18,
        manifest()[i].1 ==> manifest()[i].2 == 0o700,
        !manifest()[i].1 ==> (manifest()[i].2 == 0o700 <==> manifest()[i].0 == "bin/herdr-a2a"@
            || manifest()[i].0 == "scripts/dispatch.sh"@),
        !manifest()[i].1 && manifest()[i].2 != 0o700 ==> manifest()[i].2 == 0o600,
{
    reveal_strlit("bin/herdr-a2a");
    reveal_strlit("scripts/dispatch.sh");
    reveal_strlit("metadata/ownership-template.json");
    reveal_strlit("pi/extensions/herdr-a2a.ts");
    reveal_strlit("pi/package.json");
    reveal_strlit("pi/src/inbox-pump.ts");
    reveal_strlit("pi/src/session-client.ts");
    reveal_strlit("pi/src/team-command.ts");
    reveal_strlit("pi/skills/herdr-a2a/SKILL.md");
    reveal_strlit("scripts/uninstall.sh");
    assert("bin/herdr-a2a"@.len() == 13 && "scripts/dispatch.sh"@.len() == 19);
}

/// A release is extracted just when both of its paths are absolute, the archive passes its
/// check, and the destination is not there yet but can be.
pub proof fn law_releases_never_replace_anything(
    archive: Seq<u8>,
    destination: Seq<u8>,
    archive_check: Option<Failure>,
    destination_exists: bool,
)
    ensures
        release_failure(archive, destination, archive_check, destination_exists) is None <==> (
        absolute_normal(archive) && absolute_normal(destination) && archive_check is None
            && !destination_exists && parent(destination) is Some),
{
}

} // verus!
