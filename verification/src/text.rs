//! Small verified operations on text and bytes.

use vstd::prelude::*;
use vstd::string::*;
use vstd::utf8::*;

verus! {

/// `String::push` appends one character.
pub assume_specification[ String::push ](s: &mut String, c: char)
    ensures
        final(s)@ == old(s)@.push(c),
;

/// The text of the error for bytes that are not UTF-8.
pub uninterp spec fn utf8_error(bytes: Seq<u8>) -> Seq<char>;

/// `core::str::from_utf8` accepts exactly the well-formed UTF-8 sequences and
/// hands back the text with those bytes; for anything else it gives an error whose
/// text depends on the bytes alone.
#[verifier::external_body]
pub(crate) fn utf8_text(bytes: &[u8]) -> (r: Result<&str, String>)
    ensures
        r is Ok == valid_utf8(bytes@),
        r is Ok ==> encode_utf8(r->Ok_0@) == bytes@,
        r is Err ==> r->Err_0@ == utf8_error(bytes@),
{
    core::str::from_utf8(bytes).map_err(|e| e.to_string())
}

/// The text with some bytes, if they are UTF-8.
pub fn utf8_str(bytes: &[u8]) -> (r: Option<&str>)
    ensures
        r is Some == valid_utf8(bytes@),
        r is Some ==> encode_utf8(r->0@) == bytes@,
{
    match utf8_text(bytes) {
        Ok(text) => Some(text),
        Err(_) => None,
    }
}

/// Two texts with the same bytes are the same text.
pub proof fn lemma_bytes_determine_text(a: Seq<char>, b: Seq<char>)
    requires
        encode_utf8(a) == encode_utf8(b),
    ensures
        a == b,
{
    encode_utf8_decode_utf8(a);
    encode_utf8_decode_utf8(b);
}

/// Whether two byte strings are equal.
pub fn bytes_eq(a: &[u8], b: &[u8]) -> (r: bool)
    ensures
        r == (a@ == b@),
{
    if a.len() != b.len() {
        return false;
    }
    let mut i: usize = 0;
    while i < a.len()
        invariant
            i <= a.len(),
            a.len() == b.len(),
            forall|k: int| 0 <= k < i ==> a@[k] == b@[k],
        decreases a.len() - i,
    {
        if a[i] != b[i] {
            return false;
        }
        i += 1;
    }
    assert(a@ =~= b@);
    true
}

/// Whether two texts are equal.
pub fn text_eq(a: &str, b: &str) -> (r: bool)
    ensures
        r == (a@ == b@),
{
    let same = bytes_eq(a.as_bytes(), b.as_bytes());
    proof {
        if same {
            lemma_bytes_determine_text(a@, b@);
        }
    }
    same
}

/// The bytes of a text.
pub open spec fn utf8(s: Seq<char>) -> Seq<u8> {
    encode_utf8(s)
}

/// A copy of the bytes of a text.
pub fn text_bytes(s: &str) -> (r: Vec<u8>)
    ensures
        r@ == utf8(s@),
{
    s.as_bytes_vec()
}

/// The characters of a text.
pub fn text_chars(s: &str) -> (r: Vec<char>)
    ensures
        r@ == s@,
{
    let mut out: Vec<char> = Vec::new();
    for c in it: s.chars()
        invariant
            it.seq() == s@,
            out@ == s@.take(it.index() as int),
    {
        out.push(c);
        assert(out@ =~= s@.take(it.index() as int + 1));
    }
    assert(out@ =~= s@);
    out
}

/// The text made of some characters.
pub fn chars_text(cs: &[char]) -> (r: String)
    ensures
        r@ == cs@,
{
    let mut out = String::new();
    let mut i: usize = 0;
    while i < cs.len()
        invariant
            i <= cs.len(),
            out@ == cs@.take(i as int),
        decreases cs.len() - i,
    {
        out.push(cs[i]);
        i += 1;
        assert(out@ =~= cs@.take(i as int));
    }
    assert(out@ =~= cs@);
    out
}

/// Whether a text holds a given character.
pub fn contains_char(s: &str, needle: char) -> (r: bool)
    ensures
        r == s@.contains(needle),
{
    let cs = text_chars(s);
    let mut i: usize = 0;
    while i < cs.len()
        invariant
            i <= cs.len(),
            cs@ == s@,
            forall|k: int| 0 <= k < i ==> s@[k] != needle,
        decreases cs.len() - i,
    {
        if cs[i] == needle {
            assert(s@[i as int] == needle);
            return true;
        }
        i += 1;
    }
    false
}

/// A text without carriage returns and line feeds.
pub open spec fn one_line(s: Seq<char>) -> bool {
    !s.contains('\r') && !s.contains('\n')
}

/// Whether a text has neither a carriage return nor a line feed.
pub fn is_one_line(s: &str) -> (r: bool)
    ensures
        r == one_line(s@),
{
    !contains_char(s, '\r') && !contains_char(s, '\n')
}

/// The number of bytes of a text.
pub fn byte_len(s: &str) -> (r: usize)
    ensures
        r == utf8(s@).len(),
{
    s.as_bytes().len()
}

/// A text starts with a given one.
pub open spec fn text_starts(s: Seq<char>, prefix: Seq<char>) -> bool {
    prefix.is_prefix_of(s)
}

/// What follows a prefix of a text, or nothing where the text starts otherwise.
pub fn strip_text_prefix(s: &str, prefix: &str) -> (r: Option<String>)
    ensures
        r is Some == text_starts(s@, prefix@),
        r is Some ==> r->0@ == s@.skip(prefix@.len() as int),
{
    let cs = text_chars(s);
    let ps = text_chars(prefix);
    if ps.len() > cs.len() {
        return None;
    }
    let mut i: usize = 0;
    while i < ps.len()
        invariant
            i <= ps.len() <= cs.len(),
            cs@ == s@,
            ps@ == prefix@,
            forall|k: int| 0 <= k < i ==> cs@[k] == ps@[k],
        decreases ps.len() - i,
    {
        if cs[i] != ps[i] {
            assert(s@[i as int] != prefix@[i as int]);
            return None;
        }
        i += 1;
    }
    assert(prefix@ =~= s@.subrange(0, prefix@.len() as int));
    let mut out = String::new();
    let mut j: usize = ps.len();
    while j < cs.len()
        invariant
            ps.len() <= j <= cs.len(),
            cs@ == s@,
            out@ == s@.subrange(ps.len() as int, j as int),
        decreases cs.len() - j,
    {
        out.push(cs[j]);
        j += 1;
        assert(out@ =~= s@.subrange(ps.len() as int, j as int));
    }
    assert(out@ =~= s@.skip(prefix@.len() as int));
    Some(out)
}

/// Joins two texts.
pub fn text_join(a: &str, b: &str) -> (r: String)
    ensures
        r@ == a@ + b@,
{
    let mut out = a.to_owned();
    out.append(b);
    out
}

/// A lower-case hexadecimal digit, as a byte.
pub open spec fn is_lower_hex(b: u8) -> bool {
    48 <= b <= 57 || 97 <= b <= 102
}

/// Every byte is a lower-case hexadecimal digit.
pub open spec fn lower_hex(s: Seq<u8>) -> bool {
    forall|i: int| 0 <= i < s.len() ==> is_lower_hex(#[trigger] s[i])
}

/// Whether every byte is a lower-case hexadecimal digit.
pub fn all_lower_hex(s: &[u8]) -> (r: bool)
    ensures
        r == lower_hex(s@),
{
    let mut i: usize = 0;
    while i < s.len()
        invariant
            i <= s.len(),
            forall|k: int| 0 <= k < i ==> is_lower_hex(#[trigger] s@[k]),
        decreases s.len() - i,
    {
        let b: u8 = s[i];
        if !((48 <= b && b <= 57) || (97 <= b && b <= 102)) {
            assert(!is_lower_hex(s@[i as int]));
            return false;
        }
        i += 1;
    }
    true
}

/// A text of exactly `n` lower-case hexadecimal digits.
pub open spec fn hex_token(s: Seq<char>, n: int) -> bool {
    utf8(s).len() == n && lower_hex(utf8(s))
}

/// Whether a text consists of exactly `n` lower-case hexadecimal digits.
pub fn is_hex_token(s: &str, n: usize) -> (r: bool)
    ensures
        r == hex_token(s@, n as int),
{
    let bytes = s.as_bytes();
    bytes.len() == n && all_lower_hex(bytes)
}

/// The decimal digits of a number, most significant first.
pub open spec fn decimal(n: nat) -> Seq<char>
    decreases n,
{
    let digit = (48 + n % 10) as u8 as char;
    if n < 10 {
        seq![digit]
    } else {
        decimal(n / 10).push(digit)
    }
}

/// Appends the decimal digits of `n`.
pub fn push_decimal(s: &mut String, n: u64)
    ensures
        final(s)@ == old(s)@ + decimal(n as nat),
    decreases n,
{
    let ghost before = s@;
    let digit: char = (48 + (n % 10) as u8) as char;
    if n >= 10 {
        push_decimal(s, n / 10);
        s.push(digit);
        assert(s@ =~= before + decimal(n as nat));
    } else {
        s.push(digit);
        assert(s@ =~= before + decimal(n as nat));
    }
}

/// The pieces of a text between separators.
pub open spec fn split_text(s: Seq<char>, sep: char) -> Seq<Seq<char>>
    decreases s.len(),
{
    if s.len() == 0 {
        seq![Seq::<char>::empty()]
    } else {
        let before = split_text(s.drop_last(), sep);
        if s.last() == sep {
            before.push(Seq::<char>::empty())
        } else {
            before.drop_last().push(before.last().push(s.last()))
        }
    }
}

/// The texts that some character lists stand for.
pub open spec fn char_views(v: Seq<Vec<char>>) -> Seq<Seq<char>> {
    v.map_values(|c: Vec<char>| c@)
}

/// The pieces of a text between separators.
pub fn split_chars(s: &[char], sep: char) -> (r: Vec<Vec<char>>)
    ensures
        char_views(r@) == split_text(s@, sep),
        r@.len() >= 1,
{
    let mut done: Vec<Vec<char>> = Vec::new();
    let mut current: Vec<char> = Vec::new();
    let mut i: usize = 0;
    assert(char_views(done@).push(current@) =~= split_text(s@.take(0), sep));
    while i < s.len()
        invariant
            i <= s.len(),
            char_views(done@).push(current@) == split_text(s@.take(i as int), sep),
        decreases s.len() - i,
    {
        let ghost before = char_views(done@).push(current@);
        assert(s@.take(i + 1).drop_last() =~= s@.take(i as int));
        if s[i] == sep {
            done.push(current);
            current = Vec::new();
            assert(char_views(done@) =~= before);
            assert(char_views(done@).push(current@) =~= split_text(s@.take(i + 1), sep));
        } else {
            current.push(s[i]);
            assert(before.drop_last() =~= char_views(done@));
            assert(char_views(done@).push(current@) =~= split_text(s@.take(i + 1), sep));
        }
        i += 1;
    }
    assert(s@.take(i as int) =~= s@);
    let ghost whole = char_views(done@).push(current@);
    done.push(current);
    assert(char_views(done@) =~= whole);
    done
}

/// A text always has at least one piece.
pub proof fn lemma_split_nonempty(s: Seq<char>, sep: char)
    ensures
        split_text(s, sep).len() >= 1,
    decreases s.len(),
{
    if s.len() > 0 {
        lemma_split_nonempty(s.drop_last(), sep);
    }
}

/// A text without separators is one piece.
pub proof fn lemma_split_one(s: Seq<char>, sep: char)
    requires
        !s.contains(sep),
    ensures
        split_text(s, sep) == seq![s],
    decreases s.len(),
{
    if s.len() > 0 {
        assert(s[s.len() - 1] == s.last());
        assert(!s.drop_last().contains(sep)) by {
            if s.drop_last().contains(sep) {
                let k = choose|k: int| 0 <= k < s.drop_last().len() && s.drop_last()[k] == sep;
                assert(s[k] == sep);
            }
        }
        lemma_split_one(s.drop_last(), sep);
        assert(s.last() != sep);
        let before = split_text(s.drop_last(), sep);
        assert(before.drop_last() =~= Seq::<Seq<char>>::empty());
        assert(before.last() == s.drop_last());
        assert(s.drop_last().push(s.last()) =~= s);
        assert(split_text(s, sep) =~= seq![s]);
    } else {
        assert(s =~= Seq::<char>::empty());
    }
}

/// The pieces of two texts that a separator joins are those of both.
pub proof fn lemma_split_joined(a: Seq<char>, b: Seq<char>, sep: char)
    ensures
        split_text(a.push(sep) + b, sep) == split_text(a, sep) + split_text(b, sep),
    decreases b.len(),
{
    let whole = a.push(sep) + b;
    if b.len() == 0 {
        assert(whole =~= a.push(sep));
        assert(whole.drop_last() =~= a);
        assert(split_text(whole, sep) =~= split_text(a, sep) + split_text(b, sep));
    } else {
        lemma_split_joined(a, b.drop_last(), sep);
        lemma_split_nonempty(b.drop_last(), sep);
        assert(whole.drop_last() =~= a.push(sep) + b.drop_last());
        assert(whole.last() == b.last());
        let x = split_text(a, sep);
        let y = split_text(b.drop_last(), sep);
        assert((x + y).drop_last() =~= x + y.drop_last());
        assert((x + y).last() == y.last());
        assert(split_text(whole, sep) =~= x + split_text(b, sep));
    }
}

/// A line without the carriage return at its end.
pub open spec fn without_return(line: Seq<char>) -> Seq<char> {
    if line.len() > 0 && line.last() == '\r' {
        line.drop_last()
    } else {
        line
    }
}

/// The lines of a text. A line ends at a line feed, with the carriage return
/// before it; what follows the last line feed is a line if it is not empty.
pub open spec fn text_lines(s: Seq<char>) -> Seq<Seq<char>> {
    let pieces = split_text(s, '\n');
    let ended = pieces.drop_last().map_values(|p: Seq<char>| without_return(p));
    if pieces.last().len() == 0 {
        ended
    } else {
        ended.push(pieces.last())
    }
}

/// The lines of a text.
pub fn split_lines(s: &[char]) -> (r: Vec<Vec<char>>)
    ensures
        char_views(r@) == text_lines(s@),
{
    let pieces = split_chars(s, '\n');
    let ghost views = char_views(pieces@);
    let ghost ended = views.drop_last().map_values(|p: Seq<char>| without_return(p));
    let last: usize = pieces.len() - 1;
    let mut out: Vec<Vec<char>> = Vec::new();
    let mut i: usize = 0;
    assert(char_views(out@) =~= ended.take(0));
    while i < last
        invariant
            i <= last,
            last == pieces.len() - 1,
            views == char_views(pieces@),
            ended == views.drop_last().map_values(|p: Seq<char>| without_return(p)),
            char_views(out@) == ended.take(i as int),
        decreases last - i,
    {
        let ghost before = out@;
        let mut line = pieces[i].clone();
        assert(line@ == views[i as int]) by {
            assert(line@ =~= pieces@[i as int]@);
        }
        if line.len() > 0 && line[line.len() - 1] == '\r' {
            let _ = line.pop();
            assert(line@ =~= views[i as int].drop_last());
        }
        assert(line@ == ended[i as int]);
        let ghost added = line@;
        out.push(line);
        assert(char_views(out@) =~= char_views(before).push(added));
        assert(ended.take(i + 1) =~= ended.take(i as int).push(ended[i as int]));
        i += 1;
    }
    assert(ended.take(i as int) =~= ended);
    if pieces[last].len() > 0 {
        let ghost before = out@;
        let line = pieces[last].clone();
        assert(line@ =~= pieces@[last as int]@);
        out.push(line);
        assert(char_views(out@) =~= ended.push(views.last()));
    }
    out
}

/// The number that some decimal digits stand for.
pub open spec fn digits_value(s: Seq<char>) -> Option<nat>
    decreases s.len(),
{
    if s.len() == 0 {
        None
    } else if !('0' <= s.last() && s.last() <= '9') {
        None
    } else if s.len() == 1 {
        Some((s.last() as u32 - 48) as nat)
    } else {
        match digits_value(s.drop_last()) {
            Some(v) => Some((10 * v + (s.last() as u32 - 48)) as nat),
            None => None,
        }
    }
}

/// The number that a text stands for: digits, after a plus sign or not, with a
/// value of at most `max`.
pub open spec fn number_of(s: Seq<char>, max: nat) -> Option<nat> {
    let digits = if s.len() > 0 && s[0] == '+' {
        s.skip(1)
    } else {
        s
    };
    match digits_value(digits) {
        Some(v) if v <= max => Some(v),
        _ => None,
    }
}

proof fn lemma_digits_grow(s: Seq<char>, n: int)
    requires
        0 < n <= s.len(),
    ensures
        digits_value(s.take(n)) is None ==> digits_value(s) is None,
        digits_value(s.take(n)) is Some && digits_value(s) is Some ==> digits_value(
            s.take(n),
        )->0 <= digits_value(s)->0,
    decreases s.len() - n,
{
    if n == s.len() {
        assert(s.take(n) =~= s);
    } else {
        lemma_digits_grow(s, n + 1);
        assert(s.take(n + 1).drop_last() =~= s.take(n));
    }
}

/// Reads a number of at most `max`.
pub fn parse_number(s: &[char], max: u64) -> (r: Option<u64>)
    ensures
        r is Some == number_of(s@, max as nat) is Some,
        r is Some ==> r->0 == number_of(s@, max as nat)->0,
{
    let start: usize = if s.len() > 0 && s[0] == '+' {
        1
    } else {
        0
    };
    let ghost digits = s@.skip(start as int);
    assert(start == 0 ==> digits =~= s@);
    if s.len() == start {
        assert(digits.len() == 0);
        return None;
    }
    let mut value: u64 = 0;
    let mut i: usize = start;
    while i < s.len()
        invariant
            start <= i <= s.len(),
            start < s.len(),
            start <= 1,
            (start == 1) == (s@.len() > 0 && s@[0] == '+'),
            start == 0 ==> digits == s@,
            digits == s@.skip(start as int),
            i == start ==> value == 0,
            i > start ==> digits_value(digits.take(i - start)) == Some(value as nat),
            value <= max,
        decreases s.len() - i,
    {
        let c = s[i];
        let ghost n: int = i - start;
        proof {
            assert(digits[n] == c);
            assert(digits.take(n + 1).last() == c);
            assert(digits.take(n + 1).drop_last() =~= digits.take(n));
            lemma_digits_grow(digits, n + 1);
        }
        if !('0' <= c && c <= '9') {
            return None;
        }
        let digit: u64 = (c as u32 - 48) as u64;
        if value > max / 10 {
            assert(10 * value > max) by (nonlinear_arith)
                requires
                    value > max / 10,
            ;
            return None;
        }
        assert(10 * value <= max) by (nonlinear_arith)
            requires
                value <= max / 10,
        ;
        if digit > max - 10 * value {
            return None;
        }
        value = 10 * value + digit;
        i += 1;
    }
    assert(digits.take(i - start) =~= digits);
    Some(value)
}

/// The decimal digits of a number stand for that number.
pub proof fn lemma_decimal_reads_back(n: nat)
    ensures
        digits_value(decimal(n)) == Some(n),
        decimal(n).len() > 0,
        forall|i: int| 0 <= i < decimal(n).len() ==> '0' <= #[trigger] decimal(n)[i] <= '9',
    decreases n,
{
    let digit = (48 + n % 10) as u8 as char;
    assert(digit as u32 == 48 + n % 10);
    if n >= 10 {
        lemma_decimal_reads_back(n / 10);
        assert(decimal(n).drop_last() =~= decimal(n / 10));
    }
}

/// A number is read back from its decimal digits.
pub proof fn lemma_number_reads_back(n: nat, max: nat)
    requires
        n <= max,
    ensures
        number_of(decimal(n), max) == Some(n),
{
    lemma_decimal_reads_back(n);
    assert(decimal(n)[0] != '+');
}

/// The first line of a text ends at its first line feed, without a carriage return before
/// it, and the lines of the rest follow; a last line without a line feed counts if it is
/// not empty.
pub proof fn law_lines_end_at_line_feeds(line: Seq<char>, rest: Seq<char>)
    requires
        !line.contains('\n'),
    ensures
        text_lines(line.push('\n') + rest) == seq![
            if line.len() > 0 && line[line.len() - 1] == '\r' {
                line.take(line.len() - 1)
            } else {
                line
            },
        ] + text_lines(rest),
        line.len() > 0 ==> text_lines(line) == seq![line],
        text_lines(Seq::empty()) == Seq::<Seq<char>>::empty(),
{
    let whole = line.push('\n') + rest;
    let pieces = split_text(rest, '\n');
    let bare = |p: Seq<char>| without_return(p);
    lemma_split_joined(line, rest, '\n');
    lemma_split_one(line, '\n');
    lemma_split_nonempty(rest, '\n');
    let all = split_text(whole, '\n');
    assert(all == seq![line] + pieces);
    assert(all.last() == pieces.last());
    assert(all.drop_last() =~= seq![line] + pieces.drop_last());
    assert(all.drop_last().map_values(bare) =~= seq![without_return(line)]
        + pieces.drop_last().map_values(bare));
    assert(text_lines(whole) =~= seq![without_return(line)] + text_lines(rest));
    assert(line.len() > 0 ==> line.drop_last() =~= line.take(line.len() - 1));
    assert(seq![line].drop_last() =~= Seq::<Seq<char>>::empty());
    assert(Seq::<Seq<char>>::empty().map_values(bare) =~= Seq::<Seq<char>>::empty());
    assert(line.len() > 0 ==> text_lines(line) =~= seq![line]);
    lemma_split_one(Seq::<char>::empty(), '\n');
    assert(seq![Seq::<char>::empty()].drop_last() =~= Seq::<Seq<char>>::empty());
    assert(text_lines(Seq::empty()) =~= Seq::<Seq<char>>::empty());
}

/// The pieces of a text hold no separator.
pub proof fn law_pieces_hold_no_separator(s: Seq<char>, sep: char, k: int)
    requires
        0 <= k < split_text(s, sep).len(),
    ensures
        !split_text(s, sep)[k].contains(sep),
    decreases s.len(),
{
    if s.len() > 0 {
        let before = split_text(s.drop_last(), sep);
        lemma_split_nonempty(s.drop_last(), sep);
        let n = before.len() - 1;
        if s.last() == sep {
            if k <= n {
                law_pieces_hold_no_separator(s.drop_last(), sep, k);
            }
        } else if k < n {
            law_pieces_hold_no_separator(s.drop_last(), sep, k);
        } else {
            law_pieces_hold_no_separator(s.drop_last(), sep, n);
            let piece = before.last().push(s.last());
            if piece.contains(sep) {
                let i = choose|i: int| 0 <= i < piece.len() && piece[i] == sep;
                assert(i < before.last().len());
                assert(before.last()[i] == sep);
            }
        }
    }
}

/// A number is read from digits, with the value that their places give them; a plus sign
/// before them makes no difference, and a number above the bound is none.
pub proof fn law_numbers_are_read_by_place(s: Seq<char>, digit: char, max: nat)
    ensures
        digits_value(s) is Some && '0' <= digit && digit <= '9' ==> digits_value(s.push(digit))
            == Some((10 * digits_value(s)->0 + (digit as u32 - '0' as u32)) as nat),
        !('0' <= digit && digit <= '9') ==> digits_value(s.push(digit)) is None,
        s.len() > 0 && digits_value(s) is None ==> digits_value(s.push(digit)) is None,
        digits_value(Seq::empty()) is None,
        number_of(seq!['+'] + s, max) is Some ==> digits_value(s) is Some && digits_value(s)->0
            <= max && number_of(seq!['+'] + s, max) == digits_value(s),
        digits_value(s) is Some && digits_value(s)->0 > max ==> number_of(s, max) is None,
{
    assert(s.push(digit).drop_last() =~= s);
    assert((seq!['+'] + s).skip(1) =~= s);
    if digits_value(s) is Some && s[0] == '+' {
        lemma_digits_start(s);
    }
}

proof fn lemma_digits_start(s: Seq<char>)
    requires
        digits_value(s) is Some,
    ensures
        s.len() > 0 && '0' <= s[0] && s[0] <= '9',
    decreases s.len(),
{
    if s.len() > 1 {
        lemma_digits_start(s.drop_last());
    }
}

/// A token is as many bytes as asked for, each a digit or a small letter from a to f.
pub proof fn law_tokens_are_hexadecimal(s: Seq<char>, n: int)
    ensures
        hex_token(s, n) <==> (utf8(s).len() == n && forall|i: int|
            0 <= i < utf8(s).len() ==> (0x30 <= #[trigger] utf8(s)[i] && utf8(s)[i] <= 0x39) || (
            0x61 <= utf8(s)[i] && utf8(s)[i] <= 0x66)),
{
}

} // verus!
