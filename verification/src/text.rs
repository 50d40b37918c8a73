//! Strings as sequences of characters: comparison, slicing by byte offsets, decimal numerals.
use vstd::prelude::*;
use vstd::string::*;
use vstd::utf8::*;

verus! {

/// `String::push` appends one character at the end.
pub assume_specification[ String::push ](s: &mut String, c: char)
    ensures
        final(s)@ == old(s)@.push(c),
;

/// The byte offsets `start..end` delimit a run of whole characters of `text`.
pub open spec fn is_text_range(text: Seq<char>, start: int, end: int) -> bool {
    &&& 0 <= start <= end <= encode_utf8(text).len()
    &&& is_char_boundary(encode_utf8(text), start)
    &&& is_char_boundary(encode_utf8(text), end)
}

/// The characters of `text` between two byte offsets.
pub open spec fn text_between(text: Seq<char>, start: int, end: int) -> Seq<char> {
    decode_utf8(encode_utf8(text).subrange(start, end))
}

/// The characters of some strings.
pub open spec fn texts(strings: Seq<String>) -> Seq<Seq<char>> {
    strings.map_values(|s: String| s@)
}

/// The decimal digit `d`.
pub open spec fn digit(d: nat) -> char {
    (48 + d) as char
}

/// The decimal numeral of `n`, without leading zeros.
pub open spec fn decimal(n: nat) -> Seq<char>
    decreases n,
{
    if n < 10 {
        seq![digit(n)]
    } else {
        decimal(n / 10).push(digit(n % 10))
    }
}

/// What stands in front of the first line break: up to a line feed, without the carriage
/// return that belongs to it. Without a line feed it is the whole text.
pub open spec fn first_line(text: Seq<char>) -> Seq<char> {
    if text.contains('\n') {
        let line = text.take(text.index_of_first('\n').unwrap());
        if line.len() > 0 && line.last() == '\r' {
            line.drop_last()
        } else {
            line
        }
    } else {
        text
    }
}

/// The characters of a string.
pub fn chars_of(text: &str) -> (chars: Vec<char>)
    ensures
        chars@ == text@,
{
    let mut chars: Vec<char> = Vec::new();
    for c in iter: text.chars()
        invariant
            chars@ == iter.seq().take(iter.index()),
            iter.seq() == text@,
    {
        chars.push(c);
    }
    chars
}

/// Whether two strings hold the same characters.
pub fn same_text(a: &str, b: &str) -> (same: bool)
    ensures
        same == (a@ == b@),
{
    let x = a.as_bytes();
    let y = b.as_bytes();
    proof {
        encode_utf8_decode_utf8(a@);
        encode_utf8_decode_utf8(b@);
    }
    if x.len() != y.len() {
        return false;
    }
    let mut i: usize = 0;
    while i < x.len()
        invariant
            i <= x.len(),
            x@.len() == y@.len(),
            x@ == encode_utf8(a@),
            y@ == encode_utf8(b@),
            forall|j: int| 0 <= j < i ==> x@[j] == y@[j],
        decreases x.len() - i,
    {
        if x[i] != y[i] {
            return false;
        }
        i = i + 1;
    }
    assert(x@ =~= y@);
    true
}

/// Whether `text` begins with `prefix`.
pub fn has_prefix(text: &str, prefix: &str) -> (r: bool)
    ensures
        r == prefix@.is_prefix_of(text@),
{
    let t = chars_of(text);
    let p = chars_of(prefix);
    if p.len() > t.len() {
        return false;
    }
    let mut i: usize = 0;
    while i < p.len()
        invariant
            i <= p.len() <= t.len(),
            forall|j: int| 0 <= j < i ==> p@[j] == t@[j],
            p@ == prefix@,
            t@ == text@,
        decreases p.len() - i,
    {
        if p[i] != t[i] {
            assert(t@.subrange(0, p@.len() as int)[i as int] == t@[i as int]);
            return false;
        }
        i = i + 1;
    }
    assert(p@ =~= t@.subrange(0, p@.len() as int));
    true
}

/// Whether `text` ends with `suffix`.
pub fn has_suffix(text: &str, suffix: &str) -> (r: bool)
    ensures
        r == suffix@.is_suffix_of(text@),
{
    let t = chars_of(text);
    let p = chars_of(suffix);
    if p.len() > t.len() {
        return false;
    }
    let start: usize = t.len() - p.len();
    let mut i: usize = 0;
    while i < p.len()
        invariant
            i <= p.len() <= t.len(),
            start == t.len() - p.len(),
            forall|j: int| 0 <= j < i ==> p@[j] == t@[start + j],
            p@ == suffix@,
            t@ == text@,
        decreases p.len() - i,
    {
        if p[i] != t[start + i] {
            assert(t@.subrange(start as int, t@.len() as int)[i as int] == t@[start + i]);
            return false;
        }
        i = i + 1;
    }
    assert(p@ =~= t@.subrange(start as int, t@.len() as int));
    true
}

/// The characters between two byte offsets.
pub fn slice_text<'a>(text: &'a str, start: usize, end: usize) -> (r: &'a str)
    requires
        is_text_range(text@, start as int, end as int),
    ensures
        r@ == text_between(text@, start as int, end as int),
{
    let ghost bytes = encode_utf8(text@);
    proof {
        encode_utf8_valid_utf8(text@);
    }
    let (_, tail) = text.split_at(start);
    proof {
        lemma_boundary_after(bytes, start as int, end as int);
    }
    let (middle, _) = tail.split_at(end - start);
    proof {
        assert(middle.spec_bytes() =~= bytes.subrange(start as int, end as int));
        encode_utf8_decode_utf8(middle@);
    }
    middle
}

/// A character boundary of a text is one of what follows an earlier boundary.
proof fn lemma_boundary_after(bytes: Seq<u8>, start: int, end: int)
    requires
        valid_utf8(bytes),
        0 <= start <= end <= bytes.len(),
        is_char_boundary(bytes, start),
        is_char_boundary(bytes, end),
    ensures
        is_char_boundary(bytes.subrange(start, bytes.len() as int), end - start),
{
    let tail = bytes.subrange(start, bytes.len() as int);
    valid_utf8_split(bytes, start);
    if end == bytes.len() {
        is_char_boundary_start_end_of_seq(tail);
    } else {
        is_char_boundary_iff_not_is_continuation_byte(bytes, end);
        is_char_boundary_iff_not_is_continuation_byte(tail, end - start);
    }
}

/// Appends the decimal numeral of `n`.
pub fn append_decimal(out: &mut String, n: u128)
    ensures
        final(out)@ == old(out)@ + decimal(n as nat),
    decreases n,
{
    if n >= 10 {
        append_decimal(out, n / 10);
    }
    let d: u8 = (n % 10) as u8;
    out.push((48 + d) as char);
    assert(out@ =~= old(out)@ + decimal(n as nat));
}

/// The first line of a text, without its line break.
pub fn first_line_of<'a>(text: &'a str) -> (r: String)
    ensures
        r@ == first_line(text@),
{
    let chars = chars_of(text);
    let mut i: usize = 0;
    while i < chars.len() && chars[i] != '\n'
        invariant
            i <= chars.len(),
            forall|j: int| 0 <= j < i ==> chars@[j] != '\n',
        decreases chars.len() - i,
    {
        i = i + 1;
    }
    if i == chars.len() {
        return text.to_owned();
    }
    proof {
        chars@.index_of_first_ensures('\n');
        assert(chars@[i as int] == '\n');
    }
    let end: usize = if i > 0 && chars[i - 1] == '\r' { i - 1 } else { i };
    let r = string_of(&chars, 0, end);
    assert(r@ =~= first_line(text@));
    r
}

/// The string of the characters at `from..to`.
pub fn string_of(chars: &Vec<char>, from: usize, to: usize) -> (r: String)
    requires
        from <= to <= chars@.len(),
    ensures
        r@ == chars@.subrange(from as int, to as int),
{
    let mut r = String::new();
    let mut i: usize = from;
    while i < to
        invariant
            from <= i <= to <= chars@.len(),
            r@ == chars@.subrange(from as int, i as int),
        decreases to - i,
    {
        r.push(chars[i]);
        i = i + 1;
        assert(r@ =~= chars@.subrange(from as int, i as int));
    }
    r
}

} // verus!
