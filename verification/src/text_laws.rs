//! Laws of texts: numerals, first lines, parts by byte offsets.
use crate::text::{decimal, first_line, is_text_range, text_between, texts};
use vstd::prelude::*;
use vstd::utf8::*;

verus! {

/// The number that a row of decimal digits stands for.
pub open spec fn numeral_value(digits: Seq<char>) -> int
    decreases digits.len(),
{
    if digits.len() == 0 {
        0
    } else {
        10 * numeral_value(digits.drop_last()) + (digits.last() as int - 48)
    }
}

/// A numeral is made of decimal digits, stands for its number, and has no leading zero.
pub proof fn law_decimal_value(n: nat)
    ensures
        decimal(n).len() > 0,
        forall|i: int| 0 <= i < decimal(n).len() ==> 48 <= #[trigger] decimal(n)[i] as int <= 57,
        numeral_value(decimal(n)) == n,
        decimal(n)[0] == '0' ==> n == 0,
    decreases n,
{
    if n < 10 {
        assert(decimal(n).drop_last() =~= seq![]);
        assert(numeral_value(decimal(n).drop_last()) == 0);
        assert(decimal(n)[0] as int == 48 + n);
    } else {
        law_decimal_value(n / 10);
        assert(decimal(n).drop_last() =~= decimal(n / 10));
        assert(decimal(n).last() as int == 48 + n % 10);
        assert(decimal(n)[0] == decimal(n / 10)[0]);
        assert forall|i: int| 0 <= i < decimal(n).len() implies 48 <= #[trigger] decimal(n)[i] as int
            <= 57 by {
            if i < decimal(n / 10).len() {
                assert(decimal(n)[i] == decimal(n / 10)[i]);
            }
        }
    }
}

/// The first line of a text begins the text, has no line feed, and ends where the text ends or
/// in front of the first line break, which is a line feed or a carriage return and a line feed.
pub proof fn law_first_line(text: Seq<char>)
    ensures
        first_line(text).is_prefix_of(text),
        !first_line(text).contains('\n'),
        ({
            let n = first_line(text).len() as int;
            ||| n == text.len()
            ||| text[n] == '\n' && (n == 0 || text[n - 1] != '\r')
            ||| n + 1 < text.len() && text[n] == '\r' && text[n + 1] == '\n'
        }),
{
    if text.contains('\n') {
        text.index_of_first_ensures('\n');
        let k = text.index_of_first('\n').unwrap();
        assert(first_line(text) =~= text.take(first_line(text).len() as int));
    }
}

/// Two offsets delimit whole characters where both are character boundaries in order.
pub proof fn law_text_range(text: Seq<char>, start: int, end: int)
    ensures
        is_text_range(text, start, end) <==> (0 <= start && start <= end && end <= encode_utf8(
            text,
        ).len() && is_char_boundary(encode_utf8(text), start) && is_char_boundary(
            encode_utf8(text),
            end,
        )),
{
}

/// The part of a text between two offsets has the bytes between them.
pub proof fn law_text_between_bytes(text: Seq<char>, start: int, end: int)
    requires
        0 <= start <= end <= encode_utf8(text).len(),
        is_char_boundary(encode_utf8(text), start),
        is_char_boundary(encode_utf8(text), end),
    ensures
        encode_utf8(text_between(text, start, end)) == encode_utf8(text).subrange(start, end),
{
    let bytes = encode_utf8(text);
    encode_utf8_valid_utf8(text);
    valid_utf8_split(bytes, end);
    let front = bytes.subrange(0, end);
    if start == end {
        is_char_boundary_start_end_of_seq(front);
    } else {
        is_char_boundary_iff_not_is_continuation_byte(bytes, start);
        is_char_boundary_iff_not_is_continuation_byte(front, start);
    }
    valid_utf8_split(front, start);
    assert(front.subrange(start, end) =~= bytes.subrange(start, end));
    decode_utf8_encode_utf8(bytes.subrange(start, end));
}

/// All of a text is the text.
pub proof fn law_text_between_all(text: Seq<char>)
    ensures
        text_between(text, 0, encode_utf8(text).len() as int) == text,
{
    assert(encode_utf8(text).subrange(0, encode_utf8(text).len() as int) =~= encode_utf8(text));
    encode_utf8_decode_utf8(text);
}

/// The texts of some strings are the texts of each.
pub proof fn law_texts(strings: Seq<String>)
    ensures
        texts(strings).len() == strings.len(),
        forall|i: int| 0 <= i < strings.len() ==> #[trigger] texts(strings)[i] == strings[i]@,
{
}

} // verus!
