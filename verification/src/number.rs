//! Counts as text: decimal digits read from bytes and written to bytes, and
//! the white space that may surround them.

use vstd::prelude::*;

verus! {

/// The digit zero.
pub const ZERO: u8 = 0x30;

/// The digit nine.
pub const NINE: u8 = 0x39;

/// The plus sign.
pub const PLUS: u8 = 0x2b;

pub open spec fn is_digit(byte: u8) -> bool {
    ZERO <= byte <= NINE
}

/// What the digit `byte` counts; 0 for any other byte.
pub open spec fn digit_value(byte: u8) -> nat {
    if is_digit(byte) {
        (byte - ZERO) as nat
    } else {
        0
    }
}

pub open spec fn all_digits(text: Seq<u8>) -> bool {
    forall|i: int| 0 <= i < text.len() ==> is_digit(#[trigger] text[i])
}

/// The number that `digits` spell, most significant digit first.
pub open spec fn digits_value(digits: Seq<u8>) -> nat
    decreases digits.len(),
{
    if digits.len() == 0 {
        0
    } else {
        digits_value(digits.drop_last()) * 10 + digit_value(digits.last())
    }
}

/// `text` without the plus sign that may lead it.
pub open spec fn unsigned_part(text: Seq<u8>) -> Seq<u8> {
    if text.len() > 0 && text[0] == PLUS {
        text.skip(1)
    } else {
        text
    }
}

/// The count that `text` spells: an optional plus sign, then one or more
/// decimal digits and nothing else, with a value that fits a `usize`.
pub open spec fn spec_parse(text: Seq<u8>) -> Option<usize> {
    let digits = unsigned_part(text);
    if digits.len() > 0 && all_digits(digits) && digits_value(digits) <= usize::MAX {
        Some(digits_value(digits) as usize)
    } else {
        None
    }
}

/// The decimal digits of `n`, without leading zeros.
pub open spec fn decimal_digits(n: nat) -> Seq<u8>
    decreases n,
{
    if n < 10 {
        seq![(ZERO + n) as u8]
    } else {
        decimal_digits(n / 10).push((ZERO + n % 10) as u8)
    }
}

/// Appending a byte to digits shifts their value by one decimal place.
pub proof fn lemma_digits_value_push(digits: Seq<u8>, byte: u8)
    ensures
        digits_value(digits.push(byte)) == digits_value(digits) * 10 + digit_value(byte),
{
    assert(digits.push(byte).drop_last() == digits);
}

/// The digits read so far never spell more than the whole text does.
pub proof fn lemma_prefix_value(digits: Seq<u8>, k: int)
    requires
        0 <= k <= digits.len(),
    ensures
        digits_value(digits.take(k)) <= digits_value(digits),
    decreases digits.len() - k,
{
    if k < digits.len() {
        lemma_prefix_value(digits, k + 1);
        assert(digits.take(k + 1) == digits.take(k).push(digits[k]));
        lemma_digits_value_push(digits.take(k), digits[k]);
    } else {
        assert(digits.take(k) == digits);
    }
}

/// Reads a count from `text`, which must be an optional plus sign followed by
/// decimal digits and nothing else.
pub fn parse(text: &[u8]) -> (count: Option<usize>)
    ensures
        count == spec_parse(text@),
{
    let len: usize = text.len();
    let start: usize = if len > 0 && text[0] == PLUS {
        1
    } else {
        0
    };
    if start == len {
        return None;
    }
    let ghost digits = unsigned_part(text@);
    assert(digits == text@.skip(start as int));
    let mut value: usize = 0;
    let mut i: usize = start;
    while i < len
        invariant
            start <= i <= len,
            len == text@.len(),
            digits == text@.skip(start as int),
            digits == unsigned_part(text@),
            all_digits(digits.take(i - start)),
            value == digits_value(digits.take(i - start)),
        decreases len - i,
    {
        let byte: u8 = text[i];
        assert(byte == digits[i - start]);
        if byte < ZERO || byte > NINE {
            assert(!is_digit(digits[i - start]));
            return None;
        }
        let ghost read = digits.take(i - start + 1);
        proof {
            assert(read == digits.take(i - start).push(byte));
            lemma_digits_value_push(digits.take(i - start), byte);
            lemma_prefix_value(digits, i - start + 1);
            assert(digits_value(read) == value * 10 + (byte - ZERO));
        }
        let digit: usize = (byte - ZERO) as usize;
        let shifted: usize = match value.checked_mul(10) {
            Some(shifted) => shifted,
            None => {
                return None;
            },
        };
        value = match shifted.checked_add(digit) {
            Some(sum) => sum,
            None => {
                return None;
            },
        };
        i += 1;
    }
    assert(digits.take(len - start) == digits);
    Some(value)
}

/// The digits of a number are digits, and there is at least one.
pub proof fn lemma_decimal_digits_are_digits(n: nat)
    ensures
        decimal_digits(n).len() > 0,
        all_digits(decimal_digits(n)),
    decreases n,
{
    if n >= 10 {
        lemma_decimal_digits_are_digits(n / 10);
    }
}

/// The digits of a number spell that number.
pub proof fn lemma_decimal_digits_value(n: nat)
    ensures
        digits_value(decimal_digits(n)) == n,
    decreases n,
{
    if n < 10 {
        lemma_digits_value_push(Seq::<u8>::empty(), (ZERO + n) as u8);
        assert(Seq::<u8>::empty().push((ZERO + n) as u8) == decimal_digits(n));
    } else {
        lemma_decimal_digits_value(n / 10);
        lemma_digits_value_push(decimal_digits(n / 10), (ZERO + n % 10) as u8);
    }
}

/// Writing a count and reading it back gives the count.
pub proof fn lemma_parse_decimal_digits(n: usize)
    ensures
        spec_parse(decimal_digits(n as nat)) == Some(n),
{
    lemma_decimal_digits_are_digits(n as nat);
    lemma_decimal_digits_value(n as nat);
    let digits = decimal_digits(n as nat);
    assert(is_digit(digits[0]));
}

/// Appends the decimal digits of `n` to `out`.
pub fn push_decimal(out: &mut Vec<u8>, n: usize)
    ensures
        final(out)@ == old(out)@ + decimal_digits(n as nat),
    decreases n,
{
    if n >= 10 {
        push_decimal(out, n / 10);
    }
    let digit: u8 = (n % 10) as u8;
    out.push(ZERO + digit);
    assert(out@ == old(out)@ + decimal_digits(n as nat));
}

/// The decimal digits of `n`.
pub fn to_decimal(n: usize) -> (digits: Vec<u8>)
    ensures
        digits@ == decimal_digits(n as nat),
{
    let mut digits: Vec<u8> = Vec::new();
    push_decimal(&mut digits, n);
    digits
}

/// A white-space character of one byte: tab, line feed, vertical tab, form
/// feed, carriage return or space.
pub open spec fn is_space_byte(byte: u8) -> bool {
    0x09 <= byte <= 0x0d || byte == 0x20
}

/// A white-space character of two bytes in UTF-8: U+0085 or U+00A0.
pub open spec fn is_space_pair(first: u8, second: u8) -> bool {
    first == 0xc2 && (second == 0x85 || second == 0xa0)
}

/// A white-space character of three bytes in UTF-8: U+1680, U+2000 to
/// U+200A, U+2028, U+2029, U+202F, U+205F or U+3000.
pub open spec fn is_space_triple(first: u8, second: u8, third: u8) -> bool {
    ||| first == 0xe1 && second == 0x9a && third == 0x80
    ||| first == 0xe2 && second == 0x80 && (0x80 <= third <= 0x8a || third == 0xa8 || third == 0xa9
        || third == 0xaf)
    ||| first == 0xe2 && second == 0x81 && third == 0x9f
    ||| first == 0xe3 && second == 0x80 && third == 0x80
}

/// The number of bytes of the white-space character that starts at `at` in
/// `text`, 0 where none starts there. White space is what Unicode gives the
/// property White_Space, encoded in UTF-8.
pub open spec fn space_width(text: Seq<u8>, at: int) -> int {
    if at < 0 || at >= text.len() {
        0
    } else if is_space_byte(text[at]) {
        1
    } else if at + 1 < text.len() && is_space_pair(text[at], text[at + 1]) {
        2
    } else if at + 2 < text.len() && is_space_triple(text[at], text[at + 1], text[at + 2]) {
        3
    } else {
        0
    }
}

/// The first position at or after `at` where no white-space character starts.
pub open spec fn spaces_end(text: Seq<u8>, at: int) -> int
    decreases text.len() - at,
{
    let width = space_width(text, at);
    if width == 0 {
        at
    } else {
        spaces_end(text, at + width)
    }
}

/// The first position at or after `at` that holds no digit.
pub open spec fn digits_end(text: Seq<u8>, at: int) -> int
    decreases text.len() - at,
{
    if 0 <= at < text.len() && is_digit(text[at]) {
        digits_end(text, at + 1)
    } else {
        at
    }
}

/// The count that `text` spells once the white space around it is set
/// aside: white space, then an optional plus sign and decimal digits, then
/// white space up to the end.
pub open spec fn spec_parse_trimmed(text: Seq<u8>) -> Option<usize> {
    let start = spaces_end(text, 0);
    let signed = if start < text.len() && text[start] == PLUS {
        start + 1
    } else {
        start
    };
    let stop = digits_end(text, signed);
    if spaces_end(text, stop) == text.len() {
        spec_parse(text.subrange(start, stop))
    } else {
        None
    }
}

fn space_width_at(text: &[u8], at: usize) -> (width: usize)
    requires
        at <= text@.len(),
    ensures
        width == space_width(text@, at as int),
        at + width <= text@.len(),
{
    let len: usize = text.len();
    if at >= len {
        return 0;
    }
    let first: u8 = text[at];
    if (0x09 <= first && first <= 0x0d) || first == 0x20 {
        return 1;
    }
    if len - at >= 2 {
        let second: u8 = text[at + 1];
        if first == 0xc2 && (second == 0x85 || second == 0xa0) {
            return 2;
        }
        if len - at >= 3 {
            let third: u8 = text[at + 2];
            if (first == 0xe1 && second == 0x9a && third == 0x80) || (first == 0xe2 && second
                == 0x80 && ((0x80 <= third && third <= 0x8a) || third == 0xa8 || third == 0xa9
                || third == 0xaf)) || (first == 0xe2 && second == 0x81 && third == 0x9f) || (first
                == 0xe3 && second == 0x80 && third == 0x80) {
                return 3;
            }
        }
    }
    0
}

fn skip_spaces(text: &[u8], at: usize) -> (end: usize)
    requires
        at <= text@.len(),
    ensures
        end == spaces_end(text@, at as int),
        at <= end <= text@.len(),
{
    let len: usize = text.len();
    let mut pos: usize = at;
    loop
        invariant
            at <= pos <= len,
            len == text@.len(),
            spaces_end(text@, at as int) == spaces_end(text@, pos as int),
        ensures
            pos == spaces_end(text@, at as int),
        decreases len - pos,
    {
        let width: usize = space_width_at(text, pos);
        if width == 0 {
            break;
        }
        pos += width;
    }
    pos
}

fn skip_digits(text: &[u8], at: usize) -> (end: usize)
    requires
        at <= text@.len(),
    ensures
        end == digits_end(text@, at as int),
        at <= end <= text@.len(),
{
    let len: usize = text.len();
    let mut pos: usize = at;
    while pos < len && ZERO <= text[pos] && text[pos] <= NINE
        invariant
            at <= pos <= len,
            len == text@.len(),
            digits_end(text@, at as int) == digits_end(text@, pos as int),
        decreases len - pos,
    {
        pos += 1;
    }
    pos
}

/// Reads a count from `text`, which may hold white space before and after the
/// number.
pub fn parse_trimmed(text: &[u8]) -> (count: Option<usize>)
    ensures
        count == spec_parse_trimmed(text@),
{
    let len: usize = text.len();
    let start: usize = skip_spaces(text, 0);
    let signed: usize = if start < len && text[start] == PLUS {
        start + 1
    } else {
        start
    };
    let stop: usize = skip_digits(text, signed);
    if skip_spaces(text, stop) == len {
        parse(vstd::slice::slice_subrange(text, start, stop))
    } else {
        None
    }
}

/// A run of digits ends where the text does.
pub proof fn lemma_digits_end_of_digits(text: Seq<u8>, at: int)
    requires
        0 <= at <= text.len(),
        all_digits(text),
    ensures
        digits_end(text, at) == text.len(),
    decreases text.len() - at,
{
    if at < text.len() {
        lemma_digits_end_of_digits(text, at + 1);
    }
}

/// The digits of a count read back as that count, also where white space is
/// allowed around them.
pub proof fn lemma_parse_trimmed_decimal_digits(n: usize)
    ensures
        spec_parse_trimmed(decimal_digits(n as nat)) == Some(n),
{
    let digits = decimal_digits(n as nat);
    lemma_decimal_digits_are_digits(n as nat);
    lemma_parse_decimal_digits(n);
    assert(is_digit(digits[0]));
    lemma_digits_end_of_digits(digits, 0);
    assert(digits.subrange(0, digits.len() as int) == digits);
}

/// Whether `text` is white space from its first byte to its last.
pub open spec fn is_blank(text: Seq<u8>) -> bool {
    spaces_end(text, 0) == text.len()
}

/// White space ends at or after the place the search starts from, and
/// within the text.
proof fn lemma_spaces_end_bounds(text: Seq<u8>, at: int)
    requires
        0 <= at <= text.len(),
    ensures
        at <= spaces_end(text, at) <= text.len(),
    decreases text.len() - at,
{
    if space_width(text, at) > 0 {
        lemma_spaces_end_bounds(text, at + space_width(text, at));
    }
}

/// Digits end at or after the place the search starts from, and within the
/// text.
proof fn lemma_digits_end_bounds(text: Seq<u8>, at: int)
    requires
        0 <= at <= text.len(),
    ensures
        at <= digits_end(text, at) <= text.len(),
    decreases text.len() - at,
{
    if at < text.len() && is_digit(text[at]) {
        lemma_digits_end_bounds(text, at + 1);
    }
}

/// A white-space character stays one when bytes are put after the text.
proof fn lemma_space_width_with_tail(head: Seq<u8>, tail: Seq<u8>, at: int)
    requires
        space_width(head, at) > 0,
    ensures
        space_width(head + tail, at) == space_width(head, at),
{
    let all = head + tail;
    assert(all[at] == head[at]);
    if at + 1 < head.len() {
        assert(all[at + 1] == head[at + 1]);
    }
    if at + 2 < head.len() {
        assert(all[at + 2] == head[at + 2]);
    }
}

/// What starts at a place in a text starts at that place behind any bytes
/// put before the text.
proof fn lemma_space_width_with_head(head: Seq<u8>, tail: Seq<u8>, at: int)
    requires
        0 <= at,
    ensures
        space_width(head + tail, head.len() + at) == space_width(tail, at),
{
    let all = head + tail;
    if at < tail.len() {
        assert(all[head.len() + at] == tail[at]);
    }
    if at + 1 < tail.len() {
        assert(all[head.len() + at + 1] == tail[at + 1]);
    }
    if at + 2 < tail.len() {
        assert(all[head.len() + at + 2] == tail[at + 2]);
    }
}

proof fn lemma_spaces_end_with_head(head: Seq<u8>, tail: Seq<u8>, at: int)
    requires
        0 <= at <= tail.len(),
    ensures
        spaces_end(head + tail, head.len() + at) == head.len() + spaces_end(tail, at),
    decreases tail.len() - at,
{
    lemma_space_width_with_head(head, tail, at);
    if space_width(tail, at) > 0 {
        lemma_spaces_end_with_head(head, tail, at + space_width(tail, at));
    }
}

proof fn lemma_spaces_end_through_blank(head: Seq<u8>, tail: Seq<u8>, at: int)
    requires
        0 <= at <= head.len(),
        spaces_end(head, at) == head.len(),
    ensures
        spaces_end(head + tail, at) == head.len() + spaces_end(tail, 0),
    decreases head.len() - at,
{
    if at < head.len() {
        lemma_space_width_with_tail(head, tail, at);
        lemma_spaces_end_through_blank(head, tail, at + space_width(head, at));
    } else {
        lemma_spaces_end_with_head(head, tail, 0);
    }
}

proof fn lemma_digits_end_with_head(head: Seq<u8>, tail: Seq<u8>, at: int)
    requires
        0 <= at <= tail.len(),
    ensures
        digits_end(head + tail, head.len() + at) == head.len() + digits_end(tail, at),
    decreases tail.len() - at,
{
    let all = head + tail;
    if at < tail.len() {
        assert(all[head.len() + at] == tail[at]);
        if is_digit(tail[at]) {
            lemma_digits_end_with_head(head, tail, at + 1);
        }
    }
}

proof fn lemma_digits_end_with_tail(head: Seq<u8>, tail: Seq<u8>, at: int)
    requires
        0 <= at <= head.len(),
        digits_end(head, at) == head.len(),
        tail.len() > 0 ==> !is_digit(tail[0]),
    ensures
        digits_end(head + tail, at) == head.len(),
    decreases head.len() - at,
{
    let all = head + tail;
    if at < head.len() {
        assert(all[at] == head[at]);
        lemma_digits_end_with_tail(head, tail, at + 1);
    } else if tail.len() > 0 {
        assert(all[at] == tail[0]);
    }
}

/// The white space that a search passes over is white space by itself.
proof fn lemma_spaces_end_in_prefix(text: Seq<u8>, at: int)
    requires
        0 <= at <= text.len(),
    ensures
        spaces_end(text.take(spaces_end(text, at)), at) == spaces_end(text, at),
    decreases text.len() - at,
{
    let end = spaces_end(text, at);
    let head = text.take(end);
    let width = space_width(text, at);
    lemma_spaces_end_bounds(text, at);
    if width > 0 {
        lemma_spaces_end_bounds(text, at + width);
        lemma_spaces_end_in_prefix(text, at + width);
        assert(head[at] == text[at]);
        if width >= 2 {
            assert(head[at + 1] == text[at + 1]);
        }
        if width >= 3 {
            assert(head[at + 2] == text[at + 2]);
        }
        assert(space_width(head, at) == width);
    }
}

/// White space around a count does not change what is read: between any
/// white space, a text that spells a count reads as that count.
pub proof fn lemma_parse_trimmed_surrounded(before: Seq<u8>, text: Seq<u8>, after: Seq<u8>)
    requires
        is_blank(before),
        is_blank(after),
        spec_parse(text) is Some,
    ensures
        spec_parse_trimmed(before + text + after) == spec_parse(text),
{
    let inner = text + after;
    let all = before + text + after;
    let digits = unsigned_part(text);
    let sign: int = if text[0] == PLUS {
        1
    } else {
        0
    };
    assert(all == before + inner);
    assert(is_digit(digits[0]));
    assert(inner[0] == text[0]);
    assert(space_width(inner, 0) == 0);
    lemma_spaces_end_through_blank(before, inner, 0);
    let start = before.len() as int;
    assert(spaces_end(all, 0) == start);
    assert(all[start] == text[0]);
    assert(digits_end(text, sign) == text.len()) by {
        lemma_digits_end_of_digits(digits, 0);
        lemma_digits_end_with_head(text.take(sign), digits, 0);
        assert(text.take(sign) + digits == text);
    }
    assert(digits_end(inner, sign) == text.len()) by {
        if after.len() > 0 {
            assert(space_width(after, 0) > 0);
        }
        lemma_digits_end_with_tail(text, after, sign);
    }
    lemma_digits_end_with_head(before, inner, sign);
    let stop = start + text.len();
    assert(digits_end(all, start + sign) == stop);
    lemma_spaces_end_with_head(before + text, after, 0);
    assert(all.subrange(start, stop) == text);
}

/// A text is read as a count only if it is white space, then a text that
/// spells that count, then white space.
pub proof fn lemma_parse_trimmed_splits(text: Seq<u8>)
    requires
        spec_parse_trimmed(text) is Some,
    ensures
        exists|start: int, stop: int|
            0 <= start <= stop <= text.len() && is_blank(text.subrange(0, start)) && is_blank(
                text.subrange(stop, text.len() as int),
            ) && spec_parse(#[trigger] text.subrange(start, stop)) == spec_parse_trimmed(text),
{
    let start = spaces_end(text, 0);
    let signed = if start < text.len() && text[start] == PLUS {
        start + 1
    } else {
        start
    };
    let stop = digits_end(text, signed);
    lemma_spaces_end_bounds(text, 0);
    lemma_digits_end_bounds(text, signed);
    lemma_spaces_end_in_prefix(text, 0);
    assert(text.take(start) == text.subrange(0, start));
    let tail = text.subrange(stop, text.len() as int);
    assert(text.take(stop) + tail == text);
    lemma_spaces_end_with_head(text.take(stop), tail, 0);
    assert(spec_parse(text.subrange(start, stop)) == spec_parse_trimmed(text));
}

} // verus!
