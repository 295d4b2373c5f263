//! The supervisor's configuration as text: lines of bytes, one of which sets
//! the number of worker processes.

use crate::number::{
    decimal_digits, is_digit, lemma_decimal_digits_are_digits,
    lemma_parse_trimmed_decimal_digits, parse_trimmed, push_decimal, spec_parse_trimmed,
};
use crate::store::StoreError;
use vstd::prelude::*;
use vstd::slice::slice_subrange;

verus! {

/// The line feed that ends a line.
pub const NEWLINE: u8 = 0x0a;

/// The carriage return that may stand before a line feed.
pub const CARRIAGE_RETURN: u8 = 0x0d;

/// The number of bytes of `key()`.
pub const KEY_LEN: usize = 9;

/// The name of the worker-count setting and its equals sign: `numprocs=`.
pub open spec fn key() -> Seq<u8> {
    seq![0x6e, 0x75, 0x6d, 0x70, 0x72, 0x6f, 0x63, 0x73, 0x3d]
}

/// The length of the first line of `text`, its line feed included: up to
/// the first line feed, or all of `text` where it holds none.
pub open spec fn line_len(text: Seq<u8>) -> int
    decreases text.len(),
{
    if text.len() == 0 {
        0
    } else if text[0] == NEWLINE {
        1
    } else {
        1 + line_len(text.skip(1))
    }
}

/// The first line of `text`, terminator included.
pub open spec fn first_line(text: Seq<u8>) -> Seq<u8> {
    text.take(line_len(text))
}

/// What follows the first line of `text`.
pub open spec fn after_first_line(text: Seq<u8>) -> Seq<u8> {
    text.skip(line_len(text))
}

/// The length of what ends `line`: 2 for a carriage return and a line feed,
/// 1 for a line feed alone, 0 for a last line that nothing ends.
pub open spec fn terminator_len(line: Seq<u8>) -> int {
    if line.len() >= 2 && line[line.len() - 2] == CARRIAGE_RETURN && line.last() == NEWLINE {
        2
    } else if line.len() >= 1 && line.last() == NEWLINE {
        1
    } else {
        0
    }
}

/// `line` without its terminator.
pub open spec fn body(line: Seq<u8>) -> Seq<u8> {
    line.take(line.len() - terminator_len(line))
}

/// The terminator of `line`.
pub open spec fn terminator(line: Seq<u8>) -> Seq<u8> {
    line.skip(line.len() - terminator_len(line))
}

/// A first line is never empty and never longer than the text.
pub proof fn lemma_line_len_bounds(text: Seq<u8>)
    ensures
        text.len() > 0 ==> 1 <= line_len(text) <= text.len(),
        text.len() == 0 ==> line_len(text) == 0,
    decreases text.len(),
{
    if text.len() > 0 && text[0] != NEWLINE {
        lemma_line_len_bounds(text.skip(1));
    }
}

/// The lines of `text` in order, each with its terminator.
pub open spec fn lines(text: Seq<u8>) -> Seq<Seq<u8>>
    decreases text.len(),
{
    if text.len() == 0 {
        Seq::empty()
    } else {
        proof {
            lemma_line_len_bounds(text);
        }
        seq![first_line(text)] + lines(after_first_line(text))
    }
}

/// The bytes of `lines`, one line after the other.
pub open spec fn join(lines: Seq<Seq<u8>>) -> Seq<u8>
    decreases lines.len(),
{
    if lines.len() == 0 {
        Seq::empty()
    } else {
        lines[0] + join(lines.skip(1))
    }
}

/// Bytes that make one line: at least one byte, and no line feed before the
/// last.
pub open spec fn is_line(line: Seq<u8>) -> bool {
    line.len() > 0 && forall|i: int| 0 <= i < line.len() - 1 ==> line[i] != NEWLINE
}

/// The count that a line with this body sets, if it is a worker-count line:
/// the key at its start, and after it a count and nothing else, white space
/// around the count aside.
pub open spec fn line_count(body: Seq<u8>) -> Option<usize> {
    if body.len() >= KEY_LEN && body.take(KEY_LEN as int) == key() {
        spec_parse_trimmed(body.skip(KEY_LEN as int))
    } else {
        None
    }
}

/// The count that `text` holds: that of its first worker-count line.
pub open spec fn spec_read_count(text: Seq<u8>) -> Option<usize>
    decreases text.len(),
{
    if text.len() == 0 {
        None
    } else {
        match line_count(body(first_line(text))) {
            Some(count) => Some(count),
            None => {
                proof {
                    lemma_line_len_bounds(text);
                }
                spec_read_count(after_first_line(text))
            },
        }
    }
}

/// `line` with its count replaced by `count`, where it is a worker-count
/// line: the key, the digits of `count` and the line's own terminator. Any
/// other line as it is.
pub open spec fn spec_write_line(line: Seq<u8>, count: usize) -> Seq<u8> {
    if line_count(body(line)) is Some {
        key() + decimal_digits(count as nat) + terminator(line)
    } else {
        line
    }
}

/// `text` with every worker-count line set to `count`, line by line.
pub open spec fn spec_write_count(text: Seq<u8>, count: usize) -> Seq<u8>
    decreases text.len(),
{
    if text.len() == 0 {
        text
    } else {
        proof {
            lemma_line_len_bounds(text);
        }
        spec_write_line(first_line(text), count) + spec_write_count(after_first_line(text), count)
    }
}

/// The result of reading the count from `text`.
pub open spec fn spec_read_result(text: Seq<u8>) -> Result<usize, StoreError> {
    match spec_read_count(text) {
        Some(count) => Ok(count),
        None => Err(StoreError::NotFound),
    }
}

/// Finds where the line that starts at `from` ends.
fn line_end(text: &[u8], from: usize) -> (end: usize)
    requires
        from < text@.len(),
    ensures
        from < end <= text@.len(),
        end - from == line_len(text@.skip(from as int)),
{
    let len: usize = text.len();
    let mut i: usize = from;
    while i < len && text[i] != NEWLINE
        invariant
            from <= i <= len,
            len == text@.len(),
            line_len(text@.skip(from as int)) == (i - from) + line_len(text@.skip(i as int)),
        decreases len - i,
    {
        assert(text@.skip(i as int).skip(1) == text@.skip(i + 1));
        i += 1;
    }
    if i < len {
        i + 1
    } else {
        i
    }
}

/// The length of `line` without its terminator.
fn body_len(line: &[u8]) -> (n: usize)
    ensures
        n == line@.len() - terminator_len(line@),
{
    let len: usize = line.len();
    if len >= 1 && line[len - 1] == NEWLINE {
        if len >= 2 && line[len - 2] == CARRIAGE_RETURN {
            len - 2
        } else {
            len - 1
        }
    } else {
        len
    }
}

fn starts_with_key(body: &[u8]) -> (found: bool)
    ensures
        found == (body@.len() >= KEY_LEN && body@.take(KEY_LEN as int) == key()),
{
    if body.len() < KEY_LEN {
        return false;
    }
    let found = body[0] == 0x6e && body[1] == 0x75 && body[2] == 0x6d && body[3] == 0x70 && body[4]
        == 0x72 && body[5] == 0x6f && body[6] == 0x63 && body[7] == 0x73 && body[8] == 0x3d;
    proof {
        let head = body@.take(KEY_LEN as int);
        if found {
            assert(head =~= key());
        } else {
            assert(head[0] == body@[0] && head[1] == body@[1] && head[2] == body@[2] && head[3]
                == body@[3] && head[4] == body@[4] && head[5] == body@[5] && head[6] == body@[6]
                && head[7] == body@[7] && head[8] == body@[8]);
        }
    }
    found
}

/// The count that a line with this body sets, if it is a worker-count line.
fn count_of_line(body: &[u8]) -> (count: Option<usize>)
    ensures
        count == line_count(body@),
{
    if starts_with_key(body) {
        parse_trimmed(slice_subrange(body, KEY_LEN, body.len()))
    } else {
        None
    }
}

/// Reads the persisted process count from the configuration's text: the
/// count of the first worker-count line. Fails with `NotFound` where no line
/// sets the count.
pub fn read_count(config: &[u8]) -> (count: Result<usize, StoreError>)
    ensures
        count == spec_read_result(config@),
        count is Ok <==> spec_read_count(config@) is Some,
{
    let len: usize = config.len();
    let mut pos: usize = 0;
    assert(config@.skip(0) == config@);
    while pos < len
        invariant
            pos <= len,
            len == config@.len(),
            spec_read_count(config@) == spec_read_count(config@.skip(pos as int)),
        decreases len - pos,
    {
        let end: usize = line_end(config, pos);
        let line = slice_subrange(config, pos, end);
        proof {
            let rest = config@.skip(pos as int);
            assert(line@ == first_line(rest));
            assert(after_first_line(rest) == config@.skip(end as int));
        }
        let body = slice_subrange(line, 0, body_len(line));
        match count_of_line(body) {
            Some(count) => {
                return Ok(count);
            },
            None => {},
        }
        pos = end;
    }
    Err(StoreError::NotFound)
}

fn push_key(out: &mut Vec<u8>)
    ensures
        final(out)@ == old(out)@ + key(),
{
    out.push(0x6e);
    out.push(0x75);
    out.push(0x6d);
    out.push(0x70);
    out.push(0x72);
    out.push(0x6f);
    out.push(0x63);
    out.push(0x73);
    out.push(0x3d);
    assert(out@ == old(out)@ + key());
}

fn push_all(out: &mut Vec<u8>, bytes: &[u8])
    ensures
        final(out)@ == old(out)@ + bytes@,
{
    let len: usize = bytes.len();
    let mut i: usize = 0;
    while i < len
        invariant
            i <= len,
            len == bytes@.len(),
            out@ == old(out)@ + bytes@.take(i as int),
        decreases len - i,
    {
        out.push(bytes[i]);
        assert(bytes@.take(i + 1) == bytes@.take(i as int).push(bytes@[i as int]));
        i += 1;
    }
    assert(bytes@.take(len as int) == bytes@);
}

/// The configuration's text with every worker-count line set to `count`.
/// Every other line, every terminator and the order of the lines stay as
/// they are.
pub fn write_count(config: &[u8], count: usize) -> (written: Vec<u8>)
    ensures
        written@ == spec_write_count(config@, count),
        spec_read_count(config@) is Some ==> spec_read_count(written@) == Some(count),
        spec_read_count(config@) is None ==> written@ == config@,
{
    let len: usize = config.len();
    let mut written: Vec<u8> = Vec::new();
    let mut pos: usize = 0;
    assert(config@.skip(0) == config@);
    assert(written@ + spec_write_count(config@, count) == spec_write_count(config@, count));
    while pos < len
        invariant
            pos <= len,
            len == config@.len(),
            spec_write_count(config@, count) == written@ + spec_write_count(
                config@.skip(pos as int),
                count,
            ),
        decreases len - pos,
    {
        let end: usize = line_end(config, pos);
        let line = slice_subrange(config, pos, end);
        let ghost before = written@;
        proof {
            let rest = config@.skip(pos as int);
            assert(line@ == first_line(rest));
            assert(after_first_line(rest) == config@.skip(end as int));
        }
        let stop: usize = body_len(line);
        let body = slice_subrange(line, 0, stop);
        if count_of_line(body).is_some() {
            push_key(&mut written);
            push_decimal(&mut written, count);
            push_all(&mut written, slice_subrange(line, stop, line.len()));
        } else {
            push_all(&mut written, line);
        }
        assert(written@ == before + spec_write_line(line@, count));
        pos = end;
    }
    assert(written@ + spec_write_count(config@.skip(len as int), count) == written@);
    proof {
        if spec_read_count(config@) is Some {
            lemma_read_after_write(config@, count);
        } else {
            lemma_write_without_count(config@, count);
        }
    }
    written
}

/// The key is the text `numprocs=`.
pub proof fn lemma_key_is_numprocs()
    ensures
        key() == "numprocs="@.map_values(|c: char| c as u8),
{
    reveal_strlit("numprocs=");
    assert(key() =~= "numprocs="@.map_values(|c: char| c as u8));
}

/// A text is its first line and what follows it; the first line is one line,
/// and only a last line can lack the line feed.
pub proof fn lemma_first_line(text: Seq<u8>)
    requires
        text.len() > 0,
    ensures
        text == first_line(text) + after_first_line(text),
        is_line(first_line(text)),
        first_line(text).last() == NEWLINE || after_first_line(text).len() == 0,
    decreases text.len(),
{
    lemma_line_len_bounds(text);
    if text[0] != NEWLINE {
        let tail = text.skip(1);
        lemma_line_len_bounds(tail);
        if tail.len() > 0 {
            lemma_first_line(tail);
            assert(first_line(text) == seq![text[0]] + first_line(tail));
            assert(after_first_line(text) == after_first_line(tail));
        }
    }
}

/// A line stays the first line of whatever text it is put in front of,
/// provided that it ends in a line feed or nothing follows.
pub proof fn lemma_line_then_text(line: Seq<u8>, rest: Seq<u8>)
    requires
        is_line(line),
        line.last() == NEWLINE || rest.len() == 0,
    ensures
        line_len(line + rest) == line.len(),
        first_line(line + rest) == line,
        after_first_line(line + rest) == rest,
    decreases line.len(),
{
    let text = line + rest;
    assert(text[0] == line[0]);
    if line.len() > 1 {
        let tail = line.skip(1);
        assert(text.skip(1) == tail + rest);
        assert forall|i: int| 0 <= i < tail.len() - 1 implies tail[i] != NEWLINE by {
            assert(tail[i] == line[i + 1]);
        }
        assert(tail.last() == line.last());
        lemma_line_then_text(tail, rest);
        assert(line[0] != NEWLINE);
        assert(line_len(text) == 1 + line_len(text.skip(1)));
    } else if line[0] != NEWLINE {
        assert(text.skip(1).len() == 0);
        assert(line_len(text) == 1 + line_len(text.skip(1)));
    }
    assert(text.take(line.len() as int) == line);
    assert(text.skip(line.len() as int) == rest);
}

/// Each element of `lines` is one line.
pub proof fn lemma_lines_are_lines(text: Seq<u8>, i: int)
    requires
        0 <= i < lines(text).len(),
    ensures
        is_line(lines(text)[i]),
    decreases text.len(),
{
    lemma_first_line(text);
    if i > 0 {
        lemma_lines_are_lines(after_first_line(text), i - 1);
    }
}

/// A text is made up of its lines.
pub proof fn lemma_lines_make_text(text: Seq<u8>)
    ensures
        join(lines(text)) == text,
    decreases text.len(),
{
    if text.len() > 0 {
        lemma_first_line(text);
        lemma_lines_make_text(after_first_line(text));
        assert(lines(text).skip(1) == lines(after_first_line(text)));
    }
}

/// What is written for a line is one line, ends as the line did, and sets
/// `count` where the line set a count.
pub proof fn lemma_write_line(line: Seq<u8>, count: usize)
    requires
        is_line(line),
    ensures
        is_line(spec_write_line(line, count)),
        spec_write_line(line, count).last() == NEWLINE <==> line.last() == NEWLINE,
        terminator(spec_write_line(line, count)) == terminator(line),
        line_count(body(line)) is Some ==> line_count(body(spec_write_line(line, count))) == Some(
            count,
        ),
        line_count(body(line)) is None ==> spec_write_line(line, count) == line,
{
    if line_count(body(line)) is Some {
        let digits = decimal_digits(count as nat);
        let head = key() + digits;
        let end = terminator(line);
        let written = spec_write_line(line, count);
        lemma_decimal_digits_are_digits(count as nat);
        lemma_parse_trimmed_decimal_digits(count);
        assert(written == head + end);
        assert forall|i: int| 0 <= i < head.len() implies head[i] != NEWLINE && head[i]
            != CARRIAGE_RETURN by {
            if i >= KEY_LEN {
                assert(is_digit(digits[i - KEY_LEN]));
            }
        }
        assert(body(written) == head);
        assert(terminator(written) == end);
        assert(head.take(KEY_LEN as int) == key());
        assert(head.skip(KEY_LEN as int) == digits);
    }
}

/// Writing works line by line: the written text has as many lines as the
/// text had, in the same order. A line that sets no count is byte for byte
/// the line it was; a line that set a count now sets `count` and ends as it
/// did.
pub proof fn lemma_write_keeps_lines(text: Seq<u8>, count: usize)
    ensures
        lines(spec_write_count(text, count)).len() == lines(text).len(),
        forall|i: int|
            0 <= i < lines(text).len() ==> #[trigger] lines(spec_write_count(text, count))[i]
                == spec_write_line(lines(text)[i], count),
        forall|i: int|
            0 <= i < lines(text).len() && line_count(body(lines(text)[i])) is None
                ==> #[trigger] lines(spec_write_count(text, count))[i] == lines(text)[i],
        forall|i: int|
            0 <= i < lines(text).len() && line_count(body(lines(text)[i])) is Some ==> line_count(
                body(#[trigger] lines(spec_write_count(text, count))[i]),
            ) == Some(count),
    decreases text.len(),
{
    if text.len() > 0 {
        let line = first_line(text);
        let rest = after_first_line(text);
        let written_line = spec_write_line(line, count);
        let written_rest = spec_write_count(rest, count);
        lemma_first_line(text);
        lemma_write_line(line, count);
        lemma_write_keeps_lines(rest, count);
        lemma_line_then_text(written_line, written_rest);
        let before = lines(text);
        let after = lines(spec_write_count(text, count));
        assert(before == seq![line] + lines(rest));
        assert(after == seq![written_line] + lines(written_rest));
        assert forall|i: int| 0 <= i < before.len() implies #[trigger] after[i] == spec_write_line(
            before[i],
            count,
        ) by {
            if i > 0 {
                assert(before[i] == lines(rest)[i - 1]);
                assert(after[i] == lines(written_rest)[i - 1]);
            }
        }
        assert forall|i: int| 0 <= i < before.len() implies is_line(#[trigger] before[i]) by {
            lemma_lines_are_lines(text, i);
        }
        assert forall|i: int|
            0 <= i < before.len() && line_count(body(before[i])) is None implies #[trigger] after[i]
            == before[i] by {
            lemma_write_line(before[i], count);
        }
        assert forall|i: int|
            0 <= i < before.len() && line_count(body(before[i])) is Some implies line_count(
            body(#[trigger] after[i]),
        ) == Some(count) by {
            lemma_write_line(before[i], count);
        }
    }
}

/// Writing a count and then reading gives that count, for every text that
/// holds a worker-count line.
pub proof fn lemma_read_after_write(text: Seq<u8>, count: usize)
    requires
        spec_read_count(text) is Some,
    ensures
        spec_read_count(spec_write_count(text, count)) == Some(count),
    decreases text.len(),
{
    let line = first_line(text);
    let rest = after_first_line(text);
    let written_line = spec_write_line(line, count);
    let written_rest = spec_write_count(rest, count);
    lemma_first_line(text);
    lemma_write_line(line, count);
    lemma_line_then_text(written_line, written_rest);
    if line_count(body(line)) is None {
        lemma_read_after_write(rest, count);
    }
}

/// A text without a worker-count line is written back as it is.
pub proof fn lemma_write_without_count(text: Seq<u8>, count: usize)
    requires
        spec_read_count(text) is None,
    ensures
        spec_write_count(text, count) == text,
    decreases text.len(),
{
    if text.len() > 0 {
        lemma_first_line(text);
        lemma_write_without_count(after_first_line(text), count);
    }
}

/// The written text is what is written for each line of the text, one
/// after the other.
pub proof fn lemma_write_is_line_by_line(text: Seq<u8>, count: usize)
    ensures
        spec_write_count(text, count) == join(
            lines(text).map_values(|line: Seq<u8>| spec_write_line(line, count)),
        ),
    decreases text.len(),
{
    let set_count = |line: Seq<u8>| spec_write_line(line, count);
    if text.len() > 0 {
        lemma_line_len_bounds(text);
        lemma_write_is_line_by_line(after_first_line(text), count);
        assert(lines(text).map_values(set_count).skip(1) == lines(after_first_line(text)).map_values(
            set_count,
        ));
    }
}

/// Reading gives the count of the first line that sets one: `read` is
/// `Some(count)` exactly when some line sets `count` and no line before it
/// sets any count.
pub proof fn lemma_read_is_first_count(text: Seq<u8>)
    ensures
        match spec_read_count(text) {
            Some(count) => exists|i: int|
                0 <= i < lines(text).len() && line_count(body(#[trigger] lines(text)[i])) == Some(
                    count,
                ) && forall|j: int| 0 <= j < i ==> line_count(body(#[trigger] lines(text)[j])) is None,
            None => forall|i: int|
                0 <= i < lines(text).len() ==> line_count(body(#[trigger] lines(text)[i])) is None,
        },
    decreases text.len(),
{
    if text.len() > 0 {
        let all = lines(text);
        let rest = lines(after_first_line(text));
        lemma_line_len_bounds(text);
        lemma_read_is_first_count(after_first_line(text));
        assert(all == seq![first_line(text)] + rest);
        assert(forall|i: int| 0 <= i < rest.len() ==> rest[i] == all[i + 1]);
        if line_count(body(first_line(text))) is Some {
            assert(line_count(body(all[0])) == spec_read_count(text));
        } else {
            match spec_read_count(text) {
                Some(count) => {
                    let i = choose|i: int|
                        0 <= i < rest.len() && line_count(body(#[trigger] rest[i])) == Some(count)
                            && forall|j: int|
                            0 <= j < i ==> line_count(body(#[trigger] rest[j])) is None;
                    assert(line_count(body(all[i + 1])) == Some(count));
                    assert forall|j: int| 0 <= j < i + 1 implies line_count(
                        body(#[trigger] all[j]),
                    ) is None by {
                        if j > 0 {
                            assert(all[j] == rest[j - 1]);
                        }
                    }
                },
                None => {
                    assert forall|i: int| 0 <= i < all.len() implies line_count(
                        body(#[trigger] all[i]),
                    ) is None by {
                        if i > 0 {
                            assert(all[i] == rest[i - 1]);
                        }
                    }
                },
            }
        }
    }
}

} // verus!
