//! Lines, whitespace-separated tokens and decimal numbers in circuit text.
//!
//! Circuit files are handled as bytes. A line ends at a line feed; tokens are separated by
//! whitespace, which is read as UTF-8; numbers are unsigned decimals that fit in 32 bits.

use vstd::prelude::*;

verus! {

/// Whether three bytes write one of the whitespace characters that take three bytes: U+1680,
/// U+2000 to U+200A, U+2028, U+2029, U+202F, U+205F and U+3000.
pub open spec fn is_wide_space(a: u8, b: u8, c: u8) -> bool {
    ||| (a == 0xE1 && b == 0x9A && c == 0x80)
    ||| (a == 0xE2 && b == 0x80 && ((0x80 <= c && c <= 0x8A) || c == 0xA8 || c == 0xA9 || c
        == 0xAF))
    ||| (a == 0xE2 && b == 0x81 && c == 0x9F)
    ||| (a == 0xE3 && b == 0x80 && c == 0x80)
}

/// How many bytes the whitespace character takes that starts at position `i`, and 0 if none
/// starts there. Whitespace is what Unicode calls so: space, tab, line feed, vertical tab, form
/// feed and carriage return, which take one byte each; U+0085 and U+00A0, which take two; and
/// the characters that take three.
pub open spec fn space_len(s: Seq<u8>, i: int) -> int {
    if !(0 <= i < s.len()) {
        0
    } else if s[i] == 32 || (9 <= s[i] && s[i] <= 13) {
        1
    } else if s[i] == 0xC2 && i + 1 < s.len() && (s[i + 1] == 0x85 || s[i + 1] == 0xA0) {
        2
    } else if i + 2 < s.len() && is_wide_space(s[i], s[i + 1], s[i + 2]) {
        3
    } else {
        0
    }
}

/// The first position at or after `from` where no whitespace starts (or the end of `s`), when
/// the whitespace from `from` on is passed.
pub open spec fn skip_spaces(s: Seq<u8>, from: int) -> int
    decreases s.len() - from,
{
    if 0 <= from < s.len() && space_len(s, from) > 0 {
        skip_spaces(s, from + space_len(s, from))
    } else {
        from
    }
}

/// The first position at or after `from` where whitespace starts (or the end of `s`).
pub open spec fn skip_token(s: Seq<u8>, from: int) -> int
    decreases s.len() - from,
{
    if 0 <= from < s.len() && space_len(s, from) == 0 {
        skip_token(s, from + 1)
    } else {
        from
    }
}

/// Skipping whitespace ends inside the text, at the end or where no whitespace starts.
pub proof fn lemma_skip_spaces_bounds(s: Seq<u8>, from: int)
    requires
        0 <= from <= s.len(),
    ensures
        from <= skip_spaces(s, from) <= s.len(),
        skip_spaces(s, from) < s.len() ==> space_len(s, skip_spaces(s, from)) == 0,
    decreases s.len() - from,
{
    if from < s.len() && space_len(s, from) > 0 {
        lemma_skip_spaces_bounds(s, from + space_len(s, from));
    }
}

/// Skipping a token ends inside the text, at the end or where whitespace starts, and moves on
/// if no whitespace starts where it starts.
pub proof fn lemma_skip_token_bounds(s: Seq<u8>, from: int)
    requires
        0 <= from <= s.len(),
    ensures
        from <= skip_token(s, from) <= s.len(),
        from < s.len() && space_len(s, from) == 0 ==> from < skip_token(s, from),
        skip_token(s, from) < s.len() ==> space_len(s, skip_token(s, from)) > 0,
    decreases s.len() - from,
{
    if from < s.len() && space_len(s, from) == 0 {
        lemma_skip_token_bounds(s, from + 1);
    }
}

/// The tokens of `s` that start at or after position `from`, in order.
pub open spec fn tokens_from(s: Seq<u8>, from: int) -> Seq<Seq<u8>>
    decreases s.len() - from,
{
    if 0 <= from <= s.len() {
        let start = skip_spaces(s, from);
        if start >= s.len() {
            Seq::empty()
        } else {
            let end = skip_token(s, start);
            proof {
                lemma_skip_spaces_bounds(s, from);
                lemma_skip_token_bounds(s, start);
            }
            seq![s.subrange(start, end)] + tokens_from(s, end)
        }
    } else {
        Seq::empty()
    }
}

/// The whitespace-separated tokens of a line.
pub open spec fn tokens(s: Seq<u8>) -> Seq<Seq<u8>> {
    tokens_from(s, 0)
}

/// Whether `ranges` delimits exactly the pieces `parts` of `s`, in order.
pub open spec fn ranges_match(s: Seq<u8>, ranges: Seq<(usize, usize)>, parts: Seq<Seq<u8>>) -> bool {
    &&& ranges.len() == parts.len()
    &&& forall|i: int|
        0 <= i < ranges.len() ==> {
            &&& (#[trigger] ranges[i]).0 <= ranges[i].1 <= s.len()
            &&& s.subrange(ranges[i].0 as int, ranges[i].1 as int) == parts[i]
        }
}

/// Whether `ranges` delimits exactly the tokens of `s`, in order.
pub open spec fn ranges_are_tokens(s: Seq<u8>, ranges: Seq<(usize, usize)>) -> bool {
    ranges_match(s, ranges, tokens(s))
}

/// Whether `ranges` delimits exactly the lines of `s`, in order, each line after the one before.
pub open spec fn ranges_are_lines(s: Seq<u8>, ranges: Seq<(usize, usize)>) -> bool {
    &&& ranges_match(s, ranges, lines(s))
    &&& forall|i: int| 0 < i < ranges.len() ==> ranges[i - 1].1 <= (#[trigger] ranges[i]).0
}

/// A piece of text holds at most as many tokens as bytes.
pub proof fn lemma_tokens_count(s: Seq<u8>, from: int)
    requires
        0 <= from <= s.len(),
    ensures
        tokens_from(s, from).len() <= s.len() - from,
    decreases s.len() - from,
{
    let start = skip_spaces(s, from);
    lemma_skip_spaces_bounds(s, from);
    if start < s.len() {
        let end = skip_token(s, start);
        lemma_skip_token_bounds(s, start);
        lemma_tokens_count(s, end);
    }
}

/// How many bytes the whitespace character takes that starts at position `i` of a line, and 0
/// if none starts there.
pub fn space_len_at(line: &[u8], i: usize) -> (k: usize)
    requires
        i < line@.len(),
    ensures
        k == space_len(line@, i as int),
        i + k <= line@.len(),
{
    let n: usize = line.len();
    let a: u8 = line[i];
    if a == 32 || (9 <= a && a <= 13) {
        1
    } else if a == 0xC2 {
        if n - i > 1 && (line[i + 1] == 0x85 || line[i + 1] == 0xA0) {
            2
        } else {
            0
        }
    } else if n - i > 2 {
        let b: u8 = line[i + 1];
        let c: u8 = line[i + 2];
        let wide: bool = (a == 0xE1 && b == 0x9A && c == 0x80) || (a == 0xE2 && b == 0x80 && ((0x80
            <= c && c <= 0x8A) || c == 0xA8 || c == 0xA9 || c == 0xAF)) || (a == 0xE2 && b == 0x81
            && c == 0x9F) || (a == 0xE3 && b == 0x80 && c == 0x80);
        if wide {
            3
        } else {
            0
        }
    } else {
        0
    }
}

/// Splits a line into its tokens, each given as a range of positions in the line.
pub fn tokenize(line: &[u8]) -> (ranges: Vec<(usize, usize)>)
    ensures
        ranges_are_tokens(line@, ranges@),
{
    let mut ranges: Vec<(usize, usize)> = Vec::new();
    let n: usize = line.len();
    let mut pos: usize = 0;
    let ghost mut done: Seq<Seq<u8>> = Seq::empty();
    loop
        invariant
            n == line@.len(),
            pos <= n,
            tokens(line@) == done + tokens_from(line@, pos as int),
            ranges_match(line@, ranges@, done),
        ensures
            ranges_are_tokens(line@, ranges@),
        decreases n - pos, 1int,
    {
        let ghost from = pos;
        let mut more: bool = pos < n;
        while more
            invariant
                n == line@.len(),
                from <= pos <= n,
                skip_spaces(line@, from as int) == skip_spaces(line@, pos as int),
                more ==> pos < n,
                !more ==> pos == n || space_len(line@, pos as int) == 0,
            decreases n - pos, (if more {
                1int
            } else {
                0int
            }),
        {
            let k: usize = space_len_at(line, pos);
            if k == 0 {
                more = false;
            } else {
                pos += k;
                more = pos < n;
            }
        }
        if pos >= n {
            assert(tokens_from(line@, from as int) == Seq::<Seq<u8>>::empty());
            assert(tokens(line@) == done);
            break;
        }
        let start: usize = pos;
        pos += 1;
        let mut more: bool = pos < n;
        while more
            invariant
                n == line@.len(),
                start < pos <= n,
                skip_token(line@, start as int) == skip_token(line@, pos as int),
                more ==> pos < n,
                !more ==> pos == n || space_len(line@, pos as int) > 0,
            decreases n - pos, (if more {
                1int
            } else {
                0int
            }),
        {
            let k: usize = space_len_at(line, pos);
            if k > 0 {
                more = false;
            } else {
                pos += 1;
                more = pos < n;
            }
        }
        proof {
            assert(skip_spaces(line@, from as int) == start);
            assert(skip_token(line@, start as int) == pos);
            let tok = line@.subrange(start as int, pos as int);
            assert(tokens_from(line@, from as int) == seq![tok] + tokens_from(line@, pos as int));
            assert(done + (seq![tok] + tokens_from(line@, pos as int)) == done.push(tok)
                + tokens_from(line@, pos as int));
            done = done.push(tok);
        }
        ranges.push((start, pos));
    }
    ranges
}

/// Whether a byte is an ASCII decimal digit.
pub open spec fn is_digit(b: u8) -> bool {
    48 <= b && b <= 57
}

/// Whether every byte of `s` is a decimal digit.
pub open spec fn all_digits(s: Seq<u8>) -> bool {
    forall|i: int| 0 <= i < s.len() ==> is_digit(#[trigger] s[i])
}

/// The number that a sequence of decimal digits writes.
pub open spec fn digits_value(s: Seq<u8>) -> nat
    decreases s.len(),
{
    if s.len() == 0 {
        0
    } else {
        digits_value(s.drop_last()) * 10 + (s.last() - 48) as nat
    }
}

/// A token without its optional leading plus sign.
pub open spec fn unsigned_part(tok: Seq<u8>) -> Seq<u8> {
    if tok.len() > 0 && tok[0] == 43 {
        tok.subrange(1, tok.len() as int)
    } else {
        tok
    }
}

/// The value of a token as an unsigned decimal of at most `max`: an optional plus sign, then
/// one or more digits. Any other token is no number.
pub open spec fn parse_number(tok: Seq<u8>, max: nat) -> Option<nat> {
    let d = unsigned_part(tok);
    if d.len() > 0 && all_digits(d) && digits_value(d) <= max {
        Some(digits_value(d))
    } else {
        None
    }
}

/// The value of a token as an unsigned 32-bit decimal.
pub open spec fn parse_u32(tok: Seq<u8>) -> Option<u32> {
    match parse_number(tok, 0xffff_ffff) {
        Some(v) => Some(v as u32),
        None => None,
    }
}

/// The value of a token as an unsigned 64-bit decimal.
pub open spec fn parse_u64(tok: Seq<u8>) -> Option<u64> {
    match parse_number(tok, 0xffff_ffff_ffff_ffff) {
        Some(v) => Some(v as u64),
        None => None,
    }
}

/// The first digits of a number write no more than all its digits.
pub proof fn lemma_digits_value_prefix(s: Seq<u8>, k: int)
    requires
        0 <= k <= s.len(),
        all_digits(s),
    ensures
        digits_value(s.subrange(0, k)) <= digits_value(s),
    decreases s.len() - k,
{
    if k < s.len() {
        lemma_digits_value_prefix(s, k + 1);
        let t = s.subrange(0, k + 1);
        assert(t.drop_last() == s.subrange(0, k));
        assert(is_digit(s[k]));
        assert(t.last() == s[k]);
    } else {
        assert(s.subrange(0, k) == s);
    }
}

/// Reads the token at `line[start..end]` as an unsigned decimal of at most `max`.
pub fn parse_number_token(line: &[u8], start: usize, end: usize, max: u64) -> (value: Option<u64>)
    requires
        start <= end <= line@.len(),
    ensures
        match parse_number(line@.subrange(start as int, end as int), max as nat) {
            Some(v) => value == Some(v as u64),
            None => value is None,
        },
{
    let ghost tok = line@.subrange(start as int, end as int);
    let mut pos: usize = start;
    if pos < end && line[pos] == 43 {
        pos += 1;
    }
    let first: usize = pos;
    let ghost d = unsigned_part(tok);
    assert(d == line@.subrange(first as int, end as int));
    if pos >= end {
        return None;
    }
    let mut acc: u128 = 0;
    while pos < end
        invariant
            start <= first <= pos <= end <= line@.len(),
            d == line@.subrange(first as int, end as int),
            d == unsigned_part(line@.subrange(start as int, end as int)),
            all_digits(d.subrange(0, pos - first)),
            acc == digits_value(d.subrange(0, pos - first)),
            acc <= max,
        decreases end - pos,
    {
        let b: u8 = line[pos];
        if !(48 <= b && b <= 57) {
            assert(d[pos - first] == b);
            return None;
        }
        let ghost prefix = d.subrange(0, pos - first + 1);
        assert(prefix.drop_last() == d.subrange(0, pos - first));
        assert(prefix.last() == b);
        assert(all_digits(prefix)) by {
            assert forall|i: int| 0 <= i < prefix.len() implies is_digit(#[trigger] prefix[i]) by {
                if i < pos - first {
                    assert(d.subrange(0, pos - first)[i] == prefix[i]);
                }
            }
        }
        let next: u128 = acc * 10 + (b - 48) as u128;
        if next > max as u128 {
            proof {
                if all_digits(d) {
                    lemma_digits_value_prefix(d, pos - first + 1);
                }
            }
            return None;
        }
        acc = next;
        pos += 1;
    }
    assert(d.subrange(0, pos - first) == d);
    Some(acc as u64)
}

/// Reads the token at `line[start..end]` as an unsigned 32-bit decimal.
pub fn parse_u32_token(line: &[u8], start: usize, end: usize) -> (value: Option<u32>)
    requires
        start <= end <= line@.len(),
    ensures
        value == parse_u32(line@.subrange(start as int, end as int)),
{
    match parse_number_token(line, start, end, 0xffff_ffff) {
        Some(v) => Some(v as u32),
        None => None,
    }
}

/// Reads the token at `line[start..end]` as an unsigned 64-bit decimal.
pub fn parse_u64_token(line: &[u8], start: usize, end: usize) -> (value: Option<u64>)
    requires
        start <= end <= line@.len(),
    ensures
        value == parse_u64(line@.subrange(start as int, end as int)),
{
    parse_number_token(line, start, end, 0xffff_ffff_ffff_ffff)
}

/// The position of the first line feed at or after `from` (or the end of `s`).
pub open spec fn line_end(s: Seq<u8>, from: int) -> int
    decreases s.len() - from,
{
    if 0 <= from < s.len() && s[from] != 10 {
        line_end(s, from + 1)
    } else {
        from
    }
}

/// A line ends inside the text, at a line feed or at the end.
pub proof fn lemma_line_end_bounds(s: Seq<u8>, from: int)
    requires
        0 <= from <= s.len(),
    ensures
        from <= line_end(s, from) <= s.len(),
        line_end(s, from) < s.len() ==> s[line_end(s, from)] == 10,
    decreases s.len() - from,
{
    if from < s.len() && s[from] != 10 {
        lemma_line_end_bounds(s, from + 1);
    }
}

/// Where the line after the one that starts at `from` begins.
pub open spec fn next_line_start(s: Seq<u8>, from: int) -> int {
    let e = line_end(s, from);
    if e < s.len() {
        e + 1
    } else {
        e
    }
}

/// The lines of `s` that start at or after position `from`: each runs up to the next line feed,
/// which it does not hold. Text after the last line feed is a line if it is not empty.
pub open spec fn lines_from(s: Seq<u8>, from: int) -> Seq<Seq<u8>>
    decreases s.len() - from,
{
    if 0 <= from < s.len() {
        proof {
            lemma_line_end_bounds(s, from);
        }
        seq![s.subrange(from, line_end(s, from))] + lines_from(s, next_line_start(s, from))
    } else {
        Seq::empty()
    }
}

/// The lines of a text.
pub open spec fn lines(s: Seq<u8>) -> Seq<Seq<u8>> {
    lines_from(s, 0)
}

/// Finds the line that starts at `from`: `None` at the end of the text, else the position where
/// the line ends and the position where the next one starts.
pub fn next_line(text: &[u8], from: usize) -> (r: Option<(usize, usize)>)
    requires
        from <= text@.len(),
    ensures
        from == text@.len() ==> r is None,
        from < text@.len() ==> r is Some,
        r matches Some((end, next)) ==> {
            &&& end == line_end(text@, from as int)
            &&& next == next_line_start(text@, from as int)
            &&& from <= end <= next <= text@.len()
            &&& from < next
        },
{
    let n = text.len();
    if from >= n {
        return None;
    }
    let mut end = from;
    while end < n && text[end] != 10
        invariant
            n == text@.len(),
            from <= end <= n,
            line_end(text@, from as int) == line_end(text@, end as int),
        decreases n - end,
    {
        end += 1;
    }
    let next = if end < n {
        end + 1
    } else {
        end
    };
    Some((end, next))
}

/// Splits a text into its lines, each given as a range of positions in the text.
pub fn split_lines(text: &[u8]) -> (ranges: Vec<(usize, usize)>)
    ensures
        ranges_are_lines(text@, ranges@),
{
    let mut ranges: Vec<(usize, usize)> = Vec::new();
    let n: usize = text.len();
    let mut pos: usize = 0;
    let ghost mut done: Seq<Seq<u8>> = Seq::empty();
    while pos < n
        invariant
            n == text@.len(),
            pos <= n,
            lines(text@) == done + lines_from(text@, pos as int),
            ranges_match(text@, ranges@, done),
            forall|i: int| 0 < i < ranges.len() ==> ranges[i - 1].1 <= (#[trigger] ranges[i]).0,
            ranges.len() > 0 ==> ranges[ranges.len() - 1].1 <= pos,
        decreases n - pos,
    {
        match next_line(text, pos) {
            None => {
                assert(false);
            },
            Some((end, next)) => {
                proof {
                    let l = text@.subrange(pos as int, end as int);
                    assert(lines_from(text@, pos as int) == seq![l] + lines_from(
                        text@,
                        next as int,
                    ));
                    assert(done + (seq![l] + lines_from(text@, next as int)) == done.push(l)
                        + lines_from(text@, next as int));
                    done = done.push(l);
                }
                ranges.push((pos, end));
                pos = next;
            },
        }
    }
    proof {
        assert(lines_from(text@, pos as int) == Seq::<Seq<u8>>::empty());
        assert(done + Seq::<Seq<u8>>::empty() == done);
    }
    ranges
}

/// The piece of `text` that a range delimits.
pub fn piece<'a>(text: &'a [u8], range: (usize, usize)) -> (out: &'a [u8])
    requires
        range.0 <= range.1 <= text@.len(),
    ensures
        out@ == text@.subrange(range.0 as int, range.1 as int),
{
    vstd::slice::slice_subrange(text, range.0, range.1)
}

} // verus!
