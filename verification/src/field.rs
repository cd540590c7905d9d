//! Field restriction: which parts of a candidate's text a query is matched in.
//!
//! A text is split into fields at its delimiters. A restriction names fields
//! by their number, the first being 1, one at a time or as a range. What it
//! selects is handed to the matching as byte ranges of the text.

use crate::options::ConfigError;
use crate::text::{
    find_char, first_index, lemma_boundary_at_ascii, lemma_chars_fit_bytes, spec_on_boundary,
};
use vstd::prelude::*;
use vstd::string::StrSliceExecFns;
use vstd::string::StringSliceAdditionalSpecFns;
use vstd::utf8::encode_utf8;

verus! {

/// One entry of a field restriction. Fields are counted from 1.
#[derive(Debug, Clone, Copy, PartialEq, Eq, Structural)]
pub enum FieldRange {
    /// The field with this number.
    Single(usize),
    /// The field with this number and all behind it.
    From(usize),
    /// All fields up to the one with this number.
    To(usize),
    /// The fields from the first number to the second.
    Between(usize, usize),
}

/// Whether `c` is one of the ten digits.
pub open spec fn spec_is_digit(c: char) -> bool {
    '0' <= c && c <= '9'
}

/// The number that a text of digits stands for, read in base ten.
pub open spec fn spec_number(s: Seq<char>) -> nat
    decreases s.len(),
{
    if s.len() == 0 {
        0
    } else {
        (spec_number(s.drop_last()) * 10 + (s.last() as u32 - '0' as u32)) as nat
    }
}

/// The field number that a text stands for: the text holds digits only, at
/// least one, and the number is at least 1 and fits the machine.
pub open spec fn spec_field_number(s: Seq<char>) -> Option<usize> {
    if s.len() > 0 && (forall|i: int| 0 <= i < s.len() ==> spec_is_digit(#[trigger] s[i]))
        && 1 <= spec_number(s) <= usize::MAX {
        Some(spec_number(s) as usize)
    } else {
        None
    }
}

/// What a text stands for as an entry of a field restriction.
///
/// `n` is one field, `n..` the fields from `n` on, `..n` the fields up to `n`,
/// and `m..n` the fields from `m` to `n`, where `m` is not greater than `n`.
/// Nothing else is an entry.
pub open spec fn spec_field_range(s: Seq<char>) -> Option<FieldRange> {
    let dot = first_index(s, '.');
    if dot == s.len() {
        match spec_field_number(s) {
            Some(n) => Some(FieldRange::Single(n)),
            None => None,
        }
    } else if dot + 1 < s.len() && s[dot + 1] == '.' {
        let left = s.subrange(0, dot);
        let right = s.subrange(dot + 2, s.len() as int);
        if left.len() == 0 && right.len() == 0 {
            None
        } else if right.len() == 0 {
            match spec_field_number(left) {
                Some(n) => Some(FieldRange::From(n)),
                None => None,
            }
        } else if left.len() == 0 {
            match spec_field_number(right) {
                Some(n) => Some(FieldRange::To(n)),
                None => None,
            }
        } else {
            match (spec_field_number(left), spec_field_number(right)) {
                (Some(m), Some(n)) => if m <= n {
                    Some(FieldRange::Between(m, n))
                } else {
                    None
                },
                _ => None,
            }
        }
    } else {
        None
    }
}

/// A number of up to `k` digits is below the `k`-th power of ten; all that is
/// used of it here: a longer text of digits stands for no smaller number
/// than its beginning does.
proof fn lemma_number_grows(s: Seq<char>, k: int)
    requires
        0 <= k <= s.len(),
        forall|i: int| 0 <= i < s.len() ==> spec_is_digit(#[trigger] s[i]),
    ensures
        spec_number(s.subrange(0, k)) <= spec_number(s),
    decreases s.len() - k,
{
    if k == s.len() {
        assert(s.subrange(0, k) =~= s);
    } else {
        let longer = s.subrange(0, k + 1);
        assert(longer.drop_last() =~= s.subrange(0, k));
        assert(longer.last() == s[k]);
        assert(spec_is_digit(s[k]));
        lemma_number_grows(s, k + 1);
    }
}

/// Reads a field number.
pub fn parse_field_number(s: &str) -> (number: Option<usize>)
    ensures
        number == spec_field_number(s@),
{
    let limit = s.as_bytes().len();
    proof {
        lemma_chars_fit_bytes(s@);
    }
    if limit == 0 {
        return None;
    }
    let mut value: usize = 0;
    let mut i: usize = 0;
    for c in it: s.chars()
        invariant
            it.seq() == s@,
            i == it.index(),
            0 < s@.len() <= limit,
            forall|k: int| 0 <= k < i ==> spec_is_digit(#[trigger] s@[k]),
            value == spec_number(s@.subrange(0, i as int)),
    {
        if !('0' <= c && c <= '9') {
            assert(!spec_is_digit(s@[i as int]));
            return None;
        }
        let digit = (c as u32 - '0' as u32) as usize;
        proof {
            let longer = s@.subrange(0, i + 1);
            assert(longer.drop_last() =~= s@.subrange(0, i as int));
            assert(longer.last() == c);
        }
        if value > (usize::MAX - digit) / 10 {
            proof {
                let longer = s@.subrange(0, i + 1);
                assert(spec_number(longer) > usize::MAX);
                if forall|k: int| 0 <= k < s@.len() ==> spec_is_digit(#[trigger] s@[k]) {
                    lemma_number_grows(s@, i + 1);
                }
            }
            return None;
        }
        value = value * 10 + digit;
        i += 1;
    }
    proof {
        assert(s@.subrange(0, s@.len() as int) =~= s@);
    }
    if value == 0 {
        None
    } else {
        Some(value)
    }
}

/// Reads one entry of a field restriction.
pub fn parse_field_range(s: &str) -> (range: Result<FieldRange, ConfigError>)
    ensures
        match range {
            Ok(r) => spec_field_range(s@) == Some(r),
            Err(e) => spec_field_range(s@) is None && e == ConfigError::InvalidFieldSpec,
        },
{
    let n = s.unicode_len();
    let dot = match find_char(s, '.') {
        None => {
            return match parse_field_number(s) {
                Some(k) => Ok(FieldRange::Single(k)),
                None => Err(ConfigError::InvalidFieldSpec),
            };
        },
        Some(d) => d,
    };
    if !(dot + 1 < n) || s.get_char(dot + 1) != '.' {
        return Err(ConfigError::InvalidFieldSpec);
    }
    let left = s.substring_char(0, dot);
    let right = s.substring_char(dot + 2, n);
    let no_left = dot == 0;
    let no_right = dot + 2 == n;
    if no_left && no_right {
        Err(ConfigError::InvalidFieldSpec)
    } else if no_right {
        match parse_field_number(left) {
            Some(k) => Ok(FieldRange::From(k)),
            None => Err(ConfigError::InvalidFieldSpec),
        }
    } else if no_left {
        match parse_field_number(right) {
            Some(k) => Ok(FieldRange::To(k)),
            None => Err(ConfigError::InvalidFieldSpec),
        }
    } else {
        match (parse_field_number(left), parse_field_number(right)) {
            (Some(m), Some(k)) => if m <= k {
                Ok(FieldRange::Between(m, k))
            } else {
                Err(ConfigError::InvalidFieldSpec)
            },
            _ => Err(ConfigError::InvalidFieldSpec),
        }
    }
}

/// What separates the fields of a text.
#[derive(Debug, Clone, Copy, PartialEq, Eq, Structural)]
pub enum Delimiter {
    /// Blanks, tabs and line feeds.
    Whitespace,
    /// One ASCII character, given by its code. A code that is not ASCII
    /// separates nothing.
    Ascii(u8),
}

/// Whether the byte `b` separates fields.
pub open spec fn spec_is_delimiter(d: Delimiter, b: u8) -> bool {
    match d {
        Delimiter::Whitespace => b == 32 || b == 9 || b == 10,
        Delimiter::Ascii(code) => code < 128 && b == code,
    }
}

/// Whether the byte `b` separates fields.
pub fn is_delimiter(d: Delimiter, b: u8) -> (separates: bool)
    ensures
        separates == spec_is_delimiter(d, b),
{
    match d {
        Delimiter::Whitespace => b == 32 || b == 9 || b == 10,
        Delimiter::Ascii(code) => code < 128 && b == code,
    }
}

/// The fields of the first `n` bytes, each as the byte offsets at which it
/// starts and ends. A field is a run of bytes that are no delimiters, as
/// long as it can be; delimiters belong to no field.
pub open spec fn spec_fields(bytes: Seq<u8>, d: Delimiter, n: int) -> Seq<(usize, usize)>
    decreases n,
{
    if n <= 0 {
        Seq::empty()
    } else {
        let before = spec_fields(bytes, d, n - 1);
        if spec_is_delimiter(d, bytes[n - 1]) {
            before
        } else if n >= 2 && !spec_is_delimiter(d, bytes[n - 2]) && before.len() > 0 {
            before.drop_last().push((before.last().0, n as usize))
        } else {
            before.push(((n - 1) as usize, n as usize))
        }
    }
}

/// Whether the bytes from `p` up to `q` are a field of the first `n` bytes:
/// none of them is a delimiter, and the run goes no further on either side.
pub open spec fn spec_is_field(bytes: Seq<u8>, d: Delimiter, n: int, p: int, q: int) -> bool {
    &&& 0 <= p < q <= n
    &&& forall|j: int| p <= j < q ==> !spec_is_delimiter(d, #[trigger] bytes[j])
    &&& p == 0 || spec_is_delimiter(d, bytes[p - 1])
    &&& q == n || spec_is_delimiter(d, bytes[q])
}

/// Each entry of `spec_fields` is a field, the entries follow one another
/// from left to right, and the last ends at `n` exactly where the byte before
/// `n` is no delimiter.
pub proof fn lemma_fields_are_runs(bytes: Seq<u8>, d: Delimiter, n: int)
    requires
        0 <= n <= bytes.len(),
        n <= usize::MAX,
    ensures
        forall|k: int|
            0 <= k < spec_fields(bytes, d, n).len() ==> spec_is_field(
                bytes,
                d,
                n,
                (#[trigger] spec_fields(bytes, d, n)[k]).0 as int,
                spec_fields(bytes, d, n)[k].1 as int,
            ),
        forall|k: int|
            0 <= k < spec_fields(bytes, d, n).len() - 1 ==> (#[trigger] spec_fields(
                bytes,
                d,
                n,
            )[k]).1 < spec_fields(bytes, d, n)[k + 1].0,
        n > 0 && !spec_is_delimiter(d, bytes[n - 1]) ==> spec_fields(bytes, d, n).len() > 0
            && spec_fields(bytes, d, n).last().1 == n,
    decreases n,
{
    if n > 0 {
        lemma_fields_are_runs(bytes, d, n - 1);
        let before = spec_fields(bytes, d, n - 1);
        let now = spec_fields(bytes, d, n);
        if spec_is_delimiter(d, bytes[n - 1]) {
            assert forall|k: int| 0 <= k < now.len() implies spec_is_field(
                bytes,
                d,
                n,
                (#[trigger] now[k]).0 as int,
                now[k].1 as int,
            ) by {
                assert(spec_is_field(bytes, d, n - 1, before[k].0 as int, before[k].1 as int));
            }
        } else if n >= 2 && !spec_is_delimiter(d, bytes[n - 2]) && before.len() > 0 {
            let last = before.len() - 1;
            assert(spec_is_field(bytes, d, n - 1, before[last].0 as int, before[last].1 as int));
            assert forall|k: int| 0 <= k < now.len() implies spec_is_field(
                bytes,
                d,
                n,
                (#[trigger] now[k]).0 as int,
                now[k].1 as int,
            ) by {
                if k < last {
                    assert(now[k] == before[k]);
                    assert(spec_is_field(bytes, d, n - 1, before[k].0 as int, before[k].1 as int));
                    assert(before[k].1 < before[k + 1].0);
                }
            }
            assert forall|k: int| 0 <= k < now.len() - 1 implies (#[trigger] now[k]).1 < now[k
                + 1].0 by {
                assert(now[k] == before[k]);
                assert(before[k].1 < before[k + 1].0);
            }
        } else {
            assert forall|k: int| 0 <= k < now.len() implies spec_is_field(
                bytes,
                d,
                n,
                (#[trigger] now[k]).0 as int,
                now[k].1 as int,
            ) by {
                if k < before.len() {
                    assert(now[k] == before[k]);
                    assert(spec_is_field(bytes, d, n - 1, before[k].0 as int, before[k].1 as int));
                    if before[k].1 == n - 1 {
                        if k < before.len() - 1 {
                            assert(before[k].1 < before[k + 1].0);
                            assert(spec_is_field(
                                bytes,
                                d,
                                n - 1,
                                before[k + 1].0 as int,
                                before[k + 1].1 as int,
                            ));
                        }
                    }
                }
            }
            assert forall|k: int| 0 <= k < now.len() - 1 implies (#[trigger] now[k]).1 < now[k
                + 1].0 by {
                assert(now[k] == before[k]);
                assert(spec_is_field(bytes, d, n - 1, before[k].0 as int, before[k].1 as int));
                if k + 1 < before.len() {
                    assert(before[k].1 < before[k + 1].0);
                }
            }
        }
    }
}

/// Every field of the first `n` bytes is an entry of `spec_fields`: none is
/// left out.
pub proof fn lemma_fields_hold_every_run(bytes: Seq<u8>, d: Delimiter, n: int, p: int, q: int)
    requires
        0 <= n <= bytes.len(),
        n <= usize::MAX,
        spec_is_field(bytes, d, n, p, q),
    ensures
        spec_fields(bytes, d, n).contains((p as usize, q as usize)),
    decreases n,
{
    let before = spec_fields(bytes, d, n - 1);
    let now = spec_fields(bytes, d, n);
    lemma_fields_are_runs(bytes, d, n - 1);
    if q < n {
        assert(spec_is_delimiter(d, bytes[q]));
        assert(spec_is_field(bytes, d, n - 1, p, q));
        lemma_fields_hold_every_run(bytes, d, n - 1, p, q);
        let i = choose|i: int| 0 <= i < before.len() && before[i] == (p as usize, q as usize);
        if spec_is_delimiter(d, bytes[n - 1]) {
            assert(now[i] == before[i]);
        } else if n >= 2 && !spec_is_delimiter(d, bytes[n - 2]) && before.len() > 0 {
            assert(before.last().1 == n - 1);
            assert(i < before.len() - 1);
            assert(now[i] == before[i]);
        } else {
            assert(now[i] == before[i]);
        }
    } else {
        assert(!spec_is_delimiter(d, bytes[n - 1]));
        if n >= 2 && !spec_is_delimiter(d, bytes[n - 2]) && before.len() > 0 {
            let last = before.len() - 1;
            let start = before[last].0 as int;
            assert(before.last().1 == n - 1);
            assert(spec_is_field(bytes, d, n - 1, start, n - 1));
            if p < start {
                assert(!spec_is_delimiter(d, bytes[start - 1]));
            } else if start < p {
                assert(!spec_is_delimiter(d, bytes[p - 1]));
            }
            assert(now[last] == (p as usize, q as usize));
        } else {
            if n >= 2 {
                if !spec_is_delimiter(d, bytes[n - 2]) {
                    assert(before.len() > 0);
                }
                if p < n - 1 {
                    assert(!spec_is_delimiter(d, bytes[n - 2]));
                }
            }
            assert(now[now.len() - 1] == (p as usize, q as usize));
        }
    }
}

/// Splits a text into its fields, each given as the byte offsets at which it
/// starts and ends. Every offset is one at which a character of the text
/// starts or the text ends.
pub fn split_fields(text: &str, d: Delimiter) -> (fields: Vec<(usize, usize)>)
    ensures
        fields@ == spec_fields(encode_utf8(text@), d, encode_utf8(text@).len() as int),
        forall|k: int|
            0 <= k < fields@.len() ==> (#[trigger] fields@[k]).0 < fields@[k].1 <= encode_utf8(
                text@,
            ).len() && spec_on_boundary(text@, fields@[k].0 as int) && spec_on_boundary(
                text@,
                fields@[k].1 as int,
            ),
        forall|j: int, k: int|
            0 <= j < k < fields@.len() ==> (#[trigger] fields@[j]).1 < (#[trigger] fields@[k]).0,
{
    let bytes = text.as_bytes();
    let len = bytes.len();
    let mut fields: Vec<(usize, usize)> = Vec::new();
    let mut start: usize = 0;
    let mut inside = false;
    let mut pos: usize = 0;
    proof {
        vstd::utf8::encode_utf8_valid_utf8(text@);
        vstd::utf8::is_char_boundary_start_end_of_seq(encode_utf8(text@));
    }
    while pos < len
        invariant
            pos <= len,
            len == bytes@.len(),
            bytes@ == encode_utf8(text@),
            spec_on_boundary(text@, len as int),
            spec_on_boundary(text@, 0),
            inside <==> pos > 0 && !spec_is_delimiter(d, bytes@[pos - 1]),
            inside ==> start < pos && spec_on_boundary(text@, start as int) && spec_fields(
                bytes@,
                d,
                pos as int,
            ) == fields@.push((start, pos)),
            !inside ==> spec_fields(bytes@, d, pos as int) == fields@,
            forall|k: int|
                0 <= k < fields@.len() ==> (#[trigger] fields@[k]).0 < fields@[k].1 < pos
                    && spec_on_boundary(text@, fields@[k].0 as int) && spec_on_boundary(
                    text@,
                    fields@[k].1 as int,
                ),
            inside ==> forall|k: int| 0 <= k < fields@.len() ==> (#[trigger] fields@[k]).1 < start,
            forall|j: int, k: int|
                0 <= j < k < fields@.len() ==> (#[trigger] fields@[j]).1 < (#[trigger] fields@[k]).0,
        decreases len - pos,
    {
        let b = bytes[pos];
        let ghost so_far = spec_fields(bytes@, d, pos as int);
        if is_delimiter(d, b) {
            proof {
                lemma_boundary_at_ascii(text@, pos as int);
            }
            if inside {
                fields.push((start, pos));
                inside = false;
            }
        } else {
            if !inside {
                proof {
                    if pos > 0 {
                        lemma_boundary_at_ascii(text@, pos - 1);
                    }
                }
                start = pos;
                inside = true;
            } else {
                proof {
                    assert(so_far.drop_last() =~= fields@);
                    assert(so_far.last().0 == start);
                }
            }
        }
        pos += 1;
    }
    if inside {
        fields.push((start, pos));
    }
    fields
}

/// The byte range that an entry of a restriction selects among the fields:
/// from the start of the first field it names to the end of the last. A
/// range that reaches past the last field ends with the last field; an entry
/// that names no field of the text selects nothing.
pub open spec fn spec_select(fields: Seq<(usize, usize)>, range: FieldRange) -> Option<
    (usize, usize),
> {
    let n = fields.len();
    match range {
        FieldRange::Single(k) => if 1 <= k <= n {
            Some(fields[k - 1])
        } else {
            None
        },
        FieldRange::From(k) => if 1 <= k <= n {
            Some((fields[k - 1].0, fields[n - 1].1))
        } else {
            None
        },
        FieldRange::To(k) => if 1 <= k && 1 <= n {
            Some((fields[0].0, fields[if k <= n { k - 1 } else { n - 1 }].1))
        } else {
            None
        },
        FieldRange::Between(low, high) => if 1 <= low <= high && low <= n {
            Some((fields[low - 1].0, fields[if high <= n { high - 1 } else { n - 1 }].1))
        } else {
            None
        },
    }
}

/// The byte ranges that a restriction selects, entry by entry in the order of
/// the entries. An entry that selects nothing leaves no range.
pub open spec fn spec_selected(fields: Seq<(usize, usize)>, ranges: Seq<FieldRange>) -> Seq<
    (usize, usize),
>
    decreases ranges.len(),
{
    if ranges.len() == 0 {
        Seq::empty()
    } else {
        let before = spec_selected(fields, ranges.drop_last());
        match spec_select(fields, ranges.last()) {
            Some(r) => before.push(r),
            None => before,
        }
    }
}

/// The byte range that an entry of a restriction selects among the fields.
pub fn select(fields: &Vec<(usize, usize)>, range: FieldRange) -> (chosen: Option<(usize, usize)>)
    ensures
        chosen == spec_select(fields@, range),
{
    let n = fields.len();
    match range {
        FieldRange::Single(k) => if 1 <= k && k <= n {
            Some(fields[k - 1])
        } else {
            None
        },
        FieldRange::From(k) => if 1 <= k && k <= n {
            Some((fields[k - 1].0, fields[n - 1].1))
        } else {
            None
        },
        FieldRange::To(k) => if 1 <= k && 1 <= n {
            let last = if k <= n { k - 1 } else { n - 1 };
            Some((fields[0].0, fields[last].1))
        } else {
            None
        },
        FieldRange::Between(low, high) => if 1 <= low && low <= high && low <= n {
            let last = if high <= n { high - 1 } else { n - 1 };
            Some((fields[low - 1].0, fields[last].1))
        } else {
            None
        },
    }
}

/// The byte ranges of `text` that a restriction selects, in the order of its
/// entries. Each range runs forward from one character boundary of the text
/// to another.
pub fn matching_ranges(text: &str, d: Delimiter, restriction: &Vec<FieldRange>) -> (ranges: Vec<
    (usize, usize),
>)
    ensures
        ranges@ == spec_selected(
            spec_fields(encode_utf8(text@), d, encode_utf8(text@).len() as int),
            restriction@,
        ),
        forall|k: int|
            0 <= k < ranges@.len() ==> (#[trigger] ranges@[k]).0 < ranges@[k].1 <= encode_utf8(
                text@,
            ).len() && spec_on_boundary(text@, ranges@[k].0 as int) && spec_on_boundary(
                text@,
                ranges@[k].1 as int,
            ),
{
    let fields = split_fields(text, d);
    let mut ranges: Vec<(usize, usize)> = Vec::new();
    let mut i: usize = 0;
    while i < restriction.len()
        invariant
            i <= restriction.len(),
            ranges@ == spec_selected(fields@, restriction@.subrange(0, i as int)),
            forall|k: int|
                0 <= k < fields@.len() ==> (#[trigger] fields@[k]).0 < fields@[k].1 <= encode_utf8(
                    text@,
                ).len() && spec_on_boundary(text@, fields@[k].0 as int) && spec_on_boundary(
                    text@,
                    fields@[k].1 as int,
                ),
            forall|j: int, k: int|
                0 <= j < k < fields@.len() ==> (#[trigger] fields@[j]).1 < (#[trigger] fields@[k]).0,
            forall|k: int|
                0 <= k < ranges@.len() ==> (#[trigger] ranges@[k]).0 < ranges@[k].1 <= encode_utf8(
                    text@,
                ).len() && spec_on_boundary(text@, ranges@[k].0 as int) && spec_on_boundary(
                    text@,
                    ranges@[k].1 as int,
                ),
        decreases restriction.len() - i,
    {
        proof {
            let longer = restriction@.subrange(0, i + 1);
            assert(longer.drop_last() =~= restriction@.subrange(0, i as int));
            assert(longer.last() == restriction@[i as int]);
        }
        match select(&fields, restriction[i]) {
            Some(r) => {
                ranges.push(r);
            },
            None => {},
        }
        i += 1;
    }
    proof {
        assert(restriction@.subrange(0, restriction@.len() as int) =~= restriction@);
    }
    ranges
}

} // verus!
