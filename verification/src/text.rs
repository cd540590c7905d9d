//! Small verified operations on string slices, stated over their characters.

use vstd::prelude::*;
use vstd::string::StringSliceAdditionalSpecFns;
use vstd::string::StrSliceExecFns;
use vstd::utf8::*;

verus! {

/// The position of the first `c` in `s`, or the length of `s` where it has none.
pub open spec fn first_index(s: Seq<char>, c: char) -> int
    decreases s.len(),
{
    if s.len() == 0 {
        0
    } else if s[0] == c {
        0
    } else {
        1 + first_index(s.drop_first(), c)
    }
}

/// `first_index` is the one position before which no `c` stands and at which,
/// if it lies inside `s`, a `c` does.
pub proof fn lemma_first_index(s: Seq<char>, c: char)
    ensures
        0 <= first_index(s, c) <= s.len(),
        forall|k: int| 0 <= k < first_index(s, c) ==> s[k] != c,
        first_index(s, c) < s.len() ==> s[first_index(s, c)] == c,
    decreases s.len(),
{
    if s.len() == 0 {
    } else if s[0] == c {
    } else {
        let rest = s.drop_first();
        lemma_first_index(rest, c);
        assert forall|k: int| 0 <= k < first_index(s, c) implies s[k] != c by {
            if k > 0 {
                assert(s[k] == rest[k - 1]);
            }
        }
        assert(first_index(s, c) < s.len() ==> s[first_index(s, c)] == rest[first_index(rest, c)]);
    }
}

/// A position with the properties of `lemma_first_index` is `first_index`.
pub proof fn lemma_first_index_unique(s: Seq<char>, c: char, i: int)
    requires
        0 <= i <= s.len(),
        forall|k: int| 0 <= k < i ==> s[k] != c,
        i < s.len() ==> s[i] == c,
    ensures
        first_index(s, c) == i,
{
    lemma_first_index(s, c);
    let j = first_index(s, c);
    if j < i {
        assert(s[j] != c);
    } else if i < j {
        assert(s[i] != c);
    }
}

/// Whether two string slices hold the same characters.
pub fn str_eq(a: &str, b: &str) -> (same: bool)
    ensures
        same == (a@ == b@),
{
    let x = a.as_bytes();
    let y = b.as_bytes();
    proof {
        encode_utf8_decode_utf8(a@);
        encode_utf8_decode_utf8(b@);
    }
    if x.len() != y.len() {
        return false;
    }
    let mut i: usize = 0;
    while i < x.len()
        invariant
            x@.len() == y@.len(),
            i <= x@.len(),
            forall|k: int| 0 <= k < i ==> x@[k] == y@[k],
            x@ == a.spec_bytes(),
            y@ == b.spec_bytes(),
        decreases x@.len() - i,
    {
        if x[i] != y[i] {
            return false;
        }
        i += 1;
    }
    assert(x@ =~= y@);
    true
}

/// The position of the first `c` in `s`, counted in characters.
pub fn find_char(s: &str, c: char) -> (at: Option<usize>)
    ensures
        match at {
            Some(i) => i < s@.len() && i == first_index(s@, c),
            None => first_index(s@, c) == s@.len(),
        },
{
    let mut i: usize = 0;
    let limit = s.as_bytes().len();
    proof {
        lemma_chars_fit_bytes(s@);
    }
    for x in it: s.chars()
        invariant
            it.seq() == s@,
            i == it.index(),
            s@.len() <= limit,
            forall|k: int| 0 <= k < i ==> s@[k] != c,
    {
        if x == c {
            proof {
                lemma_first_index_unique(s@, c, i as int);
            }
            return Some(i);
        }
        i += 1;
    }
    proof {
        lemma_first_index_unique(s@, c, s@.len() as int);
    }
    None
}

/// What `split_once` gives on the characters `s`: the part before the first `c`
/// and the part after it, or nothing where `s` holds no `c`.
pub open spec fn spec_split_once(s: Seq<char>, c: char) -> Option<(Seq<char>, Seq<char>)> {
    let i = first_index(s, c);
    if i < s.len() {
        Some((s.subrange(0, i), s.subrange(i + 1, s.len() as int)))
    } else {
        None
    }
}

/// Splits `s` at its first `c`, which belongs to neither part.
pub fn split_once<'a>(s: &'a str, c: char) -> (parts: Option<(&'a str, &'a str)>)
    ensures
        match parts {
            Some((left, right)) => spec_split_once(s@, c) == Some((left@, right@)),
            None => spec_split_once(s@, c) is None,
        },
{
    proof {
        lemma_first_index(s@, c);
    }
    match find_char(s, c) {
        Some(i) => {
            let n = s.unicode_len();
            Some((s.substring_char(0, i), s.substring_char(i + 1, n)))
        },
        None => None,
    }
}

/// The pieces of `s` between its separators `c`, from left to right. There
/// is one piece more than there are separators; a piece may be empty.
pub open spec fn spec_split(s: Seq<char>, c: char) -> Seq<Seq<char>>
    decreases s.len(),
{
    let i = first_index(s, c);
    if 0 <= i < s.len() {
        seq![s.subrange(0, i)] + spec_split(s.subrange(i + 1, s.len() as int), c)
    } else {
        seq![s]
    }
}

/// The texts as mathematical values.
pub open spec fn spec_slices(pieces: Seq<&str>) -> Seq<Seq<char>> {
    Seq::new(pieces.len(), |i: int| pieces[i]@)
}

/// Splits `s` at every `c`.
pub fn split<'a>(s: &'a str, c: char) -> (pieces: Vec<&'a str>)
    ensures
        spec_slices(pieces@) == spec_split(s@, c),
{
    let mut pieces: Vec<&'a str> = Vec::new();
    let mut rest = s;
    let mut done = false;
    proof {
        assert(spec_slices(pieces@) =~= Seq::<Seq<char>>::empty());
    }
    while !done
        invariant
            !done ==> spec_slices(pieces@) + spec_split(rest@, c) == spec_split(s@, c),
            done ==> spec_slices(pieces@) == spec_split(s@, c),
        decreases rest@.len() + (if done { 0int } else { 1int }),
    {
        let ghost before = spec_slices(pieces@);
        proof {
            lemma_first_index(rest@, c);
        }
        match split_once(rest, c) {
            Some((left, right)) => {
                pieces.push(left);
                proof {
                    assert(spec_slices(pieces@) =~= before + seq![left@]);
                    assert(before + (seq![left@] + spec_split(right@, c)) =~= (before
                        + seq![left@]) + spec_split(right@, c));
                }
                rest = right;
            },
            None => {
                pieces.push(rest);
                proof {
                    assert(spec_slices(pieces@) =~= before + seq![rest@]);
                }
                done = true;
            },
        }
    }
    pieces
}

/// Whether `byte` is an offset into the UTF-8 encoding of `s` at which a
/// character starts or the encoding ends.
pub open spec fn spec_on_boundary(s: Seq<char>, byte: int) -> bool {
    0 <= byte <= encode_utf8(s).len() && is_char_boundary(encode_utf8(s), byte)
}

/// The number of characters of `s` that are encoded in its first `byte` bytes.
pub open spec fn spec_char_offset(s: Seq<char>, byte: int) -> int {
    decode_utf8(encode_utf8(s).subrange(0, byte)).len() as int
}

/// A text has no more characters than its encoding has bytes.
pub proof fn lemma_chars_fit_bytes(s: Seq<char>)
    ensures
        s.len() <= encode_utf8(s).len(),
    decreases s.len(),
{
    if s.len() > 0 {
        lemma_chars_fit_bytes(s.drop_first());
    }
}

/// A boundary of a valid encoding is a boundary of each prefix that reaches it.
proof fn lemma_boundary_in_prefix(bytes: Seq<u8>, start: int, end: int)
    requires
        valid_utf8(bytes),
        0 <= start <= end <= bytes.len(),
        is_char_boundary(bytes, start),
        is_char_boundary(bytes, end),
    ensures
        valid_utf8(bytes.subrange(0, end)),
        is_char_boundary(bytes.subrange(0, end), start),
{
    let head = bytes.subrange(0, end);
    valid_utf8_split(bytes, end);
    if start == end {
        is_char_boundary_start_end_of_seq(head);
    } else {
        is_char_boundary_iff_not_is_continuation_byte(bytes, start);
        is_char_boundary_iff_not_is_continuation_byte(head, start);
    }
}

/// In the encoding of `s` a byte below 128 is a character of its own: a
/// character starts at it, and the next starts right behind it.
pub proof fn lemma_boundary_at_ascii(s: Seq<char>, p: int)
    requires
        0 <= p < encode_utf8(s).len(),
        encode_utf8(s)[p] < 128,
    ensures
        spec_on_boundary(s, p),
        spec_on_boundary(s, p + 1),
{
    let bytes = encode_utf8(s);
    encode_utf8_valid_utf8(s);
    assert(!is_continuation_byte(bytes[p])) by {
        let b = bytes[p];
        assert(b < 128 ==> b & 0xC0 != 0x80) by (bit_vector);
    }
    is_char_boundary_iff_not_is_continuation_byte(bytes, p);
    let tail = bytes.subrange(p, bytes.len() as int);
    valid_utf8_split(bytes, p);
    assert(tail[0] == bytes[p]);
    assert(is_leading_byte_width_1(tail[0])) by {
        let b = tail[0];
        assert(b < 128 ==> b & 0x80 == 0) by (bit_vector);
    }
    assert(length_of_first_scalar(tail) == 1);
    assert(is_char_boundary(tail, 1)) by {
        reveal_with_fuel(is_char_boundary, 2);
        reveal_with_fuel(valid_utf8, 2);
    }
    if p + 1 == bytes.len() {
        is_char_boundary_start_end_of_seq(bytes);
    } else {
        is_char_boundary_iff_not_is_continuation_byte(tail, 1);
        assert(tail[1] == bytes[p + 1]);
        is_char_boundary_iff_not_is_continuation_byte(bytes, p + 1);
    }
}

/// Between two boundaries `start <= end` of the encoding of `s` lie the
/// characters of `s` from the offset of `start` to the offset of `end`.
pub proof fn lemma_char_offsets(s: Seq<char>, start: int, end: int)
    requires
        spec_on_boundary(s, start),
        spec_on_boundary(s, end),
        start <= end,
    ensures
        0 <= spec_char_offset(s, start) <= spec_char_offset(s, end) <= s.len(),
        decode_utf8(encode_utf8(s).subrange(0, start)) == s.subrange(0, spec_char_offset(s, start)),
        decode_utf8(encode_utf8(s).subrange(start, end)) == s.subrange(
            spec_char_offset(s, start),
            spec_char_offset(s, end),
        ),
        end == encode_utf8(s).len() ==> spec_char_offset(s, end) == s.len(),
        start == 0 ==> spec_char_offset(s, start) == 0,
{
    let bytes = encode_utf8(s);
    encode_utf8_valid_utf8(s);
    encode_utf8_decode_utf8(s);
    let head = bytes.subrange(0, end);
    let tail = bytes.subrange(end, bytes.len() as int);
    lemma_boundary_in_prefix(bytes, start, end);
    decode_utf8_split(bytes, end);
    decode_utf8_split(head, start);
    assert(head.subrange(0, start) =~= bytes.subrange(0, start));
    assert(head.subrange(start, head.len() as int) =~= bytes.subrange(start, end));
    let p = decode_utf8(bytes.subrange(0, start));
    let f = decode_utf8(bytes.subrange(start, end));
    let t = decode_utf8(tail);
    assert(decode_utf8(head) =~= p + f);
    assert(s =~= (p + f) + t);
    assert(p =~= s.subrange(0, p.len() as int));
    assert(f =~= s.subrange(p.len() as int, (p.len() + f.len()) as int));
    if end == bytes.len() {
        assert(head =~= bytes);
    }
    if start == 0 {
        assert(bytes.subrange(0, 0) =~= Seq::<u8>::empty());
    }
}

/// Cuts `s` at two byte offsets: gives what stands before `start`, and what
/// stands from `start` up to `end`.
pub fn slice_at<'a>(s: &'a str, start: usize, end: usize) -> (parts: (&'a str, &'a str))
    requires
        spec_on_boundary(s@, start as int),
        spec_on_boundary(s@, end as int),
        start <= end,
    ensures
        parts.0@ == s@.subrange(0, spec_char_offset(s@, start as int)),
        parts.1@ == s@.subrange(
            spec_char_offset(s@, start as int),
            spec_char_offset(s@, end as int),
        ),
{
    proof {
        encode_utf8_valid_utf8(s@);
        lemma_boundary_in_prefix(s.spec_bytes(), start as int, end as int);
        lemma_char_offsets(s@, start as int, end as int);
    }
    let (head, _) = s.split_at(end);
    let (before, field) = head.split_at(start);
    proof {
        let bytes = s.spec_bytes();
        assert(head.spec_bytes().subrange(0, start as int) =~= bytes.subrange(0, start as int));
        assert(head.spec_bytes().subrange(start as int, head.spec_bytes().len() as int)
            =~= bytes.subrange(start as int, end as int));
        encode_utf8_decode_utf8(before@);
        encode_utf8_decode_utf8(field@);
    }
    (before, field)
}

/// The lower-case form of an ASCII capital letter; any other character itself.
pub open spec fn spec_ascii_lower(c: char) -> char {
    if 'A' <= c && c <= 'Z' {
        ((c as u8) + 32) as char
    } else {
        c
    }
}

/// `s` with each ASCII capital letter in its lower-case form.
pub open spec fn spec_lowered(s: Seq<char>) -> Seq<char> {
    s.map_values(|c: char| spec_ascii_lower(c))
}

/// The lower-case form of an ASCII capital letter; any other character itself.
pub fn ascii_lower(c: char) -> (lower: char)
    ensures
        lower == spec_ascii_lower(c),
{
    if 'A' <= c && c <= 'Z' {
        ((c as u8) + 32) as char
    } else {
        c
    }
}

/// The characters of `s`.
pub fn chars_of(s: &str) -> (chars: Vec<char>)
    ensures
        chars@ == s@,
{
    let mut chars: Vec<char> = Vec::new();
    for c in it: s.chars()
        invariant
            it.seq() == s@,
            chars@ == s@.subrange(0, it.index() as int),
    {
        chars.push(c);
        proof {
            assert(chars@ =~= s@.subrange(0, it.index() + 1));
        }
    }
    proof {
        assert(s@.subrange(0, s@.len() as int) =~= s@);
    }
    chars
}

/// Whether `a`, with its ASCII capital letters in lower case, reads as `b`.
pub fn eq_lowered(a: &str, b: &str) -> (same: bool)
    ensures
        same == (spec_lowered(a@) == b@),
{
    let wanted = chars_of(b);
    let mut i: usize = 0;
    for c in it: a.chars()
        invariant
            it.seq() == a@,
            i == it.index(),
            i <= wanted@.len(),
            wanted@ == b@,
            forall|k: int| 0 <= k < i ==> spec_ascii_lower(a@[k]) == b@[k],
    {
        if i >= wanted.len() {
            assert(spec_lowered(a@).len() > b@.len());
            return false;
        }
        if ascii_lower(c) != wanted[i] {
            assert(spec_lowered(a@)[i as int] != b@[i as int]);
            return false;
        }
        i += 1;
    }
    if i != wanted.len() {
        assert(spec_lowered(a@).len() < b@.len());
        return false;
    }
    assert(spec_lowered(a@) =~= b@);
    true
}

} // verus!
