use vstd::prelude::*;
use vstd::string::StringSliceAdditionalSpecFns;
use vstd::utf8::{decode_utf8, is_char_boundary, valid_utf8};

verus! {

broadcast use vstd::utf8::group_utf8_lib;

/// The characters of Unicode's `White_Space` property.
pub open spec fn is_white_space(c: char) -> bool {
    let v = c as u32;
    ||| 0x09 <= v <= 0x0d
    ||| v == 0x20
    ||| v == 0x85
    ||| v == 0xa0
    ||| v == 0x1680
    ||| 0x2000 <= v <= 0x200a
    ||| v == 0x2028
    ||| v == 0x2029
    ||| v == 0x202f
    ||| v == 0x205f
    ||| v == 0x3000
}

pub open spec fn trim_start_chars(s: Seq<char>) -> Seq<char>
    decreases s.len(),
{
    if s.len() > 0 && is_white_space(s[0]) {
        trim_start_chars(s.drop_first())
    } else {
        s
    }
}

pub open spec fn trim_end_chars(s: Seq<char>) -> Seq<char>
    decreases s.len(),
{
    if s.len() > 0 && is_white_space(s.last()) {
        trim_end_chars(s.drop_last())
    } else {
        s
    }
}

/// The text without its leading and trailing white space.
pub open spec fn trim_chars(s: Seq<char>) -> Seq<char> {
    trim_end_chars(trim_start_chars(s))
}

/// Index of the first line feed, or the length when there is none.
pub open spec fn line_feed_index(s: Seq<char>) -> int
    decreases s.len(),
{
    if s.len() == 0 || s[0] == '\n' {
        0
    } else {
        1 + line_feed_index(s.drop_first())
    }
}

/// A line without the carriage return before its line feed.
pub open spec fn strip_carriage_return(line: Seq<char>) -> Seq<char> {
    if line.len() > 0 && line.last() == '\r' {
        line.drop_last()
    } else {
        line
    }
}

/// The lines of a text: split after each line feed, without the line
/// ending (`\n` or `\r\n`); a final line ending starts no empty line.
pub open spec fn lines_of(s: Seq<char>) -> Seq<Seq<char>>
    decreases s.len(),
{
    if s.len() == 0 {
        Seq::empty()
    } else {
        let i = line_feed_index(s);
        proof {
            lemma_line_feed_index(s);
        }
        if i < s.len() {
            seq![strip_carriage_return(s.take(i))] + lines_of(s.skip(i + 1))
        } else {
            seq![s]
        }
    }
}

pub proof fn lemma_line_feed_index(s: Seq<char>)
    ensures
        0 <= line_feed_index(s) <= s.len(),
    decreases s.len(),
{
    if s.len() > 0 && s[0] != '\n' {
        lemma_line_feed_index(s.drop_first());
    }
}

/// The items with the separator between each two neighbours.
pub open spec fn intersperse<A>(xs: Seq<A>, sep: A) -> Seq<A>
    decreases xs.len(),
{
    if xs.len() <= 1 {
        xs
    } else {
        intersperse(xs.drop_last(), sep).push(sep).push(xs.last())
    }
}

/// `n` copies of one character.
pub open spec fn repeat_char(c: char, n: nat) -> Seq<char> {
    Seq::new(n, |i: int| c)
}

/// The bytes `from..to` can be cut out of the text: they lie within it and
/// both ends fall on character boundaries.
pub open spec fn slice_ok(bytes: Seq<u8>, from: int, to: int) -> bool {
    &&& 0 <= from <= to <= bytes.len()
    &&& is_char_boundary(bytes, from)
    &&& is_char_boundary(bytes, to)
}

/// The characters that the bytes `from..to` encode.
pub open spec fn slice_text(bytes: Seq<u8>, from: int, to: int) -> Seq<char> {
    decode_utf8(bytes.subrange(from, to))
}

/// Boundaries after a boundary are boundaries of the suffix that starts there.
pub proof fn lemma_boundary_in_suffix(bytes: Seq<u8>, a: int, i: int)
    requires
        valid_utf8(bytes),
        is_char_boundary(bytes, a),
        is_char_boundary(bytes, i),
        0 <= a <= i <= bytes.len(),
    ensures
        valid_utf8(bytes.subrange(a, bytes.len() as int)),
        is_char_boundary(bytes.subrange(a, bytes.len() as int), i - a),
{
    let t = bytes.subrange(a, bytes.len() as int);
    vstd::utf8::valid_utf8_split(bytes, a);
    if i == a {
    } else if i == bytes.len() {
        assert(t.len() == i - a);
        vstd::utf8::is_char_boundary_start_end_of_seq(t);
    } else {
        assert(t[i - a] == bytes[i]);
        vstd::utf8::is_char_boundary_iff_not_is_continuation_byte(bytes, i);
        vstd::utf8::is_char_boundary_iff_not_is_continuation_byte(t, i - a);
    }
}

/// The text that the bytes `from..to` of `s` encode, as a slice of `s`.
pub fn substr<'a>(s: &'a str, from: usize, to: usize) -> (r: &'a str)
    requires
        slice_ok(s.spec_bytes(), from as int, to as int),
    ensures
        r.spec_bytes() == s.spec_bytes().subrange(from as int, to as int),
        r@ == slice_text(s.spec_bytes(), from as int, to as int),
{
    let ghost bytes = s.spec_bytes();
    proof {
        lemma_boundary_in_suffix(bytes, from as int, to as int);
    }
    let (_, rest) = s.split_at(from);
    proof {
        assert(rest.spec_bytes() =~= bytes.subrange(from as int, bytes.len() as int));
    }
    let (mid, _) = rest.split_at(to - from);
    proof {
        assert(mid.spec_bytes() =~= bytes.subrange(from as int, to as int));
    }
    mid
}

/// `count` copies of a one-character text.
pub fn repeat_str(piece: &str, count: usize) -> (r: String)
    requires
        piece@.len() == 1,
    ensures
        r@ == repeat_char(piece@[0], count as nat),
        r@.len() == count,
        forall|i: int| 0 <= i < count ==> #[trigger] r@[i] == piece@[0],
{
    let mut r = String::new();
    let mut i: usize = 0;
    while i < count
        invariant
            i <= count,
            piece@.len() == 1,
            r@ == repeat_char(piece@[0], i as nat),
        decreases count - i,
    {
        r.append(piece);
        i = i + 1;
        assert(r@ =~= repeat_char(piece@[0], i as nat));
    }
    r
}

/// `str::trim` of std: the text without leading and trailing white space,
/// where white space is what Unicode's `White_Space` property holds.
#[verifier::external_body]
pub(crate) fn trim<'a>(s: &'a str) -> (r: &'a str)
    ensures
        r@ == trim_chars(s@),
{
    s.trim()
}

/// `str::lines` of std, collected: the lines of the text, split after each
/// line feed, without `\n` or `\r\n`; a final line ending starts no empty line.
#[verifier::external_body]
pub(crate) fn lines<'a>(s: &'a str) -> (r: Vec<&'a str>)
    ensures
        r@.len() == lines_of(s@).len(),
        forall|i: int| 0 <= i < r@.len() ==> #[trigger] r@[i]@ == lines_of(s@)[i],
{
    s.lines().collect()
}

} // verus!
