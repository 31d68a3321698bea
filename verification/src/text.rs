use vstd::prelude::*;
use crate::span::Position;
use vstd::utf8::{valid_utf8, decode_utf8};
use vstd::std_specs::iter::IteratorSpec;

verus! {

// ---------------------------------------------------------------------------
// Byte classes
// ---------------------------------------------------------------------------

/// Whitespace bytes skipped between tokens: space, tab, newline, carriage return.
pub open spec fn is_ws(b: u8) -> bool {
    b == 0x20 || b == 0x09 || b == 0x0a || b == 0x0d
}

pub open spec fn is_digit(b: u8) -> bool {
    0x30 <= b && b <= 0x39
}

pub open spec fn is_alpha(b: u8) -> bool {
    (0x41 <= b && b <= 0x5a) || (0x61 <= b && b <= 0x7a)
}

/// Bytes that may start an identifier.
pub open spec fn is_ident_start(b: u8) -> bool {
    is_alpha(b) || b == 0x5f
}

/// Bytes that may continue an identifier.
pub open spec fn is_ident_continue(b: u8) -> bool {
    is_alpha(b) || is_digit(b) || b == 0x5f
}

pub fn byte_is_ws(b: u8) -> (r: bool)
    ensures
        r == is_ws(b),
{
    b == 0x20 || b == 0x09 || b == 0x0a || b == 0x0d
}

pub fn byte_is_digit(b: u8) -> (r: bool)
    ensures
        r == is_digit(b),
{
    0x30 <= b && b <= 0x39
}

pub fn byte_is_alpha(b: u8) -> (r: bool)
    ensures
        r == is_alpha(b),
{
    (0x41 <= b && b <= 0x5a) || (0x61 <= b && b <= 0x7a)
}

pub fn byte_is_ident_continue(b: u8) -> (r: bool)
    ensures
        r == is_ident_continue(b),
{
    byte_is_alpha(b) || byte_is_digit(b) || b == 0x5f
}

// ---------------------------------------------------------------------------
// Line / column bookkeeping
// ---------------------------------------------------------------------------

/// The 1-based line of byte offset `i`: one plus the number of newlines before it.
pub open spec fn line_at(s: Seq<u8>, i: int) -> int
    decreases i,
{
    if i <= 0 {
        1
    } else if s[i - 1] == 0x0a {
        line_at(s, i - 1) + 1
    } else {
        line_at(s, i - 1)
    }
}

/// The 1-based column of byte offset `i`: one plus the number of bytes since the last newline.
pub open spec fn column_at(s: Seq<u8>, i: int) -> int
    decreases i,
{
    if i <= 0 {
        1
    } else if s[i - 1] == 0x0a {
        1
    } else {
        column_at(s, i - 1) + 1
    }
}

/// The source position of byte offset `i`.
pub open spec fn pos_at(s: Seq<u8>, i: int) -> Position {
    Position { offset: i as usize, line: line_at(s, i) as usize, column: column_at(s, i) as usize }
}

pub proof fn lemma_line_column_bounds(s: Seq<u8>, i: int)
    requires
        0 <= i,
    ensures
        1 <= line_at(s, i) <= i + 1,
        1 <= column_at(s, i) <= i + 1,
    decreases i,
{
    if i > 0 {
        lemma_line_column_bounds(s, i - 1);
    }
}

// ---------------------------------------------------------------------------
// Whitespace and comments
// ---------------------------------------------------------------------------

/// The offset of the first byte at or after `i` that is not a newline.
pub open spec fn line_end(s: Seq<u8>, i: int) -> int
    decreases s.len() - i,
{
    if i < 0 || i >= s.len() || s[i] == 0x0a {
        i
    } else {
        line_end(s, i + 1)
    }
}

/// The offset reached from `i` by skipping whitespace and `//` line comments.
pub open spec fn skip_ws(s: Seq<u8>, i: int) -> int
    decreases s.len() - i,
{
    if i < 0 || i >= s.len() {
        i
    } else if is_ws(s[i]) {
        skip_ws(s, i + 1)
    } else if s[i] == 0x2f && i + 1 < s.len() && s[i + 1] == 0x2f {
        proof {
            lemma_line_end_bounds(s, i + 2);
        }
        skip_ws(s, line_end(s, i + 2))
    } else {
        i
    }
}

pub proof fn lemma_line_end_bounds(s: Seq<u8>, i: int)
    requires
        0 <= i <= s.len(),
    ensures
        i <= line_end(s, i) <= s.len(),
    decreases s.len() - i,
{
    if i < s.len() && s[i] != 0x0a {
        lemma_line_end_bounds(s, i + 1);
    }
}

pub proof fn lemma_skip_ws_bounds(s: Seq<u8>, i: int)
    requires
        0 <= i <= s.len(),
    ensures
        i <= skip_ws(s, i) <= s.len(),
        skip_ws(s, i) < s.len() ==> !is_ws(s[skip_ws(s, i)]),
    decreases s.len() - i,
{
    if i < s.len() {
        if is_ws(s[i]) {
            lemma_skip_ws_bounds(s, i + 1);
        } else if s[i] == 0x2f && i + 1 < s.len() && s[i + 1] == 0x2f {
            lemma_line_end_bounds(s, i + 2);
            lemma_skip_ws_bounds(s, line_end(s, i + 2));
        }
    }
}

/// Identifier continuation run: the first offset at or after `i` holding no identifier byte.
pub open spec fn ident_end(s: Seq<u8>, i: int) -> int
    decreases s.len() - i,
{
    if i < 0 || i >= s.len() || !is_ident_continue(s[i]) {
        i
    } else {
        ident_end(s, i + 1)
    }
}

pub proof fn lemma_ident_end_bounds(s: Seq<u8>, i: int)
    requires
        0 <= i <= s.len(),
    ensures
        i <= ident_end(s, i) <= s.len(),
        forall|k: int| i <= k < ident_end(s, i) ==> is_ident_continue(#[trigger] s[k]),
        i < s.len() && is_ident_continue(s[i]) ==> ident_end(s, i) > i,
    decreases s.len() - i,
{
    if i < s.len() && is_ident_continue(s[i]) {
        lemma_ident_end_bounds(s, i + 1);
    }
}

/// The characters that a run of bytes denotes when each byte stands for one character.
pub open spec fn bytes_as_chars(s: Seq<u8>) -> Seq<char> {
    s.map_values(|b: u8| b as char)
}

// ---------------------------------------------------------------------------
// Strings
// ---------------------------------------------------------------------------

/// What `String::from_utf8_lossy` makes of bytes that are not valid UTF-8.
pub uninterp spec fn lossy_text(bytes: Seq<u8>) -> Seq<char>;

/// The text that bytes encode: their UTF-8 decoding when they are valid UTF-8.
pub open spec fn text_of_bytes(bytes: Seq<u8>) -> Seq<char> {
    if valid_utf8(bytes) {
        decode_utf8(bytes)
    } else {
        lossy_text(bytes)
    }
}

/// The text of some bytes, by `String::from_utf8_lossy`. Trusted: valid UTF-8 gives the
/// characters it encodes; other bytes give [`lossy_text`] of them.
#[verifier::external_body]
pub fn text_from_bytes(bytes: &[u8]) -> (r: String)
    ensures
        valid_utf8(bytes@) ==> r@ == decode_utf8(bytes@),
        !valid_utf8(bytes@) ==> r@ == lossy_text(bytes@),
{
    String::from_utf8_lossy(bytes).into_owned()
}

/// Appends one character to a string (`String::push`).
#[verifier::external_body]
pub fn push_char(s: &mut String, c: char)
    ensures
        final(s)@ == old(s)@.push(c),
{
    s.push(c);
}

/// An owned copy of a string slice.
pub fn owned(s: &str) -> (r: String)
    ensures
        r@ == s@,
{
    s.to_owned()
}

/// A string holding the characters of `s` followed by those of `t`.
pub fn append_str(s: &mut String, t: &str)
    ensures
        final(s)@ == old(s)@ + t@,
{
    s.append(t);
}

/// The characters of a string slice, in order.
pub fn chars_of(s: &str) -> (v: Vec<char>)
    ensures
        v@ == s@,
{
    let mut v: Vec<char> = Vec::new();
    let mut it = s.chars();
    proof {
        broadcast use vstd::string::axiom_spec_iter;
    }
    loop
        invariant
            v@ + it.remaining() == s@,
            it.obeys_prophetic_iter_laws(),
            it.decrease() is Some,
        decreases it.decrease()->0,
    {
        let c = it.next();
        proof {
            broadcast use vstd::string::next_postcondition;
        }
        match c {
            Some(ch) => {
                v.push(ch);
            }
            None => {
                assert(v@ + it.remaining() == v@);
                return v;
            }
        }
    }
}

/// Whether two string slices hold the same characters.
pub fn str_eq(a: &str, b: &str) -> (r: bool)
    ensures
        r == (a@ == b@),
{
    let x = chars_of(a);
    let y = chars_of(b);
    if x.len() != y.len() {
        return false;
    }
    let mut i: usize = 0;
    while i < x.len()
        invariant
            x@ == a@,
            y@ == b@,
            x@.len() == y@.len(),
            i <= x@.len(),
            x@.subrange(0, i as int) == y@.subrange(0, i as int),
        decreases x@.len() - i,
    {
        if x[i] != y[i] {
            return false;
        }
        assert(x@.subrange(0, i + 1) =~= x@.subrange(0, i as int).push(x@[i as int]));
        assert(y@.subrange(0, i + 1) =~= y@.subrange(0, i as int).push(y@[i as int]));
        i = i + 1;
    }
    assert(x@ =~= x@.subrange(0, i as int));
    assert(y@ =~= y@.subrange(0, i as int));
    true
}

/// A copy of a string.
pub fn copy_string(s: &String) -> (r: String)
    ensures
        r@ == s@,
{
    s.clone()
}

} // verus!
