//! Text fields of the mesh container: padded byte strings read as UTF-8.

use vstd::prelude::*;
use vstd::slice::slice_subrange;
use vstd::utf8::{decode_utf8, encode_utf8, valid_utf8};

verus! {

/// Whether `b` is a byte that pads the end of a text field: NUL always, and
/// the ASCII space where `spaces` is set.
pub open spec fn is_padding(b: u8, spaces: bool) -> bool {
    b == 0 || (spaces && b == 0x20)
}

/// The length of `s` once its trailing padding is cut off.
pub open spec fn trimmed_len(s: Seq<u8>, spaces: bool) -> nat
    decreases s.len(),
{
    if s.len() > 0 && is_padding(s.last(), spaces) {
        trimmed_len(s.drop_last(), spaces)
    } else {
        s.len()
    }
}

/// `s` without its trailing padding.
pub open spec fn trimmed(s: Seq<u8>, spaces: bool) -> Seq<u8> {
    s.subrange(0, trimmed_len(s, spaces) as int)
}

/// The trimmed length is the one cut after which only padding follows and
/// before which the last byte, if any, is not padding.
pub proof fn lemma_trimmed_len(s: Seq<u8>, spaces: bool)
    ensures
        trimmed_len(s, spaces) <= s.len(),
        forall|i: int| trimmed_len(s, spaces) <= i < s.len() ==> is_padding(#[trigger] s[i], spaces),
        trimmed_len(s, spaces) > 0 ==> !is_padding(s[trimmed_len(s, spaces) - 1], spaces),
    decreases s.len(),
{
    if s.len() > 0 && is_padding(s.last(), spaces) {
        let front = s.drop_last();
        lemma_trimmed_len(front, spaces);
        assert forall|i: int| trimmed_len(s, spaces) <= i < s.len() implies is_padding(
            #[trigger] s[i],
            spaces,
        ) by {
            if i < front.len() {
                assert(s[i] == front[i]);
            }
        }
        if trimmed_len(s, spaces) > 0 {
            assert(s[trimmed_len(s, spaces) - 1] == front[trimmed_len(front, spaces) - 1]);
        }
    }
}

/// NUL padding neither makes nor breaks a text: a field is UTF-8 as a whole
/// exactly if it is UTF-8 without its trailing NUL bytes.
pub proof fn lemma_padding_keeps_validity(s: Seq<u8>)
    ensures
        valid_utf8(s) <==> valid_utf8(trimmed(s, false)),
    decreases s.len(),
{
    if s.len() > 0 && s.last() == 0 {
        let front = s.drop_last();
        let nul = seq![0u8];
        lemma_padding_keeps_validity(front);
        lemma_trimmed_len(front, false);
        assert(trimmed(s, false) =~= trimmed(front, false));
        assert(s =~= front + nul);
        assert(valid_utf8(nul)) by {
            reveal_with_fuel(valid_utf8, 2);
            let code = vstd::utf8::decode_first_codepoint(nul);
            assert(code == vstd::utf8::codepoint_width_1(0u8));
            assert(0u8 & 0x7f == 0) by (bit_vector);
            assert(vstd::utf8::pop_first_scalar(nul).len() == 0);
        }
        if valid_utf8(front) {
            vstd::utf8::valid_utf8_concat(front, nul);
        }
        if valid_utf8(s) {
            vstd::utf8::is_char_boundary_iff_not_is_continuation_byte(s, s.len() - 1);
            vstd::utf8::valid_utf8_split(s, s.len() - 1);
            assert(s.subrange(0, s.len() - 1) =~= front);
        }
    } else {
        assert(trimmed(s, false) =~= s);
    }
}

/// What `String::from_utf8_lossy` makes of the given bytes: the text that
/// they encode where they are UTF-8, and otherwise that text with a
/// replacement character for each malformed sequence. The function is named
/// here and not defined; [`utf8_lossy`] is believed to compute it.
pub uninterp spec fn lossy_text(bytes: Seq<u8>) -> Seq<char>;

/// The text that the given bytes stand for when they are read leniently:
/// what they encode where they are UTF-8, and what a lossy reading makes of
/// them where they are not.
pub open spec fn lenient_text(bytes: Seq<u8>) -> Seq<char> {
    if valid_utf8(bytes) {
        decode_utf8(bytes)
    } else {
        lossy_text(bytes)
    }
}

fn is_padding_byte(b: u8, spaces: bool) -> (r: bool)
    ensures
        r == is_padding(b, spaces),
{
    b == 0 || (spaces && b == 0x20)
}

/// The length of `bytes` without its trailing padding: only padding follows
/// the cut, and the byte before it, if any, is not padding.
pub fn trim_end(bytes: &[u8], spaces: bool) -> (n: usize)
    ensures
        n == trimmed_len(bytes@, spaces),
        n <= bytes@.len(),
        forall|i: int| n <= i < bytes@.len() ==> is_padding(#[trigger] bytes@[i], spaces),
        n > 0 ==> !is_padding(bytes@[n - 1], spaces),
{
    let mut n: usize = bytes.len();
    assert(bytes@.subrange(0, n as int) =~= bytes@);
    while n > 0 && is_padding_byte(bytes[n - 1], spaces)
        invariant
            n <= bytes@.len(),
            trimmed_len(bytes@, spaces) == trimmed_len(bytes@.subrange(0, n as int), spaces),
        decreases n,
    {
        proof {
            let cur = bytes@.subrange(0, n as int);
            assert(cur.last() == bytes@[n - 1]);
            assert(cur.drop_last() =~= bytes@.subrange(0, n - 1));
        }
        n = n - 1;
    }
    proof {
        let cur = bytes@.subrange(0, n as int);
        if n > 0 {
            assert(cur.last() == bytes@[n - 1]);
        }
        lemma_trimmed_len(bytes@, spaces);
    }
    n
}

/// Calls `core::str::from_utf8`. Believed of it, and not proved: it hands
/// out a string exactly when the bytes are well-formed UTF-8, and the string
/// that it hands out is encoded by the very bytes it was given.
#[verifier::external_body]
fn utf8_str(bytes: &[u8]) -> (r: Option<&str>)
    ensures
        r is Some <==> valid_utf8(bytes@),
        r matches Some(s) ==> encode_utf8(s@) == bytes@,
{
    core::str::from_utf8(bytes).ok()
}

/// Calls `String::from_utf8_lossy` and takes the result as an owned string.
/// Believed of it, and not proved: the result is a function of the bytes
/// alone, and on well-formed UTF-8 it is the text that the bytes encode.
#[verifier::external_body]
fn utf8_lossy(bytes: &[u8]) -> (r: String)
    ensures
        r@ == lossy_text(bytes@),
        valid_utf8(bytes@) ==> r@ == decode_utf8(bytes@),
{
    String::from_utf8_lossy(bytes).into_owned()
}

/// Reads a NUL-padded field as text: the field must be UTF-8, and the text
/// is what the field encodes before its trailing NUL bytes. `None` means
/// that the field is not UTF-8.
pub fn bytes_to_string(bytes: &[u8]) -> (r: Option<String>)
    ensures
        match r {
            Some(s) => valid_utf8(bytes@) && s@ == decode_utf8(trimmed(bytes@, false)),
            None => !valid_utf8(bytes@),
        },
{
    let n: usize = trim_end(bytes, false);
    let body = slice_subrange(bytes, 0, n);
    proof {
        lemma_padding_keeps_validity(bytes@);
    }
    match utf8_str(body) {
        Some(s) => {
            proof {
                vstd::utf8::encode_utf8_decode_utf8(s@);
            }
            Some(s.to_owned())
        },
        None => None,
    }
}

/// Reads a comment as text: trailing NUL bytes and spaces are dropped, and
/// the rest is decoded as UTF-8 with every malformed sequence replaced.
pub fn comment_text(bytes: &[u8]) -> (r: String)
    ensures
        r@ == lenient_text(trimmed(bytes@, true)),
{
    let n: usize = trim_end(bytes, true);
    utf8_lossy(slice_subrange(bytes, 0, n))
}

} // verus!
