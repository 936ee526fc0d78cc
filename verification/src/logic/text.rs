//! The bounded string that holds a line of display text.
//!
//! The string is `heapless::String<16>`: sixteen bytes on the stack, no
//! allocation. It is opaque to the verifier. What it holds has a name,
//! `text_of`, and the three operations that the formatter uses are trusted
//! to do to that text what their documentation says.

use vstd::prelude::*;
use vstd::utf8::encode_utf8;

verus! {

/// Bytes that a display text can hold.
pub const CAPACITY: usize = 16;

/// `heapless::String`, of which nothing is known but what `text_of` names.
#[verifier::external_type_specification]
#[verifier::external_body]
pub struct ExHeaplessString<const N: usize>(heapless::String<N>);

/// The characters that a display text holds, first to last.
pub uninterp spec fn text_of(text: heapless::String<16>) -> Seq<char>;

/// The number of bytes that `chars` take in UTF-8.
pub open spec fn utf8_len(chars: Seq<char>) -> nat {
    encode_utf8(chars).len()
}

/// Calls `heapless::String::new`.
///
/// Trusted: the new string is empty.
#[verifier::external_body]
pub(crate) fn empty_text() -> (text: heapless::String<16>)
    ensures
        text_of(text) == Seq::<char>::empty(),
{
    heapless::String::new()
}

/// Calls `heapless::String::push_str` and tells whether it returned `Ok`.
///
/// Trusted: the call succeeds exactly if the bytes of `part` fit in what
/// is left of the sixteen; then `part` is appended, and otherwise the
/// string is unchanged.
#[verifier::external_body]
pub(crate) fn push_str(text: &mut heapless::String<16>, part: &str) -> (fits: bool)
    ensures
        fits == (utf8_len(text_of(*old(text))) + utf8_len(part@) <= CAPACITY),
        text_of(*final(text)) == if fits {
            text_of(*old(text)) + part@
        } else {
            text_of(*old(text))
        },
{
    text.push_str(part).is_ok()
}

/// Calls `heapless::String::push` and tells whether it returned `Ok`.
///
/// Trusted: the call succeeds exactly if the bytes of `c` fit in what is
/// left of the sixteen; then `c` is appended, and otherwise the string is
/// unchanged.
#[verifier::external_body]
pub(crate) fn push(text: &mut heapless::String<16>, c: char) -> (fits: bool)
    ensures
        fits == (utf8_len(text_of(*old(text))) + utf8_len(seq![c]) <= CAPACITY),
        text_of(*final(text)) == if fits {
            text_of(*old(text)).push(c)
        } else {
            text_of(*old(text))
        },
{
    text.push(c).is_ok()
}

/// The bytes of a concatenation are the bytes of its parts.
pub proof fn lemma_utf8_len_concat(a: Seq<char>, b: Seq<char>)
    ensures
        utf8_len(a + b) == utf8_len(a) + utf8_len(b),
    decreases a.len(),
{
    if a.len() == 0 {
        assert(a + b =~= b);
    } else {
        assert((a + b).drop_first() =~= a.drop_first() + b);
        lemma_utf8_len_concat(a.drop_first(), b);
    }
}

/// Characters of the ASCII range take one byte each.
pub proof fn lemma_utf8_len_ascii(a: Seq<char>)
    requires
        vstd::utf8::is_ascii_chars(a),
    ensures
        utf8_len(a) == a.len(),
{
    vstd::utf8::is_ascii_chars_encode_utf8(a);
}

} // verus!
