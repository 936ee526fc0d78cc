//! Command frames and checksummed words.
//!
//! Everything on the sensor bus is made of 16-bit words, most significant
//! byte first. A command frame is a command code, alone or followed by
//! arguments. Each argument, and each word of a response, is followed by
//! the checksum of its own two bytes; the command code never is.

use vstd::prelude::*;
use crate::wire::checksum::{checksum, checksum_of};

verus! {

/// The two bytes of `word`, most significant first.
pub open spec fn word_bytes(word: u16) -> Seq<u8> {
    seq![(word / 256) as u8, (word % 256) as u8]
}

/// The word whose bytes are `high` and `low`.
pub open spec fn word_of(high: u8, low: u8) -> u16 {
    (high * 256 + low) as u16
}

/// `word` followed by the checksum of its two bytes.
pub open spec fn checked_word(word: u16) -> Seq<u8> {
    word_bytes(word).push(checksum_of(word_bytes(word)))
}

/// The frame of a command that takes one argument: the code, the
/// argument, and the argument's checksum.
pub open spec fn argument_frame(code: u16, argument: u16) -> Seq<u8> {
    word_bytes(code) + checked_word(argument)
}

/// Every complete group of three bytes in `response` ends in the checksum
/// of its first two.
pub open spec fn checksums_hold(response: Seq<u8>) -> bool {
    forall|k: int|
        0 <= k < response.len() / 3 ==> #[trigger] response[3 * k + 2] == checksum_of(
            seq![response[3 * k], response[3 * k + 1]],
        )
}

/// `i` is the place of a checksum byte in a response: every third byte.
pub open spec fn is_checksum_place(i: int) -> bool {
    i % 3 == 2
}

/// Splitting a word into bytes and joining them gives the word back.
pub proof fn lemma_word_round_trip(word: u16)
    ensures
        word_of(word_bytes(word)[0], word_bytes(word)[1]) == word,
{
}

/// Joining two bytes into a word and splitting it gives the bytes back.
pub proof fn lemma_bytes_round_trip(high: u8, low: u8)
    ensures
        word_bytes(word_of(high, low)) == seq![high, low],
{
    assert(word_bytes(word_of(high, low)) =~= seq![high, low]);
}

/// A word followed by its checksum is an intact response.
pub proof fn lemma_checked_word_holds(word: u16)
    ensures
        checked_word(word).len() == 3,
        checksums_hold(checked_word(word)),
{
    let group = checked_word(word);
    assert(seq![group[0], group[1]] =~= word_bytes(word));
}

/// In a frame with an argument the checksum is that of the argument's two
/// bytes and of nothing else: the frame is five bytes long, starts with
/// the command code, and what follows the code is an intact response,
/// the same for every code.
pub proof fn lemma_argument_frame(code: u16, argument: u16)
    ensures
        argument_frame(code, argument).len() == 5,
        argument_frame(code, argument).subrange(0, 2) == word_bytes(code),
        argument_frame(code, argument).subrange(2, 5) == checked_word(argument),
        checksums_hold(argument_frame(code, argument).subrange(2, 5)),
{
    lemma_checked_word_holds(argument);
    assert(argument_frame(code, argument).subrange(0, 2) =~= word_bytes(code));
    assert(argument_frame(code, argument).subrange(2, 5) =~= checked_word(argument));
}

/// Splits `word` into its bytes, most significant first.
pub fn to_be_bytes(word: u16) -> (bytes: [u8; 2])
    ensures
        bytes@ == word_bytes(word),
{
    let bytes: [u8; 2] = [(word / 256) as u8, (word % 256) as u8];
    assert(bytes@ =~= word_bytes(word));
    bytes
}

/// Joins two bytes, most significant first, into a word.
pub fn from_be_bytes(high: u8, low: u8) -> (word: u16)
    ensures
        word == word_of(high, low),
{
    high as u16 * 256 + low as u16
}

/// The checksum of the two bytes of `word`.
pub fn word_checksum(word: u16) -> (crc: u8)
    ensures
        crc == checksum_of(word_bytes(word)),
{
    let bytes: [u8; 2] = to_be_bytes(word);
    checksum(&bytes)
}

/// Builds the frame of a command without arguments.
pub fn command(code: u16) -> (frame: [u8; 2])
    ensures
        frame@ == word_bytes(code),
{
    to_be_bytes(code)
}

/// Builds the frame of a command with one argument. The checksum covers
/// the argument's two bytes and nothing of the command code.
pub fn command_with_argument(code: u16, argument: u16) -> (frame: [u8; 5])
    ensures
        frame@ == argument_frame(code, argument),
{
    let code_bytes: [u8; 2] = to_be_bytes(code);
    let argument_bytes: [u8; 2] = to_be_bytes(argument);
    let crc: u8 = checksum(&argument_bytes);
    let frame: [u8; 5] = [code_bytes[0], code_bytes[1], argument_bytes[0], argument_bytes[1], crc];
    assert(frame@ =~= argument_frame(code, argument));
    frame
}

/// Tells whether every word of `response` carries the right checksum.
///
/// The drivers decode a response whatever its checksums say. Code that
/// wants corrupted frames rejected makes its own query, asks here, and
/// decodes only what is intact.
pub fn checksums_intact(response: &[u8]) -> (intact: bool)
    ensures
        intact == checksums_hold(response@),
{
    let groups: usize = response.len() / 3;
    let mut k: usize = 0;
    while k < groups
        invariant
            groups == response@.len() / 3,
            response@.len() <= usize::MAX,
            k <= groups,
            forall|j: int|
                0 <= j < k ==> #[trigger] response@[3 * j + 2] == checksum_of(
                    seq![response@[3 * j], response@[3 * j + 1]],
                ),
        decreases groups - k,
    {
        let pair: [u8; 2] = [response[3 * k], response[3 * k + 1]];
        assert(pair@ =~= seq![response@[3 * k], response@[3 * k + 1]]);
        if checksum(&pair) != response[3 * k + 2] {
            return false;
        }
        k = k + 1;
    }
    true
}

} // verus!
