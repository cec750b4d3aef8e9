//! Contracts for the calls this library makes into other crates and into the
//! parts of std that vstd leaves unspecified. These contracts are assumed,
//! not proved; each doc comment says what is claimed of the called code.

use rand::seq::SliceRandom;
use bytes::Buf;
use vstd::prelude::*;
use vstd::utf8::valid_utf8;
use vstd::utf8::decode_utf8;

verus! {

/// The error type of `base64::decode`.
#[verifier::external_type_specification]
#[verifier::external_body]
pub struct ExDecodeError(base64::DecodeError);

/// The thread-local random generator handed out by `rand::thread_rng`.
#[verifier::external_type_specification]
#[verifier::external_body]
pub struct ExThreadRng(rand::rngs::ThreadRng);

/// The receiving half of a `tokio::sync::broadcast` channel.
#[verifier::external_type_specification]
#[verifier::external_body]
#[verifier::reject_recursive_types(T)]
pub struct ExBroadcastReceiver<T>(tokio::sync::broadcast::Receiver<T>);

/// The bytes that standard-alphabet base64 decoding gives for a text (the
/// decoder accepts the text with or without its trailing `=` padding), or
/// `None` where the text is not such an encoding.
pub uninterp spec fn base64_decoded(text: Seq<char>) -> Option<Seq<u8>>;

/// The standard-alphabet, padded base64 encoding of some bytes.
pub uninterp spec fn base64_encoded(bytes: Seq<u8>) -> Seq<char>;

/// A character of the standard base64 alphabet: `A`-`Z`, `a`-`z`, `0`-`9`,
/// `+` or `/`.
pub open spec fn is_base64_char(c: char) -> bool {
    ||| 'A' <= c <= 'Z'
    ||| 'a' <= c <= 'z'
    ||| '0' <= c <= '9'
    ||| c == '+'
    ||| c == '/'
}

/// How many `=` end the padded encoding of `n` bytes: none, two or one for
/// a last group of three, one or two bytes.
pub open spec fn base64_padding(n: nat) -> nat {
    ((3 - n % 3) % 3) as nat
}

/// Calls `base64::decode` (standard alphabet; trailing padding optional).
/// Claimed: the call succeeds exactly when the text is a base64 encoding, and
/// then returns the bytes that `base64_decoded` names; its result depends on
/// the text alone. The call's only panic (length + 3 overflowing `usize`)
/// cannot happen for a string in memory.
#[verifier::external_body]
pub fn base64_decode(text: &str) -> (res: Result<Vec<u8>, base64::DecodeError>)
    ensures
        match res {
            Ok(bytes) => base64_decoded(text@) == Some(bytes@),
            Err(_) => base64_decoded(text@) is None,
        },
{
    base64::decode(text)
}

/// Calls `base64::encode` (standard alphabet, with padding).
/// Claimed: the result is `base64_encoded` of the bytes; it is padded to
/// four characters per started group of three bytes (`encoded_size` with
/// padding), written in the standard alphabet and ending in the `=` padding
/// that `add_padding` appends, and nowhere else; and decoding it with
/// `base64::decode` gives the same bytes back (the crate's round-trip
/// property). The length bound keeps the crate's output-size computation
/// from overflowing, where it would panic.
#[verifier::external_body]
pub fn base64_encode(bytes: &[u8]) -> (res: String)
    requires
        bytes@.len() <= usize::MAX / 2,
    ensures
        res@ == base64_encoded(bytes@),
        res@.len() == 4 * ((bytes@.len() + 2) / 3),
        forall|i: int|
            0 <= i < res@.len() - base64_padding(bytes@.len()) ==> is_base64_char(
                #[trigger] res@[i],
            ),
        forall|i: int|
            res@.len() - base64_padding(bytes@.len()) <= i < res@.len() ==> #[trigger] res@[i]
                == '=',
        base64_decoded(res@) == Some(bytes@),
{
    base64::encode(bytes)
}

/// Calls `rand::thread_rng`. Nothing is claimed of the generator it returns.
#[verifier::external_body]
pub fn thread_rng() -> rand::rngs::ThreadRng {
    rand::thread_rng()
}

/// Calls `SliceRandom::shuffle` on the vector's elements. Claimed: the call
/// only swaps elements, so the result holds the same bytes with the same
/// multiplicities. Which order comes out is left open (it is random).
#[verifier::external_body]
pub fn shuffle_bytes(v: &mut Vec<u8>, rng: &mut rand::rngs::ThreadRng)
    ensures
        final(v)@.to_multiset() == old(v)@.to_multiset(),
{
    v.as_mut_slice().shuffle(rng)
}

/// Calls `bytes::Buf::get_u16` on a byte slice. Claimed: it reads the first
/// two bytes as a big-endian `u16`. It panics on fewer than two bytes, which
/// the precondition excludes.
#[verifier::external_body]
pub fn get_u16_be(data: &[u8]) -> (res: u16)
    requires
        data@.len() >= 2,
    ensures
        res as int == data@[0] as int * 256 + data@[1] as int,
{
    let mut cursor = data;
    cursor.get_u16()
}

/// Calls `std::str::from_utf8`. Claimed: it succeeds exactly on valid UTF-8
/// (vstd's `valid_utf8`), and then the string's characters are vstd's
/// `decode_utf8` of the bytes.
#[verifier::external_body]
pub fn str_from_utf8(data: &[u8]) -> (res: Option<&str>)
    ensures
        res is Some <==> valid_utf8(data@),
        res matches Some(s) ==> s@ == decode_utf8(data@),
{
    std::str::from_utf8(data).ok()
}

} // verus!
