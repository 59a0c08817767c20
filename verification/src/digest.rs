//! SHA3-512 as a sponge, and hexadecimal digits.
//!
//! The sponge is the `tiny_keccak` crate's.  What it computes is not spelled
//! out here: the bytes that come out are named, as a function of the bytes
//! that went in and of how many are asked for.

use vstd::prelude::*;
use tiny_keccak::{Hasher, Sha3};

verus! {

/// The sponge of the `tiny_keccak` crate, as an opaque type.
#[verifier::external_type_specification]
#[verifier::external_body]
pub struct ExSha3(Sha3);

/// The bytes that a sponge has taken in so far, in the order in which it
/// took them.
pub uninterp spec fn sha3_absorbed(sponge: Sha3) -> Seq<u8>;

/// The security level, in bits, that a sponge was made for: 224, 256, 384
/// or 512.
pub uninterp spec fn sha3_bits(sponge: Sha3) -> nat;

/// The `wanted` bytes that a SHA3-512 sponge gives out after it has taken in
/// `input`: what `finalize` writes into a buffer of that length.
pub uninterp spec fn sha3_512_squeezed(input: Seq<u8>, wanted: nat) -> Seq<u8>;

/// The start of nothing taken in.
pub open spec fn no_bytes() -> Seq<u8> {
    Seq::empty()
}

/// `Sha3::v512`: a new sponge for 512 bits, which has taken in nothing.
pub assume_specification[ Sha3::v512 ]() -> (sponge: Sha3)
    ensures
        sha3_absorbed(sponge) == no_bytes(),
        sha3_bits(sponge) == 512,
;

/// `Hasher::update` of a `Sha3`: the sponge takes in `input` after what it
/// has taken in before, and stays a sponge for as many bits.
#[verifier::external_body]
pub(crate) fn absorb(sponge: &mut Sha3, input: &[u8])
    ensures
        sha3_absorbed(*final(sponge)) == sha3_absorbed(*old(sponge)) + input@,
        sha3_bits(*final(sponge)) == sha3_bits(*old(sponge)),
{
    sponge.update(input);
}

/// `Hasher::finalize` of a `Sha3`: the buffer keeps its length and is filled
/// with the bytes that the sponge gives out for what it has taken in.  Which
/// bytes these are is said of a sponge for 512 bits only.
#[verifier::external_body]
pub(crate) fn squeeze(sponge: Sha3, output: &mut Vec<u8>)
    ensures
        final(output)@.len() == old(output)@.len(),
        sha3_bits(sponge) == 512 ==> final(output)@ == sha3_512_squeezed(
            sha3_absorbed(sponge),
            old(output)@.len(),
        ),
{
    sponge.finalize(output.as_mut_slice());
}

/// The hexadecimal digit of a number below 16, in lower case.
pub open spec fn hex_digit(n: u8) -> char {
    if n < 10 {
        (48 + n) as char
    } else {
        (87 + n) as char
    }
}

/// The two hexadecimal digits of each byte, in lower case.
pub open spec fn hex_lower(bytes: Seq<u8>) -> Seq<char>
    decreases bytes.len(),
{
    if bytes.len() == 0 {
        Seq::empty()
    } else {
        hex_lower(bytes.drop_last()).push(hex_digit(bytes.last() / 16)).push(
            hex_digit(bytes.last() % 16),
        )
    }
}

/// A hexadecimal digit in lower case: `0` to `9` or `a` to `f`.
pub open spec fn is_hex_digit(c: char) -> bool {
    '0' <= c <= '9' || 'a' <= c <= 'f'
}

/// The hexadecimal form of bytes has two characters per byte, all of them
/// hexadecimal digits in lower case.
pub proof fn lemma_hex_lower(bytes: Seq<u8>)
    ensures
        hex_lower(bytes).len() == 2 * bytes.len(),
        forall|k: int|
            0 <= k < hex_lower(bytes).len() ==> is_hex_digit(#[trigger] hex_lower(bytes)[k]),
    decreases bytes.len(),
{
    if bytes.len() > 0 {
        lemma_hex_lower(bytes.drop_last());
        let b = bytes.last();
        assert(is_hex_digit(hex_digit(b / 16)));
        assert(is_hex_digit(hex_digit(b % 16)));
    }
}

/// The hexadecimal digit of `n`.
fn digit(n: u8) -> (c: char)
    requires
        n < 16,
    ensures
        c == hex_digit(n),
{
    if n < 10 {
        (48 + n) as char
    } else {
        (87 + n) as char
    }
}

/// The first `count` bytes of `bytes`, or all of them where they are fewer,
/// in hexadecimal, two lower-case digits per byte.
pub fn to_hex(bytes: &[u8], count: usize) -> (text: String)
    ensures
        text@ == hex_lower(
            bytes@.take(
                if count <= bytes@.len() {
                    count as int
                } else {
                    bytes@.len() as int
                },
            ),
        ),
        text@.len() == if count <= bytes@.len() {
            2 * count as int
        } else {
            2 * bytes@.len() as int
        },
        forall|k: int| 0 <= k < text@.len() ==> is_hex_digit(#[trigger] text@[k]),
{
    let mut text = String::new();
    let mut i: usize = 0;
    while i < count && i < bytes.len()
        invariant
            i <= count,
            i <= bytes@.len(),
            text@ == hex_lower(bytes@.take(i as int)),
        decreases count - i,
    {
        let b = bytes[i];
        text.push(digit(b / 16));
        text.push(digit(b % 16));
        proof {
            assert(bytes@.take(i + 1).drop_last() =~= bytes@.take(i as int));
        }
        i = i + 1;
    }
    proof {
        lemma_hex_lower(bytes@.take(i as int));
    }
    text
}

} // verus!
