//! Random filler text, for trying out how much an image carries.

use crate::codec::text_from_utf8;
use vstd::prelude::*;
use vstd::utf8::{encode_utf8, partial_valid_utf8_extend_ascii_block};

verus! {

/// `rand::Rng::random_range` on the generator of the calling thread
/// (`rand::rng`), with the range `0..bound`: some index below `bound`.
/// Which one is not said, and two calls need not agree. An empty range makes
/// the outside call panic, so `bound` has to be positive. The generator is
/// seeded by the operating system and panics where that fails.
#[verifier::external_body]
fn random_below(bound: usize) -> (index: usize)
    requires
        bound > 0,
    ensures
        index < bound,
{
    rand::Rng::random_range(&mut rand::rng(), 0..bound)
}

/// `len` bytes, each picked at random from `alphabet`.
pub fn random_bytes(len: usize, alphabet: &[u8]) -> (bytes: Vec<u8>)
    requires
        alphabet.len() > 0,
    ensures
        bytes.len() == len,
        forall|i: int| 0 <= i < len ==> alphabet@.contains(#[trigger] bytes@[i]),
{
    let mut bytes: Vec<u8> = Vec::new();
    let mut i: usize = 0;
    while i < len
        invariant
            i <= len,
            alphabet.len() > 0,
            bytes.len() == i,
            forall|p: int| 0 <= p < i ==> alphabet@.contains(#[trigger] bytes@[p]),
        decreases len - i,
    {
        let pick: usize = random_below(alphabet.len());
        bytes.push(alphabet[pick]);
        i += 1;
    }
    bytes
}

/// A text of `len` bytes, each picked at random from `alphabet`. There is
/// one whenever the alphabet is ASCII; with other bytes in it the pick may
/// fail to be text.
pub fn random_message(len: usize, alphabet: &[u8]) -> (message: Option<String>)
    requires
        alphabet.len() > 0,
    ensures
        match message {
            Some(text) => {
                &&& encode_utf8(text@).len() == len
                &&& forall|i: int|
                    0 <= i < len ==> alphabet@.contains(#[trigger] encode_utf8(text@)[i])
            },
            None => exists|i: int| 0 <= i < alphabet@.len() && alphabet@[i] > 0x7f,
        },
{
    let bytes = random_bytes(len, alphabet);
    proof {
        if forall|i: int| 0 <= i < alphabet@.len() ==> alphabet@[i] <= 0x7f {
            assert(bytes@.subrange(0, 0) =~= Seq::<u8>::empty());
            partial_valid_utf8_extend_ascii_block(bytes@, 0, bytes@.len() as int);
            assert(bytes@.subrange(0, bytes@.len() as int) =~= bytes@);
        }
    }
    text_from_utf8(bytes)
}

} // verus!
