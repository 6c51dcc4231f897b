//! One message byte in the pixel buffer: its eight bits lie in eight
//! consecutive pixel bytes, all in the same bit plane.

use crate::bits::{
    bit_of, byte_of_bits, get_bit, lemma_bit_is_binary, lemma_byte_of_its_bits,
    lemma_with_bit_other, lemma_with_bit_same, set_bit, with_bit,
};
use vstd::prelude::*;

verus! {

/// The place of one stored byte: the pixel bytes `index .. index + 8`, in
/// bit plane `layer` (layer 1 is the least significant bit).
pub struct Slot {
    pub index: nat,
    pub layer: nat,
}

impl Slot {
    /// The bit position that the slot's layer stands for.
    pub open spec fn plane(self) -> u8 {
        (self.layer - 1) as u8
    }

    /// Whether pixel byte `i` carries one of the slot's bits.
    pub open spec fn covers(self, i: int) -> bool {
        self.index <= i < self.index + 8
    }

    /// Whether the slot lies inside a buffer of `len` pixel bytes and names a
    /// bit plane that a byte has.
    pub open spec fn within(self, len: nat) -> bool {
        &&& 1 <= self.layer <= 8
        &&& self.index + 8 <= len
    }

    /// Two slots that share no bit of the buffer.
    pub open spec fn apart(self, other: Slot) -> bool {
        ||| self.layer != other.layer
        ||| self.index + 8 <= other.index
        ||| other.index + 8 <= self.index
    }
}

/// The buffer after `value` is stored at `slot`: bit `j` of `value` replaces
/// the slot's plane in pixel byte `slot.index + j`, nothing else changes.
pub open spec fn stored(body: Seq<u8>, slot: Slot, value: u8) -> Seq<u8> {
    Seq::new(
        body.len(),
        |i: int|
            if slot.covers(i) {
                with_bit(body[i], slot.plane(), bit_of(value, (i - slot.index) as u8))
            } else {
                body[i]
            },
    )
}

/// The byte read at `slot`: bit `j` of it is the slot's plane of pixel byte
/// `slot.index + j`.
pub open spec fn loaded(body: Seq<u8>, slot: Slot) -> u8 {
    byte_of_bits(Seq::new(8, |j: int| bit_of(body[slot.index + j], slot.plane())))
}

/// Stores `value` in the eight pixel bytes from `index` on, in plane `layer`.
pub fn store_byte(body: &mut Vec<u8>, index: usize, layer: u8, value: u8)
    requires
        1 <= layer <= 8,
        index + 8 <= old(body).len(),
    ensures
        final(body)@ == stored(
            old(body)@,
            Slot { index: index as nat, layer: layer as nat },
            value,
        ),
{
    let ghost slot = Slot { index: index as nat, layer: layer as nat };
    let ghost before = body@;
    let mut j: u8 = 0;
    while j < 8
        invariant
            j <= 8,
            1 <= layer <= 8,
            slot == (Slot { index: index as nat, layer: layer as nat }),
            body.len() == before.len(),
            index + 8 <= before.len(),
            forall|i: int|
                0 <= i < before.len() ==> body@[i] == if index <= i < index + j {
                    with_bit(before[i], slot.plane(), bit_of(value, (i - index) as u8))
                } else {
                    before[i]
                },
        decreases 8 - j,
    {
        let at: usize = index + j as usize;
        let kept: u8 = body[at];
        body.set(at, set_bit(kept, layer - 1, get_bit(value, j)));
        j += 1;
    }
    assert(body@ =~= stored(before, slot, value));
}

/// Reads the byte whose bits lie in the eight pixel bytes from `index` on,
/// in plane `layer`.
pub fn load_byte(body: &[u8], index: usize, layer: u8) -> (value: u8)
    requires
        1 <= layer <= 8,
        index + 8 <= body.len(),
    ensures
        value == loaded(body@, Slot { index: index as nat, layer: layer as nat }),
{
    let ghost slot = Slot { index: index as nat, layer: layer as nat };
    let mut bits: Vec<u8> = Vec::new();
    let mut j: usize = 0;
    while j < 8
        invariant
            j <= 8,
            1 <= layer <= 8,
            slot == (Slot { index: index as nat, layer: layer as nat }),
            index + 8 <= body.len(),
            bits.len() == j,
            forall|p: int|
                0 <= p < j ==> bits@[p] == bit_of(#[trigger] body@[index + p], slot.plane()),
        decreases 8 - j,
    {
        bits.push(get_bit(body[index + j], layer - 1));
        j += 1;
    }
    assert(bits@ =~= Seq::new(8, |j: int| bit_of(body@[slot.index + j], slot.plane())));
    bits[0] | (bits[1] << 1) | (bits[2] << 2) | (bits[3] << 3) | (bits[4] << 4) | (bits[5] << 5)
        | (bits[6] << 6) | (bits[7] << 7)
}

/// What was stored at a slot is what is read there.
pub proof fn lemma_loaded_after_stored(body: Seq<u8>, slot: Slot, value: u8)
    requires
        slot.within(body.len()),
    ensures
        loaded(stored(body, slot, value), slot) == value,
{
    let after = stored(body, slot, value);
    assert forall|j: int| 0 <= j < 8 implies bit_of(#[trigger] after[slot.index + j], slot.plane())
        == bit_of(value, j as u8) by {
        lemma_bit_is_binary(value, j as u8);
        lemma_with_bit_same(body[slot.index + j], slot.plane(), bit_of(value, j as u8));
    }
    assert(Seq::new(8, |j: int| bit_of(after[slot.index + j], slot.plane())) =~= Seq::new(
        8,
        |j: int| bit_of(value, j as u8),
    ));
    lemma_byte_of_its_bits(value);
}

/// Storing at one slot does not change what is read at a slot apart from it.
pub proof fn lemma_loaded_apart(body: Seq<u8>, written: Slot, value: u8, read: Slot)
    requires
        written.within(body.len()),
        read.within(body.len()),
        written.apart(read),
    ensures
        loaded(stored(body, written, value), read) == loaded(body, read),
{
    let after = stored(body, written, value);
    assert forall|j: int| 0 <= j < 8 implies bit_of(#[trigger] after[read.index + j], read.plane())
        == bit_of(body[read.index + j], read.plane()) by {
        let i = read.index + j;
        if written.covers(i) {
            lemma_bit_is_binary(value, (i - written.index) as u8);
            lemma_with_bit_other(
                body[i],
                written.plane(),
                bit_of(value, (i - written.index) as u8),
                read.plane(),
            );
        }
    }
    assert(Seq::new(8, |j: int| bit_of(after[read.index + j], read.plane())) =~= Seq::new(
        8,
        |j: int| bit_of(body[read.index + j], read.plane()),
    ));
}

} // verus!
