//! The order in which the codec visits the pixel buffer.
//!
//! Message bytes are laid out one after another. Byte `k` takes a slot of
//! eight pixel bytes; after it the walk moves on by eight, skips the row
//! padding where `k` is a multiple of the image width, and on reaching the end
//! of the buffer starts over at pixel byte 32 of the next bit plane. Writing
//! and reading follow the same walk, which is what makes them inverse.

use crate::plane::Slot;
use vstd::prelude::*;

verus! {

/// What the walk depends on: the image width, the row padding, the length of
/// the pixel buffer and the number of bit planes in use.
pub struct Traversal {
    pub width: nat,
    pub padding: nat,
    pub len: nat,
    pub layers: nat,
}

impl Traversal {
    /// Where the walk begins: pixel byte 0 of the first bit plane.
    pub open spec fn origin() -> Slot {
        Slot { index: 0, layer: 1 }
    }

    /// Whether a whole byte can be stored at `slot`: the plane is one of
    /// those in use and all eight pixel bytes exist.
    pub open spec fn admits(self, slot: Slot) -> bool {
        &&& 1 <= slot.layer <= self.layers
        &&& slot.index + 8 <= self.len
    }

    /// The pixel bytes passed over after message byte `k`: one less than the
    /// row padding where `k` is a multiple of the width, none elsewhere.
    /// An image without padding or without width skips nothing.
    pub open spec fn skip(self, k: nat) -> nat {
        if self.padding != 0 && self.width != 0 && k % self.width == 0 {
            (self.padding - 1) as nat
        } else {
            0
        }
    }

    /// The slot that follows `slot` when `slot` held message byte `k`.
    pub open spec fn step(self, slot: Slot, k: nat) -> Slot {
        let index = slot.index + 8 + self.skip(k);
        if index >= self.len {
            Slot { index: 32, layer: slot.layer + 1 }
        } else {
            Slot { index, layer: slot.layer }
        }
    }

    /// The slot of message byte `k`, or `None` when the buffer is exhausted
    /// at or before that byte. Once exhausted the walk stays so.
    pub open spec fn slot(self, k: nat) -> Option<Slot>
        decreases k,
    {
        if k == 0 {
            if self.admits(Self::origin()) {
                Some(Self::origin())
            } else {
                None
            }
        } else {
            match self.slot((k - 1) as nat) {
                Some(before) => {
                    let next = self.step(before, (k - 1) as nat);
                    if self.admits(next) {
                        Some(next)
                    } else {
                        None
                    }
                },
                None => None,
            }
        }
    }

    /// Whether the walk has a slot for each of the first `n` message bytes.
    pub open spec fn fits(self, n: nat) -> bool {
        n == 0 || self.slot((n - 1) as nat) is Some
    }

    /// Whether some slot among the first `n` covers pixel byte `i`.
    pub open spec fn visits(self, n: nat, i: int) -> bool {
        exists|k: nat| k < n && self.slot(k) is Some && (#[trigger] self.slot(k)).unwrap().covers(i)
    }

    /// Every slot of the walk is one that the walk admits.
    pub proof fn lemma_slot_admitted(self, k: nat)
        requires
            self.slot(k) is Some,
        ensures
            self.admits(self.slot(k).unwrap()),
    {
    }

    /// A walk that reaches byte `k` has reached every byte before it.
    pub proof fn lemma_slot_prefix(self, j: nat, k: nat)
        requires
            j <= k,
            self.slot(k) is Some,
        ensures
            self.slot(j) is Some,
        decreases k,
    {
        if j < k {
            self.lemma_slot_prefix(j, (k - 1) as nat);
        }
    }

    /// The walk never comes back: a later slot lies in a higher plane, or in
    /// the same plane at least eight pixel bytes further on.
    pub proof fn lemma_slots_ordered(self, j: nat, k: nat)
        requires
            j < k,
            self.slot(k) is Some,
        ensures
            self.slot(j) is Some,
            self.slot(j).unwrap().layer < self.slot(k).unwrap().layer || (self.slot(
                j,
            ).unwrap().layer == self.slot(k).unwrap().layer && self.slot(j).unwrap().index + 8
                <= self.slot(k).unwrap().index),
            self.slot(j).unwrap().apart(self.slot(k).unwrap()),
        decreases k,
    {
        if j + 1 < k {
            self.lemma_slots_ordered(j, (k - 1) as nat);
        }
    }

    /// With at most eight planes, a walk that reaches byte `k` has a buffer
    /// of more than `k` pixel bytes.
    pub proof fn lemma_slot_bound(self, k: nat)
        requires
            self.layers <= 8,
            self.slot(k) is Some,
        ensures
            k < self.len,
    {
        self.lemma_slot_progress(k);
        let s = self.slot(k).unwrap();
        assert((s.layer - 1) * self.len + self.len <= 8 * self.len) by (nonlinear_arith)
            requires
                1 <= s.layer <= 8,
        ;
    }

    /// The pixel bytes that the walk has passed over before message byte `k`.
    pub open spec fn skipped(self, k: nat) -> nat
        decreases k,
    {
        if k == 0 {
            0
        } else {
            self.skipped((k - 1) as nat) + self.skip((k - 1) as nat)
        }
    }

    /// What the walk passes over at a byte where it passes over anything.
    pub open spec fn stride_skip(self) -> nat {
        if self.padding == 0 {
            0
        } else {
            (self.padding - 1) as nat
        }
    }

    /// As long as the first plane has room, byte `k` lies eight pixel bytes
    /// after byte `k - 1`, plus what was passed over.
    pub proof fn lemma_first_plane_slot(self, k: nat)
        requires
            1 <= self.layers,
            8 * k + self.skipped(k) + 8 <= self.len,
        ensures
            self.slot(k) == Some(Slot { index: 8 * k + self.skipped(k), layer: 1 }),
        decreases k,
    {
        if k > 0 {
            self.lemma_first_plane_slot((k - 1) as nat);
        }
    }

    /// The walk passes over something once in every `width` bytes, the
    /// first time right after byte 0.
    pub proof fn lemma_skipped(self, k: nat, rows: nat, rest: nat)
        requires
            self.width > 0,
            k == rows * self.width + rest,
            rest < self.width,
        ensures
            self.skipped(k) == self.stride_skip() * (rows + if rest > 0 {
                1nat
            } else {
                0nat
            }),
        decreases k,
    {
        let w = self.width;
        let a = self.stride_skip();
        if k == 0 {
            assert(rows == 0) by (nonlinear_arith)
                requires
                    rows * w + rest == 0,
                    w > 0,
            ;
            assert(a * 0 == 0) by (nonlinear_arith);
        } else if rest > 0 {
            let last = (k - 1) as nat;
            self.lemma_skipped(last, rows, (rest - 1) as nat);
            vstd::arithmetic::div_mod::lemma_fundamental_div_mod_converse(
                last as int,
                w as int,
                rows as int,
                rest - 1,
            );
            assert(a * (rows + 1) == a * rows + a) by (nonlinear_arith);
        } else {
            let last = (k - 1) as nat;
            assert(rows > 0 && rows * w == (rows - 1) * w + w) by (nonlinear_arith)
                requires
                    rows * w > 0,
                    w > 0,
            ;
            self.lemma_skipped(last, (rows - 1) as nat, (w - 1) as nat);
            vstd::arithmetic::div_mod::lemma_fundamental_div_mod_converse(
                last as int,
                w as int,
                rows - 1,
                w - 1,
            );
            assert(a * (rows - 1 + 1) == a * (rows - 1) + a) by (nonlinear_arith);
        }
    }

    /// Whether the walk passes over nothing after any byte.
    pub open spec fn plain(self) -> bool {
        self.padding <= 1 || self.width == 0
    }

    /// The pixel bytes that a plain walk has for storing: the whole buffer in
    /// the first plane, and all but its first 32 bytes in each further one.
    pub open spec fn plain_room(self) -> int {
        self.len + (self.layers - 1) * (self.len - 32)
    }

    /// A plain walk over a buffer whose length is a multiple of eight wastes
    /// nothing: it has a slot for every byte that its room suffices for.
    pub proof fn lemma_plain_walk_fits(self, n: nat)
        requires
            self.plain(),
            self.len % 8 == 0,
            1 <= self.layers,
            8 * n <= self.plain_room(),
        ensures
            self.fits(n),
    {
        if n > 0 {
            self.lemma_plain_walk((n - 1) as nat);
        }
    }

    proof fn lemma_plain_walk(self, k: nat)
        requires
            self.plain(),
            self.len % 8 == 0,
            1 <= self.layers,
            8 * (k + 1) <= self.plain_room(),
        ensures
            self.slot(k) is Some,
            self.slot(k).unwrap().index % 8 == 0,
            self.slot(k).unwrap().layer >= 2 ==> self.slot(k).unwrap().index >= 32,
            8 * k == if self.slot(k).unwrap().layer == 1 {
                self.slot(k).unwrap().index as int
            } else {
                self.len + (self.slot(k).unwrap().layer - 2) * (self.len - 32) + self.slot(
                    k,
                ).unwrap().index - 32
            },
        decreases k,
    {
        let d = self.len - 32;
        let top = self.layers - 1;
        if k == 0 {
            if self.len < 8 {
                assert(top * d <= 0) by (nonlinear_arith)
                    requires
                        top >= 0,
                        d <= 0,
                ;
            }
        } else {
            self.lemma_plain_walk((k - 1) as nat);
            self.lemma_slot_admitted((k - 1) as nat);
            let before = self.slot((k - 1) as nat).unwrap();
            let done = before.layer - 1;
            assert(self.skip((k - 1) as nat) == 0);
            if before.index + 8 >= self.len {
                assert(before.index + 8 == self.len);
                if before.layer >= 2 {
                    assert(done * d == (before.layer - 2) * d + d) by (nonlinear_arith)
                        requires
                            done == before.layer - 1,
                    ;
                } else {
                    assert(done * d == 0) by (nonlinear_arith)
                        requires
                            done == 0,
                    ;
                }
                assert(8 * k == self.len + done * d);
                assert(done * d + 8 <= top * d);
                assert(done < top && d > 0) by (nonlinear_arith)
                    requires
                        done * d + 8 <= top * d,
                        0 <= done <= top,
                ;
                assert(d >= 8);
                assert((before.layer + 1 - 2) * d == done * d);
            }
        }
    }

    proof fn lemma_slot_progress(self, k: nat)
        requires
            self.slot(k) is Some,
        ensures
            8 * k <= (self.slot(k).unwrap().layer - 1) * self.len + self.slot(k).unwrap().index,
        decreases k,
    {
        if k > 0 {
            let before = self.slot((k - 1) as nat).unwrap();
            let next = self.slot(k).unwrap();
            self.lemma_slot_progress((k - 1) as nat);
            if next.layer != before.layer {
                assert((next.layer - 1) * self.len == (before.layer - 1) * self.len + self.len)
                    by (nonlinear_arith)
                    requires
                        next.layer == before.layer + 1,
                ;
            }
        }
    }
}

/// The walk as it is carried out: the geometry, the number of message bytes
/// passed so far, and the slot of the next one.
pub struct Walker {
    width: u32,
    padding: u32,
    len: usize,
    layers: u8,
    taken: usize,
    index: usize,
    layer: u8,
    live: bool,
}

impl Walker {
    /// The walk that this walker carries out.
    pub closed spec fn traversal(&self) -> Traversal {
        Traversal {
            width: self.width as nat,
            padding: self.padding as nat,
            len: self.len as nat,
            layers: self.layers as nat,
        }
    }

    /// The number of message bytes passed so far.
    pub closed spec fn taken(&self) -> nat {
        self.taken as nat
    }

    /// The slot of the next message byte, `None` once the buffer is exhausted.
    pub open spec fn position(&self) -> Option<Slot> {
        self.traversal().slot(self.taken())
    }

    /// The walker stands where its walk says.
    pub closed spec fn inv(&self) -> bool {
        &&& self.layers <= 8
        &&& self.traversal().fits(self.taken())
        &&& self.live <==> self.position() is Some
        &&& self.live ==> self.position() == Some(
            Slot { index: self.index as nat, layer: self.layer as nat },
        )
    }

    /// A walker has passed only bytes that the walk has slots for.
    pub proof fn lemma_taken_fits(&self)
        requires
            self.inv(),
        ensures
            self.traversal().fits(self.taken()),
    {
    }

    /// A walker at the first message byte.
    pub fn start(width: u32, padding: u32, len: usize, layers: u8) -> (walker: Walker)
        requires
            layers <= 8,
        ensures
            walker.inv(),
            walker.taken() == 0,
            walker.traversal() == (Traversal {
                width: width as nat,
                padding: padding as nat,
                len: len as nat,
                layers: layers as nat,
            }),
    {
        Walker {
            width,
            padding,
            len,
            layers,
            taken: 0,
            index: 0,
            layer: 1,
            live: layers >= 1 && len >= 8,
        }
    }

    /// The pixel index and the layer of the next message byte, if there is
    /// room for one.
    pub fn slot(&self) -> (at: Option<(usize, u8)>)
        requires
            self.inv(),
        ensures
            match at {
                Some((index, layer)) => self.position() == Some(
                    Slot { index: index as nat, layer: layer as nat },
                ) && 1 <= layer <= 8 && index + 8 <= self.traversal().len,
                None => self.position() is None,
            },
    {
        if self.live {
            proof {
                self.traversal().lemma_slot_admitted(self.taken());
            }
            Some((self.index, self.layer))
        } else {
            None
        }
    }

    /// Moves on past the current message byte.
    pub fn advance(&mut self)
        requires
            old(self).inv(),
            old(self).position() is Some,
        ensures
            final(self).inv(),
            final(self).traversal() == old(self).traversal(),
            final(self).taken() == old(self).taken() + 1,
    {
        proof {
            self.traversal().lemma_slot_admitted(self.taken());
            self.traversal().lemma_slot_bound(self.taken());
        }
        let on_multiple: bool = self.width != 0 && self.taken % (self.width as usize) == 0;
        let skip: usize = if self.padding != 0 && on_multiple {
            (self.padding - 1) as usize
        } else {
            0
        };
        let room: usize = self.len - (self.index + 8);
        if skip >= room {
            self.index = 32;
            self.layer = self.layer + 1;
        } else {
            self.index = self.index + 8 + skip;
        }
        self.taken = self.taken + 1;
        self.live = self.layer <= self.layers && self.len >= 8 && self.index <= self.len - 8;
    }
}

} // verus!
