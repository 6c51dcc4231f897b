//! What holds of the codec as a whole: reading gives back what was written,
//! capacity grows with the number of bit planes, and embedding touches
//! nothing but the bits that the walk passes.

use crate::bits::{bit_of, lemma_bit_is_binary, lemma_with_bit_other, lemma_with_bit_unchanged};
use crate::codec::{envelope, length_prefix};
use crate::container::{lemma_le_u32_of_bytes, ImageView};
use crate::plane::{lemma_loaded_after_stored, lemma_loaded_apart, loaded};
use crate::traversal::Traversal;
use vstd::prelude::*;
use vstd::utf8::{encode_utf8, encode_utf8_decode_utf8, encode_utf8_valid_utf8};

verus! {

/// A byte that was stored along the walk is the byte read at its slot,
/// whatever was stored after it.
pub proof fn lemma_embed_then_load(t: Traversal, body: Seq<u8>, data: Seq<u8>, n: nat, k: nat)
    requires
        t.layers <= 8,
        t.len == body.len(),
        k < n,
        t.fits(n),
    ensures
        t.slot(k) is Some,
        loaded(t.embed(body, data, n), t.slot(k).unwrap()) == data[k as int],
    decreases n,
{
    let last = (n - 1) as nat;
    let before = t.embed(body, data, last);
    let slot = t.slot(last).unwrap();
    t.lemma_embed_len(body, data, last);
    t.lemma_slot_admitted(last);
    if k == last {
        lemma_loaded_after_stored(before, slot, data[last as int]);
    } else {
        t.lemma_slots_ordered(k, last);
        t.lemma_slot_admitted(k);
        lemma_loaded_apart(before, slot, data[last as int], t.slot(k).unwrap());
        lemma_embed_then_load(t, body, data, last, k);
    }
}

/// Reading along the walk gives back the bytes that were stored along it.
pub proof fn lemma_embed_then_read(
    t: Traversal,
    body: Seq<u8>,
    data: Seq<u8>,
    from: nat,
    n: nat,
)
    requires
        t.layers <= 8,
        t.len == body.len(),
        from + n <= data.len(),
        t.fits(data.len()),
    ensures
        t.read(t.embed(body, data, data.len()), from, n) == Some(
            data.subrange(from as int, (from + n) as int),
        ),
{
    let after = t.embed(body, data, data.len());
    if from + n > 0 {
        t.lemma_slot_prefix((from + n - 1) as nat, (data.len() - 1) as nat);
    }
    let got = t.read(after, from, n).unwrap();
    assert forall|j: int| 0 <= j < n implies got[j] == data[from + j] by {
        lemma_embed_then_load(t, body, data, data.len(), (from + j) as nat);
    }
    assert(got =~= data.subrange(from as int, (from + n) as int));
}

/// Round trip. A text whose bytes number no more than the capacity and
/// fewer than 2^32, and for whose envelope the walk has slots, is the text
/// that the image holds once it is embedded, read with the same number of
/// bit planes.
pub proof fn lemma_round_trip(img: ImageView, text: Seq<char>, layers: nat)
    requires
        1 <= layers <= 8,
        encode_utf8(text).len() <= img.capacity(layers),
        encode_utf8(text).len() < 0x1_0000_0000,
        img.traversal(layers).fits(envelope(encode_utf8(text)).len()),
    ensures
        img.embedded(encode_utf8(text), layers).text(layers) == Some(text),
{
    let payload = encode_utf8(text);
    let data = envelope(payload);
    let t = img.traversal(layers);
    let out = img.embedded(payload, layers);
    let len = payload.len() as u32;
    t.lemma_embed_len(img.pixels, data, data.len());
    assert(out.traversal(layers) == t);
    lemma_le_u32_of_bytes(len);
    lemma_embed_then_read(t, img.pixels, data, 0, 4);
    assert(data.subrange(0, 4) =~= length_prefix(payload.len()));
    assert(out.declared_length(layers) == Some(len));
    lemma_embed_then_read(t, img.pixels, data, 4, payload.len());
    assert(data.subrange(4, 4 + payload.len() as int) =~= payload);
    assert(out.capacity(layers) == img.capacity(layers));
    assert(out.payload(layers) == Some(payload));
    encode_utf8_valid_utf8(text);
    encode_utf8_decode_utf8(text);
}

/// In an image whose rows end with at most one filler byte, and whose pixel
/// data holds every row and has a length that is a multiple of eight, the
/// walk has a slot for every byte of every envelope that the capacity allows.
pub proof fn lemma_capacity_fits(img: ImageView, len: nat, layers: nat)
    requires
        1 <= layers,
        img.padding <= 1,
        img.pixels.len() % 8 == 0,
        img.complete(),
        len <= img.capacity(layers),
    ensures
        img.traversal(layers).fits(4 + len),
{
    let t = img.traversal(layers);
    let width = img.header.width as nat;
    let height = img.header.height as nat;
    let pixel = img.bytes_per_pixel();
    let bytes = width * height * pixel;
    let base = bytes / 8 - 4;
    let room = img.pixels.len() - 32;
    assert(img.capacity(layers) == base * layers);
    assert(bytes <= img.stride() * height) by (nonlinear_arith)
        requires
            bytes == width * height * pixel,
            img.stride() == width * pixel + img.padding,
    ;
    assert(base >= 0) by (nonlinear_arith)
        requires
            0 <= len <= base * layers,
            layers >= 1,
    ;
    assert(8 * base * layers <= room * layers) by (nonlinear_arith)
        requires
            0 <= 8 * base <= room,
            layers >= 1,
    ;
    assert(8 * (base * layers) == 8 * base * layers) by (nonlinear_arith);
    assert(room * layers == room + (layers - 1) * room) by (nonlinear_arith);
    t.lemma_plain_walk_fits(4 + len);
}

/// Round trip, for the images of `lemma_capacity_fits`: every text that the
/// capacity allows, of fewer than 2^32 bytes, is read back as it was.
pub proof fn lemma_round_trip_plain(img: ImageView, text: Seq<char>, layers: nat)
    requires
        1 <= layers <= 8,
        img.padding <= 1,
        img.pixels.len() % 8 == 0,
        img.complete(),
        encode_utf8(text).len() <= img.capacity(layers),
        encode_utf8(text).len() < 0x1_0000_0000,
    ensures
        img.embedded(encode_utf8(text), layers).text(layers) == Some(text),
{
    lemma_capacity_fits(img, encode_utf8(text).len(), layers);
    lemma_round_trip(img, text, layers);
}

/// In an image of at most eight bytes per pixel whose pixel data holds every
/// row, the first bit plane alone has a slot for every byte of every envelope
/// that its capacity allows.
pub proof fn lemma_first_plane_fits(img: ImageView, len: nat)
    requires
        img.complete(),
        img.bytes_per_pixel() <= 8,
        len <= img.capacity(1),
    ensures
        img.traversal(1).fits(4 + len),
{
    let t = img.traversal(1);
    let w = img.header.width as nat;
    let h = img.header.height as nat;
    let pixel = img.bytes_per_pixel();
    let bytes = w * h * pixel;
    let k = (3 + len) as nat;
    assert(img.capacity(1) == bytes / 8 - 4) by (nonlinear_arith)
        requires
            img.capacity(1) == (bytes / 8 - 4) * 1,
    ;
    assert(bytes <= 8 * (w * h)) by (nonlinear_arith)
        requires
            bytes == w * h * pixel,
            pixel <= 8,
    ;
    assert(w > 0) by (nonlinear_arith)
        requires
            bytes == w * h * pixel,
            bytes > 0,
    ;
    let q = k / w;
    let r = k % w;
    vstd::arithmetic::div_mod::lemma_fundamental_div_mod(k as int, w as int);
    assert(k == q * w + r) by (nonlinear_arith)
        requires
            k == w * q + r,
    ;
    assert(q < h) by (nonlinear_arith)
        requires
            q * w + r < w * h,
            r >= 0,
            w > 0,
    ;
    t.lemma_skipped(k, q, r);
    let a = t.stride_skip();
    assert(t.skipped(k) <= img.padding * h) by (nonlinear_arith)
        requires
            t.skipped(k) == a * (q + if r > 0 {
                1nat
            } else {
                0nat
            }),
            q < h,
            a <= img.padding,
    ;
    assert(bytes + img.padding * h == img.stride() * h) by (nonlinear_arith)
        requires
            bytes == w * h * pixel,
            img.stride() == w * pixel + img.padding,
    ;
    t.lemma_first_plane_slot(k);
}

/// Round trip in the first bit plane, for the images of
/// `lemma_first_plane_fits`: every text that the capacity allows, of fewer
/// than 2^32 bytes, is read back as it was.
pub proof fn lemma_round_trip_first_plane(img: ImageView, text: Seq<char>)
    requires
        img.complete(),
        img.bytes_per_pixel() <= 8,
        encode_utf8(text).len() <= img.capacity(1),
        encode_utf8(text).len() < 0x1_0000_0000,
    ensures
        img.embedded(encode_utf8(text), 1).text(1) == Some(text),
{
    lemma_first_plane_fits(img, encode_utf8(text).len());
    lemma_round_trip(img, text, 1);
}

/// Capacity grows with each bit plane, for an image that carries at least
/// one byte in a single plane.
pub proof fn lemma_capacity_grows(img: ImageView, layers: nat)
    requires
        img.capacity(1) > 0,
    ensures
        img.capacity(layers + 1) > img.capacity(layers),
{
    let pixel = img.header.bits_per_pixel as nat / 8;
    let base = (img.header.width as nat * img.header.height as nat * pixel) / 8 - 4;
    assert(base * 1 == base) by (nonlinear_arith);
    assert(base * (layers + 1) == base * layers + base) by (nonlinear_arith);
}

/// Embedding leaves a pixel byte as it was wherever every bit that the walk
/// stores in it is the bit that it held.
pub proof fn lemma_embed_keeps_byte(t: Traversal, body: Seq<u8>, data: Seq<u8>, n: nat, i: int)
    requires
        t.layers <= 8,
        t.len == body.len(),
        0 <= i < body.len(),
        forall|k: nat|
            k < n && t.slot(k) is Some && (#[trigger] t.slot(k)).unwrap().covers(i) ==> bit_of(
                data[k as int],
                (i - t.slot(k).unwrap().index) as u8,
            ) == bit_of(body[i], t.slot(k).unwrap().plane()),
    ensures
        t.embed(body, data, n)[i] == body[i],
    decreases n,
{
    if n > 0 {
        let last = (n - 1) as nat;
        lemma_embed_keeps_byte(t, body, data, last, i);
        t.lemma_embed_len(body, data, last);
        if t.slot(last) is Some {
            let slot = t.slot(last).unwrap();
            t.lemma_slot_admitted(last);
            if slot.covers(i) {
                lemma_with_bit_unchanged(body[i], slot.plane());
            }
        }
    }
}

/// Embedding leaves alone every pixel byte that the walk does not pass.
pub proof fn lemma_embed_keeps_unvisited(
    t: Traversal,
    body: Seq<u8>,
    data: Seq<u8>,
    n: nat,
    i: int,
)
    requires
        t.layers <= 8,
        t.len == body.len(),
        0 <= i < body.len(),
        !t.visits(n, i),
    ensures
        t.embed(body, data, n)[i] == body[i],
{
    lemma_embed_keeps_byte(t, body, data, n, i);
}

/// Padding. A filler byte at the end of a pixel row keeps its value through
/// embedding wherever every bit that the walk stores in it is the bit that
/// it held; so does every filler byte that the walk does not pass.
pub proof fn lemma_row_padding_kept(img: ImageView, payload: Seq<u8>, layers: nat, i: int)
    requires
        1 <= layers <= 8,
        img.in_row_padding(i),
        forall|k: nat|
            k < envelope(payload).len() && img.traversal(layers).slot(k) is Some && (
            #[trigger] img.traversal(layers).slot(k)).unwrap().covers(i) ==> bit_of(
                envelope(payload)[k as int],
                (i - img.traversal(layers).slot(k).unwrap().index) as u8,
            ) == bit_of(img.pixels[i], img.traversal(layers).slot(k).unwrap().plane()),
    ensures
        img.embedded(payload, layers).pixels[i] == img.pixels[i],
{
    lemma_embed_keeps_byte(
        img.traversal(layers),
        img.pixels,
        envelope(payload),
        envelope(payload).len(),
        i,
    );
}

/// Embedding changes no bit of a plane that is not in use.
pub proof fn lemma_embed_keeps_upper_planes(
    t: Traversal,
    body: Seq<u8>,
    data: Seq<u8>,
    n: nat,
    i: int,
    pos: u8,
)
    requires
        t.layers <= pos < 8,
        t.len == body.len(),
        0 <= i < body.len(),
    ensures
        bit_of(t.embed(body, data, n)[i], pos) == bit_of(body[i], pos),
    decreases n,
{
    if n > 0 {
        let last = (n - 1) as nat;
        let before = t.embed(body, data, last);
        lemma_embed_keeps_upper_planes(t, body, data, last, i, pos);
        t.lemma_embed_len(body, data, last);
        if t.slot(last) is Some {
            let slot = t.slot(last).unwrap();
            t.lemma_slot_admitted(last);
            if slot.covers(i) {
                lemma_bit_is_binary(data[last as int], (i - slot.index) as u8);
                lemma_with_bit_other(
                    before[i],
                    slot.plane(),
                    bit_of(data[last as int], (i - slot.index) as u8),
                    pos,
                );
            }
        }
    }
}

} // verus!
