//! The bit-plane codec: how many bytes an image can carry, writing a
//! length-prefixed message into its pixel data, and reading one back.

use crate::container::{le_bytes_u32, le_u32, read_u32_le, write_u32_le, BmpImage, ImageView};
use crate::error::ImageError;
use crate::plane::{load_byte, loaded, store_byte, stored, Slot};
use crate::traversal::{Traversal, Walker};
use vstd::prelude::*;
use vstd::slice::slice_to_vec;
use vstd::utf8::{decode_utf8, encode_utf8, valid_utf8};

verus! {

/// The number of bytes in front of a message that state its length.
pub const PREFIX_LEN: usize = 4;

/// The number of message bytes that an image of the given size carries in
/// `layers` bit planes: one bit per pixel byte and plane, less the length
/// prefix. Negative for an image too small to hold the prefix.
pub open spec fn capacity_of(width: nat, height: nat, bits_per_pixel: nat, layers: nat) -> int {
    ((width * height * (bits_per_pixel / 8)) / 8 - 4) * layers
}

/// The four bytes that state a message's length, least significant first.
/// A length of more than 32 bits is cut to its low 32 bits.
pub open spec fn length_prefix(len: nat) -> Seq<u8> {
    le_bytes_u32((len % 0x1_0000_0000) as u32)
}

/// What is written for a message: its length, then its bytes.
pub open spec fn envelope(payload: Seq<u8>) -> Seq<u8> {
    length_prefix(payload.len()) + payload
}

/// Why a message was not embedded.
pub open spec fn reason_too_long() -> Seq<char> {
    "message length exceeds capacity"@
}

/// Why no length or no message could be read.
pub open spec fn reason_exhausted() -> Seq<char> {
    "pixel data exhausted"@
}

/// Why a length that was read is not believed.
pub open spec fn reason_implausible() -> Seq<char> {
    "declared length exceeds capacity"@
}

/// Why the bytes that were read are not a message.
pub open spec fn reason_not_text() -> Seq<char> {
    "message is not valid UTF-8"@
}

impl Traversal {
    /// The buffer after the first `n` bytes of `data` are stored along the
    /// walk. Bytes for which the walk has no slot are not stored.
    pub open spec fn embed(self, body: Seq<u8>, data: Seq<u8>, n: nat) -> Seq<u8>
        decreases n,
    {
        if n == 0 {
            body
        } else {
            let before = self.embed(body, data, (n - 1) as nat);
            match self.slot((n - 1) as nat) {
                Some(slot) => stored(before, slot, data[n - 1]),
                None => before,
            }
        }
    }

    /// The `n` bytes read along the walk from message byte `from` on, or
    /// `None` when the walk has no slot for one of them or for one before.
    pub open spec fn read(self, body: Seq<u8>, from: nat, n: nat) -> Option<Seq<u8>> {
        if self.fits(from + n) {
            Some(Seq::new(n, |j: int| loaded(body, self.slot((from + j) as nat).unwrap())))
        } else {
            None
        }
    }

    /// Once the walk is exhausted nothing more is stored.
    pub proof fn lemma_embed_exhausted(self, body: Seq<u8>, data: Seq<u8>, k: nat, n: nat)
        requires
            k <= n,
            self.slot(k) is None,
        ensures
            self.embed(body, data, n) == self.embed(body, data, k),
        decreases n,
    {
        if k < n {
            if self.slot((n - 1) as nat) is Some {
                self.lemma_slot_prefix(k, (n - 1) as nat);
            }
            self.lemma_embed_exhausted(body, data, k, (n - 1) as nat);
        }
    }

    /// Storing keeps the length of the buffer.
    pub proof fn lemma_embed_len(self, body: Seq<u8>, data: Seq<u8>, n: nat)
        ensures
            self.embed(body, data, n).len() == body.len(),
        decreases n,
    {
        if n > 0 {
            self.lemma_embed_len(body, data, (n - 1) as nat);
        }
    }
}

impl ImageView {
    /// The number of message bytes that the image carries in `layers` bit
    /// planes.
    pub open spec fn capacity(self, layers: nat) -> int {
        capacity_of(
            self.header.width as nat,
            self.header.height as nat,
            self.header.bits_per_pixel as nat,
            layers,
        )
    }

    /// The walk over the image's pixel data with `layers` bit planes in use.
    pub open spec fn traversal(self, layers: nat) -> Traversal {
        Traversal {
            width: self.header.width as nat,
            padding: self.padding,
            len: self.pixels.len(),
            layers,
        }
    }

    /// The image with `payload` embedded in `layers` bit planes: the pixel
    /// data takes the envelope along the walk, all else stays.
    pub open spec fn embedded(self, payload: Seq<u8>, layers: nat) -> ImageView {
        ImageView {
            pixels: self.traversal(layers).embed(
                self.pixels,
                envelope(payload),
                envelope(payload).len(),
            ),
            ..self
        }
    }

    /// The message length that the first four bytes along the walk state,
    /// or `None` when the pixel data is too short to hold them.
    pub open spec fn declared_length(self, layers: nat) -> Option<u32> {
        match self.traversal(layers).read(self.pixels, 0, 4) {
            Some(prefix) => Some(le_u32(prefix, 0)),
            None => None,
        }
    }

    /// The message bytes that the image holds in `layers` bit planes, or
    /// `None` when no length can be read, the length exceeds the capacity,
    /// or the pixel data ends before the message does.
    pub open spec fn payload(self, layers: nat) -> Option<Seq<u8>> {
        match self.declared_length(layers) {
            Some(len) => if len > self.capacity(layers) {
                None
            } else {
                self.traversal(layers).read(self.pixels, 4, len as nat)
            },
            None => None,
        }
    }

    /// The text that the image holds in `layers` bit planes: its message
    /// bytes read as UTF-8, where there are any and they are text.
    pub open spec fn text(self, layers: nat) -> Option<Seq<char>> {
        match self.payload(layers) {
            Some(bytes) => if valid_utf8(bytes) {
                Some(decode_utf8(bytes))
            } else {
                None
            },
            None => None,
        }
    }
}

/// Stores `data` in `body` along the walk that `width`, `padding` and
/// `layers` give, as far as the walk has slots.
pub fn embed_bytes(body: &mut Vec<u8>, data: &[u8], width: u32, padding: u32, layers: u8)
    requires
        layers <= 8,
    ensures
        final(body)@.len() == old(body)@.len(),
        final(body)@ == (Traversal {
            width: width as nat,
            padding: padding as nat,
            len: old(body)@.len(),
            layers: layers as nat,
        }).embed(old(body)@, data@, data@.len()),
{
    let ghost before = body@;
    let ghost t = Traversal {
        width: width as nat,
        padding: padding as nat,
        len: before.len(),
        layers: layers as nat,
    };
    let mut walker = Walker::start(width, padding, body.len(), layers);
    let mut at = walker.slot();
    let mut k: usize = 0;
    while k < data.len() && at.is_some()
        invariant
            k <= data.len(),
            walker.inv(),
            walker.traversal() == t,
            walker.taken() == k,
            t.len == before.len(),
            body.len() == before.len(),
            body@ == t.embed(before, data@, k as nat),
            match at {
                Some((index, layer)) => t.slot(k as nat) == Some(
                    Slot { index: index as nat, layer: layer as nat },
                ) && 1 <= layer <= 8 && index + 8 <= t.len,
                None => t.slot(k as nat) is None,
            },
        decreases data.len() - k,
    {
        let (index, layer) = at.unwrap();
        store_byte(body, index, layer, data[k]);
        walker.advance();
        k += 1;
        at = walker.slot();
    }
    proof {
        if k < data.len() {
            t.lemma_embed_exhausted(before, data@, k as nat, data@.len());
        }
    }
}

/// Reads the next `n` bytes along the walk, or nothing when the walk runs
/// out of slots first.
pub fn read_bytes(body: &[u8], walker: &mut Walker, n: usize) -> (bytes: Option<Vec<u8>>)
    requires
        old(walker).inv(),
        old(walker).traversal().len == body@.len(),
    ensures
        final(walker).inv(),
        final(walker).traversal() == old(walker).traversal(),
        match bytes {
            Some(bytes) => {
                &&& old(walker).traversal().read(body@, old(walker).taken(), n as nat) == Some(
                    bytes@,
                )
                &&& final(walker).taken() == old(walker).taken() + n
            },
            None => old(walker).traversal().read(body@, old(walker).taken(), n as nat) is None,
        },
{
    let ghost t = walker.traversal();
    let ghost from = walker.taken();
    let mut bytes: Vec<u8> = Vec::new();
    let mut j: usize = 0;
    proof {
        walker.lemma_taken_fits();
    }
    while j < n
        invariant
            j <= n,
            walker.inv(),
            walker.traversal() == t,
            walker.taken() == from + j,
            t == old(walker).traversal(),
            from == old(walker).taken(),
            t.len == body@.len(),
            bytes.len() == j,
            t.fits((from + j) as nat),
            forall|p: int|
                0 <= p < j ==> bytes@[p] == loaded(
                    body@,
                    #[trigger] t.slot((from + p) as nat).unwrap(),
                ),
        decreases n - j,
    {
        match walker.slot() {
            Some((index, layer)) => {
                bytes.push(load_byte(body, index, layer));
                walker.advance();
                j += 1;
            },
            None => {
                proof {
                    if t.fits((from + n) as nat) {
                        t.lemma_slot_prefix((from + j) as nat, (from + n - 1) as nat);
                    }
                }
                return None;
            },
        }
    }
    proof {
        assert(bytes@ =~= Seq::new(
            n as nat,
            |j: int| loaded(body@, t.slot((from + j) as nat).unwrap()),
        ));
    }
    Some(bytes)
}

/// `String::from_utf8`: the text that `bytes` spell in UTF-8. The call
/// succeeds exactly when the bytes are well-formed UTF-8, and the text then
/// consists of those very bytes.
#[verifier::external_body]
pub(crate) fn text_from_utf8(bytes: Vec<u8>) -> (text: Option<String>)
    ensures
        match text {
            Some(text) => valid_utf8(bytes@) && encode_utf8(text@) == bytes@,
            None => !valid_utf8(bytes@),
        },
{
    match String::from_utf8(bytes) {
        Ok(text) => Some(text),
        Err(_) => None,
    }
}

/// The capacity as a wide integer, whatever its sign and size.
fn wide_capacity(img: &BmpImage, layer: u8) -> (capacity: i128)
    ensures
        capacity == img@.capacity(layer as nat),
{
    let width: u128 = img.header.width() as u128;
    let height: u128 = img.header.height() as u128;
    let pixel: u128 = (img.header.bits_per_pixel() / 8) as u128;
    assert(width * height <= 0xffff_ffff * 0xffff_ffff) by (nonlinear_arith)
        requires
            width <= 0xffff_ffff,
            height <= 0xffff_ffff,
    ;
    let pixels: u128 = width * height;
    assert(pixels * pixel <= 0xffff_ffff * 0xffff_ffff * 0x1fff) by (nonlinear_arith)
        requires
            pixels <= 0xffff_ffff * 0xffff_ffff,
            pixel <= 0x1fff,
    ;
    let bits: u128 = pixels * pixel;
    let base: i128 = (bits / 8) as i128 - 4;
    assert(-4 * 255 <= base * layer <= 0xffff_ffff * 0xffff_ffff * 0x1fff * 255)
        by (nonlinear_arith)
        requires
            -4 <= base <= 0xffff_ffff * 0xffff_ffff * 0x1fff,
            0 <= layer <= 255,
    ;
    base * (layer as i128)
}

/// The number of message bytes that `img` carries in `layer` bit planes,
/// where that number is one that a length can be.
pub fn checked_capacity(img: &BmpImage, layer: u8) -> (capacity: Option<usize>)
    ensures
        match capacity {
            Some(capacity) => capacity == img@.capacity(layer as nat),
            None => img@.capacity(layer as nat) < 0 || img@.capacity(layer as nat) > usize::MAX,
        },
{
    let wide: i128 = wide_capacity(img, layer);
    if 0 <= wide && wide <= usize::MAX as i128 {
        Some(wide as usize)
    } else {
        None
    }
}

/// The number of message bytes that `img` carries in `layer` bit planes.
pub fn get_steganography_capacity(img: &BmpImage, layer: u8) -> (capacity: usize)
    requires
        0 <= img@.capacity(layer as nat) <= usize::MAX,
    ensures
        capacity == img@.capacity(layer as nat),
{
    wide_capacity(img, layer) as usize
}

/// Embeds `message` in the pixel data of `img`, using `layer` bit planes.
///
/// A message longer than the capacity is refused and the image left as it
/// was. Otherwise the envelope is stored along the walk; should the pixel
/// data end before the envelope does, the part that found room stays stored.
pub fn hide_in_place(img: &mut BmpImage, message: &str, layer: u8) -> (r: Result<(), ImageError>)
    requires
        1 <= layer <= 8,
    ensures
        match r {
            Ok(_) => {
                &&& encode_utf8(message@).len() <= old(img)@.capacity(layer as nat)
                &&& final(img)@ == old(img)@.embedded(encode_utf8(message@), layer as nat)
                &&& final(img)@.header == old(img)@.header
                &&& final(img)@.leading == old(img)@.leading
                &&& final(img)@.padding == old(img)@.padding
                &&& final(img)@.pixels.len() == old(img)@.pixels.len()
            },
            Err(ImageError::ParseError(reason)) => {
                &&& encode_utf8(message@).len() > old(img)@.capacity(layer as nat)
                &&& final(img)@ == old(img)@
                &&& reason@ == reason_too_long()
            },
            Err(_) => false,
        },
{
    let payload = message.as_bytes();
    if payload.len() as i128 > wide_capacity(img, layer) {
        return Err(ImageError::ParseError("message length exceeds capacity".to_string()));
    }
    let mut data: Vec<u8> = write_u32_le((payload.len() as u64 % 0x1_0000_0000) as u32);
    let mut tail: Vec<u8> = slice_to_vec(payload);
    data.append(&mut tail);
    assert(data@ =~= envelope(encode_utf8(message@)));
    let width: u32 = img.header.width();
    let padding: u32 = img.extra_info.padding();
    proof {
        img@.traversal(layer as nat).lemma_embed_len(img@.pixels, data@, data@.len());
    }
    embed_bytes(&mut img.raw_body, data.as_slice(), width, padding, layer);
    Ok(())
}

/// Embeds `message` in the pixel data of `img`, using `layer` bit planes,
/// and hands the image back.
pub fn hide_message(img: BmpImage, message: &str, layer: u8) -> (r: Result<BmpImage, ImageError>)
    requires
        1 <= layer <= 8,
    ensures
        match r {
            Ok(out) => {
                &&& encode_utf8(message@).len() <= img@.capacity(layer as nat)
                &&& out@ == img@.embedded(encode_utf8(message@), layer as nat)
                &&& out@.header == img@.header
                &&& out@.leading == img@.leading
                &&& out@.padding == img@.padding
                &&& out@.pixels.len() == img@.pixels.len()
            },
            Err(ImageError::ParseError(reason)) => {
                &&& encode_utf8(message@).len() > img@.capacity(layer as nat)
                &&& reason@ == reason_too_long()
            },
            Err(_) => false,
        },
{
    let mut img = img;
    match hide_in_place(&mut img, message, layer) {
        Ok(_) => Ok(img),
        Err(e) => Err(e),
    }
}

/// Reads the message that `img` holds in `layer` bit planes.
///
/// The first four bytes along the walk state the length. A length above the
/// capacity is not believed; pixel data that ends before the length or the
/// message does, and bytes that are no UTF-8 text, are reported as well.
pub fn extract(img: &BmpImage, layer: u8) -> (r: Result<String, ImageError>)
    requires
        1 <= layer <= 8,
    ensures
        match r {
            Ok(text) => img@.text(layer as nat) == Some(text@),
            Err(ImageError::ParseError(reason)) => match img@.payload(layer as nat) {
                Some(bytes) => !valid_utf8(bytes) && reason@ == reason_not_text(),
                None => match img@.declared_length(layer as nat) {
                    Some(len) => reason@ == if len > img@.capacity(layer as nat) {
                        reason_implausible()
                    } else {
                        reason_exhausted()
                    },
                    None => reason@ == reason_exhausted(),
                },
            },
            Err(_) => false,
        },
{
    let body = img.raw_body.as_slice();
    let mut walker = Walker::start(
        img.header.width(),
        img.extra_info.padding(),
        body.len(),
        layer,
    );
    let prefix = match read_bytes(body, &mut walker, PREFIX_LEN) {
        Some(prefix) => prefix,
        None => {
            return Err(ImageError::ParseError("pixel data exhausted".to_string()));
        },
    };
    let len: u32 = read_u32_le(prefix.as_slice(), 0);
    if len as i128 > wide_capacity(img, layer) {
        return Err(ImageError::ParseError("declared length exceeds capacity".to_string()));
    }
    let bytes = match read_bytes(body, &mut walker, len as usize) {
        Some(bytes) => bytes,
        None => {
            return Err(ImageError::ParseError("pixel data exhausted".to_string()));
        },
    };
    let ghost payload = bytes@;
    match text_from_utf8(bytes) {
        Some(text) => {
            proof {
                vstd::utf8::encode_utf8_decode_utf8(text@);
            }
            Ok(text)
        },
        None => Err(ImageError::ParseError("message is not valid UTF-8".to_string())),
    }
}

} // verus!
