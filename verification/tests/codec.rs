use image_steganography::codec::{embed_bytes, read_bytes};
use image_steganography::traversal::Walker;
use image_steganography::{
    checked_capacity, extract, get_steganography_capacity, hide_in_place, hide_message, BmpImage,
    ImageError,
};

fn bitmap(width: u32, height: u32, bits_per_pixel: u16, pixels: &[u8]) -> Vec<u8> {
    let mut file = Vec::new();
    file.extend_from_slice(b"BM");
    file.extend_from_slice(&(54 + pixels.len() as u32).to_le_bytes());
    file.extend_from_slice(&[0, 0, 0, 0]);
    file.extend_from_slice(&54u32.to_le_bytes());
    file.extend_from_slice(&40u32.to_le_bytes());
    file.extend_from_slice(&width.to_le_bytes());
    file.extend_from_slice(&height.to_le_bytes());
    file.extend_from_slice(&1u16.to_le_bytes());
    file.extend_from_slice(&bits_per_pixel.to_le_bytes());
    file.extend_from_slice(&0u32.to_le_bytes());
    file.extend_from_slice(&(pixels.len() as u32).to_le_bytes());
    file.extend_from_slice(&2835i32.to_le_bytes());
    file.extend_from_slice(&2835i32.to_le_bytes());
    file.extend_from_slice(&0u32.to_le_bytes());
    file.extend_from_slice(&0u32.to_le_bytes());
    file.extend_from_slice(pixels);
    file
}

fn image(width: u32, height: u32, bits_per_pixel: u16, pixels: &[u8]) -> BmpImage {
    BmpImage::try_from(bitmap(width, height, bits_per_pixel, pixels)).unwrap()
}

fn four_by_four() -> BmpImage {
    let pixels: Vec<u8> = (0..48u8).map(|i| i.wrapping_mul(37).wrapping_add(11)).collect();
    image(4, 4, 24, &pixels)
}

fn low_bits(pixels: &[u8], from: usize, plane: u8) -> Vec<u8> {
    pixels[from..from + 8].iter().map(|b| (b >> plane) & 1).collect()
}

#[test]
fn capacity_of_four_by_four_is_two_at_layer_one() {
    let img = four_by_four();
    assert_eq!(img.extra_info.padding(), 0);
    assert_eq!(get_steganography_capacity(&img, 1), 2);
    assert_eq!(checked_capacity(&img, 1), Some(2));
}

#[test]
fn single_byte_round_trips_at_layer_one() {
    let img = hide_message(four_by_four(), "A", 1).unwrap();
    assert_eq!(extract(&img, 1).unwrap(), "A");
}

#[test]
fn three_bytes_exceed_capacity_at_layer_one() {
    let r = hide_message(four_by_four(), "abc", 1);
    match r {
        Err(ImageError::ParseError(reason)) => {
            assert_eq!(reason, "message length exceeds capacity")
        }
        _ => panic!("a message above the capacity was not refused"),
    }
}

#[test]
fn layer_two_doubles_capacity() {
    let img = four_by_four();
    assert_eq!(get_steganography_capacity(&img, 2), 4);
}

#[test]
fn four_bytes_fit_layer_two_but_not_layer_one() {
    let img = hide_message(four_by_four(), "ABCD", 2).unwrap();
    assert_eq!(extract(&img, 2).unwrap(), "ABCD");
    assert!(matches!(
        hide_message(four_by_four(), "ABCD", 1),
        Err(ImageError::ParseError(_))
    ));
}

#[test]
fn other_layer_reports_implausible_length() {
    let img = hide_message(four_by_four(), "ABCD", 2).unwrap();
    match extract(&img, 1) {
        Err(ImageError::ParseError(reason)) => {
            assert_eq!(reason, "declared length exceeds capacity")
        }
        _ => panic!("a length above the capacity was believed"),
    }
}

#[test]
fn other_layer_never_panics() {
    for written in 1..=8u8 {
        let text = "x".repeat(get_steganography_capacity(&four_by_four(), written));
        let img = hide_message(four_by_four(), &text, written).unwrap();
        for read in 1..=8u8 {
            let got = extract(&img, read);
            if read == written {
                assert_eq!(got.unwrap(), text);
            } else if let Ok(other) = got {
                assert!(other.len() <= get_steganography_capacity(&img, read));
            }
        }
    }
}

#[test]
fn full_capacity_round_trips_at_every_layer() {
    for layer in 1..=8u8 {
        let capacity = get_steganography_capacity(&four_by_four(), layer);
        assert_eq!(capacity, 2 * layer as usize);
        let text: String = (0..capacity).map(|i| (b'a' + (i % 26) as u8) as char).collect();
        let img = hide_message(four_by_four(), &text, layer).unwrap();
        assert_eq!(extract(&img, layer).unwrap(), text);
    }
}

#[test]
fn capacity_grows_with_each_layer() {
    let img = four_by_four();
    for layer in 1..8u8 {
        assert!(
            get_steganography_capacity(&img, layer + 1) > get_steganography_capacity(&img, layer)
        );
    }
}

#[test]
fn capacity_follows_the_formula() {
    let img = image(10, 7, 24, &vec![0u8; 32 * 7]);
    assert_eq!(img.extra_info.padding(), 2);
    // 10 * 7 * 3 = 210 pixel bytes, 210 / 8 = 26, less the prefix 22
    assert_eq!(get_steganography_capacity(&img, 1), 22);
    assert_eq!(get_steganography_capacity(&img, 3), 66);
    assert_eq!(get_steganography_capacity(&img, 0), 0);
}

#[test]
fn capacity_of_a_tiny_image_is_no_length() {
    let img = image(2, 2, 24, &[0u8; 16]);
    assert_eq!(checked_capacity(&img, 1), None);
    assert_eq!(checked_capacity(&img, 8), None);
    let exact = image(4, 4, 16, &[0u8; 32]);
    assert_eq!(checked_capacity(&exact, 1), Some(0));
    assert_eq!(checked_capacity(&exact, 2), Some(0));
}

#[test]
fn tiny_image_refuses_even_the_empty_message() {
    let img = image(2, 2, 24, &[0u8; 16]);
    assert!(matches!(hide_message(img, "", 1), Err(ImageError::ParseError(_))));
}

#[test]
fn message_bits_go_least_significant_first() {
    let img = hide_message(image(4, 4, 24, &[0u8; 48]), "A", 1).unwrap();
    // the length 1, then three zero bytes, then 'A' = 0b0100_0001
    assert_eq!(&img.raw_body[0..8], &[1, 0, 0, 0, 0, 0, 0, 0]);
    assert_eq!(&img.raw_body[8..32], &[0u8; 24]);
    assert_eq!(&img.raw_body[32..40], &[1, 0, 0, 0, 0, 0, 1, 0]);
    assert_eq!(&img.raw_body[40..48], &[0u8; 8]);
}

#[test]
fn embedding_clears_only_the_plane_in_use() {
    let img = hide_message(image(4, 4, 24, &[0xffu8; 48]), "A", 1).unwrap();
    assert_eq!(&img.raw_body[0..8], &[0xff, 0xfe, 0xfe, 0xfe, 0xfe, 0xfe, 0xfe, 0xfe]);
    assert_eq!(&img.raw_body[32..40], &[0xff, 0xfe, 0xfe, 0xfe, 0xfe, 0xfe, 0xff, 0xfe]);
    assert_eq!(&img.raw_body[40..48], &[0xffu8; 8]);
}

#[test]
fn second_layer_starts_over_at_byte_32() {
    let img = hide_message(image(4, 4, 24, &[0u8; 48]), "ABCD", 2).unwrap();
    // six bytes fill the first plane: length 4, 'A', 'B'
    assert_eq!(low_bits(&img.raw_body, 0, 0), vec![0, 0, 1, 0, 0, 0, 0, 0]);
    assert_eq!(low_bits(&img.raw_body, 32, 0), vec![1, 0, 0, 0, 0, 0, 1, 0]);
    assert_eq!(low_bits(&img.raw_body, 40, 0), vec![0, 1, 0, 0, 0, 0, 1, 0]);
    // 'C' and 'D' follow in the second plane, from pixel byte 32 on
    assert_eq!(low_bits(&img.raw_body, 0, 1), vec![0; 8]);
    assert_eq!(low_bits(&img.raw_body, 24, 1), vec![0; 8]);
    assert_eq!(low_bits(&img.raw_body, 32, 1), vec![1, 1, 0, 0, 0, 0, 1, 0]);
    assert_eq!(low_bits(&img.raw_body, 40, 1), vec![0, 0, 1, 0, 0, 0, 1, 0]);
    for byte in img.raw_body.iter() {
        assert_eq!(byte >> 2, 0);
    }
}

#[test]
fn padding_is_skipped_after_each_width_th_byte() {
    // width 3 at 24 bits: rows of 9 bytes and 3 filler bytes
    let img = image(3, 8, 24, &[0u8; 96]);
    assert_eq!(img.extra_info.padding(), 3);
    assert_eq!(get_steganography_capacity(&img, 1), 5);
    let img = hide_message(img, "\u{7f}\u{7f}\u{7f}\u{7f}\u{7f}", 1).unwrap();
    // byte 0 (the length 5) at 0, then two bytes passed over
    assert_eq!(&img.raw_body[0..10], &[1, 0, 1, 0, 0, 0, 0, 0, 0, 0]);
    // bytes 1 to 3 of the length are zero: 10..34; two more passed over after byte 3
    assert_eq!(&img.raw_body[10..36], &[0u8; 26]);
    // bytes 4, 5, 6 of the envelope at 36, 44, 52
    for at in [36, 44, 52] {
        assert_eq!(&img.raw_body[at..at + 8], &[1, 1, 1, 1, 1, 1, 1, 0]);
    }
    // two passed over after byte 6, then bytes 7 and 8 at 62 and 70
    assert_eq!(&img.raw_body[60..62], &[0, 0]);
    assert_eq!(&img.raw_body[62..78], &[1, 1, 1, 1, 1, 1, 1, 0, 1, 1, 1, 1, 1, 1, 1, 0]);
    assert_eq!(&img.raw_body[78..96], &[0u8; 18]);
    assert_eq!(extract(&img, 1).unwrap(), "\u{7f}\u{7f}\u{7f}\u{7f}\u{7f}");
}

#[test]
fn padded_image_round_trips() {
    let pixels: Vec<u8> = (0..32 * 7).map(|i| (i * 7 % 251) as u8).collect();
    let img = image(10, 7, 24, &pixels);
    let text: String = (0..22u8).map(|i| (b'A' + i) as char).collect();
    let img = hide_message(img, &text, 1).unwrap();
    assert_eq!(extract(&img, 1).unwrap(), text);
    for layer in 1..=2u8 {
        let img = image(3, 8, 24, &pixels[..96]);
        let capacity = get_steganography_capacity(&img, layer);
        assert_eq!(capacity, 5 * layer as usize);
        let text: String = (0..capacity).map(|i| (b'a' + i as u8) as char).collect();
        let img = hide_message(img, &text, layer).unwrap();
        assert_eq!(extract(&img, layer).unwrap(), text);
    }
}

#[test]
fn padded_image_may_end_inside_a_slot() {
    // 224 pixel bytes; after 27 bytes and three skips the walk stands at 219
    let img = image(10, 7, 24, &[0u8; 224]);
    assert_eq!(get_steganography_capacity(&img, 2), 44);
    let text = "z".repeat(44);
    let img = hide_message(img, &text, 2).unwrap();
    assert_eq!(&img.raw_body[219..224], &[0u8; 5]);
    for byte in img.raw_body.iter() {
        assert_eq!(byte >> 1, 0);
    }
    assert!(matches!(extract(&img, 2), Err(ImageError::ParseError(_))));
}

#[test]
fn text_beyond_ascii_round_trips() {
    let img = image(8, 8, 24, &[0x5au8; 192]);
    assert_eq!(get_steganography_capacity(&img, 1), 20);
    let text = "gr\u{fc}\u{df} \u{4f60}\u{597d} \u{1f600}";
    assert_eq!(text.len(), 18);
    let img = hide_message(img, text, 1).unwrap();
    assert_eq!(extract(&img, 1).unwrap(), text);
}

#[test]
fn empty_message_round_trips() {
    let img = hide_message(four_by_four(), "", 1).unwrap();
    assert_eq!(extract(&img, 1).unwrap(), "");
}

#[test]
fn refused_message_leaves_the_image_alone() {
    let mut img = four_by_four();
    let header = img.raw_header.clone();
    let body = img.raw_body.clone();
    let r = hide_in_place(&mut img, "abc", 1);
    assert!(matches!(r, Err(ImageError::ParseError(_))));
    assert_eq!(img.raw_header, header);
    assert_eq!(img.raw_body, body);
}

#[test]
fn embedding_keeps_header_and_length() {
    let before = four_by_four();
    let header = before.raw_header.clone();
    let len = before.raw_body.len();
    let img = hide_message(before, "hi", 1).unwrap();
    assert_eq!(img.raw_header, header);
    assert_eq!(img.raw_body.len(), len);
    assert_eq!(img.header.width(), 4);
    assert_eq!(img.header.height(), 4);
    assert_eq!(img.header.bits_per_pixel(), 24);
    assert_eq!(img.extra_info.padding(), 0);
}

#[test]
fn embedding_in_place_equals_embedding_by_value() {
    let mut here = four_by_four();
    hide_in_place(&mut here, "ok", 1).unwrap();
    let there = hide_message(four_by_four(), "ok", 1).unwrap();
    assert_eq!(here.raw_body, there.raw_body);
}

#[test]
fn walk_stops_where_the_pixel_data_ends() {
    // 44 pixel bytes: five slots in the first plane, and four bytes left over
    let img = image(4, 11, 8, &[0u8; 44]);
    assert_eq!(get_steganography_capacity(&img, 2), 2);
    let img = hide_message(img, "ab", 2).unwrap();
    assert_eq!(low_bits(&img.raw_body, 0, 0), vec![0, 1, 0, 0, 0, 0, 0, 0]);
    assert_eq!(low_bits(&img.raw_body, 32, 0), vec![1, 0, 0, 0, 0, 1, 1, 0]);
    assert_eq!(&img.raw_body[40..44], &[0, 0, 0, 0]);
    for byte in img.raw_body.iter() {
        assert_eq!(byte >> 1, 0);
    }
    match extract(&img, 2) {
        Err(ImageError::ParseError(reason)) => assert_eq!(reason, "pixel data exhausted"),
        _ => panic!("a message was read past the end of the pixel data"),
    }
}

#[test]
fn image_too_short_for_a_length_is_reported() {
    let img = image(100, 100, 24, &[0u8; 31]);
    match extract(&img, 1) {
        Err(ImageError::ParseError(reason)) => assert_eq!(reason, "pixel data exhausted"),
        _ => panic!("a length was read from 31 pixel bytes"),
    }
    // three bytes of the length 5 find a slot, the fourth does not
    let img = hide_message(img, "hello", 1).unwrap();
    assert_eq!(&img.raw_body[0..8], &[1, 0, 1, 0, 0, 0, 0, 0]);
    assert_eq!(&img.raw_body[8..31], &[0u8; 23]);
}

#[test]
fn bytes_that_are_no_text_are_reported() {
    let mut pixels = [0u8; 48];
    pixels[0] = 1;
    for i in 32..40 {
        pixels[i] = 1;
    }
    match extract(&image(4, 4, 24, &pixels), 1) {
        Err(ImageError::ParseError(reason)) => assert_eq!(reason, "message is not valid UTF-8"),
        _ => panic!("the byte 0xff was taken for text"),
    }
}

#[test]
fn untouched_image_holds_what_its_bits_spell() {
    let mut pixels = [0u8; 48];
    pixels[0] = 0xab;
    for (j, bit) in [0u8, 0, 0, 1, 0, 1, 1, 0].iter().enumerate() {
        pixels[32 + j] = 0x40 | bit;
    }
    assert_eq!(extract(&image(4, 4, 24, &pixels), 1).unwrap(), "h");
}

#[test]
fn bytes_are_embedded_along_the_walk() {
    let mut body = vec![0u8; 24];
    embed_bytes(&mut body, &[0xff, 0x01, 0x80, 0xaa], 0, 0, 1);
    assert_eq!(&body[0..8], &[1u8; 8]);
    assert_eq!(&body[8..16], &[1, 0, 0, 0, 0, 0, 0, 0]);
    assert_eq!(&body[16..24], &[0, 0, 0, 0, 0, 0, 0, 1]);
}

#[test]
fn bytes_are_read_along_the_walk() {
    let mut body = vec![0u8; 80];
    let data: Vec<u8> = (1..=12u8).collect();
    embed_bytes(&mut body, &data, 2, 3, 2);
    let mut walker = Walker::start(2, 3, body.len(), 2);
    assert_eq!(read_bytes(&body, &mut walker, 5), Some(vec![1, 2, 3, 4, 5]));
    assert_eq!(read_bytes(&body, &mut walker, 7), Some(vec![6, 7, 8, 9, 10, 11, 12]));
    let mut walker = Walker::start(2, 3, body.len(), 2);
    assert_eq!(read_bytes(&body, &mut walker, 200), None);
}

#[test]
fn walker_follows_skip_and_rollover() {
    let mut walker = Walker::start(2, 3, 64, 2);
    let mut seen = Vec::new();
    while let Some(at) = walker.slot() {
        seen.push(at);
        walker.advance();
    }
    assert_eq!(
        seen,
        vec![
            (0, 1),
            (10, 1),
            (18, 1),
            (28, 1),
            (36, 1),
            (46, 1),
            (54, 1),
            (32, 2),
            (40, 2),
            (50, 2)
        ]
    );
}

#[test]
fn walker_stops_short_of_a_slot_that_does_not_fit() {
    let mut walker = Walker::start(2, 3, 60, 2);
    let mut seen = Vec::new();
    while let Some(at) = walker.slot() {
        seen.push(at);
        walker.advance();
    }
    assert_eq!(seen, vec![(0, 1), (10, 1), (18, 1), (28, 1), (36, 1), (46, 1)]);
}

#[test]
fn walker_without_planes_or_room_has_no_slot() {
    assert_eq!(Walker::start(4, 0, 48, 0).slot(), None);
    assert_eq!(Walker::start(4, 0, 7, 1).slot(), None);
    assert_eq!(Walker::start(4, 0, 8, 1).slot(), Some((0, 1)));
}

#[test]
fn filler_bytes_that_the_walk_passes_are_written() {
    // rows of 9 pixel bytes and 3 filler bytes: 9, 10 and 11 end the first row
    let img = hide_message(image(3, 8, 24, &[0xffu8; 96]), "a", 1).unwrap();
    // the walk passes over 8 and 9, and stores a zero byte of the length from 10 on
    assert_eq!(img.raw_body[8], 0xff);
    assert_eq!(img.raw_body[9], 0xff);
    assert_eq!(img.raw_body[10], 0xfe);
    assert_eq!(img.raw_body[11], 0xfe);
    assert_eq!(extract(&img, 1).unwrap(), "a");
}

#[test]
fn filler_bytes_keep_a_bit_that_is_stored_again() {
    let img = hide_message(image(3, 8, 24, &[0xf0u8; 96]), "a", 1).unwrap();
    assert_eq!(&img.raw_body[9..12], &[0xf0, 0xf0, 0xf0]);
    // past the envelope nothing is stored
    assert_eq!(&img.raw_body[44..96], &[0xf0u8; 52]);
}

#[test]
fn image_without_filler_bytes_round_trips_whatever_fits() {
    // no padding, 64 pixel bytes: the capacity is 4 in each plane
    for layer in 1..=8u8 {
        let pixels: Vec<u8> = (0..64u8).map(|i| i.wrapping_mul(layer).wrapping_add(3)).collect();
        for len in 0..=4 * layer as usize {
            let text = "q".repeat(len);
            let img = hide_message(image(8, 8, 8, &pixels), &text, layer).unwrap();
            assert_eq!(extract(&img, layer).unwrap(), text);
            for (after, before) in img.raw_body.iter().zip(pixels.iter()) {
                assert_eq!((*after as u16) >> layer, (*before as u16) >> layer);
            }
        }
    }
}

#[test]
fn capacity_that_is_zero_does_not_grow() {
    let img = image(4, 4, 16, &[0u8; 32]);
    assert_eq!(get_steganography_capacity(&img, 1), 0);
    assert_eq!(get_steganography_capacity(&img, 8), 0);
    let img = hide_message(img, "", 1).unwrap();
    assert_eq!(extract(&img, 1).unwrap(), "");
}

#[test]
fn first_plane_round_trips_in_every_complete_image() {
    for bits in [8u16, 16, 24, 32, 64] {
        for width in 1..=13u32 {
            for height in 1..=9u32 {
                let row = width as usize * (bits / 8) as usize;
                let stride = row + (4 - row % 4) % 4;
                let pixels: Vec<u8> =
                    (0..stride * height as usize).map(|i| (i * 31 % 256) as u8).collect();
                let img = image(width, height, bits, &pixels);
                let capacity = match checked_capacity(&img, 1) {
                    Some(capacity) => capacity,
                    None => continue,
                };
                let text: String = (0..capacity).map(|i| (b'0' + (i % 10) as u8) as char).collect();
                let img = hide_message(img, &text, 1).unwrap();
                assert_eq!(extract(&img, 1).unwrap(), text);
            }
        }
    }
}
