use dmi::error::DmiError;
use dmi::pixel::{decode_pixels, hex_digit};

#[test]
fn decodes_two_groups() {
    let out = decode_pixels(b"X00FF00X0000FF").unwrap();
    assert_eq!(out, vec![0x00, 0xFF, 0x00, 0x00, 0x00, 0xFF]);
}

#[test]
fn length_thirteen_is_rejected() {
    let r = decode_pixels(b"X00FF00X0000F");
    assert_eq!(r, Err(DmiError::InvalidPixelData { offset: 13 }));
}

#[test]
fn empty_text_is_an_empty_buffer() {
    assert_eq!(decode_pixels(b""), Ok(vec![]));
}

#[test]
fn marker_character_is_ignored() {
    assert_eq!(decode_pixels(b"#a1B2c3"), Ok(vec![0xA1, 0xB2, 0xC3]));
    assert_eq!(decode_pixels(b"Za1B2c3"), Ok(vec![0xA1, 0xB2, 0xC3]));
    assert_eq!(decode_pixels(b"\0a1B2c3"), Ok(vec![0xA1, 0xB2, 0xC3]));
}

#[test]
fn bad_digit_reports_the_start_of_its_group() {
    assert_eq!(decode_pixels(b"X00GG00"), Err(DmiError::InvalidPixelData { offset: 0 }));
    assert_eq!(
        decode_pixels(b"X000000X00000g"),
        Err(DmiError::InvalidPixelData { offset: 7 })
    );
    assert_eq!(
        decode_pixels(b"X000000X000000X0 0000"),
        Err(DmiError::InvalidPixelData { offset: 14 })
    );
}

#[test]
fn first_bad_group_wins() {
    assert_eq!(
        decode_pixels(b"Xzz0000Xzz0000"),
        Err(DmiError::InvalidPixelData { offset: 0 })
    );
}

#[test]
fn a_sign_is_no_hex_digit() {
    assert_eq!(decode_pixels(b"X+F0000"), Err(DmiError::InvalidPixelData { offset: 0 }));
}

#[test]
fn output_has_three_bytes_per_group() {
    for groups in 0..20usize {
        let text: Vec<u8> = b"X102030".iter().copied().cycle().take(groups * 7).collect();
        let out = decode_pixels(&text).unwrap();
        assert_eq!(out.len(), 3 * text.len() / 7);
        for (j, b) in out.iter().enumerate() {
            assert_eq!(*b, [0x10u8, 0x20, 0x30][j % 3]);
        }
    }
}

#[test]
fn other_lengths_are_rejected() {
    for len in 1..40usize {
        if len % 7 == 0 {
            continue;
        }
        let text: Vec<u8> = b"X102030".iter().copied().cycle().take(len).collect();
        assert_eq!(decode_pixels(&text), Err(DmiError::InvalidPixelData { offset: len }));
    }
}

#[test]
fn hex_digits_have_their_values() {
    assert_eq!(hex_digit(b'0'), Some(0));
    assert_eq!(hex_digit(b'9'), Some(9));
    assert_eq!(hex_digit(b'a'), Some(10));
    assert_eq!(hex_digit(b'f'), Some(15));
    assert_eq!(hex_digit(b'A'), Some(10));
    assert_eq!(hex_digit(b'F'), Some(15));
    assert_eq!(hex_digit(b'g'), None);
    assert_eq!(hex_digit(b'G'), None);
    assert_eq!(hex_digit(b'/'), None);
    assert_eq!(hex_digit(b':'), None);
    assert_eq!(hex_digit(b'@'), None);
    assert_eq!(hex_digit(b'`'), None);
}
