use dmi::encode::{check_size, create_png, encode_png, encoded};
use dmi::error::DmiError;
use dmi::resize::{resize_request, select_filter, ResizeFilter, ResizeRequest};

fn decode(stream: &[u8]) -> (u32, u32, png::ColorType, png::BitDepth, Vec<u8>) {
    let decoder = png::Decoder::new(stream);
    let mut reader = decoder.read_info().unwrap();
    let mut buf = vec![0; reader.output_buffer_size()];
    let info = reader.next_frame(&mut buf).unwrap();
    buf.truncate(info.buffer_size());
    (info.width, info.height, info.color_type, info.bit_depth, buf)
}

#[test]
fn pixel_text_becomes_a_png() {
    let stream = create_png(b"2", b"1", b"X00FF00X0000FF").unwrap();
    assert_eq!(&stream[..8], &[137, 80, 78, 71, 13, 10, 26, 10]);
    let (w, h, color, depth, pixels) = decode(&stream);
    assert_eq!((w, h), (2, 1));
    assert_eq!(color, png::ColorType::Rgb);
    assert_eq!(depth, png::BitDepth::Eight);
    assert_eq!(pixels, vec![0x00, 0xFF, 0x00, 0x00, 0x00, 0xFF]);
}

#[test]
fn rows_are_kept_in_order() {
    let pixels: Vec<u8> = (0..(3 * 4 * 5) as u8).collect();
    let stream = encode_png(4, 5, &pixels).unwrap();
    assert_ne!(stream, pixels);
    let (w, h, _, _, back) = decode(&stream);
    assert_eq!((w, h), (4, 5));
    assert_eq!(back, pixels);
}

#[test]
fn same_input_gives_the_same_stream() {
    let a = create_png(b"1", b"2", b"#102030#405060").unwrap();
    let b = create_png(b"1", b"2", b"#102030#405060").unwrap();
    assert_eq!(a, b);
}

#[test]
fn dimensions_must_be_unsigned_integers() {
    assert_eq!(create_png(b"two", b"1", b"X00FF00X0000FF"), Err(DmiError::InvalidDimension));
    assert_eq!(create_png(b"2", b"", b"X00FF00X0000FF"), Err(DmiError::InvalidDimension));
    assert_eq!(create_png(b"-2", b"1", b"X00FF00X0000FF"), Err(DmiError::InvalidDimension));
    assert_eq!(create_png(b"x", b"1", b"bad"), Err(DmiError::InvalidDimension));
}

#[test]
fn pixel_text_is_checked_before_the_size() {
    assert_eq!(
        create_png(b"5", b"5", b"X00FF00X0000F"),
        Err(DmiError::InvalidPixelData { offset: 13 })
    );
    assert_eq!(
        create_png(b"0", b"0", b"X00FF0z"),
        Err(DmiError::InvalidPixelData { offset: 0 })
    );
}

#[test]
fn buffer_must_fill_the_image() {
    assert_eq!(
        create_png(b"2", b"2", b"X00FF00X0000FF"),
        Err(DmiError::ImageSize { width: 2, height: 2, bytes: 6 })
    );
    assert_eq!(
        create_png(b"0", b"1", b""),
        Err(DmiError::ImageSize { width: 0, height: 1, bytes: 0 })
    );
    assert_eq!(
        create_png(b"1", b"0", b""),
        Err(DmiError::ImageSize { width: 1, height: 0, bytes: 0 })
    );
    assert_eq!(
        encode_png(4294967295, 4294967295, &[1, 2, 3]),
        Err(DmiError::ImageSize { width: 4294967295, height: 4294967295, bytes: 3 })
    );
}

#[test]
fn size_check() {
    assert!(check_size(2, 3, 18));
    assert!(!check_size(2, 3, 17));
    assert!(!check_size(2, 3, 6));
    assert!(!check_size(0, 3, 0));
    assert!(!check_size(3, 0, 0));
    assert!(check_size(1, 1, 3));
}

#[test]
fn filters_by_name() {
    assert_eq!(select_filter(b"catmull"), ResizeFilter::CatmullRom);
    assert_eq!(select_filter(b"gaussian"), ResizeFilter::Gaussian);
    assert_eq!(select_filter(b"lanczos3"), ResizeFilter::Lanczos3);
    assert_eq!(select_filter(b"nearest"), ResizeFilter::Nearest);
    assert_eq!(select_filter(b"triangle"), ResizeFilter::Triangle);
    assert_eq!(select_filter(b""), ResizeFilter::Nearest);
    assert_eq!(select_filter(b"Catmull"), ResizeFilter::Nearest);
    assert_eq!(select_filter(b"bicubic"), ResizeFilter::Nearest);
}

#[test]
fn resize_requests() {
    assert_eq!(
        resize_request(b"64", b"48", b"lanczos3"),
        Ok(ResizeRequest { width: 64, height: 48, filter: ResizeFilter::Lanczos3 })
    );
    assert_eq!(
        resize_request(b"0", b"0", b"whatever"),
        Ok(ResizeRequest { width: 0, height: 0, filter: ResizeFilter::Nearest })
    );
    assert_eq!(resize_request(b"64px", b"48", b"nearest"), Err(DmiError::InvalidDimension));
    assert_eq!(resize_request(b"64", b"4 8", b"nearest"), Err(DmiError::InvalidDimension));
}

#[test]
fn encoder_failure_keeps_its_message() {
    assert_eq!(
        encoded(Err(png::EncodingError::LimitsExceeded)),
        Err(DmiError::ImageEncoding { message: String::from("Limits are exceeded.") })
    );
    assert_eq!(encoded(Ok(vec![1, 2, 3])), Ok(vec![1, 2, 3]));
}
