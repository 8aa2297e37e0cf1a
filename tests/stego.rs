use subtxt::{
    check_output_format, check_output_path, decode_length, encode_text_len, native_byte_order,
    u64_to_bytes, ByteOrder, ColorModel, ImageBuffer, ImageFileFormat, StegoError,
};

fn image(width: u32, height: u32, alpha: u8) -> ImageBuffer {
    let mut data = Vec::new();
    for i in 0..(width * height) {
        data.push((i % 251) as u8);
        data.push((i * 7 % 256) as u8);
        data.push((i * 13 % 256) as u8);
        data.push(alpha);
    }
    ImageBuffer::new(width, height, ColorModel::Rgba8, data).unwrap()
}

fn payload(n: usize) -> Vec<u8> {
    (0..n).map(|i| (i * 31 % 256) as u8).collect()
}

#[test]
fn transparent_ten_by_five_round_trip() {
    let mut img = image(10, 5, 0);
    assert_eq!(img.available_bytes(), Some(150));
    let text = payload(100);
    assert_eq!(img.embed_payload(&text, true, ByteOrder::Little), Ok(()));
    assert_eq!(img.decode_text(ByteOrder::Little), Some(text.clone()));

    let mut lossy = image(10, 5, 0);
    assert_eq!(lossy.embed_payload(&text, false, ByteOrder::Little), Ok(()));
    let extracted = lossy.decode_text(ByteOrder::Little).unwrap();
    assert_eq!(extracted, text);

    lossy.alpha_max();
    assert!(lossy.data.iter().skip(3).step_by(4).all(|a| *a == 255));
    assert_eq!(lossy.available_bytes(), Some(0));
    assert_eq!(extracted, text);
}

#[test]
fn round_trip_in_native_order() {
    let order = native_byte_order();
    let mut img = image(8, 8, 0);
    let text = payload(57);
    assert_eq!(img.embed_payload(&text, true, order), Ok(()));
    assert_eq!(img.decode_text(order), Some(text));
}

#[test]
fn native_order_matches_machine() {
    let expected = if u16::from_ne_bytes([1, 0]) == 1 {
        ByteOrder::Little
    } else {
        ByteOrder::Big
    };
    assert_eq!(native_byte_order(), expected);
}

#[test]
fn empty_payload_round_trip() {
    let mut img = image(4, 2, 0);
    assert_eq!(img.embed_payload(&Vec::new(), true, ByteOrder::Little), Ok(()));
    assert_eq!(img.decode_text(ByteOrder::Little), Some(Vec::new()));
}

#[test]
fn header_layout_little_endian() {
    let h = encode_text_len(&payload(0x0302_01), ByteOrder::Little);
    assert_eq!(h, vec![1, 2, 3, 0, 0, 0, 0, 0, 0, 0, 0, 0]);
    let big = encode_text_len(&payload(0x0102), ByteOrder::Big);
    assert_eq!(big, vec![0, 0, 0, 0, 0, 0, 0, 0, 1, 2, 0, 0]);
    let wide = u64_to_bytes(0x0807_0605_0403_0201, ByteOrder::Little);
    assert_eq!(wide, vec![1, 2, 3, 4, 5, 6, 7, 8]);
}

#[test]
fn length_round_trip_small_values() {
    for n in [0usize, 1, 100, 255, 256, 65_535, 0x00ff_ffff] {
        let h = encode_text_len(&vec![0u8; n], ByteOrder::Little);
        assert_eq!(decode_length(&h[..10], ByteOrder::Little), n as u64);
    }
    let h = encode_text_len(&vec![0u8; 100], ByteOrder::Little);
    assert_eq!(decode_length(&h, ByteOrder::Little), 100);
}

#[test]
fn length_round_trip_fails_past_header_padding() {
    let h = encode_text_len(&vec![0u8; 1 << 24], ByteOrder::Little);
    assert_eq!(decode_length(&h[..10], ByteOrder::Little), 0);
    let h = encode_text_len(&vec![0u8; 100], ByteOrder::Big);
    assert_eq!(decode_length(&h[..10], ByteOrder::Big), 0);
}

#[test]
fn decode_length_drops_fifth_and_tenth_bytes() {
    let bytes = [1u8, 2, 3, 4, 99, 5, 6, 7, 8, 99];
    assert_eq!(decode_length(&bytes, ByteOrder::Little), 0x0807_0605_0403_0201);
    assert_eq!(decode_length(&bytes, ByteOrder::Big), 0x0102_0304_0506_0708);
}

#[test]
fn available_bytes_counts_transparent_pixels() {
    let mut img = image(3, 3, 255);
    img.data[3] = 0;
    img.data[4 * 4 + 3] = 0;
    img.data[8 * 4 + 3] = 0;
    img.data[5 * 4 + 3] = 1;
    assert_eq!(img.available_bytes(), Some(9));
    assert_eq!(image(3, 3, 255).available_bytes(), Some(0));
}

#[test]
fn available_bytes_of_other_color_model() {
    let img = ImageBuffer::new(1, 1, ColorModel::Other, vec![0, 0, 0, 0]).unwrap();
    assert_eq!(img.available_bytes(), None);
}

#[test]
fn new_rejects_wrong_length() {
    assert!(ImageBuffer::new(2, 2, ColorModel::Rgba8, vec![0; 15]).is_none());
    assert!(ImageBuffer::new(2, 2, ColorModel::Rgba8, vec![0; 16]).is_some());
}

#[test]
fn carriers_skip_opaque_pixels() {
    let mut img = image(3, 1, 0);
    img.data[7] = 10;
    assert_eq!(img.carrier_bytes(), vec![0, 0, 0, 2, 14, 26]);
    let bytes = vec![9u8, 8, 7, 6];
    assert_eq!(img.encode_data(&bytes, true), Ok(()));
    assert_eq!(img.data, vec![9, 8, 7, 0, 1, 7, 13, 10, 6, 14, 26, 0]);
}

#[test]
fn strict_mode_refuses_oversized_payload() {
    let mut img = image(4, 2, 0);
    let text = payload(13);
    assert_eq!(
        img.embed_payload(&text, true, ByteOrder::Little),
        Err(StegoError::InsufficientCapacity)
    );
}

#[test]
fn lossy_mode_truncates_oversized_payload() {
    let mut img = image(4, 2, 0);
    let text = payload(20);
    assert_eq!(img.embed_payload(&text, false, ByteOrder::Little), Ok(()));
    let mut expected = encode_text_len(&text, ByteOrder::Little);
    expected.extend_from_slice(&text);
    expected.truncate(24);
    assert_eq!(img.carrier_bytes(), expected);
    assert_eq!(img.decode_text(ByteOrder::Little), None);
}

#[test]
fn encode_data_lossy_is_silent() {
    let mut img = image(1, 1, 0);
    assert_eq!(img.encode_data(&vec![5, 6, 7, 8], false), Ok(()));
    assert_eq!(img.data, vec![5, 6, 7, 0]);
    let mut img = image(1, 1, 0);
    assert_eq!(img.encode_data(&vec![5, 6, 7, 8], true), Err(StegoError::InsufficientCapacity));
    assert_eq!(img.data, vec![5, 6, 7, 0]);
}

#[test]
fn embedding_refused_for_other_color_model() {
    let mut img = ImageBuffer::new(2, 2, ColorModel::Other, vec![0; 16]).unwrap();
    assert_eq!(
        img.embed_payload(&payload(1), true, ByteOrder::Little),
        Err(StegoError::UnsupportedColorModel)
    );
    assert_eq!(img.data, vec![0; 16]);
}

#[test]
fn decode_after_normalizing_fails() {
    let mut img = image(10, 5, 0);
    let text = payload(100);
    assert_eq!(img.embed_payload(&text, true, ByteOrder::Little), Ok(()));
    img.alpha_max();
    assert!(img.data.iter().skip(3).step_by(4).all(|a| *a == 255));
    assert_ne!(img.decode_text(ByteOrder::Little), Some(text));
}

#[test]
fn decode_needs_more_than_twelve_bytes() {
    let img = image(3, 1, 0);
    assert_eq!(img.decode_text_len(ByteOrder::Little), None);
    assert_eq!(img.decode_text(ByteOrder::Little), None);
    let img = image(4, 1, 0);
    assert!(img.decode_text_len(ByteOrder::Little).is_some());
}

#[test]
fn decode_reports_short_stream() {
    let mut img = image(4, 1, 0);
    img.data[0] = 200;
    assert_eq!(img.decode_text(ByteOrder::Little), None);
}

#[test]
fn alpha_max_keeps_colour_bytes() {
    let mut img = image(2, 1, 0);
    img.alpha_max();
    assert_eq!(img.data, vec![0, 0, 0, 255, 1, 7, 13, 255]);
}

#[test]
fn output_format_rules() {
    assert_eq!(check_output_format(ImageFileFormat::Png, true), Ok(()));
    assert_eq!(check_output_format(ImageFileFormat::Tiff, true), Ok(()));
    assert_eq!(
        check_output_format(ImageFileFormat::Other, true),
        Err(StegoError::UnsupportedOutputFormat)
    );
    assert_eq!(check_output_format(ImageFileFormat::Other, false), Ok(()));
    assert_eq!(
        check_output_format(ImageFileFormat::Unknown, false),
        Err(StegoError::UnknownImageFormat)
    );
}

#[test]
fn output_path_rules() {
    assert_eq!(check_output_path("out.png", true), Ok(()));
    assert_eq!(check_output_path("out.TIF", true), Ok(()));
    assert_eq!(check_output_path("out.jpg", true), Err(StegoError::UnsupportedOutputFormat));
    assert_eq!(check_output_path("out.jpg", false), Ok(()));
    assert_eq!(check_output_path("out.nothing", false), Err(StegoError::UnknownImageFormat));
    assert_eq!(check_output_path("out", true), Err(StegoError::UnknownImageFormat));
}

#[test]
fn error_messages() {
    assert_eq!(StegoError::CorruptPayload.message(), "error extracting text");
    assert_eq!(
        StegoError::InsufficientCapacity.message(),
        "there is not enough free space in the image"
    );
}

#[test]
fn header_is_read_from_raw_pixel_bytes() {
    let mut img = image(10, 5, 0);
    img.data[3] = 255;
    assert_eq!(img.available_bytes(), Some(147));
    let text = payload(100);
    assert_eq!(img.embed_payload(&text, true, ByteOrder::Little), Ok(()));
    assert_eq!(img.decode_text(ByteOrder::Little), None);
}

#[test]
fn extraction_refused_for_other_color_model() {
    let mut img = image(10, 5, 0);
    let text = payload(20);
    assert_eq!(img.embed_payload(&text, true, ByteOrder::Little), Ok(()));
    assert_eq!(img.decode_text(ByteOrder::Little), Some(text));
    img.color = ColorModel::Other;
    assert_eq!(img.decode_text(ByteOrder::Little), None);
    let zeros = ImageBuffer::new(4, 1, ColorModel::Other, vec![0; 16]).unwrap();
    assert_eq!(zeros.decode_text(ByteOrder::Little), None);
}

#[test]
fn every_error_has_its_message() {
    assert_eq!(StegoError::UnsupportedColorModel.message(), "unsupported color model");
    assert_eq!(StegoError::UnsupportedOutputFormat.message(), "unsupported image output format");
    assert_eq!(
        StegoError::UnknownImageFormat.message(),
        "the output path names no known image format"
    );
}
