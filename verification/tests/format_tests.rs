//! Tests of the pixel source, the format traits and the Targa header.
use bytes::BytesMut;
use rs_wasm_encoders::image::{Image, ImageCodec, ImageFormat};
use rs_wasm_encoders::qoi::Qoi;
use rs_wasm_encoders::targa::Targa;

#[test]
fn image_accessors() {
    let img = Image::new_with_data(4, 2, &[1, 2, 3, 4, 5, 6]);
    assert_eq!(img.width(), 4);
    assert_eq!(img.height(), 2);
    assert_eq!(img.pixels().as_slice(), &[1, 2, 3, 4, 5, 6]);
    assert_eq!(img.buffer(), &[1, 2, 3, 4, 5, 6]);
}

#[test]
fn image_new_is_empty() {
    let img = Image::new(7, 9);
    assert_eq!(img.width(), 7);
    assert_eq!(img.height(), 9);
    assert!(img.pixels().is_empty());
}

#[test]
fn format_names() {
    assert_eq!(Qoi::format_name(), "Qoi");
    assert_eq!(Targa::format_name(), "Targa");
}

#[test]
fn get_raw_image_returns_the_source() {
    let img = Image::new_with_data(2, 2, &[1, 1, 1]);
    let qoi = Qoi::from_image(&img);
    assert_eq!(qoi.get_raw_image().buffer(), img.buffer());
    let tga = Targa::from_image(&img);
    assert_eq!(tga.get_raw_image().width(), 2);
}

#[test]
fn serialize_through_the_codec_trait() {
    let img = Image::new_with_data(1, 1, &[10, 20, 30]);
    let qoi = Qoi::from_image(&img);
    let out = qoi.serialize();
    assert_eq!(&out[0..4], b"qoif");
    assert_eq!(&out[14..18], &[0xfe, 10, 20, 30]);
    assert_eq!(&out[out.len() - 8..], &[0, 0, 0, 0, 0, 0, 0, 1]);
}

#[test]
fn targa_header_layout() {
    let img = Image::new_with_data(0x0102, 0x0304, &[]);
    let tga = Targa::from_image(&img);
    let mut contents = BytesMut::with_capacity(64);
    tga.targa_header(&mut contents);
    let bytes: Vec<u8> = contents.as_ref().to_vec();
    assert_eq!(
        bytes,
        vec![0, 0, 2, 0, 0, 0, 0, 0, 0, 0, 0, 0, 0x02, 0x01, 0x04, 0x03, 24, 32]
    );
}
