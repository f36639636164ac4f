use std::io::Cursor;

use rustypdf::objects::{Dict, Object, ObjectId};
use rustypdf::recompress::{jpeg_quality, recompress_store, scaled_dim};
use rustypdf::store::{ObjectStore, PdfError};

fn id(n: u32) -> ObjectId {
    ObjectId { number: n, generation: 0 }
}

fn image_stream(content: Vec<u8>) -> Object {
    let entries = vec![(b"Subtype".to_vec(), Object::Name(b"Image".to_vec()))];
    Object::Stream(Dict { entries }, content)
}

fn png_bytes(w: u32, h: u32) -> Vec<u8> {
    let img = image::DynamicImage::ImageRgb8(image::RgbImage::new(w, h));
    let mut buf: Vec<u8> = Vec::new();
    img.write_to(Cursor::new(&mut buf), image::ImageFormat::Png).unwrap();
    buf
}

fn jpeg_bytes(w: u32, h: u32) -> Vec<u8> {
    let img = image::DynamicImage::ImageRgb8(image::RgbImage::new(w, h));
    let mut buf: Vec<u8> = Vec::new();
    let mut enc = image::codecs::jpeg::JpegEncoder::new_with_quality(&mut buf, 90);
    enc.encode_image(&img).unwrap();
    buf
}

fn stream_parts(o: &Object) -> (&Dict, &Vec<u8>) {
    match o {
        Object::Stream(d, c) => (d, c),
        _ => panic!("expected a stream"),
    }
}

fn int_value(d: &Dict, key: &[u8]) -> i64 {
    match d.get(key) {
        Some(Object::Integer(v)) => *v,
        _ => panic!("expected an integer entry"),
    }
}

#[test]
fn out_of_range_scales_fail_without_touching_the_store() {
    let mut store = ObjectStore { entries: vec![(id(1), image_stream(vec![1, 2, 3]))] };
    let r0 = recompress_store(&mut store, 0);
    assert!(matches!(r0, Err(PdfError::InvalidScale(0))));
    let r11 = recompress_store(&mut store, 11);
    assert!(matches!(r11, Err(PdfError::InvalidScale(11))));
    let (_, content) = stream_parts(&store.entries[0].1);
    assert_eq!(content, &vec![1, 2, 3]);
}

#[test]
fn unrecognized_signature_is_byte_identical() {
    let odd = vec![0x00u8, 0x11, 0x22, 0x33, 0x44];
    let mut store = ObjectStore { entries: vec![(id(1), image_stream(odd.clone()))] };
    recompress_store(&mut store, 10).unwrap();
    let (_, content) = stream_parts(&store.entries[0].1);
    assert_eq!(content, &odd);
}

#[test]
fn gentlest_scale_keeps_png_dimensions() {
    let mut store = ObjectStore { entries: vec![(id(1), image_stream(png_bytes(8, 8)))] };
    recompress_store(&mut store, 1).unwrap();
    let (d, content) = stream_parts(&store.entries[0].1);
    assert_eq!(int_value(d, b"Width"), 8);
    assert_eq!(int_value(d, b"Height"), 8);
    let img = image::load_from_memory(content).unwrap();
    assert_eq!(img.width(), 8);
    assert_eq!(img.height(), 8);
}

#[test]
fn strongest_scale_quarters_dimensions() {
    let mut store = ObjectStore {
        entries: vec![
            (id(1), image_stream(png_bytes(8, 8))),
            (id(2), image_stream(jpeg_bytes(16, 16))),
        ],
    };
    recompress_store(&mut store, 10).unwrap();
    let (d_png, _) = stream_parts(&store.entries[0].1);
    assert_eq!(int_value(d_png, b"Width"), 2);
    assert_eq!(int_value(d_png, b"Height"), 2);
    let (d_jpg, content) = stream_parts(&store.entries[1].1);
    assert_eq!(int_value(d_jpg, b"Width"), 4);
    assert_eq!(int_value(d_jpg, b"Height"), 4);
    // the replaced payloads keep their formats and the new size
    assert!(content.starts_with(&[0xFF, 0xD8]));
    let (_, png_content) = stream_parts(&store.entries[0].1);
    assert!(png_content.starts_with(&[0x89, 0x50, 0x4E, 0x47]));
    let png_out = image::load_from_memory(png_content).unwrap();
    assert_eq!(png_out.width(), 2);
    assert_eq!(png_out.height(), 2);
}

#[test]
fn recompression_is_a_function_of_payload_and_scale() {
    let payload = png_bytes(10, 7);
    let mut a = ObjectStore { entries: vec![(id(1), image_stream(payload.clone()))] };
    let mut b = ObjectStore { entries: vec![(id(1), image_stream(payload))] };
    recompress_store(&mut a, 4).unwrap();
    recompress_store(&mut b, 4).unwrap();
    let (_, ca) = stream_parts(&a.entries[0].1);
    let (_, cb) = stream_parts(&b.entries[0].1);
    assert_eq!(ca, cb);
}

#[test]
fn undecodable_payload_with_jpeg_signature_is_left_unchanged() {
    // opens like a JPEG but holds nothing the codec accepts
    let bogus = vec![0xFFu8, 0xD8, 0x00, 0x01, 0x02];
    let mut store = ObjectStore { entries: vec![(id(1), image_stream(bogus.clone()))] };
    recompress_store(&mut store, 5).unwrap();
    let (_, content) = stream_parts(&store.entries[0].1);
    assert_eq!(content, &bogus);
}

#[test]
fn rerunning_at_gentlest_scale_is_stable() {
    let mut store = ObjectStore { entries: vec![(id(1), image_stream(png_bytes(6, 6)))] };
    recompress_store(&mut store, 1).unwrap();
    recompress_store(&mut store, 1).unwrap();
    let (d, _) = stream_parts(&store.entries[0].1);
    assert_eq!(int_value(d, b"Width"), 6);
    assert_eq!(int_value(d, b"Height"), 6);
}

#[test]
fn dimension_and_quality_formulas_hit_exact_values() {
    assert_eq!(scaled_dim(100, 1), 100);
    assert_eq!(scaled_dim(100, 10), 25);
    assert_eq!(scaled_dim(1, 10), 1);
    assert_eq!(scaled_dim(0, 1), 1);
    assert_eq!(jpeg_quality(1), 100);
    assert_eq!(jpeg_quality(10), 30);
}
