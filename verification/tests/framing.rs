//! Tests of the extension framing hooks: header-size selection, writing the
//! opaque bytes out, and ingesting them.

use dependency_descriptor::Serializer;

#[test]
fn header_size_follows_serialized_length() {
    let short = Serializer.parse_value(&[0u8; 16]);
    assert!(!Serializer.needs_two_byte_header(&short));
    let long = Serializer.parse_value(&[0u8; 17]);
    assert!(Serializer.needs_two_byte_header(&long));
}

#[test]
fn write_to_round_trips_the_bytes() {
    let original: Vec<u8> = vec![0xC0, 0x00, 0x00, 0x80, 0x01, 0xD0];
    let value = Serializer.parse_value(&original);
    let mut buf = vec![0u8; original.len()];
    let written = Serializer.write_to(&mut buf, &value);
    assert_eq!(written, original.len());
    assert_eq!(buf, original);
}

#[test]
fn write_to_keeps_the_buffer_tail() {
    let value = Serializer.parse_value(&[1, 2, 3]);
    let mut buf = vec![9u8; 5];
    let written = Serializer.write_to(&mut buf, &value);
    assert_eq!(written, 3);
    assert_eq!(buf, vec![1, 2, 3, 9, 9]);
}

#[test]
fn write_to_refuses_a_short_buffer() {
    let value = Serializer.parse_value(&[1, 2, 3, 4]);
    let mut buf = vec![7u8; 3];
    let written = Serializer.write_to(&mut buf, &value);
    assert_eq!(written, 0);
    assert_eq!(buf, vec![7, 7, 7]);
}

#[test]
fn ingested_values_compare_by_bytes() {
    let a = Serializer.parse_value(&[1, 2, 3]);
    let b = Serializer.parse_value(&[1, 2, 3]);
    let c = Serializer.parse_value(&[1, 2, 4]);
    assert_eq!(a, b);
    assert_ne!(a, c);
    assert_eq!(a.clone(), b);
}

#[test]
fn media_type_affinity_is_video_only() {
    assert!(Serializer.is_video());
    assert!(!Serializer.is_audio());
}
