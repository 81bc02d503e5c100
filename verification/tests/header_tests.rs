use sml::channel::{BitSink, BitSource};
use sml::error::SmlError;
use sml::header::{SmlHeader, SmlHeaderBuilder};

#[test]
fn sml_header_builder() {
    let sml_header: SmlHeader = SmlHeaderBuilder::new()
        .with_char_bits(10)
        .with_u8_bits(8)
        .into();
    assert_eq!(
        sml_header,
        SmlHeader {
            bool_bits: 1,
            char_bits: 10,
            i8_bits: 0,
            i16_bits: 0,
            i32_bits: 0,
            i64_bits: 0,
            i128_bits: 0,
            u8_bits: 8,
            u16_bits: 0,
            u32_bits: 0,
            u64_bits: 0,
            u128_bits: 0,
        }
    );
}

#[test]
fn sml_header_write() {
    let sml_header: SmlHeader = SmlHeader::default();
    let mut sink = BitSink::new();
    sml_header.to_writer(&mut sink);
    let data = sink.into_bytes();
    assert_eq!(&data, &[1, 2, 8, 16, 32, 64, 128, 8, 16, 32, 64, 128]);
}

#[test]
fn sml_header_read() {
    let data = vec![1u8, 2, 8, 16, 32, 64, 128, 8, 16, 32, 64, 128];
    let mut source = BitSource::new(data);
    assert_eq!(SmlHeader::from_reader(&mut source), Ok(SmlHeader::default()));
}

#[test]
fn header_roundtrip_custom() {
    let header: SmlHeader = SmlHeaderBuilder::new()
        .with_u16_bits(11)
        .with_i32_bits(17)
        .with_u128_bits(128)
        .into();
    let mut sink = BitSink::new();
    header.to_writer(&mut sink);
    let mut source = BitSource::new(sink.into_bytes());
    assert_eq!(SmlHeader::from_reader(&mut source), Ok(header));
}

#[test]
fn header_read_rejects_width_beyond_128() {
    // The second field (char) claims 200 bits: not a legal width.
    let data = vec![1u8, 200, 8, 16, 32, 64, 128, 8, 16, 32, 64, 128];
    let mut source = BitSource::new(data);
    assert_eq!(
        SmlHeader::from_reader(&mut source),
        Err(SmlError::WidthOverflow)
    );
}

#[test]
fn header_read_truncated() {
    let data = vec![1u8, 2, 8];
    let mut source = BitSource::new(data);
    assert_eq!(
        SmlHeader::from_reader(&mut source),
        Err(SmlError::TruncatedInput)
    );
}

#[test]
fn combine_is_commutative_associative_idempotent() {
    let a: SmlHeader = SmlHeaderBuilder::new().with_u8_bits(3).with_i16_bits(9).into();
    let b: SmlHeader = SmlHeaderBuilder::new().with_u8_bits(7).with_char_bits(2).into();
    let c: SmlHeader = SmlHeaderBuilder::new().with_u64_bits(40).into();
    assert_eq!(a.combine(&b), b.combine(&a));
    assert_eq!(a.combine(&b.combine(&c)), a.combine(&b).combine(&c));
    assert_eq!(a.combine(&a), a);
    let ab = a.combine(&b);
    assert_eq!(ab.u8_bits, 7);
    assert_eq!(ab.i16_bits, 9);
    assert_eq!(ab.char_bits, 2);
}

#[test]
fn min_headers() {
    assert_eq!(SmlHeader::min_for_u64(0).u64_bits, 0);
    assert_eq!(SmlHeader::min_for_u64(5).u64_bits, 3);
    assert_eq!(SmlHeader::min_for_u64(u64::MAX).u64_bits, 64);
    assert_eq!(SmlHeader::min_for_i64(0).i64_bits, 1);
    assert_eq!(SmlHeader::min_for_i64(-9).i64_bits, 5);
    assert_eq!(SmlHeader::min_for_i64(7).i64_bits, 4);
}
