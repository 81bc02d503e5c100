use sml::channel::{BitSink, BitSource};
use sml::chars::{read_char_value, write_char_value};
use sml::composite::{
    read_bool, read_char, read_i16, read_i64, read_i8, read_option_u8, read_u16, read_u64,
    read_u8, write_bool, write_char, write_i16, write_i64, write_i8, write_option_tag,
    write_option_u8, write_u16, write_u64, write_u8,
};
use sml::error::SmlError;
use sml::tag::{read_tag, write_tag, TypeTag};
use sml::value::{read_unsigned_value, write_unsigned_value};

#[test]
fn write_option_bool_type() {
    let mut sink = BitSink::new();
    write_option_tag(&mut sink, TypeTag::Bool);
    sink.byte_align();
    let data = sink.into_bytes();
    println!("{:08b}", &data[0]);
}

#[test]
fn tag_roundtrips() {
    let tags = [
        TypeTag::Bool,
        TypeTag::U8,
        TypeTag::U16,
        TypeTag::U32,
        TypeTag::U64,
        TypeTag::U128,
        TypeTag::I8,
        TypeTag::I16,
        TypeTag::I32,
        TypeTag::I64,
        TypeTag::I128,
        TypeTag::Char,
        TypeTag::Array,
        TypeTag::Float,
        TypeTag::Struct,
        TypeTag::Optional,
        TypeTag::EndOfStream,
    ];
    for t in tags {
        let mut sink = BitSink::new();
        write_tag(&mut sink, t);
        sink.byte_align();
        let mut source = BitSource::new(sink.into_bytes());
        assert_eq!(read_tag(&mut source), Ok(t));
    }
}

#[test]
fn unknown_tag_is_rejected() {
    // Code 17 in the five-bit tag field: outside the registry.
    let mut source = BitSource::new(vec![0b10001000]);
    assert_eq!(read_tag(&mut source), Err(SmlError::UnknownTag));
}

#[test]
fn char_a_encodes_class_then_raw_byte() {
    // Class bits 00 (one byte), then the raw byte 0x61.
    let mut sink = BitSink::new();
    write_char_value(&mut sink, 'a');
    sink.byte_align();
    assert_eq!(sink.into_bytes(), vec![0b00011000, 0b01000000]);
}

#[test]
fn char_value_roundtrips() {
    for c in ['a', '\0', 'Z', '\u{e9}', '\u{7ff}', '\u{800}', '\u{20ac}', '\u{ffff}', '\u{10000}',
        '\u{1d11e}', char::MAX]
    {
        let mut sink = BitSink::new();
        write_char_value(&mut sink, c);
        sink.byte_align();
        let mut source = BitSource::new(sink.into_bytes());
        assert_eq!(read_char_value(&mut source), Ok(c));
    }
}

#[test]
fn char_rejects_overlong_encoding() {
    // Class 1 (two bytes) carrying an overlong encoding of 'a'.
    let mut source = BitSource::new(vec![0b01110000, 0b01101000, 0b01000000]);
    assert_eq!(read_char_value(&mut source), Err(SmlError::TypeMismatch));
}

#[test]
fn tagged_values_roundtrip() {
    let mut sink = BitSink::new();
    write_bool(&mut sink, true);
    write_u8(&mut sink, 200);
    write_u16(&mut sink, 40000);
    write_i8(&mut sink, -100);
    write_i16(&mut sink, -30000);
    write_char(&mut sink, '\u{20ac}');
    assert_eq!(write_u64(&mut sink, 0xFFFF_FFFF), Ok(()));
    assert_eq!(write_i64(&mut sink, -0xFFFF_FFFF), Ok(()));
    sink.byte_align();
    let mut source = BitSource::new(sink.into_bytes());
    assert_eq!(read_bool(&mut source), Ok(true));
    assert_eq!(read_u8(&mut source), Ok(200));
    assert_eq!(read_u16(&mut source), Ok(40000));
    assert_eq!(read_i8(&mut source), Ok(-100));
    assert_eq!(read_i16(&mut source), Ok(-30000));
    assert_eq!(read_char(&mut source), Ok('\u{20ac}'));
    assert_eq!(read_u64(&mut source), Ok(0xFFFF_FFFF));
    assert_eq!(read_i64(&mut source), Ok(-0xFFFF_FFFF));
}

#[test]
fn read_checks_value_range() {
    // A U16 tag where a u8 was expected is a TypeMismatch.
    let mut sink = BitSink::new();
    write_u16(&mut sink, 300);
    sink.byte_align();
    let mut source = BitSource::new(sink.into_bytes());
    assert_eq!(read_u8(&mut source), Err(SmlError::TypeMismatch));

    // A U8 tag carrying the wire value 300 overflows the type.
    let mut sink = BitSink::new();
    write_tag(&mut sink, TypeTag::U8);
    write_unsigned_value(&mut sink, 300).unwrap();
    sink.byte_align();
    let mut source = BitSource::new(sink.into_bytes());
    assert_eq!(read_u8(&mut source), Err(SmlError::WidthOverflow));
}

#[test]
fn option_none_is_presence_false_only() {
    let mut sink = BitSink::new();
    write_option_u8(&mut sink, None);
    sink.byte_align();
    // Tag Bool (00000) then a clear presence bit: one zero byte.
    assert_eq!(sink.into_bytes(), vec![0b00000000]);
}

#[test]
fn option_some_is_presence_tag_value() {
    let mut sink = BitSink::new();
    write_option_u8(&mut sink, Some(7));
    sink.byte_align();
    let with_option = sink.into_bytes();

    // The same bytes as writing presence-true, the U8 tag, then the
    // self-describing encoding of 7, by hand.
    let mut sink = BitSink::new();
    write_bool(&mut sink, true);
    write_tag(&mut sink, TypeTag::U8);
    write_unsigned_value(&mut sink, 7).unwrap();
    sink.byte_align();
    assert_eq!(with_option, sink.into_bytes());

    let mut source = BitSource::new(with_option);
    assert_eq!(read_option_u8(&mut source), Ok(Some(7)));
}

#[test]
fn option_roundtrips() {
    for v in [None, Some(0u8), Some(7), Some(255)] {
        let mut sink = BitSink::new();
        write_option_u8(&mut sink, v);
        sink.byte_align();
        let mut source = BitSource::new(sink.into_bytes());
        assert_eq!(read_option_u8(&mut source), Ok(v));
    }
}

#[test]
fn struct_fields_decode_in_declared_order() {
    // A struct { a: u8, b: bool } with a = 16, b = true: field count,
    // then each field's tag and value in declaration order.
    let mut sink = BitSink::new();
    write_unsigned_value(&mut sink, 2).unwrap();
    write_u8(&mut sink, 16);
    write_bool(&mut sink, true);
    sink.byte_align();
    let data = sink.into_bytes();

    let mut source = BitSource::new(data);
    assert_eq!(read_unsigned_value(&mut source), Ok(2));
    assert_eq!(read_u8(&mut source), Ok(16));
    assert_eq!(read_bool(&mut source), Ok(true));
}

#[test]
fn struct_rejects_reordered_fields() {
    // The same record with its fields swapped on the wire: the first
    // field's tag no longer matches the expected static type.
    let mut sink = BitSink::new();
    write_unsigned_value(&mut sink, 2).unwrap();
    write_bool(&mut sink, true);
    write_u8(&mut sink, 16);
    sink.byte_align();
    let mut source = BitSource::new(sink.into_bytes());
    assert_eq!(read_unsigned_value(&mut source), Ok(2));
    assert_eq!(read_u8(&mut source), Err(SmlError::TypeMismatch));
}

#[test]
fn struct_rejects_omitted_field() {
    // The record cut short on the wire: a promised field cannot be read.
    let mut sink = BitSink::new();
    write_unsigned_value(&mut sink, 2).unwrap();
    write_u8(&mut sink, 16);
    write_bool(&mut sink, true);
    sink.byte_align();
    let mut data = sink.into_bytes();
    data.truncate(3);
    let mut source = BitSource::new(data);
    assert_eq!(read_unsigned_value(&mut source), Ok(2));
    assert_eq!(read_u8(&mut source), Err(SmlError::TruncatedInput));
}
