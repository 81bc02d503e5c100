use sml::channel::{BitSink, BitSource};
use sml::error::SmlError;
use sml::value::{
    nibbles_needed, read_bool_value, read_float_value, read_signed_value, read_unsigned_value,
    write_bool_value, write_float_value, write_signed_value, write_unsigned_value,
};

#[test]
fn it_works() {
    let test: i16 = 16;
    println!("{:08b}", test);
    println!("{}", test.abs());
    println!("{}", ((u16::BITS - test.leading_zeros()) + 3) / 4);
}

#[test]
fn nibble_counts() {
    assert_eq!(nibbles_needed(0), 1);
    assert_eq!(nibbles_needed(1), 1);
    assert_eq!(nibbles_needed(15), 1);
    assert_eq!(nibbles_needed(16), 2);
    assert_eq!(nibbles_needed(0xFFFF), 4);
    assert_eq!(nibbles_needed(0xFFFF_FFFF), 8);
    assert_eq!(nibbles_needed(0x1_0000_0000), 9);
}

#[test]
fn write_bool_value_true() {
    let mut sink = BitSink::new();
    write_bool_value(&mut sink, true);
    sink.byte_align();
    assert_eq!(sink.into_bytes(), vec![0b10000000]);
}

#[test]
fn write_bool_value_false() {
    let mut sink = BitSink::new();
    write_bool_value(&mut sink, false);
    sink.byte_align();
    assert_eq!(sink.into_bytes(), vec![0b00000000]);
}

#[test]
fn write_u8_value_16() {
    // sign flag 0, nibble field 001, payload 00010000.
    let mut sink = BitSink::new();
    assert_eq!(write_unsigned_value(&mut sink, 16), Ok(()));
    sink.byte_align();
    assert_eq!(sink.into_bytes(), vec![0b00010001, 0b00000000]);
}

#[test]
fn write_i8_value_16() {
    let mut sink = BitSink::new();
    assert_eq!(write_signed_value(&mut sink, 16), Ok(()));
    sink.byte_align();
    assert_eq!(sink.into_bytes(), vec![0b00010001, 0b00000000]);
}

#[test]
fn unsigned_value_roundtrips() {
    for v in [0u64, 1, 7, 15, 16, 255, 256, 65535, 123456, 0xFFFF_FFFF] {
        let mut sink = BitSink::new();
        assert_eq!(write_unsigned_value(&mut sink, v), Ok(()));
        sink.byte_align();
        let mut source = BitSource::new(sink.into_bytes());
        assert_eq!(read_unsigned_value(&mut source), Ok(v));
    }
}

#[test]
fn signed_value_roundtrips() {
    for v in [0i64, 1, -1, -3, -9, 16, -16, 127, -128, 255, -255, -65536, 0xFFFF_FFFF, -0xFFFF_FFFF]
    {
        let mut sink = BitSink::new();
        assert_eq!(write_signed_value(&mut sink, v), Ok(()));
        sink.byte_align();
        let mut source = BitSource::new(sink.into_bytes());
        assert_eq!(read_signed_value(&mut source), Ok(v));
    }
}

#[test]
fn boundary_zero_encodes_one_nibble() {
    let mut sink = BitSink::new();
    assert_eq!(write_unsigned_value(&mut sink, 0), Ok(()));
    sink.byte_align();
    // 1 sign bit + 3 length bits + 4 payload bits: one byte, all clear.
    assert_eq!(sink.into_bytes(), vec![0b00000000]);
}

#[test]
fn boundary_max_eight_nibbles_roundtrips() {
    let mut sink = BitSink::new();
    assert_eq!(write_unsigned_value(&mut sink, 0xFFFF_FFFF), Ok(()));
    sink.byte_align();
    let mut source = BitSource::new(sink.into_bytes());
    assert_eq!(read_unsigned_value(&mut source), Ok(0xFFFF_FFFF));
}

#[test]
fn boundary_one_bit_beyond_is_width_overflow() {
    let mut sink = BitSink::new();
    assert_eq!(
        write_unsigned_value(&mut sink, 0x1_0000_0000),
        Err(SmlError::WidthOverflow)
    );
    // Fail fast: nothing was written.
    assert_eq!(sink.into_bytes(), Vec::<u8>::new());
}

#[test]
fn signed_width_overflow() {
    let mut sink = BitSink::new();
    assert_eq!(
        write_signed_value(&mut sink, -0x1_0000_0000),
        Err(SmlError::WidthOverflow)
    );
    assert_eq!(sink.into_bytes(), Vec::<u8>::new());
}

#[test]
fn truncated_unsigned_value() {
    // A sign flag and length field promising two nibbles, but only
    // 4 bits of padding where 8 payload bits should follow.
    let mut source = BitSource::new(vec![0b00010000]);
    assert_eq!(read_unsigned_value(&mut source), Err(SmlError::TruncatedInput));
}

#[test]
fn unsigned_rejects_sign_flag() {
    // Sign flag set, one nibble, payload 0111: not a valid unsigned value.
    let mut source = BitSource::new(vec![0b10000111]);
    assert_eq!(read_unsigned_value(&mut source), Err(SmlError::TypeMismatch));
}

#[test]
fn bool_value_roundtrips() {
    for v in [true, false] {
        let mut sink = BitSink::new();
        write_bool_value(&mut sink, v);
        sink.byte_align();
        let mut source = BitSource::new(sink.into_bytes());
        assert_eq!(read_bool_value(&mut source), Ok(v));
    }
}

#[test]
fn float_value_roundtrips() {
    let single = 1.5f32.to_bits() as u64;
    let mut sink = BitSink::new();
    assert_eq!(write_float_value(&mut sink, false, single), Ok(()));
    sink.byte_align();
    let mut source = BitSource::new(sink.into_bytes());
    let (double, pattern) = read_float_value(&mut source).unwrap();
    assert!(!double);
    assert_eq!(f32::from_bits(pattern as u32), 1.5f32);

    // A double-precision pattern with more than 32 significant bits is
    // refused rather than truncated.
    let wide = 1.5f64.to_bits();
    let mut sink = BitSink::new();
    assert_eq!(
        write_float_value(&mut sink, true, wide),
        Err(SmlError::WidthOverflow)
    );

    // A double whose pattern fits eight nibbles round-trips.
    let narrow = 1.5e-320f64.to_bits();
    assert!(narrow < 0x1_0000_0000);
    let mut sink = BitSink::new();
    assert_eq!(write_float_value(&mut sink, true, narrow), Ok(()));
    sink.byte_align();
    let mut source = BitSource::new(sink.into_bytes());
    assert_eq!(read_float_value(&mut source), Ok((true, narrow)));
}
