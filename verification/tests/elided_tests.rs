use sml::channel::{BitSink, BitSource};
use sml::elided::{
    batch_header_u64, read_bool_elided, read_i16_elided, read_i64_elided, read_i128_elided,
    read_u8_elided, read_u64_batch, read_u64_elided, read_u128_elided, write_bool_elided,
    write_i16_elided, write_i64_elided, write_i128_elided, write_u8_elided, write_u64_batch,
    write_u64_elided, write_u128_elided,
};
use sml::error::SmlError;
use sml::header::{SmlHeader, SmlHeaderBuilder};

#[test]
fn elided_zero_values_under_native_widths() {
    let header = SmlHeader::default();
    let mut sink = BitSink::new();
    assert_eq!(write_u8_elided(&mut sink, 0, &header), Ok(()));
    sink.byte_align();
    assert_eq!(sink.into_bytes(), vec![0]);

    let mut sink = BitSink::new();
    assert_eq!(write_u128_elided(&mut sink, 0, &header), Ok(()));
    sink.byte_align();
    assert_eq!(sink.into_bytes(), vec![0; 16]);

    let mut sink = BitSink::new();
    assert_eq!(write_bool_elided(&mut sink, false, &header), Ok(()));
    sink.byte_align();
    assert_eq!(sink.into_bytes(), vec![0]);
}

#[test]
fn elided_values_roundtrip_under_native_widths() {
    let header = SmlHeader::default();
    let mut sink = BitSink::new();
    assert_eq!(write_u8_elided(&mut sink, 200, &header), Ok(()));
    assert_eq!(write_i16_elided(&mut sink, -12345, &header), Ok(()));
    assert_eq!(write_bool_elided(&mut sink, true, &header), Ok(()));
    assert_eq!(write_u64_elided(&mut sink, u64::MAX, &header), Ok(()));
    assert_eq!(write_i64_elided(&mut sink, i64::MIN, &header), Ok(()));
    assert_eq!(write_u128_elided(&mut sink, u128::MAX, &header), Ok(()));
    assert_eq!(write_i128_elided(&mut sink, i128::MIN, &header), Ok(()));
    sink.byte_align();
    let mut source = BitSource::new(sink.into_bytes());
    assert_eq!(read_u8_elided(&mut source, &header), Ok(200));
    assert_eq!(read_i16_elided(&mut source, &header), Ok(-12345));
    assert_eq!(read_bool_elided(&mut source, &header), Ok(true));
    assert_eq!(read_u64_elided(&mut source, &header), Ok(u64::MAX));
    assert_eq!(read_i64_elided(&mut source, &header), Ok(i64::MIN));
    assert_eq!(read_u128_elided(&mut source, &header), Ok(u128::MAX));
    assert_eq!(read_i128_elided(&mut source, &header), Ok(i128::MIN));
}

#[test]
fn elided_bounds_check_rejects_wide_value() {
    // Width 3 cannot hold 9; the codec refuses instead of truncating.
    let header: SmlHeader = SmlHeaderBuilder::new().with_u8_bits(3).into();
    let mut sink = BitSink::new();
    assert_eq!(
        write_u8_elided(&mut sink, 9, &header),
        Err(SmlError::WidthOverflow)
    );
    assert_eq!(sink.into_bytes(), Vec::<u8>::new());
}

#[test]
fn elided_signed_needs_room_for_the_sign() {
    let header: SmlHeader = SmlHeaderBuilder::new().with_i16_bits(4).into();
    let mut sink = BitSink::new();
    // -8 fits a 4-bit window; 8 does not.
    assert_eq!(write_i16_elided(&mut sink, -8, &header), Ok(()));
    assert_eq!(
        write_i16_elided(&mut sink, 8, &header),
        Err(SmlError::WidthOverflow)
    );
    sink.byte_align();
    let mut source = BitSource::new(sink.into_bytes());
    assert_eq!(read_i16_elided(&mut source, &header), Ok(-8));
}

#[test]
fn header_sufficiency_for_a_batch() {
    // Fold per-value minimal headers across the batch, then encode every
    // value under the shared header: all of them round-trip.
    let batch: [u64; 6] = [0, 1, 16, 255, 70000, 0xFFFF_FFFF_FFFF];
    let mut header = SmlHeader::min_for_u64(batch[0]);
    for v in &batch[1..] {
        header = header.combine(&SmlHeader::min_for_u64(*v));
    }
    assert_eq!(header.u64_bits, 48);

    let mut sink = BitSink::new();
    for v in batch {
        assert_eq!(write_u64_elided(&mut sink, v, &header), Ok(()));
    }
    sink.byte_align();
    let mut source = BitSource::new(sink.into_bytes());
    for v in batch {
        assert_eq!(read_u64_elided(&mut source, &header), Ok(v));
    }
}

#[test]
fn header_sufficiency_for_a_signed_batch() {
    let batch: [i64; 5] = [0, -1, 9, -9, -70000];
    let mut header = SmlHeader::min_for_i64(batch[0]);
    for v in &batch[1..] {
        header = header.combine(&SmlHeader::min_for_i64(*v));
    }
    let mut sink = BitSink::new();
    for v in batch {
        assert_eq!(write_i64_elided(&mut sink, v, &header), Ok(()));
    }
    sink.byte_align();
    let mut source = BitSource::new(sink.into_bytes());
    for v in batch {
        assert_eq!(read_i64_elided(&mut source, &header), Ok(v));
    }
}

#[test]
fn elided_width_zero_reads_nothing() {
    // An unset type has width 0: "never appears, no bits reserved".
    let header: SmlHeader = SmlHeaderBuilder::new().into();
    let mut sink = BitSink::new();
    assert_eq!(write_u8_elided(&mut sink, 0, &header), Ok(()));
    sink.byte_align();
    assert_eq!(sink.into_bytes(), Vec::<u8>::new());
    let mut source = BitSource::new(Vec::new());
    assert_eq!(read_u8_elided(&mut source, &header), Ok(0));
}

#[test]
fn elided_truncated_read() {
    let header = SmlHeader::default();
    let mut source = BitSource::new(vec![0xAB]);
    assert_eq!(
        read_u64_elided(&mut source, &header),
        Err(SmlError::TruncatedInput)
    );
}

#[test]
fn batch_encode_decode() {
    let values: Vec<u64> = vec![0, 3, 500, 70000, 0xFFFF_FFFF_FFFF, 1];
    let header = batch_header_u64(&values);
    assert_eq!(header.u64_bits, 48);
    let mut sink = BitSink::new();
    header.to_writer(&mut sink);
    write_u64_batch(&mut sink, &values, &header);
    sink.byte_align();
    let data = sink.into_bytes();
    // Twelve header bytes plus six 48-bit fields.
    assert_eq!(data.len(), 12 + 36);

    let mut source = BitSource::new(data);
    let parsed = SmlHeader::from_reader(&mut source).unwrap();
    assert_eq!(parsed, header);
    assert_eq!(read_u64_batch(&mut source, 6, &parsed), Ok(values));
}
