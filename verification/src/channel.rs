//! The bit channel: the ordered sink and source of fixed-width unsigned
//! fields and raw byte runs that the codec writes to and reads from.
//!
//! The channel itself is not implemented here; it is `bitstream_io`'s
//! big-endian bit writer and reader.  This module declares those types to
//! the verifier, gives their contents a name ([`writer_bits`],
//! [`reader_bits`], [`reader_pos`]) and wraps each method the codec calls
//! in a trusted function whose contract states, over those names, what the
//! crate's source shows.

use crate::bits::{bits_of_bytes, bits_of_uint, pad_len, pow2, uint_of_bits, zero_bits};
use crate::error::SmlError;
use bitstream_io::BitRead;
use bitstream_io::BitWrite;
use vstd::prelude::*;

verus! {

/// The write side of the bit channel: an in-memory sink of bits.
///
/// Its view is the sequence of bits written so far.  The verifier sees
/// nothing of `bitstream_io`'s writer; everything the codec knows about a
/// sink comes from the wrapper contracts below.
#[verifier::external_body]
pub struct BitSink {
    inner: bitstream_io::BitWriter<Vec<u8>, bitstream_io::BigEndian>,
}

/// The bits written to a sink so far, in order, most recent last.
pub uninterp spec fn writer_bits(w: BitSink) -> Seq<bool>;

/// The whole bit stream a source was opened over.
pub uninterp spec fn reader_bits(r: BitSource) -> Seq<bool>;

/// How many bits of the stream a source has consumed.
pub uninterp spec fn reader_pos(r: BitSource) -> nat;

impl View for BitSink {
    type V = Seq<bool>;

    open spec fn view(&self) -> Seq<bool> {
        writer_bits(*self)
    }
}

impl BitSink {
    /// Relies on `BitWriter::endian`: a fresh writer holds no bits.
    #[verifier::external_body]
    pub fn new() -> (r: BitSink)
        ensures
            writer_bits(r) == Seq::<bool>::empty(),
    {
        BitSink { inner: bitstream_io::BitWriter::endian(Vec::new(), bitstream_io::BigEndian) }
    }

    /// Relies on `BitWrite::write::<u128>`: appends the low `width` bits of
    /// `value`, most significant first; with the value below `2^width` the
    /// call cannot fail on an in-memory sink.
    #[verifier::external_body]
    pub(crate) fn write_bits(&mut self, width: u32, value: u128)
        requires
            width <= 128,
            (value as nat) < pow2(width as nat),
        ensures
            final(self)@ == old(self)@ + bits_of_uint(value as nat, width as nat),
    {
        self.inner.write(width, value).unwrap();
    }

    /// Relies on `BitWrite::write_bytes`: appends each byte's eight bits in
    /// order, whether or not the sink is byte-aligned.
    #[verifier::external_body]
    pub(crate) fn write_raw_bytes(&mut self, data: &[u8])
        ensures
            final(self)@ == old(self)@ + bits_of_bytes(data@),
    {
        self.inner.write_bytes(data).unwrap();
    }

    /// Relies on `BitWrite::byte_align`: pads with clear bits up to the next
    /// byte boundary, a no-op when already aligned.
    #[verifier::external_body]
    pub fn byte_align(&mut self)
        ensures
            final(self)@ == old(self)@ + zero_bits(pad_len(old(self)@.len())),
    {
        self.inner.byte_align().unwrap();
    }

    /// Relies on `BitWriter::into_writer`: an aligned writer has flushed
    /// exactly its bits, eight per byte, to the underlying vector.
    #[verifier::external_body]
    pub fn into_bytes(self) -> (r: Vec<u8>)
        requires
            self@.len() % 8 == 0,
        ensures
            bits_of_bytes(r@) == self@,
            8 * r@.len() == self@.len(),
    {
        self.inner.into_writer()
    }
}

/// The read side of the bit channel: a source over an in-memory byte
/// vector.
///
/// [`BitSource::stream`] is the whole underlying bit stream, which never
/// changes; [`BitSource::cursor`] is how many of its bits have been
/// consumed.  After a failed read the cursor is unspecified.
#[verifier::external_body]
pub struct BitSource {
    inner: bitstream_io::BitReader<std::io::Cursor<Vec<u8>>, bitstream_io::BigEndian>,
}

impl BitSource {
    /// The whole bit stream this source was opened over.
    pub open spec fn stream(&self) -> Seq<bool> {
        reader_bits(*self)
    }

    /// How many bits have been consumed so far.
    pub open spec fn cursor(&self) -> nat {
        reader_pos(*self)
    }

    /// Relies on `BitReader::endian`: a fresh reader stands at the start of
    /// the given bytes.
    #[verifier::external_body]
    pub fn new(data: Vec<u8>) -> (r: BitSource)
        ensures
            reader_bits(r) == bits_of_bytes(data@),
            reader_pos(r) == 0,
    {
        BitSource {
            inner: bitstream_io::BitReader::endian(std::io::Cursor::new(data), bitstream_io::BigEndian),
        }
    }

    /// Relies on `BitRead::read::<u128>`: reads the next `width` bits, most
    /// significant first, and fails exactly when the stream is exhausted
    /// before `width` bits could be delivered.
    #[verifier::external_body]
    pub(crate) fn read_bits(&mut self, width: u32) -> (r: Result<u128, SmlError>)
        requires
            width <= 128,
        ensures
            final(self).stream() == old(self).stream(),
            r is Ok <==> old(self).cursor() + width <= old(self).stream().len(),
            r matches Ok(v) ==> {
                &&& v as nat == uint_of_bits(
                    old(self).stream().subrange(
                        old(self).cursor() as int,
                        old(self).cursor() + width,
                    ),
                )
                &&& final(self).cursor() == old(self).cursor() + width
            },
            r matches Err(e) ==> e == SmlError::TruncatedInput,
    {
        match self.inner.read::<u128>(width) {
            Ok(v) => Ok(v),
            Err(_) => Err(SmlError::TruncatedInput),
        }
    }

    /// Relies on `BitRead::read_bytes`: fills the buffer with the next
    /// `count` bytes' worth of bits and fails exactly when fewer remain.
    #[verifier::external_body]
    pub(crate) fn read_byte_vec(&mut self, count: usize) -> (r: Result<Vec<u8>, SmlError>)
        requires
            8 * count <= u32::MAX,
        ensures
            final(self).stream() == old(self).stream(),
            r is Ok <==> old(self).cursor() + 8 * count <= old(self).stream().len(),
            r matches Ok(bs) ==> {
                &&& bs@.len() == count
                &&& bits_of_bytes(bs@) == old(self).stream().subrange(
                    old(self).cursor() as int,
                    old(self).cursor() + 8 * count,
                )
                &&& final(self).cursor() == old(self).cursor() + 8 * count
            },
            r matches Err(e) ==> e == SmlError::TruncatedInput,
    {
        let mut buf = vec![0u8; count];
        match self.inner.read_bytes(&mut buf) {
            Ok(()) => Ok(buf),
            Err(_) => Err(SmlError::TruncatedInput),
        }
    }

    /// Relies on `BitRead::byte_align`: throws away the unread bits of the
    /// current byte, so the cursor moves to the next byte boundary; a no-op
    /// when already aligned.
    #[verifier::external_body]
    pub fn skip_to_byte_align(&mut self)
        ensures
            final(self).stream() == old(self).stream(),
            final(self).cursor() == old(self).cursor() + pad_len(old(self).cursor()),
    {
        self.inner.byte_align();
    }
}

} // verus!
