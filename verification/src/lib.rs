//! SML: a compact, bit-granular value-encoding format.
//!
//! Values are packed with the number of bits their magnitude requires rather
//! than their declared storage width.  Two cooperating strategies exist:
//!
//! * self-describing mode: every value carries a type tag and, for integers,
//!   a nibble-count length field, so a stream can be decoded without a shared
//!   schema;
//! * schema-elided mode: values carry only their payload bits, with the
//!   per-type bit-width supplied externally through a width header.
//!
//! The raw bit-level sink and source are supplied by the `bitstream_io`
//! crate; the codec itself is specified and verified against a mathematical
//! model of bit sequences (see [`bits`]).

pub mod bits;
pub mod channel;
pub mod chars;
pub mod composite;
pub mod elided;
pub mod error;
pub mod header;
pub mod tag;
pub mod value;
