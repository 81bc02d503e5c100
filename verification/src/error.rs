//! The closed set of encode/decode failures.

use vstd::prelude::*;

verus! {

/// Everything that can go wrong while encoding or decoding.
///
/// Every error is fatal to the operation that raised it and is handed
/// straight back to the caller; the channel's cursor is then unspecified
/// and the caller must treat the record as unusable.
#[derive(Clone, Copy, Debug, PartialEq, Eq, Structural)]
pub enum SmlError {
    /// A decoded type tag lies outside the closed registry.
    UnknownTag,
    /// An on-wire tag disagrees with the statically expected type.
    TypeMismatch,
    /// The channel was exhausted before a field's declared width could be
    /// read.
    TruncatedInput,
    /// A value's significant bits exceed what the active width header or
    /// the nibble-count field can express.  The codec fails fast: nothing
    /// has been written when this error comes back.
    WidthOverflow,
}

} // verus!
