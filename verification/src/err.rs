//! The codec's failure taxonomy.

use vstd::prelude::*;

verus! {

/// A decode or encode failure.
///
/// `Io` is the only failure the primitive codecs can produce: the stream ran
/// out of bytes before the requested count was available. `InvalidUtf16` is
/// the one value-level validity failure of the wire format: a wide string
/// payload whose code units before the terminator are not well-formed UTF-16
/// (an unpaired surrogate). Callers can therefore distinguish a truncated
/// stream from a corrupt wide string.
#[derive(Clone, Copy, Debug, PartialEq, Eq, Structural)]
pub enum CodecError {
    /// The underlying byte stream could not supply (or accept) the requested bytes.
    Io,
    /// A wide string payload contained an unpaired surrogate code unit.
    InvalidUtf16,
}

} // verus!
