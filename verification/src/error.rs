use vstd::prelude::*;

verus! {

/// Why a decode was abandoned. The decoder raises the first error it meets
/// and gives up on the rest of the message; the caller decides what to do
/// with the failure.
#[derive(Clone, Copy, Debug, PartialEq, Eq, Structural)]
pub enum DecodeError {
    /// A read past the end of the supplied buffer: the message is truncated,
    /// or a count field claims more records than the buffer holds.
    OutOfBounds,
    /// A compression pointer referenced an offset at which no name had been
    /// decoded yet (a forward or otherwise invalid back-reference).
    DanglingPointer,
}

} // verus!
