//! The shape of a byte buffer that a host reads as a C string.

use vstd::prelude::*;

verus! {

/// The byte that ends a buffer handed to the host.
pub const TERMINATOR: u8 = 0;

/// No byte of `bytes` is the terminator.
pub open spec fn free_of_terminator(bytes: Seq<u8>) -> bool {
    forall|i: int| 0 <= i < bytes.len() ==> #[trigger] bytes[i] != TERMINATOR
}

/// `bytes` ends in the terminator and holds it nowhere else, so a reader that
/// stops at the first terminator sees all of it.
pub open spec fn is_c_string(bytes: Seq<u8>) -> bool {
    &&& bytes.len() > 0
    &&& bytes.last() == TERMINATOR
    &&& free_of_terminator(bytes.drop_last())
}

} // verus!
