use vstd::endian::{endianness, Endian};
use vstd::prelude::*;

verus! {

/// The order in which the bytes of a multi-byte number are laid out.
#[derive(Clone, Copy, Debug, PartialEq, Eq, Structural)]
pub enum ByteOrder {
    /// Most significant byte first ("network order").
    BE,
    /// Least significant byte first.
    LE,
}

/// The order in which the machine that runs the code lays out its numbers.
pub open spec fn native_order() -> ByteOrder {
    match endianness() {
        Endian::Big => ByteOrder::BE,
        Endian::Little => ByteOrder::LE,
    }
}

/// Relies on u16::to_ne_bytes: the memory representation of `v`, in the
/// machine's own byte order, which vstd names `endianness()`.
#[verifier::external_body]
fn native_bytes_u16(v: u16) -> (r: [u8; 2])
    ensures
        endianness() is Little ==> r@ == seq![(v % 256) as u8, (v / 256) as u8],
        endianness() is Big ==> r@ == seq![(v / 256) as u8, (v % 256) as u8],
{
    v.to_ne_bytes()
}

impl ByteOrder {
    /// The byte order of the target machine: `BE` where it lays numbers out
    /// most significant byte first, `LE` otherwise.
    pub fn native() -> (r: ByteOrder)
        ensures
            r == native_order(),
    {
        let probe = native_bytes_u16(1);
        if probe[0] == 1 {
            ByteOrder::LE
        } else {
            ByteOrder::BE
        }
    }
}

} // verus!
