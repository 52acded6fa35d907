//! What holds of every encoding: it reads back as the number written, and
//! the two byte orders are mirror images of each other.
use crate::codec::{
    be_bytes, bytes_of, from_twos_complement, lemma_be_bytes_len, lemma_be_round_trip,
    lemma_le_bytes_len, lemma_le_bytes_reverse, lemma_le_round_trip, lemma_pow256_facts,
    least_signed, pow256, signed_bound, twos_complement, value_of,
};
use crate::order::ByteOrder;
use vstd::prelude::*;

verus! {

/// Reading back what was written gives the number written: for every width
/// and either byte order, the `width` bytes that hold an unsigned `v` read
/// as `v` in the same order, whatever bytes follow them.
pub proof fn unsigned_round_trip(order: ByteOrder, v: nat, width: nat, rest: Seq<u8>)
    requires
        v < pow256(width),
    ensures
        bytes_of(order, v, width).len() == width,
        value_of(order, bytes_of(order, v, width)) == v,
        value_of(order, (bytes_of(order, v, width) + rest).take(width as int)) == v,
{
    lemma_be_bytes_len(v, width);
    lemma_le_bytes_len(v, width);
    lemma_be_round_trip(v, width);
    lemma_le_round_trip(v, width);
    assert((bytes_of(order, v, width) + rest).take(width as int) =~= bytes_of(order, v, width));
}

/// Reading back what was written gives the number written, for signed
/// numbers too: the two's-complement bytes of a `v` that fits in `width`
/// bytes read as `v` in the same order, whatever bytes follow them.
pub proof fn signed_round_trip(order: ByteOrder, v: int, width: nat, rest: Seq<u8>)
    requires
        1 <= width,
        least_signed(width) <= v < signed_bound(width),
    ensures
        bytes_of(order, twos_complement(v, width), width).len() == width,
        from_twos_complement(value_of(order, bytes_of(order, twos_complement(v, width), width)), width)
            == v,
        from_twos_complement(
            value_of(
                order,
                (bytes_of(order, twos_complement(v, width), width) + rest).take(width as int),
            ),
            width,
        ) == v,
{
    lemma_pow256_facts(width);
    unsigned_round_trip(order, twos_complement(v, width), width, rest);
}

/// The big-endian bytes of a number are its little-endian bytes reversed,
/// at every width; a single byte is the same in both orders.
pub proof fn orders_mirror(v: nat, width: nat)
    ensures
        bytes_of(ByteOrder::BE, v, width) == bytes_of(ByteOrder::LE, v, width).reverse(),
        width == 1 ==> bytes_of(ByteOrder::BE, v, width) == bytes_of(ByteOrder::LE, v, width),
{
    lemma_le_bytes_reverse(v, width);
    let b = be_bytes(v, width);
    assert(b.reverse().reverse() =~= b);
    if width == 1 {
        lemma_be_bytes_len(v, width);
        assert(b.reverse() =~= b);
    }
}

} // verus!
