//! The mathematics of fixed-width byte layouts, and the two conversions that
//! every width shares: a value to its bytes, and bytes back to a value.
use crate::order::ByteOrder;
use vstd::prelude::*;

verus! {

/// The number of distinct values that `n` bytes can hold.
pub open spec fn pow256(n: nat) -> nat
    decreases n,
{
    if n == 0 {
        1
    } else {
        256 * pow256((n - 1) as nat)
    }
}

/// The value of `s` read most significant byte first.
pub open spec fn be_value(s: Seq<u8>) -> nat
    decreases s.len(),
{
    if s.len() == 0 {
        0
    } else {
        (be_value(s.drop_last()) * 256 + s.last()) as nat
    }
}

/// The value of `s` read least significant byte first.
pub open spec fn le_value(s: Seq<u8>) -> nat
    decreases s.len(),
{
    if s.len() == 0 {
        0
    } else {
        (s[0] + 256 * le_value(s.skip(1))) as nat
    }
}

/// The `n` low bytes of `v`, most significant first.
pub open spec fn be_bytes(v: nat, n: nat) -> Seq<u8>
    decreases n,
{
    if n == 0 {
        seq![]
    } else {
        be_bytes(v / 256, (n - 1) as nat).push((v % 256) as u8)
    }
}

/// The `n` low bytes of `v`, least significant first.
pub open spec fn le_bytes(v: nat, n: nat) -> Seq<u8>
    decreases n,
{
    if n == 0 {
        seq![]
    } else {
        seq![(v % 256) as u8] + le_bytes(v / 256, (n - 1) as nat)
    }
}

/// The value of `s` in byte order `order`.
pub open spec fn value_of(order: ByteOrder, s: Seq<u8>) -> nat {
    match order {
        ByteOrder::BE => be_value(s),
        ByteOrder::LE => le_value(s),
    }
}

/// The `n` bytes that hold `v` in byte order `order`.
pub open spec fn bytes_of(order: ByteOrder, v: nat, n: nat) -> Seq<u8> {
    match order {
        ByteOrder::BE => be_bytes(v, n),
        ByteOrder::LE => le_bytes(v, n),
    }
}

/// The bit pattern of `v` as an `n`-byte two's-complement number.
pub open spec fn twos_complement(v: int, n: nat) -> nat {
    if v >= 0 {
        v as nat
    } else {
        (v + pow256(n)) as nat
    }
}

/// The signed number whose `n`-byte two's-complement bit pattern is `u`.
pub open spec fn from_twos_complement(u: nat, n: nat) -> int {
    if u < pow256(n) / 2 {
        u as int
    } else {
        u - pow256(n)
    }
}

/// The smallest signed number that fits in `n` bytes.
pub open spec fn least_signed(n: nat) -> int {
    -(pow256(n) / 2)
}

/// One more than the largest signed number that fits in `n` bytes.
pub open spec fn signed_bound(n: nat) -> int {
    (pow256(n) / 2) as int
}

/// `pow256` is positive, even past zero bytes, and takes its familiar
/// values at the widths of the integer types.
pub proof fn lemma_pow256_facts(n: nat)
    ensures
        pow256(n) >= 1,
        n >= 1 ==> pow256(n) % 2 == 0,
        pow256(1) == 0x100,
        pow256(2) == 0x1_0000,
        pow256(4) == 0x1_0000_0000,
        pow256(8) == 0x1_0000_0000_0000_0000,
        pow256(16) == 0x1_0000_0000_0000_0000_0000_0000_0000_0000,
    decreases n,
{
    if n > 0 {
        lemma_pow256_facts((n - 1) as nat);
    }
    reveal_with_fuel(pow256, 17);
}

/// More bytes hold more values.
pub proof fn lemma_pow256_monotonic(a: nat, b: nat)
    requires
        a <= b,
    ensures
        pow256(a) <= pow256(b),
    decreases b,
{
    if a < b {
        lemma_pow256_monotonic(a, (b - 1) as nat);
        lemma_pow256_facts((b - 1) as nat);
    }
}

/// Encoding in `n` bytes gives `n` bytes.
pub proof fn lemma_be_bytes_len(v: nat, n: nat)
    ensures
        be_bytes(v, n).len() == n,
    decreases n,
{
    if n > 0 {
        lemma_be_bytes_len(v / 256, (n - 1) as nat);
    }
}

pub proof fn lemma_le_bytes_len(v: nat, n: nat)
    ensures
        le_bytes(v, n).len() == n,
    decreases n,
{
    if n > 0 {
        lemma_le_bytes_len(v / 256, (n - 1) as nat);
    }
}

/// The bytes of a sequence hold a number below `pow256` of its length.
pub proof fn lemma_be_value_bound(s: Seq<u8>)
    ensures
        be_value(s) < pow256(s.len()),
    decreases s.len(),
{
    if s.len() > 0 {
        lemma_be_value_bound(s.drop_last());
        let p = pow256((s.len() - 1) as nat);
        assert(be_value(s.drop_last()) * 256 + s.last() < 256 * p) by (nonlinear_arith)
            requires
                be_value(s.drop_last()) < p,
                s.last() < 256,
        ;
    }
}

pub proof fn lemma_le_value_bound(s: Seq<u8>)
    ensures
        le_value(s) < pow256(s.len()),
    decreases s.len(),
{
    if s.len() > 0 {
        lemma_le_value_bound(s.skip(1));
        let p = pow256((s.len() - 1) as nat);
        assert(s[0] + 256 * le_value(s.skip(1)) < 256 * p) by (nonlinear_arith)
            requires
                le_value(s.skip(1)) < p,
                s[0] < 256,
        ;
    }
}

pub proof fn lemma_value_of_bound(order: ByteOrder, s: Seq<u8>)
    ensures
        value_of(order, s) < pow256(s.len()),
{
    lemma_be_value_bound(s);
    lemma_le_value_bound(s);
}

/// A number below `pow256(n)` splits into its low byte and a number below
/// `pow256(n - 1)`.
proof fn lemma_split_byte(v: nat, n: nat)
    requires
        n >= 1,
        v < pow256(n),
    ensures
        v / 256 < pow256((n - 1) as nat),
        v == (v / 256) * 256 + v % 256,
        ((v % 256) as u8) as nat == v % 256,
{
    let p = pow256((n - 1) as nat);
    assert(v / 256 < p) by (nonlinear_arith)
        requires
            v < 256 * p,
    ;
}

/// Encoding a number that fits and reading it back gives the number.
pub proof fn lemma_be_round_trip(v: nat, n: nat)
    requires
        v < pow256(n),
    ensures
        be_value(be_bytes(v, n)) == v,
    decreases n,
{
    if n > 0 {
        lemma_split_byte(v, n);
        lemma_be_round_trip(v / 256, (n - 1) as nat);
        let s = be_bytes(v, n);
        assert(s.drop_last() == be_bytes(v / 256, (n - 1) as nat));
    }
}

pub proof fn lemma_le_round_trip(v: nat, n: nat)
    requires
        v < pow256(n),
    ensures
        le_value(le_bytes(v, n)) == v,
    decreases n,
{
    if n > 0 {
        lemma_split_byte(v, n);
        lemma_le_round_trip(v / 256, (n - 1) as nat);
        let s = le_bytes(v, n);
        assert(s.skip(1) == le_bytes(v / 256, (n - 1) as nat));
    }
}

/// Least significant first is most significant first, reversed.
pub proof fn lemma_le_bytes_reverse(v: nat, n: nat)
    ensures
        le_bytes(v, n) == be_bytes(v, n).reverse(),
    decreases n,
{
    if n > 0 {
        lemma_le_bytes_reverse(v / 256, (n - 1) as nat);
        let b = be_bytes(v / 256, (n - 1) as nat);
        let x = (v % 256) as u8;
        assert(b.push(x).reverse() =~= seq![x] + b.reverse());
    }
}

/// A single byte reads and writes as itself in either order.
pub proof fn lemma_single_byte(order: ByteOrder, b: u8)
    ensures
        bytes_of(order, b as nat, 1) == seq![b],
        value_of(order, seq![b]) == b,
{
    let v = b as nat;
    assert(v % 256 == v && v / 256 == 0);
    assert(be_bytes(0, 0) =~= Seq::<u8>::empty());
    assert(le_bytes(0, 0) =~= Seq::<u8>::empty());
    assert(be_bytes(v, 1) =~= seq![b]);
    assert(le_bytes(v, 1) =~= seq![b]);
    let s = seq![b];
    assert(s.drop_last() =~= Seq::<u8>::empty());
    assert(s.skip(1) =~= Seq::<u8>::empty());
    assert(be_value(s) == be_value(s.drop_last()) * 256 + s.last());
    assert(le_value(s) == s[0] + 256 * le_value(s.skip(1)));
}

/// Reads `bytes` as an unsigned number in byte order `order`.
pub fn decode(order: ByteOrder, bytes: &[u8]) -> (r: u128)
    requires
        bytes@.len() <= 16,
    ensures
        r == value_of(order, bytes@),
{
    let len = bytes.len();
    let mut acc: u128 = 0;
    match order {
        ByteOrder::BE => {
            let mut i: usize = 0;
            while i < len
                invariant
                    len == bytes@.len() <= 16,
                    i <= len,
                    acc == be_value(bytes@.take(i as int)),
                decreases len - i,
            {
                proof {
                    let t = bytes@.take(i + 1);
                    assert(t.drop_last() =~= bytes@.take(i as int));
                    lemma_be_value_bound(t);
                    lemma_pow256_monotonic((i + 1) as nat, 16);
                    lemma_pow256_facts(16);
                }
                acc = acc * 256 + bytes[i] as u128;
                i = i + 1;
            }
            assert(bytes@.take(len as int) =~= bytes@);
        },
        ByteOrder::LE => {
            let mut i: usize = len;
            while i > 0
                invariant
                    len == bytes@.len() <= 16,
                    i <= len,
                    acc == le_value(bytes@.skip(i as int)),
                decreases i,
            {
                proof {
                    let t = bytes@.skip(i - 1);
                    assert(t.skip(1) =~= bytes@.skip(i as int));
                    lemma_le_value_bound(t);
                    lemma_pow256_monotonic(t.len(), 16);
                    lemma_pow256_facts(16);
                }
                acc = bytes[i - 1] as u128 + 256 * acc;
                i = i - 1;
            }
            assert(bytes@.skip(0) =~= bytes@);
        },
    }
    acc
}

/// The `width` bytes that hold `v` in byte order `order`.
pub fn encode(order: ByteOrder, v: u128, width: usize) -> (r: Vec<u8>)
    requires
        width <= 16,
        v < pow256(width as nat),
    ensures
        r@ == bytes_of(order, v as nat, width as nat),
{
    let mut out: Vec<u8> = vec![0u8; width];
    let mut x: u128 = v;
    match order {
        ByteOrder::BE => {
            let mut i: usize = width;
            while i > 0
                invariant
                    i <= width,
                    out@.len() == width,
                    be_bytes(v as nat, width as nat) == be_bytes(x as nat, i as nat) + out@.skip(
                        i as int,
                    ),
                decreases i,
            {
                let ghost before = out@;
                out[i - 1] = (x % 256) as u8;
                proof {
                    let b = be_bytes((x / 256) as nat, (i - 1) as nat);
                    assert(out@.skip(i - 1) =~= seq![(x % 256) as u8] + before.skip(i as int));
                    assert(b.push((x % 256) as u8) + before.skip(i as int) =~= b + out@.skip(
                        i - 1,
                    ));
                }
                x = x / 256;
                i = i - 1;
            }
            assert(out@.skip(0) =~= out@);
        },
        ByteOrder::LE => {
            let mut i: usize = 0;
            while i < width
                invariant
                    i <= width,
                    out@.len() == width,
                    le_bytes(v as nat, width as nat) == out@.take(i as int) + le_bytes(
                        x as nat,
                        (width - i) as nat,
                    ),
                decreases width - i,
            {
                let ghost before = out@;
                out[i] = (x % 256) as u8;
                proof {
                    let b = le_bytes((x / 256) as nat, (width - i - 1) as nat);
                    assert(out@.take(i + 1) =~= before.take(i as int).push((x % 256) as u8));
                    assert(before.take(i as int) + (seq![(x % 256) as u8] + b) =~= out@.take(
                        i + 1,
                    ) + b);
                }
                x = x / 256;
                i = i + 1;
            }
            assert(out@.take(width as int) =~= out@);
            assert(le_bytes(x as nat, 0) =~= seq![]);
        },
    }
    out
}

/// The largest unsigned number that fits in `width` bytes.
fn max_pattern(width: usize) -> (r: u128)
    requires
        1 <= width <= 16,
    ensures
        r == pow256(width as nat) - 1,
{
    let mut r: u128 = 0;
    let mut i: usize = 0;
    while i < width
        invariant
            i <= width <= 16,
            r == pow256(i as nat) - 1,
        decreases width - i,
    {
        proof {
            lemma_pow256_monotonic((i + 1) as nat, 16);
            lemma_pow256_facts(16);
        }
        r = r * 256 + 255;
        i = i + 1;
    }
    r
}

proof fn lemma_half_bounds(n: nat)
    requires
        1 <= n <= 16,
    ensures
        pow256(n) % 2 == 0,
        pow256(n) / 2 <= 0x8000_0000_0000_0000_0000_0000_0000_0000,
{
    lemma_pow256_facts(n);
    lemma_pow256_monotonic(n, 16);
    lemma_pow256_facts(16);
}

/// The `width`-byte two's-complement bit pattern of `v`.
pub fn to_pattern(v: i128, width: usize) -> (r: u128)
    requires
        1 <= width <= 16,
        least_signed(width as nat) <= v < signed_bound(width as nat),
    ensures
        r == twos_complement(v as int, width as nat),
        r < pow256(width as nat),
{
    proof {
        lemma_half_bounds(width as nat);
    }
    if v >= 0 {
        v as u128
    } else {
        let max = max_pattern(width);
        let magnitude = (-(v + 1)) as u128;
        max - magnitude
    }
}

/// The signed number whose `width`-byte two's-complement bit pattern is `u`.
pub fn from_pattern(u: u128, width: usize) -> (r: i128)
    requires
        1 <= width <= 16,
        u < pow256(width as nat),
    ensures
        r == from_twos_complement(u as nat, width as nat),
        least_signed(width as nat) <= r < signed_bound(width as nat),
{
    proof {
        lemma_half_bounds(width as nat);
    }
    let max = max_pattern(width);
    if u <= max / 2 {
        u as i128
    } else {
        let magnitude = (max - u) as i128;
        -magnitude - 1
    }
}

} // verus!
