//! Shared runtime support for the generated fragments: byte serialization
//! of binary integers in both byte orders and both supported signings, with
//! the round-trip law (`decode` after `encode` returns the value) proved for
//! every supported width.

use vstd::prelude::*;

verus! {

/// `256^n`: the number of values a run of `n` bytes can carry.
pub open spec fn pow256(n: nat) -> nat
    decreases n,
{
    if n == 0 {
        1
    } else {
        256 * pow256((n - 1) as nat)
    }
}

/// Little-endian bytes of `v mod 256^n`, least significant first.
pub open spec fn le_bytes(v: nat, n: nat) -> Seq<u8>
    decreases n,
{
    if n == 0 {
        Seq::empty()
    } else {
        seq![(v % 256) as u8] + le_bytes(v / 256, (n - 1) as nat)
    }
}

/// The value little-endian bytes stand for.
pub open spec fn le_value(b: Seq<u8>) -> nat
    decreases b.len(),
{
    if b.len() == 0 {
        0nat
    } else {
        (b[0] + 256 * le_value(b.drop_first())) as nat
    }
}

/// Big-endian bytes of `v mod 256^n`, most significant first.
pub open spec fn be_bytes(v: nat, n: nat) -> Seq<u8>
    decreases n,
{
    if n == 0 {
        Seq::empty()
    } else {
        be_bytes(v / 256, (n - 1) as nat) + seq![(v % 256) as u8]
    }
}

/// The value big-endian bytes stand for.
pub open spec fn be_value(b: Seq<u8>) -> nat
    decreases b.len(),
{
    if b.len() == 0 {
        0nat
    } else {
        (256 * be_value(b.drop_last()) + b.last()) as nat
    }
}

/// The two's-complement bit pattern of `x` in `n` bytes, as a value.
pub open spec fn twos_complement(x: int, n: nat) -> nat {
    if x >= 0 {
        x as nat
    } else {
        (x + pow256(n)) as nat
    }
}

/// The signed value a two's-complement bit pattern of `n` bytes stands for.
pub open spec fn from_twos(b: nat, n: nat) -> int {
    if b < pow256(n) / 2 {
        b as int
    } else {
        b as int - pow256(n) as int
    }
}

/// Powers of 256 grow with the exponent.
pub proof fn lemma_pow256_increases(a: nat, b: nat)
    requires
        a <= b,
    ensures
        pow256(a) <= pow256(b),
        pow256(a) >= 1,
    decreases b,
{
    if b == 0 {
    } else if a == b {
        lemma_pow256_increases((a - 1) as nat, (b - 1) as nat);
    } else {
        lemma_pow256_increases(a, (b - 1) as nat);
    }
}

/// An encoding has exactly the requested length.
pub proof fn lemma_le_bytes_len(v: nat, n: nat)
    ensures
        le_bytes(v, n).len() == n,
    decreases n,
{
    if n > 0 {
        lemma_le_bytes_len(v / 256, (n - 1) as nat);
    }
}

/// An encoding has exactly the requested length.
pub proof fn lemma_be_bytes_len(v: nat, n: nat)
    ensures
        be_bytes(v, n).len() == n,
    decreases n,
{
    if n > 0 {
        lemma_be_bytes_len(v / 256, (n - 1) as nat);
    }
}

/// The value of a byte run fits in its width.
pub proof fn lemma_le_value_bound(b: Seq<u8>)
    ensures
        le_value(b) < pow256(b.len()),
    decreases b.len(),
{
    if b.len() == 0 {
    } else {
        lemma_le_value_bound(b.drop_first());
        assert(le_value(b) == (b[0] + 256 * le_value(b.drop_first())) as nat);
        assert(((b[0] + 256 * le_value(b.drop_first())) as nat) < 256 * pow256(b.drop_first().len()))
            by (nonlinear_arith)
            requires
                le_value(b.drop_first()) < pow256(b.drop_first().len()),
                0 <= b[0] < 256,
        ;
    }
}

/// The value of a byte run fits in its width.
pub proof fn lemma_be_value_bound(b: Seq<u8>)
    ensures
        be_value(b) < pow256(b.len()),
    decreases b.len(),
{
    if b.len() == 0 {
    } else {
        lemma_be_value_bound(b.drop_last());
        assert(((256 * be_value(b.drop_last()) + b.last()) as nat) < 256 * pow256(b.drop_last().len()))
            by (nonlinear_arith)
            requires
                be_value(b.drop_last()) < pow256(b.drop_last().len()),
                0 <= b.last() < 256,
        ;
    }
}

/// Round trip, little-endian: decoding an encoding of a value in range
/// returns that value.
pub proof fn lemma_le_round_trip(v: nat, n: nat)
    requires
        v < pow256(n),
    ensures
        le_value(le_bytes(v, n)) == v,
    decreases n,
{
    if n == 0 {
    } else {
        let rest = le_bytes(v / 256, (n - 1) as nat);
        assert(le_bytes(v, n) == seq![(v % 256) as u8] + rest);
        assert((seq![(v % 256) as u8] + rest)[0] == (v % 256) as u8);
        assert((seq![(v % 256) as u8] + rest).drop_first() =~= rest);
        assert(v / 256 < pow256((n - 1) as nat)) by (nonlinear_arith)
            requires
                v < 256 * pow256((n - 1) as nat),
        ;
        lemma_le_round_trip(v / 256, (n - 1) as nat);
        assert(v % 256 + 256 * (v / 256) == v) by (nonlinear_arith);
    }
}

/// Round trip, big-endian: decoding an encoding of a value in range
/// returns that value.
pub proof fn lemma_be_round_trip(v: nat, n: nat)
    requires
        v < pow256(n),
    ensures
        be_value(be_bytes(v, n)) == v,
    decreases n,
{
    if n == 0 {
    } else {
        let rest = be_bytes(v / 256, (n - 1) as nat);
        lemma_be_bytes_len(v / 256, (n - 1) as nat);
        assert(be_bytes(v, n) == rest + seq![(v % 256) as u8]);
        assert((rest + seq![(v % 256) as u8]).last() == (v % 256) as u8);
        assert((rest + seq![(v % 256) as u8]).drop_last() =~= rest);
        assert(v / 256 < pow256((n - 1) as nat)) by (nonlinear_arith)
            requires
                v < 256 * pow256((n - 1) as nat),
        ;
        lemma_be_round_trip(v / 256, (n - 1) as nat);
        assert(v % 256 + 256 * (v / 256) == v) by (nonlinear_arith);
    }
}

/// Round trip of the two's-complement representation: a signed value in
/// range survives the trip through its bit pattern.
pub proof fn lemma_twos_round_trip(x: int, n: nat)
    requires
        n >= 1,
        -(pow256(n) as int) / 2 <= x < pow256(n) as int / 2,
    ensures
        from_twos(twos_complement(x, n), n) == x,
{
    assert(pow256(n) == 256 * pow256((n - 1) as nat));
    lemma_pow256_increases(0, (n - 1) as nat);
    assert(pow256(n) / 2 == 128 * pow256((n - 1) as nat)) by (nonlinear_arith)
        requires
            pow256(n) == 256 * pow256((n - 1) as nat),
    ;
    assert(-(pow256(n) as int) / 2 == -128 * pow256((n - 1) as nat)) by (nonlinear_arith)
        requires
            pow256(n) == 256 * pow256((n - 1) as nat),
    ;
}


/// The concrete values `256^n` takes across one `u64`.
pub proof fn lemma_pow256_u64()
    ensures
        pow256(0) == 1,
        pow256(1) == 0x100,
        pow256(2) == 0x10000,
        pow256(3) == 0x1000000,
        pow256(4) == 0x100000000,
        pow256(5) == 0x10000000000,
        pow256(6) == 0x1000000000000,
        pow256(7) == 0x100000000000000,
        pow256(8) == 0x10000000000000000,
{
    assert(pow256(1) == 256 * pow256(0));
    assert(pow256(2) == 256 * pow256(1));
    assert(pow256(3) == 256 * pow256(2));
    assert(pow256(4) == 256 * pow256(3));
    assert(pow256(5) == 256 * pow256(4));
    assert(pow256(6) == 256 * pow256(5));
    assert(pow256(7) == 256 * pow256(6));
    assert(pow256(8) == 256 * pow256(7));
}

/// Encodes `v mod 256^n` as `n` little-endian bytes.
pub fn encode_le(v: u64, n: usize) -> (r: Vec<u8>)
    ensures
        r@ == le_bytes(v as nat, n as nat),
    decreases n,
{
    if n == 0 {
        let r: Vec<u8> = Vec::new();
        proof {
            assert(r@ =~= le_bytes(v as nat, 0));
        }
        r
    } else {
        let b: u8 = (v % 256) as u8;
        let mut rest = encode_le(v / 256, n - 1);
        let ghost grest = rest@;
        let mut r: Vec<u8> = Vec::new();
        r.push(b);
        r.append(&mut rest);
        proof {
            assert(r@ =~= seq![(((v as nat) % 256) as u8)] + le_bytes(
                (v as nat) / 256,
                (n - 1) as nat,
            ));
        }
        r
    }
}

/// Encodes `v mod 256^n` as `n` big-endian bytes.
pub fn encode_be(v: u64, n: usize) -> (r: Vec<u8>)
    ensures
        r@ == be_bytes(v as nat, n as nat),
    decreases n,
{
    if n == 0 {
        let r: Vec<u8> = Vec::new();
        proof {
            assert(r@ =~= be_bytes(v as nat, 0));
        }
        r
    } else {
        let mut r = encode_be(v / 256, n - 1);
        r.push((v % 256) as u8);
        proof {
            assert(r@ =~= be_bytes((v as nat) / 256, (n - 1) as nat) + seq![(((v as nat) % 256)
                as u8)]);
        }
        r
    }
}

/// Decodes up to eight little-endian bytes back to their value.
pub fn decode_le(b: &Vec<u8>) -> (r: u64)
    requires
        b@.len() <= 8,
    ensures
        r as nat == le_value(b@),
{
    let n = b.len();
    let mut acc: u64 = 0;
    let mut i: usize = n;
    proof {
        assert(b@.subrange(n as int, n as int).len() == 0);
    }
    while i > 0
        invariant
            n == b@.len() <= 8,
            0 <= i <= n,
            acc as nat == le_value(b@.subrange(i as int, n as int)),
        decreases i,
    {
        i = i - 1;
        proof {
            lemma_le_value_bound(b@.subrange(i as int + 1, n as int));
            lemma_pow256_increases(b@.subrange(i as int + 1, n as int).len() as nat, 7);
            lemma_pow256_u64();
        }
        acc = 256 * acc + (b[i] as u64);
        proof {
            let sub = b@.subrange(i as int, n as int);
            assert(sub[0] == b@[i as int]);
            assert(sub.drop_first() =~= b@.subrange(i as int + 1, n as int));
        }
    }
    proof {
        assert(b@.subrange(0, n as int) =~= b@);
    }
    acc
}

/// Decodes up to eight big-endian bytes back to their value.
pub fn decode_be(b: &Vec<u8>) -> (r: u64)
    requires
        b@.len() <= 8,
    ensures
        r as nat == be_value(b@),
{
    let n = b.len();
    let mut acc: u64 = 0;
    let mut i: usize = 0;
    proof {
        assert(b@.subrange(0, 0).len() == 0);
    }
    while i < n
        invariant
            n == b@.len() <= 8,
            0 <= i <= n,
            acc as nat == be_value(b@.subrange(0, i as int)),
        decreases n - i,
    {
        proof {
            lemma_be_value_bound(b@.subrange(0, i as int));
            lemma_pow256_increases(b@.subrange(0, i as int).len() as nat, 7);
            lemma_pow256_u64();
        }
        acc = 256 * acc + (b[i] as u64);
        proof {
            let sub = b@.subrange(0, i as int + 1);
            assert(sub.drop_last() =~= b@.subrange(0, i as int));
            assert(sub.last() == b@[i as int]);
        }
        i = i + 1;
    }
    proof {
        assert(b@.subrange(0, n as int) =~= b@);
    }
    acc
}

/// `256^n` as a machine value, below a full `u64`.
fn pow256_u64(n: usize) -> (r: u64)
    requires
        n <= 7,
    ensures
        r as nat == pow256(n as nat),
{
    let mut r: u64 = 1;
    let mut i: usize = 0;
    while i < n
        invariant
            0 <= i <= n <= 7,
            r as nat == pow256(i as nat),
        decreases n - i,
    {
        proof {
            lemma_pow256_increases(i as nat, 6);
            lemma_pow256_u64();
        }
        r = 256 * r;
        i = i + 1;
    }
    r
}

/// The two's-complement bit pattern of `x` in `nbytes` bytes.
pub fn to_twos_bits(x: i64, nbytes: usize) -> (r: u64)
    requires
        1 <= nbytes <= 8,
        -(pow256(nbytes as nat) as int) / 2 <= x < pow256(nbytes as nat) as int / 2,
    ensures
        r as nat == twos_complement(x as int, nbytes as nat),
{
    proof {
        lemma_pow256_u64();
    }
    if nbytes == 8 {
        if x >= 0 {
            x as u64
        } else {
            let m: u64 = (-(x + 1)) as u64;
            u64::MAX - m
        }
    } else {
        let p = pow256_u64(nbytes);
        if x >= 0 {
            x as u64
        } else {
            ((p as i64) + x) as u64
        }
    }
}

/// The signed value a two's-complement bit pattern of `nbytes` bytes
/// stands for.
pub fn from_twos_bits(b: u64, nbytes: usize) -> (r: i64)
    requires
        1 <= nbytes <= 8,
        (b as nat) < pow256(nbytes as nat),
    ensures
        r as int == from_twos(b as nat, nbytes as nat),
{
    proof {
        lemma_pow256_u64();
    }
    if nbytes == 8 {
        if b < 0x8000000000000000u64 {
            b as i64
        } else {
            let m: u64 = u64::MAX - b;
            -(m as i64) - 1
        }
    } else {
        let p = pow256_u64(nbytes);
        if b < p / 2 {
            b as i64
        } else {
            (b as i64) - (p as i64)
        }
    }
}

/// Bytes of a value in the given byte order.
pub open spec fn spec_encode(v: nat, n: nat, e: crate::model::Endianness) -> Seq<u8> {
    match e {
        crate::model::Endianness::BigEndian => be_bytes(v, n),
        crate::model::Endianness::LittleEndian => le_bytes(v, n),
    }
}

/// Value of bytes in the given byte order.
pub open spec fn spec_decode(b: Seq<u8>, e: crate::model::Endianness) -> nat {
    match e {
        crate::model::Endianness::BigEndian => be_value(b),
        crate::model::Endianness::LittleEndian => le_value(b),
    }
}

/// Encodes an unsigned integer as `nbytes` bytes in the given byte order.
pub fn encode_unsigned(v: u64, nbytes: usize, e: crate::model::Endianness) -> (r: Vec<u8>)
    ensures
        r@ == spec_encode(v as nat, nbytes as nat, e),
{
    match e {
        crate::model::Endianness::BigEndian => encode_be(v, nbytes),
        crate::model::Endianness::LittleEndian => encode_le(v, nbytes),
    }
}

/// Decodes up to eight bytes in the given byte order.
pub fn decode_unsigned(b: &Vec<u8>, e: crate::model::Endianness) -> (r: u64)
    requires
        b@.len() <= 8,
    ensures
        r as nat == spec_decode(b@, e),
{
    match e {
        crate::model::Endianness::BigEndian => decode_be(b),
        crate::model::Endianness::LittleEndian => decode_le(b),
    }
}

/// Encodes a signed integer, two's complement, in the given byte order.
pub fn encode_signed(x: i64, nbytes: usize, e: crate::model::Endianness) -> (r: Vec<u8>)
    requires
        1 <= nbytes <= 8,
        -(pow256(nbytes as nat) as int) / 2 <= x < pow256(nbytes as nat) as int / 2,
    ensures
        r@ == spec_encode(twos_complement(x as int, nbytes as nat), nbytes as nat, e),
{
    let bits = to_twos_bits(x, nbytes);
    encode_unsigned(bits, nbytes, e)
}

/// Decodes a signed integer, two's complement, in the given byte order.
pub fn decode_signed(b: &Vec<u8>, e: crate::model::Endianness) -> (r: i64)
    requires
        1 <= b@.len() <= 8,
    ensures
        r as int == from_twos(spec_decode(b@, e), b@.len() as nat),
{
    proof {
        lemma_le_value_bound(b@);
        lemma_be_value_bound(b@);
    }
    let v = decode_unsigned(b, e);
    from_twos_bits(v, b.len())
}

/// Round-trip law: for every supported integer width and byte order, and
/// both supported signings, decoding an encoding returns the value — stated
/// over the codec's spec functions for unsigned values `v` and signed
/// values `x` in range of the width.
pub proof fn lemma_integer_round_trip(v: nat, x: int, n: nat)
    requires
        n == 1 || n == 2 || n == 4 || n == 8,
        v < pow256(n),
        -(pow256(n) as int) / 2 <= x < pow256(n) as int / 2,
    ensures
        le_value(le_bytes(v, n)) == v,
        be_value(be_bytes(v, n)) == v,
        from_twos(le_value(le_bytes(twos_complement(x, n), n)), n) == x,
        from_twos(be_value(be_bytes(twos_complement(x, n), n)), n) == x,
{
    lemma_le_round_trip(v, n);
    lemma_be_round_trip(v, n);
    lemma_pow256_increases(0, n);
    lemma_le_round_trip(twos_complement(x, n), n);
    lemma_be_round_trip(twos_complement(x, n), n);
    lemma_twos_round_trip(x, n);
}

} // verus!
