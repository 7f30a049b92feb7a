//! The bit-stream target contract: the fixed semantics every emitted write
//! call assumes. A byte-oriented sink carries at most seven **leftover**
//! bits — a partially filled byte pending from the previous non-byte-aligned
//! operation. Byte-aligned writes go straight to the byte stream once no
//! leftover is pending; bit-level writes merge with the leftover and emit
//! whole bytes as they fill.
//!
//! The sink's abstract state is the exact sequence of bits written so far
//! (most significant bit of each byte first); every operation states how it
//! extends that sequence.

use vstd::prelude::*;

verus! {

/// `2^n`.
pub open spec fn pow2(n: nat) -> nat
    decreases n,
{
    if n == 0 {
        1
    } else {
        2 * pow2((n - 1) as nat)
    }
}

/// The `n` low bits of `v`, most significant first.
pub open spec fn bits_of(v: nat, n: nat) -> Seq<bool>
    decreases n,
{
    if n == 0 {
        Seq::empty()
    } else {
        bits_of(v / 2, (n - 1) as nat) + seq![v % 2 == 1]
    }
}

/// The value a bit run stands for, most significant first.
pub open spec fn bits_value(s: Seq<bool>) -> nat
    decreases s.len(),
{
    if s.len() == 0 {
        0nat
    } else {
        (2 * bits_value(s.drop_last()) + (if s.last() {
            1nat
        } else {
            0nat
        })) as nat
    }
}

/// The bits of a whole byte stream, in order.
pub open spec fn stream_bits(s: Seq<u8>) -> Seq<bool>
    decreases s.len(),
{
    if s.len() == 0 {
        Seq::empty()
    } else {
        stream_bits(s.drop_last()) + bits_of(s.last() as nat, 8)
    }
}

/// A bit run has the length asked for.
pub proof fn lemma_bits_of_len(v: nat, n: nat)
    ensures
        bits_of(v, n).len() == n,
    decreases n,
{
    if n > 0 {
        lemma_bits_of_len(v / 2, (n - 1) as nat);
    }
}

/// Reading back a bit run recovers the value written: the consumer side of
/// the contract, stated over the same bit sequences the producer emits.
pub proof fn lemma_bits_round_trip(v: nat, n: nat)
    requires
        v < pow2(n),
    ensures
        bits_value(bits_of(v, n)) == v,
    decreases n,
{
    if n == 0 {
    } else {
        let rest = bits_of(v / 2, (n - 1) as nat);
        lemma_bits_of_len(v / 2, (n - 1) as nat);
        assert((rest + seq![v % 2 == 1]).drop_last() =~= rest);
        assert((rest + seq![v % 2 == 1]).last() == (v % 2 == 1));
        assert(v / 2 < pow2((n - 1) as nat)) by (nonlinear_arith)
            requires
                v < 2 * pow2((n - 1) as nat),
        ;
        lemma_bits_round_trip(v / 2, (n - 1) as nat);
        assert(v % 2 + 2 * (v / 2) == v) by (nonlinear_arith);
    }
}

/// Splitting a value's low bit off splits its bit run.
proof fn lemma_bits_of_step(l: nat, b: nat, n: nat)
    requires
        b < 2,
    ensures
        bits_of(2 * l + b, (n + 1) as nat) == bits_of(l, n) + seq![b == 1],
{
    assert((2 * l + b) / 2 == l);
    assert((2 * l + b) % 2 == b);
}

/// The concrete values `2^n` takes within one byte.
proof fn lemma_pow2_u8()
    ensures
        pow2(0) == 1,
        pow2(1) == 2,
        pow2(2) == 4,
        pow2(3) == 8,
        pow2(4) == 16,
        pow2(5) == 32,
        pow2(6) == 64,
        pow2(7) == 128,
        pow2(8) == 256,
{
    assert(pow2(1) == 2 * pow2(0));
    assert(pow2(2) == 2 * pow2(1));
    assert(pow2(3) == 2 * pow2(2));
    assert(pow2(4) == 2 * pow2(3));
    assert(pow2(5) == 2 * pow2(4));
    assert(pow2(6) == 2 * pow2(5));
    assert(pow2(7) == 2 * pow2(6));
    assert(pow2(8) == 2 * pow2(7));
}

/// A byte-oriented bit sink with at most seven pending leftover bits.
pub struct BitSink {
    /// Whole bytes emitted so far.
    pub out: Vec<u8>,
    /// The pending bits, in the low positions of the byte.
    pub leftover: u8,
    /// How many bits are pending; always below eight.
    pub leftover_len: u8,
}

impl BitSink {
    /// Well-formedness: the leftover is a partial byte.
    pub open spec fn wf(&self) -> bool {
        self.leftover_len < 8 && (self.leftover as nat) < pow2(self.leftover_len as nat)
    }

    /// The exact sequence of bits written so far.
    pub open spec fn bits(&self) -> Seq<bool> {
        stream_bits(self.out@) + bits_of(self.leftover as nat, self.leftover_len as nat)
    }

    /// An empty sink: no bytes, no leftover.
    pub fn new() -> (r: BitSink)
        ensures
            r.wf(),
            r.bits() == Seq::<bool>::empty(),
    {
        let r = BitSink { out: Vec::new(), leftover: 0, leftover_len: 0 };
        proof {
            assert(r.bits() =~= Seq::<bool>::empty());
        }
        r
    }

    /// Appends one bit, merging with the leftover; emits a whole byte when
    /// the leftover fills.
    pub fn write_bit(&mut self, bit: bool)
        requires
            old(self).wf(),
        ensures
            final(self).wf(),
            final(self).bits() == old(self).bits() + seq![bit],
            final(self).leftover_len as int == (if old(self).leftover_len == 7 {
                0int
            } else {
                old(self).leftover_len + 1
            }),
    {
        proof {
            lemma_pow2_u8();
        }
        let b: u8 = if bit {
            1
        } else {
            0
        };
        if self.leftover_len == 7 {
            let byte: u8 = self.leftover * 2 + b;
            let ghost old_out = self.out@;
            let ghost old_l = self.leftover as nat;
            self.out.push(byte);
            self.leftover = 0;
            self.leftover_len = 0;
            proof {
                lemma_bits_of_step(old_l, b as nat, 7);
                assert(self.out@.drop_last() =~= old_out);
                assert(self.out@.last() == byte);
                assert(stream_bits(self.out@) == stream_bits(old_out) + bits_of(byte as nat, 8));
                assert(bits_of(self.leftover as nat, 0).len() == 0);
                assert(self.bits() =~= old(self).bits() + seq![bit]);
            }
        } else {
            let ghost old_l = self.leftover as nat;
            let ghost old_n = self.leftover_len as nat;
            self.leftover = self.leftover * 2 + b;
            self.leftover_len = self.leftover_len + 1;
            proof {
                lemma_bits_of_step(old_l, b as nat, old_n);
                assert(self.bits() =~= old(self).bits() + seq![bit]);
            }
        }
    }

    /// Appends the `nbits` low bits of `v`, most significant first: the
    /// producer interface for non-byte-aligned wire data.
    pub fn write_bits(&mut self, v: u64, nbits: usize)
        requires
            old(self).wf(),
            nbits <= 64,
            (v as nat) < pow2(nbits as nat),
        ensures
            final(self).wf(),
            final(self).bits() == old(self).bits() + bits_of(v as nat, nbits as nat),
        decreases nbits,
    {
        if nbits == 0 {
            proof {
                assert(self.bits() =~= old(self).bits() + bits_of(v as nat, 0));
            }
        } else {
            proof {
                assert((v as nat) / 2 < pow2((nbits - 1) as nat)) by (nonlinear_arith)
                    requires
                        (v as nat) < 2 * pow2((nbits - 1) as nat),
                ;
            }
            self.write_bits(v / 2, nbits - 1);
            self.write_bit(v % 2 == 1);
            proof {
                assert(self.bits() =~= old(self).bits() + bits_of(v as nat, nbits as nat));
            }
        }
    }

    /// Appends whole bytes directly: the byte-aligned fast path, open only
    /// once any leftover has been flushed.
    pub fn write_bytes(&mut self, data: &Vec<u8>)
        requires
            old(self).wf(),
            old(self).leftover_len == 0,
        ensures
            final(self).wf(),
            final(self).leftover_len == 0,
            final(self).bits() == old(self).bits() + stream_bits(data@),
    {
        let n = data.len();
        let mut i: usize = 0;
        proof {
            assert(data@.subrange(0, 0).len() == 0);
            assert(self.bits() =~= old(self).bits() + stream_bits(data@.subrange(0, 0)));
        }
        while i < n
            invariant
                n == data@.len(),
                0 <= i <= n,
                self.wf(),
                self.leftover_len == 0,
                self.bits() == old(self).bits() + stream_bits(data@.subrange(0, i as int)),
            decreases n - i,
        {
            let ghost old_out = self.out@;
            self.out.push(data[i]);
            proof {
                let sub1 = data@.subrange(0, i as int + 1);
                assert(sub1.drop_last() =~= data@.subrange(0, i as int));
                assert(sub1.last() == data@[i as int]);
                assert(self.out@.drop_last() =~= old_out);
                assert(self.bits() =~= old(self).bits() + stream_bits(sub1));
            }
            i = i + 1;
        }
        proof {
            assert(data@.subrange(0, n as int) =~= data@);
        }
    }

    /// Pads the leftover with zero bits up to the next byte boundary, so
    /// that byte-aligned writes may follow.
    pub fn flush(&mut self)
        requires
            old(self).wf(),
        ensures
            final(self).wf(),
            final(self).leftover_len == 0,
            final(self).bits() == old(self).bits() + bits_of(
                0,
                (if old(self).leftover_len == 0 {
                    0nat
                } else {
                    (8 - old(self).leftover_len) as nat
                }),
            ),
    {
        let ghost start = self.bits();
        let pad: u8 = if self.leftover_len == 0 {
            0
        } else {
            8 - self.leftover_len
        };
        let mut k: u8 = 0;
        while k < pad
            invariant
                self.wf(),
                0 <= k <= pad,
                pad < 8,
                pad == (if old(self).leftover_len == 0 {
                    0
                } else {
                    8 - old(self).leftover_len
                }),
                self.leftover_len as int == (if old(self).leftover_len + k == 8 {
                    0int
                } else {
                    old(self).leftover_len + k
                }),
                self.bits() == start + bits_of(0, k as nat),
            decreases pad - k,
        {
            self.write_bit(false);
            proof {
                assert(bits_of(0, (k + 1) as nat) =~= bits_of(0, k as nat) + seq![false]);
                assert(self.bits() =~= start + bits_of(0, (k + 1) as nat));
            }
            k = k + 1;
        }
    }

    /// Hands the finished byte stream out; the sink must be byte-aligned.
    pub fn into_bytes(self) -> (r: Vec<u8>)
        requires
            self.wf(),
            self.leftover_len == 0,
        ensures
            stream_bits(r@) == self.bits(),
    {
        proof {
            assert(stream_bits(self.out@) =~= self.bits());
        }
        self.out
    }
}

} // verus!
