use vstd::prelude::*;

verus! {

/// Bit `i` of `b`, counting from the least significant end.
pub open spec fn spec_bit(b: u8, i: int) -> bool {
    (b >> (i as u8)) & 1 == 1
}

/// Bit `i` of `x`, counting from the least significant end.
pub open spec fn spec_bit16(x: u16, i: int) -> bool {
    (x >> (i as u16)) & 1 == 1
}

/// All bits of a byte sequence, LSB-first within each byte.
pub open spec fn spec_bytes_bits(s: Seq<u8>) -> Seq<bool> {
    Seq::new(8 * s.len(), |i: int| spec_bit(s[i / 8], i % 8))
}

/// The low `count` bits of `data`, LSB-first.
pub open spec fn spec_int_bits(data: u16, count: nat) -> Seq<bool> {
    Seq::new(count, |i: int| spec_bit16(data, i))
}

/// The value of a bit sequence read LSB-first.
pub open spec fn spec_bits_value(bits: Seq<bool>) -> nat
    decreases bits.len(),
{
    if bits.len() == 0 {
        0
    } else {
        (if bits[0] {
            1nat
        } else {
            0nat
        }) + 2 * spec_bits_value(bits.skip(1))
    }
}

/// The byte formed from `bits[start..start + 8]`, bits past the end of
/// the sequence reading as zero.
pub open spec fn spec_byte_of_bits(bits: Seq<bool>, start: int) -> u8 {
    spec_bits_value(bits.skip(start).take(if bits.len() - start < 8 {
        bits.len() - start
    } else {
        8
    })) as u8
}

/// A bit sequence packed into bytes, LSB-first, the last byte padded
/// with zero bits.
pub open spec fn spec_pack_bits(bits: Seq<bool>) -> Seq<u8> {
    Seq::new(((bits.len() + 7) / 8) as nat, |j: int| spec_byte_of_bits(bits, 8 * j))
}

/// An LSB-first bit writer over a byte vector: a formed-byte vector, a
/// partial-byte accumulator, and a bit cursor in `[0, 8)`.
pub struct BitStream {
    formed: Vec<u8>,
    current: u8,
    index: u8,
}

impl BitStream {
    /// The bits written so far.
    pub closed spec fn view(&self) -> Seq<bool> {
        spec_bytes_bits(self.formed@) + Seq::new(
            self.index as nat,
            |i: int| spec_bit(self.current, i),
        )
    }

    /// The cursor stays under 8 and the accumulator holds nothing at
    /// or above it.
    pub closed spec fn wf(&self) -> bool {
        self.index < 8 && self.current >> self.index == 0
    }

    pub fn new() -> (r: BitStream)
        ensures
            r@ == Seq::<bool>::empty(),
            r.wf(),
    {
        let r = BitStream { formed: Vec::new(), current: 0, index: 0 };
        proof {
            assert(0u8 >> 0u8 == 0) by (bit_vector);
            assert(r@ =~= Seq::<bool>::empty());
        }
        r
    }

    /// Appends one bit.
    fn push_bit(&mut self, bit: bool)
        requires
            old(self).wf(),
        ensures
            final(self).wf(),
            final(self)@ == old(self)@.push(bit),
    {
        let ghost pre = *self;
        if bit {
            self.current = self.current | (1u8 << self.index);
        }
        proof {
            let c = pre.current;
            let ix = pre.index;
            // The or sets exactly bit `ix` and keeps everything below.
            assert((c | (1u8 << ix)) >> ix & 1 == 1 && (ix < 7 ==> (c | (1u8 << ix)) >> ((ix + 1) as u8)
                == c >> ((ix + 1) as u8)) && forall|j: u8|
                j < ix ==> (c | (1u8 << ix)) >> j & 1 == c >> j & 1) by (bit_vector)
                requires
                    ix < 8,
            ;
            assert(c >> ix == 0 && ix < 8 ==> (c >> ix & 1 != 1) && (c | (1u8 << ix)) >> ((ix + 1) as u8) == (c >> ((ix + 1) as u8)) | ((1u8 << ix) >> ((ix + 1) as u8))) by (bit_vector);
            assert(ix < 8 ==> (1u8 << ix) >> ((ix + 1) as u8) == 0) by (bit_vector);
            assert(c >> ix == 0 && ix < 7 ==> c >> ((ix + 1) as u8) == 0) by (bit_vector);
        }
        let ghost mid_current = self.current;
        if self.index == 7 {
            self.formed.push(self.current);
            self.current = 0;
            self.index = 0;
            proof {
                lemma_bytes_bits_push(pre.formed@, mid_current);
                assert(0u8 >> 0u8 == 0) by (bit_vector);
                assert(Seq::new(8nat, |i: int| spec_bit(mid_current, i)) =~= Seq::new(
                    pre.index as nat,
                    |i: int| spec_bit(pre.current, i),
                ).push(bit)) by {
                    let c = pre.current;
                    assert(forall|j: u8| j < 7 ==> (c | (1u8 << 7)) >> j & 1 == c >> j & 1)
                        by (bit_vector);
                    assert((c | (1u8 << 7)) >> 7 & 1 == 1) by (bit_vector);
                    assert(c >> 7 == 0 ==> c >> 7 & 1 != 1) by (bit_vector);
                }
                assert(self@ =~= pre@.push(bit));
            }
        } else {
            self.index = self.index + 1;
            proof {
                assert(self@ =~= pre@.push(bit)) by {
                    let c = pre.current;
                    let ix = pre.index;
                    let m = mid_current;
                    assert(forall|j: u8|
                        j < ix ==> #[trigger] (m >> j) & 1 == c >> j & 1 && m >> ix & 1 == (
                        if bit {
                            1u8
                        } else {
                            0u8
                        })) by (bit_vector)
                        requires
                            ix < 8,
                            c >> ix == 0,
                            m == if bit {
                                c | (1u8 << ix)
                            } else {
                                c
                            },
                    ;
                }
            }
        }
    }

    /// Appends the low `count` bits of `data`, least significant
    /// first.
    pub fn push_bits(&mut self, count: u8, data: u16)
        requires
            old(self).wf(),
            count <= 16,
        ensures
            final(self).wf(),
            final(self)@ == old(self)@ + spec_int_bits(data, count as nat),
    {
        let ghost pre = *self;
        let mut i: u8 = 0;
        while i < count
            invariant
                self.wf(),
                i <= count <= 16,
                self@ == pre@ + spec_int_bits(data, i as nat),
            decreases count - i,
        {
            let bit = (data >> i) & 1 == 1;
            self.push_bit(bit);
            proof {
                assert(self@ =~= pre@ + spec_int_bits(data, (i + 1) as nat));
            }
            i = i + 1;
        }
        proof {
            assert(self@ =~= pre@ + spec_int_bits(data, count as nat));
        }
    }

    /// The written bytes: every formed byte, and the partial byte if
    /// the cursor is past zero, its top padded with zero bits.
    pub fn vec(self) -> (r: Vec<u8>)
        requires
            self.wf(),
        ensures
            r@ == spec_pack_bits(self@),
    {
        let mut out = self.formed;
        let ghost formed = out@;
        if self.index != 0 {
            out.push(self.current);
        }
        proof {
            lemma_pack_bits_of_stream(formed, self.current, self.index);
            if self.index != 0 {
                assert(out@ =~= formed.push(self.current));
            } else {
                assert(out@ =~= formed);
            }
        }
        out
    }
}

/// An LSB-first bit reader over a byte vector, with a bit cursor.
pub struct BitReader {
    data: Vec<u8>,
    pos: usize,
}

impl BitReader {
    /// The bytes being read.
    pub closed spec fn spec_data(&self) -> Seq<u8> {
        self.data@
    }

    /// The cursor, in bits from the start.
    pub closed spec fn spec_pos(&self) -> nat {
        self.pos as nat
    }

    /// The cursor stays within the data and the data is small enough
    /// that bit positions fit the machine word.
    pub closed spec fn wf(&self) -> bool {
        self.data@.len() <= 0x0FFF_FFFF && self.pos <= 8 * self.data@.len()
    }

    pub fn new(data: Vec<u8>) -> (r: BitReader)
        requires
            data@.len() <= 0x0FFF_FFFF,
        ensures
            r.wf(),
            r.spec_data() == data@,
            r.spec_pos() == 0,
    {
        BitReader { data, pos: 0 }
    }

    /// Whether `count` more bits can be read.
    pub fn has_bits(&self, count: u8) -> (r: bool)
        requires
            self.wf(),
        ensures
            r == (self.spec_pos() + count <= 8 * self.spec_data().len()),
    {
        let total: usize = 8 * self.data.len();
        total - self.pos >= count as usize
    }

    /// Reads `count` bits, LSB-first: the value of
    /// `bits[pos .. pos + count]` of the data's bit sequence.
    pub fn pop_bits(&mut self, count: u8) -> (r: u16)
        requires
            old(self).wf(),
            count <= 16,
            old(self).spec_pos() + count <= 8 * old(self).spec_data().len(),
        ensures
            final(self).wf(),
            final(self).spec_data() == old(self).spec_data(),
            final(self).spec_pos() == old(self).spec_pos() + count,
            r == spec_bits_value(
                spec_bytes_bits(old(self).spec_data()).subrange(
                    old(self).spec_pos() as int,
                    old(self).spec_pos() + count,
                ),
            ),
    {
        let ghost bits = spec_bytes_bits(self.data@);
        let ghost p0 = self.pos as int;
        let mut out: u16 = 0;
        let mut i: u8 = 0;
        proof {
            vstd::arithmetic::power2::lemma2_to64();
            assert(bits.subrange(p0, p0) =~= Seq::<bool>::empty());
        }
        while i < count
            invariant
                self.wf(),
                count <= 16,
                i <= count,
                0 <= p0,
                self.data@ == old(self).data@,
                self.pos == p0 + i,
                p0 + count <= 8 * self.data@.len(),
                bits == spec_bytes_bits(self.data@),
                out == spec_bits_value(bits.subrange(p0, p0 + i)),
                out < vstd::arithmetic::power2::pow2(i as nat),
            decreases count - i,
        {
            let byte = self.data[self.pos / 8];
            let sh: u8 = (self.pos % 8) as u8;
            let bit: u8 = (byte >> sh) & 1;
            proof {
                vstd::arithmetic::power2::lemma2_to64();
                let k = self.pos as int;
                assert(k / 8 < self.data@.len() && 0 <= k % 8 < 8) by (nonlinear_arith)
                    requires
                        0 <= k < 8 * self.data@.len(),
                ;
                assert(bits[k] == spec_bit(self.data@[k / 8], k % 8));
                lemma_bits_value_push(bits.subrange(p0, p0 + i), bits[k]);
                assert(bits.subrange(p0, p0 + i + 1) =~= bits.subrange(p0, p0 + i).push(bits[k]));
                let bitv = bit as u16;
                let iw = i as u16;
                assert((byte >> sh) & 1 <= 1) by (bit_vector);
                assert(out < (1u16 << iw) && bitv <= 1 && iw < 16 ==> ((out | (bitv << iw)) == out
                    + bitv * (1u16 << iw) && out + bitv * (1u16 << iw) < (2u32 * (1u16 << iw))))
                    by (bit_vector);
                if (i as nat) < 16 {
                    vstd::arithmetic::power2::lemma_pow2_strictly_increases(i as nat, 16);
                }
                vstd::bits::lemma_u16_shl_is_mul(1u16, iw);
                vstd::arithmetic::power2::lemma_pow2_unfold((i + 1) as nat);
                assert(bitv <= 1);
                assert(iw < 16);
                assert((1u16 << iw) == vstd::arithmetic::power2::pow2(i as nat));
                assert(out < (1u16 << iw));
                assert(out | (bitv << iw) == out + bitv * (1u16 << iw));
                assert(bits[k] <==> bitv == 1);
                assert(spec_bits_value(bits.subrange(p0, p0 + i + 1)) == out + bitv * (1u16
                    << iw));
                assert((bit as u16) << i == bitv << iw);
            }
            out = out | ((bit as u16) << i);
            self.pos = self.pos + 1;
            i = i + 1;
        }
        proof {
            assert(bits.subrange(p0, p0 + count) =~= bits.subrange(p0, p0 + i));
        }
        out
    }
}

/// The value of a bit sequence stays under two to its length.
proof fn lemma_bits_value_bound(b: Seq<bool>)
    ensures
        spec_bits_value(b) < vstd::arithmetic::power2::pow2(b.len()),
    decreases b.len(),
{
    vstd::arithmetic::power2::lemma2_to64();
    if b.len() == 0 {
    } else {
        lemma_bits_value_bound(b.skip(1));
        vstd::arithmetic::power2::lemma_pow2_unfold(b.len());
    }
}

/// The bits of a short sequence's value are the sequence itself,
/// zero-padded up to the byte.
proof fn lemma_value_bits(b: Seq<bool>)
    requires
        b.len() <= 8,
    ensures
        forall|k: int|
            0 <= k < 8 ==> #[trigger] spec_bit(spec_bits_value(b) as u8, k) == (k < b.len()
                && b[k]),
    decreases b.len(),
{
    vstd::arithmetic::power2::lemma2_to64();
    lemma_bits_value_bound(b);
    if b.len() == 0 {
        assert(forall|k: u8| k < 8 ==> (0u8 >> k) & 1 == 0) by (bit_vector);
        assert forall|k: int| 0 <= k < 8 implies #[trigger] spec_bit(
            spec_bits_value(b) as u8,
            k,
        ) == (k < b.len() && b[k]) by {
            assert((0u8 >> (k as u8)) & 1 == 0);
        }
    } else {
        let rest = b.skip(1);
        lemma_value_bits(rest);
        lemma_bits_value_bound(rest);
        let vu = spec_bits_value(b) as u8;
        let ru = spec_bits_value(rest) as u8;
        let b0: u8 = if b[0] {
            1
        } else {
            0
        };
        vstd::arithmetic::power2::lemma_pow2_strictly_increases(rest.len(), 8);
        assert(spec_bits_value(rest) < 128 || rest.len() == 8);
        assert(rest.len() < 8);
        assert(vu == 2 * ru + b0);
        assert((vu >> 0u8) & 1 == b0 && forall|k: u8|
            1 <= k < 8 ==> #[trigger] ((vu >> k) & 1) == (ru >> ((k - 1) as u8)) & 1)
            by (bit_vector)
            requires
                vu == 2 * ru + b0,
                b0 <= 1,
                ru <= 127,
        ;
        assert forall|k: int| 0 <= k < 8 implies #[trigger] spec_bit(vu, k) == (k < b.len()
            && b[k]) by {
            if k == 0 {
                assert((vu >> 0u8) & 1 == b0);
            } else {
                assert((vu >> (k as u8)) & 1 == (ru >> ((k - 1) as u8)) & 1);
                assert(spec_bit(ru, k - 1) == (k - 1 < rest.len() && rest[k - 1]));
            }
        }
    }
}

/// A value written as its low `count` bits reads back as itself:
/// together with [`lemma_pack_bits_round_trip`], every code a writer
/// pushes comes back unchanged through the packed bytes.
pub proof fn lemma_int_bits_value(data: u16, count: nat)
    requires
        count <= 16,
        data < vstd::arithmetic::power2::pow2(count),
    ensures
        spec_bits_value(spec_int_bits(data, count)) == data,
    decreases count,
{
    vstd::arithmetic::power2::lemma2_to64();
    if count == 0 {
        assert(spec_int_bits(data, 0) =~= Seq::<bool>::empty());
    } else {
        let rest = data >> 1u16;
        assert(rest < vstd::arithmetic::power2::pow2((count - 1) as nat)) by {
            vstd::arithmetic::power2::lemma_pow2_unfold(count);
            assert(data >> 1u16 == data / 2) by (bit_vector);
        }
        lemma_int_bits_value(rest, (count - 1) as nat);
        assert(spec_int_bits(data, count).skip(1) =~= spec_int_bits(rest, (count - 1) as nat)) by {
            assert(forall|i: u16| i < 16 ==> ((data >> 1u16) >> i) & 1 == (data >> ((i + 1) as u16))
                & 1) by (bit_vector);
            assert forall|i: int|
                0 <= i < count - 1 implies spec_int_bits(data, count).skip(1)[i] == spec_int_bits(
                rest,
                (count - 1) as nat,
            )[i] by {
                assert(((data >> 1u16) >> (i as u16)) & 1 == (data >> ((i + 1) as u16)) & 1);
            }
        }
        assert(data == (if (data & 1) == 1 {
            1u16
        } else {
            0u16
        }) + 2 * (data >> 1u16) && data >> 0u16 == data) by (bit_vector);
        assert(spec_bit16(data, 0) == ((data & 1) == 1));
    }
}

/// Bits packed into bytes unpack to the same bits: the byte stream
/// the writer emits reads back, bit for bit, as what was written,
/// with the final byte's padding reading as zero bits.
pub proof fn lemma_pack_bits_round_trip(bits: Seq<bool>)
    ensures
        spec_bytes_bits(spec_pack_bits(bits)).len() == 8 * ((bits.len() + 7) / 8),
        forall|i: int|
            0 <= i < bits.len() ==> #[trigger] spec_bytes_bits(spec_pack_bits(bits))[i] == bits[i],
        forall|i: int|
            bits.len() <= i < spec_bytes_bits(spec_pack_bits(bits)).len() ==> !(
            #[trigger] spec_bytes_bits(spec_pack_bits(bits))[i]),
{
    let packed = spec_pack_bits(bits);
    let unpacked = spec_bytes_bits(packed);
    assert forall|i: int| 0 <= i < unpacked.len() implies #[trigger] unpacked[i] == (i < bits.len()
        && bits[i]) by {
        let j = i / 8;
        let k = i % 8;
        assert(0 <= k < 8 && i == 8 * j + k && 0 <= j) by (nonlinear_arith)
            requires
                i >= 0 && j == i / 8 && k == i % 8,
        ;
        assert(j < packed.len()) by (nonlinear_arith)
            requires
                0 <= i < 8 * packed.len() && j == i / 8,
        ;
        assert(8 * j < bits.len() + 8) by (nonlinear_arith)
            requires
                0 <= j < packed.len() && packed.len() == (bits.len() + 7) / 8,
        ;
        let m: int = if bits.len() - 8 * j < 8 {
            bits.len() - 8 * j
        } else {
            8
        };
        let window = bits.skip(8 * j).take(m);
        assert(window.len() == m);
        lemma_value_bits(window);
        assert(unpacked[i] == spec_bit(packed[j], k));
        assert(packed[j] == spec_bits_value(window) as u8);
        assert(spec_bit(packed[j], k) == (k < m && window[k]));
        if k < m {
            assert(window[k] == bits[8 * j + k]);
        }
    }
}

/// Appending one byte appends its eight bits.
proof fn lemma_bytes_bits_push(s: Seq<u8>, b: u8)
    ensures
        spec_bytes_bits(s.push(b)) =~= spec_bytes_bits(s) + Seq::new(8nat, |i: int| spec_bit(b, i)),
{
    let lhs = spec_bytes_bits(s.push(b));
    let rhs = spec_bytes_bits(s) + Seq::new(8nat, |i: int| spec_bit(b, i));
    assert(lhs.len() == rhs.len());
    assert forall|i: int| 0 <= i < lhs.len() implies lhs[i] == rhs[i] by {
        let n = s.len() as int;
        if i < 8 * n {
            assert(i / 8 < n && 0 <= i / 8 && 0 <= i % 8 < 8) by (nonlinear_arith)
                requires
                    0 <= i < 8 * n,
            ;
            assert(s.push(b)[i / 8] == s[i / 8]);
        } else {
            assert(i / 8 == n && i % 8 == i - 8 * n) by (nonlinear_arith)
                requires
                    8 * n <= i < 8 * n + 8,
            ;
        }
    }
}

/// The value of a bit sequence with one bit appended.
proof fn lemma_bits_value_push(bits: Seq<bool>, b: bool)
    ensures
        spec_bits_value(bits.push(b)) == spec_bits_value(bits) + (if b {
            vstd::arithmetic::power2::pow2(bits.len())
        } else {
            0
        }),
    decreases bits.len(),
{
    vstd::arithmetic::power2::lemma2_to64();
    if bits.len() == 0 {
        assert(bits.push(b).skip(1) =~= Seq::<bool>::empty());
        assert(bits =~= Seq::<bool>::empty());
    } else {
        assert(bits.push(b).skip(1) =~= bits.skip(1).push(b));
        lemma_bits_value_push(bits.skip(1), b);
        vstd::arithmetic::power2::lemma_pow2_unfold(bits.len());
    }
}

/// A partial byte holding `ix` live bits reads back as its own value.
proof fn lemma_partial_byte_value(c: u8, ix: u8)
    ensures
        ix < 8 && c >> ix == 0 ==> spec_bits_value(Seq::new(ix as nat, |i: int| spec_bit(c, i)))
            == c,
    decreases ix,
{
    // Value of the bit sequence of c's low ix bits, by induction on ix.
    if ix == 0 {
        assert(c >> 0u8 == 0 ==> c == 0) by (bit_vector);
        assert(Seq::new(0nat, |i: int| spec_bit(c, i)) =~= Seq::<bool>::empty());
    } else if ix < 8 {
        let lower = (c >> 1u8) as u8;
        lemma_partial_byte_value(lower, (ix - 1) as u8);
        assert(c >> ix == 0 ==> (c >> 1u8) >> ((ix - 1) as u8) == 0) by (bit_vector)
            requires
                0 < ix < 8,
        ;
        let s = Seq::new(ix as nat, |i: int| spec_bit(c, i));
        assert(s.skip(1) =~= Seq::new((ix - 1) as nat, |i: int| spec_bit(lower, i))) by {
            assert(forall|i: u8| i < 8 ==> ((c >> 1u8) >> i) & 1 == (c >> ((i + 1) as u8)) & 1)
                by (bit_vector);
            assert forall|i: int| 0 <= i < ix - 1 implies s.skip(1)[i] == spec_bit(lower, i) by {
                assert(((c >> 1u8) >> (i as u8)) & 1 == (c >> ((i + 1) as u8)) & 1);
            }
        }
        assert(c >> ix == 0 && ix < 8 ==> c == (if (c & 1) == 1 {
            1u8
        } else {
            0u8
        }) + 2 * (c >> 1u8)) by (bit_vector);
        assert(spec_bit(c, 0) == ((c & 1) == 1)) by {
            assert(c >> 0u8 == c) by (bit_vector);
        }
    }
}

/// Packing the writer's state gives exactly its formed bytes plus the
/// partial byte when one is open.
proof fn lemma_pack_bits_of_stream(formed: Seq<u8>, current: u8, index: u8)
    requires
        index < 8,
        current >> index == 0,
    ensures
        spec_pack_bits(
            spec_bytes_bits(formed) + Seq::new(index as nat, |i: int| spec_bit(current, i)),
        ) =~= if index == 0 {
            formed
        } else {
            formed.push(current)
        },
{
    let bits = spec_bytes_bits(formed) + Seq::new(index as nat, |i: int| spec_bit(current, i));
    let n = formed.len() as int;
    assert(bits.len() == 8 * n + index);
    let packed = spec_pack_bits(bits);
    if index == 0 {
        assert((8 * n + 7) / 8 == n) by (nonlinear_arith)
            requires
                n >= 0,
        ;
    } else {
        assert((8 * n + index + 7) / 8 == n + 1) by (nonlinear_arith)
            requires
                n >= 0 && 0 < index < 8,
        ;
    }
    assert forall|j: int| 0 <= j < packed.len() implies packed[j] == (if index == 0 {
        formed
    } else {
        formed.push(current)
    })[j] by {
        if j < n {
            let eight: Seq<bool> = bits.skip(8 * j).take(8);
            assert(8 * j + 8 <= bits.len()) by (nonlinear_arith)
                requires
                    j < n && bits.len() == 8 * n + index && index >= 0,
            ;
            assert(eight =~= Seq::new(8nat, |i: int| spec_bit(formed[j], i))) by {
                assert forall|i: int| 0 <= i < 8 implies eight[i] == spec_bit(formed[j], i) by {
                    let k = 8 * j + i;
                    assert(k / 8 == j && k % 8 == i) by (nonlinear_arith)
                        requires
                            k == 8 * j + i,
                            0 <= i < 8,
                            0 <= j,
                    ;
                    assert(k < 8 * n ==> bits[k] == spec_bit(formed[k / 8], k % 8));
                    assert(k < 8 * n) by (nonlinear_arith)
                        requires
                            j < n && 0 <= i < 8 && k == 8 * j + i && j + 1 <= n,
                    ;
                }
            }
            lemma_full_byte_value(formed[j]);
        } else {
            // The final partial byte.
            let live = bits.len() - 8 * j;
            assert(j == n);
            assert(live == index);
            let part = bits.skip(8 * j).take(live);
            assert(part =~= Seq::new(index as nat, |i: int| spec_bit(current, i))) by {
                assert forall|i: int| 0 <= i < index implies part[i] == spec_bit(current, i) by {
                    let k = 8 * n + i;
                    assert(bits[k] == spec_bit(current, i));
                }
            }
            lemma_partial_byte_value(current, index);
        }
    }
}

/// A whole byte's eight bits read back as its own value.
proof fn lemma_full_byte_value(b: u8)
    ensures
        spec_bits_value(Seq::new(8nat, |i: int| spec_bit(b, i))) == b,
{
    assert(b >> 8u8 == 0) by (bit_vector);
    lemma_partial_byte_value_wide(b);
}

/// Helper for the full byte: unrolls the eight-bit case.
proof fn lemma_partial_byte_value_wide(b: u8)
    ensures
        spec_bits_value(Seq::new(8nat, |i: int| spec_bit(b, i))) == b,
{
    let s = Seq::new(8nat, |i: int| spec_bit(b, i));
    let lower = b >> 1u8;
    assert((b >> 1u8) >> 7u8 == 0) by (bit_vector);
    lemma_partial_byte_value(lower, 7);
    assert(s.skip(1) =~= Seq::new(7nat, |i: int| spec_bit(lower, i))) by {
        assert(forall|i: u8| i < 8 ==> ((b >> 1u8) >> i) & 1 == (b >> ((i + 1) as u8)) & 1)
            by (bit_vector);
        assert forall|i: int| 0 <= i < 7 implies s.skip(1)[i] == spec_bit(lower, i) by {
            assert(((b >> 1u8) >> (i as u8)) & 1 == (b >> ((i + 1) as u8)) & 1);
        }
    }
    assert(b == (if (b & 1) == 1 {
        1u8
    } else {
        0u8
    }) + 2 * (b >> 1u8)) by (bit_vector);
    assert(spec_bit(b, 0) == ((b & 1) == 1)) by {
        assert(b >> 0u8 == b) by (bit_vector);
    }
}

} // verus!
