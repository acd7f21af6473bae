//! Packed bit fields in a fixed number of bytes, least significant bit of each byte first.
use vstd::prelude::*;

verus! {

/// A fixed-size group of bytes that holds several packed bit fields.
#[allow(non_camel_case_types)]
#[derive(Copy, Clone, Debug, PartialEq, Eq, Hash)]
pub struct __BindgenBitfieldUnit<const N: usize> {
    storage: [u8; N],
}

/// Bit `index` of a sequence of bytes, bit 0 being the least significant bit of byte 0.
pub open spec fn bit_of(bytes: Seq<u8>, index: int) -> bool {
    (bytes[index / 8] >> ((index % 8) as u8)) & 1u8 == 1u8
}

/// Bit `i` of a 64-bit value.
pub open spec fn bit_of_u64(v: u64, i: int) -> bool {
    (v >> (i as u64)) & 1u64 == 1u64
}

/// `v` has no bit set at or above `w`.
pub open spec fn fits_width(v: u64, w: int) -> bool {
    forall|i: int| w <= i < 64 ==> !#[trigger] bit_of_u64(v, i)
}

proof fn lemma_byte_bits(b: u8, mask: u8, k: u8, nb: u8, set: bool)
    requires
        k < 8,
        mask == 1u8 << k,
        set ==> nb == b | mask,
        !set ==> nb == b & !mask,
    ensures
        forall|j: u8| j < 8 ==> ((#[trigger] (nb >> j) & 1u8 == 1u8) == if j == k { set } else { (b >> j) & 1u8 == 1u8 }),
{
    if set {
        assert(forall|j: u8| j < 8 ==> ((#[trigger] ((b | mask) >> j) & 1u8 == 1u8) == (j == k || (b >> j) & 1u8 == 1u8)))
            by (bit_vector)
            requires
                k < 8,
                mask == 1u8 << k,
        ;
    } else {
        assert(forall|j: u8| j < 8 ==> ((#[trigger] ((b & !mask) >> j) & 1u8 == 1u8) == (j != k && (b >> j) & 1u8 == 1u8)))
            by (bit_vector)
            requires
                k < 8,
                mask == 1u8 << k,
        ;
    }
}

proof fn lemma_or_bit(v: u64, i: u64)
    requires
        i < 64,
    ensures
        forall|j: u64| j < 64 ==> ((#[trigger] ((v | (1u64 << i)) >> j)) & 1u64 == 1u64) == (j == i || (v >> j) & 1u64 == 1u64),
{
    assert(forall|j: u64| j < 64 ==> ((#[trigger] ((v | (1u64 << i)) >> j)) & 1u64 == 1u64) == (j == i || (v >> j) & 1u64 == 1u64)) by (bit_vector)
        requires
            i < 64,
    ;
}

/// `r` holds, in its low `w` bits and nothing above, the `w` bits of `bytes` from `off` on.
pub open spec fn reads_field(bytes: Seq<u8>, off: int, w: int, r: u64) -> bool {
    &&& fits_width(r, w)
    &&& forall|i: int| 0 <= i < w ==> #[trigger] bit_of_u64(r, i) == bit_of(bytes, off + i)
}

/// `after` is `before` with its `w` bits from `off` on replaced by the low `w` bits of `val`.
pub open spec fn field_written(before: Seq<u8>, after: Seq<u8>, off: int, w: int, val: u64) -> bool {
    &&& after.len() == before.len()
    &&& forall|j: int|
        0 <= j < 8 * before.len() ==> #[trigger] bit_of(after, j) == if off <= j < off + w {
            bit_of_u64(val, j - off)
        } else {
            bit_of(before, j)
        }
}

proof fn lemma_or_below(v: u64, i: u64)
    requires
        i < 63,
        v < (1u64 << i),
    ensures
        (v | (1u64 << i)) < (1u64 << (i + 1) as u64),
        v < (1u64 << (i + 1) as u64),
{
    assert((v | (1u64 << i)) < (1u64 << (i + 1) as u64) && v < (1u64 << (i + 1) as u64)) by (bit_vector)
        requires
            i < 63,
            v < (1u64 << i),
    ;
}

proof fn lemma_mask_bit(v: u64, i: u64)
    requires
        i < 64,
    ensures
        (v & (1u64 << i) == (1u64 << i)) == ((v >> i) & 1u64 == 1u64),
{
    assert((v & (1u64 << i) == (1u64 << i)) == ((v >> i) & 1u64 == 1u64)) by (bit_vector)
        requires
            i < 64,
    ;
}

impl<const N: usize> __BindgenBitfieldUnit<N> {
    /// The bytes, in order.
    pub closed spec fn bytes(&self) -> Seq<u8> {
        self.storage@
    }

    /// A unit holds `N` bytes.
    pub proof fn lemma_len(&self)
        ensures
            self.bytes().len() == N,
    {
    }

    pub fn new(storage: [u8; N]) -> (r: Self)
        ensures
            r.bytes() == storage@,
            r.bytes().len() == N,
    {
        Self { storage }
    }

    /// Reads bit `index`.
    pub fn get_bit(&self, index: usize) -> (r: bool)
        requires
            index / 8 < N,
        ensures
            r == bit_of(self.bytes(), index as int),
    {
        let byte_index = index / 8;
        let byte = self.storage[byte_index];
        let bit_index = (index % 8) as u8;
        let mask: u8 = 1u8 << bit_index;
        let r = byte & mask == mask;
        assert(r == ((byte >> bit_index) & 1u8 == 1u8)) by (bit_vector)
            requires
                bit_index < 8,
                mask == 1u8 << bit_index,
                r == (byte & mask == mask),
        ;
        r
    }

    /// Sets bit `index` to `val`, leaving every other bit as it was.
    pub fn set_bit(&mut self, index: usize, val: bool)
        requires
            index / 8 < N,
        ensures
            final(self).bytes().len() == old(self).bytes().len(),
            final(self).bytes().len() == N,
            forall|j: int|
                0 <= j < 8 * N ==> #[trigger] bit_of(final(self).bytes(), j) == if j == index {
                    val
                } else {
                    bit_of(old(self).bytes(), j)
                },
    {
        let byte_index = index / 8;
        let byte = self.storage[byte_index];
        let bit_index = (index % 8) as u8;
        let mask: u8 = 1u8 << bit_index;
        let nb = if val { byte | mask } else { byte & !mask };
        self.storage[byte_index] = nb;
        proof {
            lemma_byte_bits(byte, mask, bit_index, nb, val);
            assert forall|j: int| 0 <= j < 8 * N implies #[trigger] bit_of(self.bytes(), j) == if j == index {
                val
            } else {
                bit_of(old(self).bytes(), j)
            } by {
                if j / 8 == byte_index as int {
                    let jb = (j % 8) as u8;
                    assert(((nb >> jb) & 1u8 == 1u8) == if jb == bit_index {
                        val
                    } else {
                        (byte >> jb) & 1u8 == 1u8
                    });
                }
            }
        }
    }

    /// Reads the `bit_width` bits from `bit_offset` on, the first of them as the least
    /// significant bit of the result.
    pub fn get(&self, bit_offset: usize, bit_width: u8) -> (r: u64)
        requires
            bit_width <= 64,
            bit_offset / 8 < N,
            bit_offset + bit_width <= 8 * N,
            bit_offset + bit_width <= usize::MAX,
        ensures
            reads_field(self.bytes(), bit_offset as int, bit_width as int, r),
            bit_width < 64 ==> r < (1u64 << bit_width),
    {
        let mut val: u64 = 0;
        let mut i: usize = 0;
        let w = bit_width as usize;
        assert(val < (1u64 << 0u64)) by (bit_vector)
            requires
                val == 0,
        ;
        proof {
            assert forall|j: int| 0 <= j < 64 implies !#[trigger] bit_of_u64(val, j) by {
                let ju = j as u64;
                assert((0u64 >> ju) & 1u64 == 0u64) by (bit_vector);
            }
        }
        while i < w
            invariant
                w == bit_width,
                w <= 64,
                i <= w,
                bit_offset + bit_width <= 8 * N,
                bit_offset + bit_width <= usize::MAX,
                fits_width(val, i as int),
                i < 64 ==> val < (1u64 << i as u64),
                forall|j: int| 0 <= j < i ==> #[trigger] bit_of_u64(val, j) == bit_of(self.bytes(), bit_offset + j),
            decreases w - i,
        {
            let b = self.get_bit(i + bit_offset);
            if b {
                let old_val = val;
                proof {
                    lemma_or_bit(old_val, i as u64);
                    if i < 63 {
                        lemma_or_below(old_val, i as u64);
                    }
                }
                val = val | (1u64 << i as u64);
                proof {
                    assert forall|j: int| 0 <= j < 64 implies #[trigger] bit_of_u64(val, j) == (j == i
                        || bit_of_u64(old_val, j)) by {
                        let ju = j as u64;
                        assert((((old_val | (1u64 << i as u64)) >> ju) & 1u64 == 1u64) == (ju == i as u64 || (
                        old_val >> ju) & 1u64 == 1u64));
                    }
                }
            } else {
                proof {
                    if i < 63 {
                        lemma_or_below(val, i as u64);
                    }
                }
            }
            i = i + 1;
        }
        val
    }

    /// Writes the low `bit_width` bits of `val` from `bit_offset` on, leaving every other bit
    /// as it was.
    pub fn set(&mut self, bit_offset: usize, bit_width: u8, val: u64)
        requires
            bit_width <= 64,
            bit_offset / 8 < N,
            bit_offset + bit_width <= 8 * N,
            bit_offset + bit_width <= usize::MAX,
        ensures
            final(self).bytes().len() == N,
            field_written(old(self).bytes(), final(self).bytes(), bit_offset as int, bit_width as int, val),
    {
        let mut i: usize = 0;
        let w = bit_width as usize;
        while i < w
            invariant
                w == bit_width,
                w <= 64,
                i <= w,
                bit_offset + bit_width <= 8 * N,
                bit_offset + bit_width <= usize::MAX,
                field_written(old(self).bytes(), self.bytes(), bit_offset as int, i as int, val),
            decreases w - i,
        {
            let mask: u64 = 1u64 << i as u64;
            let bit_set = val & mask == mask;
            proof {
                lemma_mask_bit(val, i as u64);
            }
            self.set_bit(i + bit_offset, bit_set);
            i = i + 1;
        }
    }

    /// Reads a field of at most 8 bits.
    pub fn get_u8(&self, bit_offset: usize, bit_width: u8) -> (r: u8)
        requires
            bit_width <= 8,
            bit_offset / 8 < N,
            bit_offset + bit_width <= 8 * N,
            bit_offset + bit_width <= usize::MAX,
        ensures
            reads_field(self.bytes(), bit_offset as int, bit_width as int, r as u64),
    {
        let v = self.get(bit_offset, bit_width);
        assert(v < 256) by (bit_vector)
            requires
                bit_width <= 8,
                v < (1u64 << bit_width),
        ;
        v as u8
    }

    /// Reads a field of at most 16 bits.
    pub fn get_u16(&self, bit_offset: usize, bit_width: u8) -> (r: u16)
        requires
            bit_width <= 16,
            bit_offset / 8 < N,
            bit_offset + bit_width <= 8 * N,
            bit_offset + bit_width <= usize::MAX,
        ensures
            reads_field(self.bytes(), bit_offset as int, bit_width as int, r as u64),
    {
        let v = self.get(bit_offset, bit_width);
        assert(v < 65536) by (bit_vector)
            requires
                bit_width <= 16,
                v < (1u64 << bit_width),
        ;
        v as u16
    }

    /// Reads a field of at most 32 bits.
    pub fn get_u32(&self, bit_offset: usize, bit_width: u8) -> (r: u32)
        requires
            bit_width <= 32,
            bit_offset / 8 < N,
            bit_offset + bit_width <= 8 * N,
            bit_offset + bit_width <= usize::MAX,
        ensures
            reads_field(self.bytes(), bit_offset as int, bit_width as int, r as u64),
    {
        let v = self.get(bit_offset, bit_width);
        assert(v < 0x1_0000_0000) by (bit_vector)
            requires
                bit_width <= 32,
                v < (1u64 << bit_width),
        ;
        v as u32
    }
}

/// The low `w` bits of `val` stand in `bytes` from bit `off` on.
pub open spec fn holds_low_bits(bytes: Seq<u8>, off: int, w: int, val: u64) -> bool {
    forall|i: int| 0 <= i < w ==> #[trigger] bit_of(bytes, off + i) == bit_of_u64(val, i)
}

} // verus!
