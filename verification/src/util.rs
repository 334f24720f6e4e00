use vstd::arithmetic::power2::{
    lemma2_to64, lemma_pow2_adds, lemma_pow2_pos, lemma_pow2_strictly_increases, pow2,
};
use vstd::bits::{
    lemma_u32_pow2_no_overflow, lemma_u32_shl_is_mul, lemma_u64_pow2_no_overflow,
    lemma_u64_shl_is_mul,
};
use vstd::prelude::*;

verus! {

/// Failures of a bit-level read.
#[derive(Eq, PartialEq, Debug)]
pub enum BitReaderError {
    /// The buffer holds fewer bits than the read asked for.
    NotEnoughData,
    /// The read asked for more bits than the target integer type holds.
    TooManyBitsForType,
}

/// The bit of `data` at bit position `i`: bits are numbered
/// least-significant-first within each byte, bytes left to right.
pub open spec fn bit_at(data: Seq<u8>, i: int) -> u32 {
    if data[i / 8] & (1u8 << ((i % 8) as u8)) == 0 {
        0
    } else {
        1
    }
}

/// The unsigned value of the `n` bits of `data` starting at bit position
/// `start`: bit `i` of the field comes from position `start + i` and has
/// weight `2^i` (little-endian bit packing within the field).
pub open spec fn read_bits(data: Seq<u8>, start: int, n: nat) -> nat
    decreases n,
{
    if n == 0 {
        0
    } else {
        read_bits(data, start, (n - 1) as nat) + (bit_at(data, start + n - 1) as nat) * pow2(
            (n - 1) as nat,
        )
    }
}

/// Two's-complement reinterpretation of an `n`-bit unsigned value: a value
/// whose bit `n - 1` is set (equivalently, a value of at least `2^(n-1)`)
/// stands for `value - 2^n`; any other value stands for itself.
pub open spec fn sign_extend(value: nat, n: nat) -> int {
    if n > 0 && value >= pow2((n - 1) as nat) {
        value - pow2(n)
    } else {
        value as int
    }
}

/// An `n`-bit field value is always below `2^n`.
pub proof fn lemma_read_bits_bound(data: Seq<u8>, start: int, n: nat)
    ensures
        read_bits(data, start, n) < pow2(n),
    decreases n,
{
    if n == 0 {
        lemma2_to64();
    } else {
        lemma_read_bits_bound(data, start, (n - 1) as nat);
        lemma_pow2_adds((n - 1) as nat, 1);
        lemma2_to64();
        lemma_pow2_pos((n - 1) as nat);
        assert(bit_at(data, start + n - 1) == 0 || bit_at(data, start + n - 1) == 1);
    }
}

/// A field read entirely out of a prefix has the same value over the prefix
/// and over the whole buffer.
pub proof fn lemma_read_bits_prefix(a: Seq<u8>, b: Seq<u8>, start: int, n: nat)
    requires
        0 <= start,
        start + n <= a.len() * 8,
        a.len() <= b.len(),
        forall|i: int| 0 <= i < a.len() ==> a[i] == b[i],
    ensures
        read_bits(a, start, n) == read_bits(b, start, n),
    decreases n,
{
    if n > 0 {
        lemma_read_bits_prefix(a, b, start, (n - 1) as nat);
        assert((start + n - 1) / 8 < a.len());
    }
}

/// Sign extension law: among `n`-bit unsigned values, exactly those with bit
/// `n - 1` set decode to `value - 2^n`; the others decode unchanged.
pub proof fn lemma_sign_extension(value: u32, n: nat)
    requires
        1 <= n <= 32,
        value < pow2(n),
    ensures
        (value & (1u32 << ((n - 1) as u32)) != 0) <==> value >= pow2((n - 1) as nat),
        value & (1u32 << ((n - 1) as u32)) != 0 ==> sign_extend(value as nat, n) == value - pow2(n),
        value & (1u32 << ((n - 1) as u32)) == 0 ==> sign_extend(value as nat, n) == value,
{
    let s = (n - 1) as u32;
    lemma_u32_pow2_no_overflow((n - 1) as nat);
    lemma_u32_shl_is_mul(1u32, s);
    if n < 32 {
        lemma_u32_pow2_no_overflow(n);
        let s1 = n as u32;
        lemma_u32_shl_is_mul(1u32, s1);
        assert((value & (1u32 << s) != 0) <==> value >= (1u32 << s)) by (bit_vector)
            requires
                s < 31,
                s1 == s + 1,
                value < (1u32 << s1),
        ;
    } else {
        assert((value & (1u32 << s) != 0) <==> value >= (1u32 << s)) by (bit_vector)
            requires
                s == 31,
        ;
    }
}

/// A cursor over a borrowed byte buffer, consuming bits left to right:
/// within each byte the least-significant bit first, bytes in ascending
/// order. The cursor only moves forward.
pub struct BitReader<'a> {
    pub data: &'a [u8],
    pub index: usize,
}

impl<'a> BitReader<'a> {
    /// The cursor sits inside the buffer and the buffer's bit count fits
    /// the cursor's type.
    pub open spec fn wf(&self) -> bool {
        self.index <= self.data@.len() * 8 && self.data@.len() * 8 <= usize::MAX
    }

    /// A fresh reader over `data`, cursor at bit 0.
    pub fn new(data: &'a [u8]) -> (r: Self)
        requires
            data@.len() * 8 <= usize::MAX,
        ensures
            r.wf(),
            r.data@ == data@,
            r.index == 0,
    {
        BitReader { data, index: 0 }
    }

    /// Reads the single bit under the cursor and advances past it.
    pub fn read_bit(&mut self) -> (r: Result<u32, BitReaderError>)
        requires
            old(self).wf(),
        ensures
            final(self).wf(),
            final(self).data@ == old(self).data@,
            old(self).index < old(self).data@.len() * 8 ==> r == Ok::<u32, BitReaderError>(
                bit_at(old(self).data@, old(self).index as int),
            ) && final(self).index == old(self).index + 1,
            old(self).index >= old(self).data@.len() * 8 ==> r == Err::<u32, BitReaderError>(
                BitReaderError::NotEnoughData,
            ) && final(self).index == old(self).index,
    {
        if self.index == self.data.len() * 8 {
            return Err(BitReaderError::NotEnoughData);
        }
        let byte = self.data[self.index / 8];
        let val = byte & (1u8 << ((self.index % 8) as u8));
        self.index += 1;
        Ok(if val == 0 { 0 } else { 1 })
    }

    /// Reads `num_bits` bits as an unsigned value, bit `i` of the result
    /// taken from cursor position `cursor + i`.
    pub fn read_u32(&mut self, num_bits: usize) -> (r: Result<u32, BitReaderError>)
        requires
            old(self).wf(),
        ensures
            final(self).wf(),
            final(self).data@ == old(self).data@,
            num_bits > 32 ==> r == Err::<u32, BitReaderError>(BitReaderError::TooManyBitsForType)
                && final(self).index == old(self).index,
            num_bits <= 32 && old(self).index + num_bits <= old(self).data@.len() * 8 ==> r
                == Ok::<u32, BitReaderError>(
                read_bits(old(self).data@, old(self).index as int, num_bits as nat) as u32,
            ) && final(self).index == old(self).index + num_bits,
            num_bits <= 32 && old(self).index + num_bits > old(self).data@.len() * 8 ==> r
                == Err::<u32, BitReaderError>(BitReaderError::NotEnoughData),
    {
        if num_bits > 32 {
            return Err(BitReaderError::TooManyBitsForType);
        }
        let mut value: u32 = 0;
        let mut i: usize = 0;
        proof {
            lemma2_to64();
        }
        while i < num_bits
            invariant
                old(self).wf(),
                self.wf(),
                self.data@ == old(self).data@,
                num_bits <= 32,
                i <= num_bits,
                self.index == old(self).index + i,
                value as nat == read_bits(old(self).data@, old(self).index as int, i as nat),
                value < pow2(i as nat),
            decreases num_bits - i,
        {
            let bit = match self.read_bit() {
                Ok(b) => b,
                Err(e) => {
                    return Err(e);
                },
            };
            let sh = i as u32;
            proof {
                lemma_u32_pow2_no_overflow(i as nat);
                lemma_u32_shl_is_mul(1u32, sh);
                assert(bit == 0 || bit == 1);
                lemma_u32_shl_is_mul(bit, sh);
                assert(value | (bit << sh) == value + (bit << sh)) by (bit_vector)
                    requires
                        sh < 32,
                        bit <= 1,
                        value < (1u32 << sh),
                ;
                lemma_pow2_adds(i as nat, 1);
                lemma2_to64();
            }
            value = value | (bit << sh);
            i += 1;
        }
        Ok(value)
    }

    /// Reads `num_bits` bits (at most 16) as an unsigned 16-bit value.
    pub fn read_u16(&mut self, num_bits: usize) -> (r: Result<u16, BitReaderError>)
        requires
            old(self).wf(),
        ensures
            final(self).wf(),
            final(self).data@ == old(self).data@,
            num_bits > 16 ==> r == Err::<u16, BitReaderError>(BitReaderError::TooManyBitsForType)
                && final(self).index == old(self).index,
            num_bits <= 16 && old(self).index + num_bits <= old(self).data@.len() * 8 ==> r
                == Ok::<u16, BitReaderError>(
                read_bits(old(self).data@, old(self).index as int, num_bits as nat) as u16,
            ) && final(self).index == old(self).index + num_bits,
            num_bits <= 16 && old(self).index + num_bits > old(self).data@.len() * 8 ==> r
                == Err::<u16, BitReaderError>(BitReaderError::NotEnoughData),
    {
        if num_bits > 16 {
            return Err(BitReaderError::TooManyBitsForType);
        }
        match self.read_u32(num_bits) {
            Ok(v) => {
                proof {
                    lemma_read_bits_bound(old(self).data@, old(self).index as int, num_bits as nat);
                    if num_bits < 16 {
                        lemma_pow2_strictly_increases(num_bits as nat, 16);
                    }
                    lemma2_to64();
                }
                Ok(v as u16)
            },
            Err(e) => Err(e),
        }
    }

    /// Reads `num_bits` bits (at most 8) as an unsigned 8-bit value.
    pub fn read_u8(&mut self, num_bits: usize) -> (r: Result<u8, BitReaderError>)
        requires
            old(self).wf(),
        ensures
            final(self).wf(),
            final(self).data@ == old(self).data@,
            num_bits > 8 ==> r == Err::<u8, BitReaderError>(BitReaderError::TooManyBitsForType)
                && final(self).index == old(self).index,
            num_bits <= 8 && old(self).index + num_bits <= old(self).data@.len() * 8 ==> r
                == Ok::<u8, BitReaderError>(
                read_bits(old(self).data@, old(self).index as int, num_bits as nat) as u8,
            ) && final(self).index == old(self).index + num_bits,
            num_bits <= 8 && old(self).index + num_bits > old(self).data@.len() * 8 ==> r
                == Err::<u8, BitReaderError>(BitReaderError::NotEnoughData),
    {
        if num_bits > 8 {
            return Err(BitReaderError::TooManyBitsForType);
        }
        match self.read_u32(num_bits) {
            Ok(v) => {
                proof {
                    lemma_read_bits_bound(old(self).data@, old(self).index as int, num_bits as nat);
                    if num_bits < 8 {
                        lemma_pow2_strictly_increases(num_bits as nat, 8);
                    }
                    lemma2_to64();
                }
                Ok(v as u8)
            },
            Err(e) => Err(e),
        }
    }

    /// Reads `num_bits` bits (at most 32) as a signed value in
    /// two's-complement: the top bit of the field is the sign bit.
    pub fn read_i32(&mut self, num_bits: usize) -> (r: Result<i32, BitReaderError>)
        requires
            old(self).wf(),
        ensures
            final(self).wf(),
            final(self).data@ == old(self).data@,
            num_bits > 32 ==> r == Err::<i32, BitReaderError>(BitReaderError::TooManyBitsForType)
                && final(self).index == old(self).index,
            num_bits <= 32 && old(self).index + num_bits <= old(self).data@.len() * 8 ==> r
                == Ok::<i32, BitReaderError>(
                sign_extend(
                    read_bits(old(self).data@, old(self).index as int, num_bits as nat),
                    num_bits as nat,
                ) as i32,
            ) && final(self).index == old(self).index + num_bits,
            num_bits <= 32 && old(self).index + num_bits > old(self).data@.len() * 8 ==> r
                == Err::<i32, BitReaderError>(BitReaderError::NotEnoughData),
    {
        if num_bits > 32 {
            return Err(BitReaderError::TooManyBitsForType);
        }
        let value = match self.read_u32(num_bits) {
            Ok(v) => v,
            Err(e) => {
                return Err(e);
            },
        };
        proof {
            lemma_read_bits_bound(old(self).data@, old(self).index as int, num_bits as nat);
        }
        if num_bits > 0 {
            proof {
                lemma_u32_pow2_no_overflow((num_bits - 1) as nat);
                lemma_u32_shl_is_mul(1u32, (num_bits - 1) as u32);
            }
            let sign_weight: u32 = 1u32 << ((num_bits - 1) as u32);
            if value >= sign_weight {
                proof {
                    lemma_u64_pow2_no_overflow(num_bits as nat);
                    lemma_u64_shl_is_mul(1u64, num_bits as u64);
                    if num_bits < 32 {
                        lemma_pow2_strictly_increases(num_bits as nat, 32);
                    }
                    lemma2_to64();
                }
                let field_weight: u64 = 1u64 << (num_bits as u64);
                let res: i64 = value as i64 - field_weight as i64;
                return Ok(res as i32);
            }
            proof {
                if ((num_bits - 1) as nat) < 31 {
                    lemma_pow2_strictly_increases((num_bits - 1) as nat, 31);
                }
                lemma2_to64();
            }
        }
        Ok(value as i32)
    }

    /// Reads `num_bits` bits (at most 16) as a signed 16-bit value in
    /// two's-complement.
    pub fn read_i16(&mut self, num_bits: usize) -> (r: Result<i16, BitReaderError>)
        requires
            old(self).wf(),
        ensures
            final(self).wf(),
            final(self).data@ == old(self).data@,
            num_bits > 16 ==> r == Err::<i16, BitReaderError>(BitReaderError::TooManyBitsForType)
                && final(self).index == old(self).index,
            num_bits <= 16 && old(self).index + num_bits <= old(self).data@.len() * 8 ==> r
                == Ok::<i16, BitReaderError>(
                sign_extend(
                    read_bits(old(self).data@, old(self).index as int, num_bits as nat),
                    num_bits as nat,
                ) as i16,
            ) && final(self).index == old(self).index + num_bits,
            num_bits <= 16 && old(self).index + num_bits > old(self).data@.len() * 8 ==> r
                == Err::<i16, BitReaderError>(BitReaderError::NotEnoughData),
    {
        if num_bits > 16 {
            return Err(BitReaderError::TooManyBitsForType);
        }
        match self.read_i32(num_bits) {
            Ok(v) => {
                proof {
                    lemma_read_bits_bound(old(self).data@, old(self).index as int, num_bits as nat);
                    if num_bits > 0 && ((num_bits - 1) as nat) < 15 {
                        lemma_pow2_strictly_increases((num_bits - 1) as nat, 15);
                    }
                    if num_bits < 16 {
                        lemma_pow2_strictly_increases(num_bits as nat, 16);
                    }
                    lemma2_to64();
                }
                Ok(v as i16)
            },
            Err(e) => Err(e),
        }
    }
}

} // verus!
