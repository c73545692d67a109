use vstd::prelude::*;
use vstd::arithmetic::power2::{pow2, lemma_pow2_adds, lemma2_to64};
use crate::bits::{bits_of, words_bits, value_of, signed_value_of, lemma_unsigned_round_trip,
    lemma_top_bit, lemma_value_of_append, lemma_value_of_bounds};
use super::{
    SerializationError,
    bit_width,
    calculate_bits_required,
    lemma_bit_width,
    lemma_bit_width_bound,
    lemma_u64_below,
    lemma_or_shifted,
    lemma_split_low_bits,
};

verus! {

/// Reads a bit stream back from a buffer of 32-bit words.
pub struct Deserializer<'a> {
    scratch: u64,
    scratch_bits: usize,
    word_index: usize,
    buffer: &'a [u32],
}

impl<'a> Deserializer<'a> {
    /// The bits of the whole buffer.
    pub closed spec fn data(&self) -> Seq<bool> {
        words_bits(self.buffer@)
    }

    /// How many bits have been read.
    pub closed spec fn position(&self) -> nat {
        (32 * self.word_index - self.scratch_bits) as nat
    }

    /// How many bits are left to read.
    pub open spec fn available(&self) -> nat {
        (self.data().len() - self.position()) as nat
    }

    /// The next `n` bits of the buffer.
    pub open spec fn next_bits(&self, n: nat) -> Seq<bool> {
        self.data().subrange(self.position() as int, (self.position() + n) as int)
    }

    /// The deserializer's invariant.
    pub closed spec fn wf(&self) -> bool {
        &&& self.word_index <= self.buffer@.len()
        &&& self.scratch_bits < 32
        &&& self.scratch_bits <= 32 * self.word_index
        &&& self.scratch >> (self.scratch_bits as u64) == 0
        &&& bits_of(self.scratch as nat, self.scratch_bits as nat) == words_bits(self.buffer@).subrange(
            32 * self.word_index - self.scratch_bits,
            32 * self.word_index,
        )
    }

    /// The position never passes the end of the data.
    pub proof fn lemma_position(&self)
        requires
            self.wf(),
        ensures
            self.position() <= self.data().len(),
    {
    }

    /// A deserializer at the start of `buffer`.
    pub fn new(buffer: &'a [u32]) -> (r: Self)
        ensures
            r.wf(),
            r.data() == words_bits(buffer@),
            r.position() == 0,
    {
        let r = Deserializer { scratch: 0, scratch_bits: 0, word_index: 0, buffer };
        proof {
            assert(0u64 >> 0u64 == 0) by (bit_vector);
            assert(bits_of(0, 0) =~= words_bits(buffer@).subrange(0, 0));
        }
        r
    }

    /// Reads the next `n` bits (`n <= 32`) as an unsigned number. Errors with `WordTooSmall`
    /// when `n > 32`.
    fn deserialize_bits(&mut self, n: usize) -> (r: Result<u32, SerializationError>)
        requires
            old(self).wf(),
        ensures
            n > 32 ==> r == Err::<u32, SerializationError>(SerializationError::WordTooSmall)
                && *final(self) == *old(self),
            n <= 32 ==> read_outcome(*old(self), *final(self), n as nat, r),
            r matches Ok(v) ==> v == value_of(old(self).next_bits(n as nat)),
    {
        if n > 32 {
            return Err(SerializationError::WordTooSmall);
        }
        let ghost pos = self.position();
        let ghost data = self.data();
        if self.scratch_bits < n {
            if self.word_index >= self.buffer.len() {
                return Err(SerializationError::BufferTooSmall);
            }
            let w = self.buffer[self.word_index];
            let sb = self.scratch_bits;
            let s = self.scratch;
            proof {
                assert((w as u64) >> 32u64 == 0) by (bit_vector);
                lemma_or_shifted(s, w as u64, sb as u64, 32);
                let i = self.word_index as int;
                assert(data.subrange(32 * i, 32 * i + 32) =~= bits_of(w as nat, 32));
                assert(data.subrange(32 * i - sb, 32 * i + 32) =~= data.subrange(32 * i - sb, 32 * i)
                    + data.subrange(32 * i, 32 * i + 32));
            }
            self.scratch = s | ((w as u64) << (sb as u64));
            self.word_index = self.word_index + 1;
            self.scratch_bits = sb + 32;
        }
        let x = self.scratch;
        let t = self.scratch_bits;
        let ghost end = 32 * self.word_index as int;
        proof {
            let whole = data.subrange(end - t, end);
            assert(bits_of(x as nat, t as nat) =~= whole);
            lemma_split_low_bits(x, t as u64, n as u64);
            let hi = bits_of((x >> (n as u64)) as nat, (t - n) as nat);
            let lo = bits_of((x & (((1u64 << (n as u64)) - 1) as u64)) as nat, n as nat);
            assert forall|j: int| 0 <= j < t - n implies #[trigger] hi[j] == data[end - t + n + j] by {
                assert(hi[j] == (lo + hi)[n + j]);
                assert(whole[n + j] == data[end - t + n + j]);
            }
            assert forall|j: int| 0 <= j < n implies #[trigger] lo[j] == data[pos + j] by {
                assert(lo[j] == (lo + hi)[j]);
                assert(whole[j] == data[end - t + j]);
            }
            assert(hi =~= data.subrange(end - t + n, end));
            assert(lo =~= data.subrange(pos as int, pos + n));
            assert(n <= 32 ==> (1u64 << (n as u64)) >= 1) by (bit_vector);
        }
        let v = x & ((1u64 << (n as u64)) - 1);
        self.scratch = x >> (n as u64);
        self.scratch_bits = t - n;
        proof {
            lemma_u64_below(v, n as u64);
            lemma_unsigned_round_trip(v as nat, n as nat);
        }
        Ok(v as u32)
    }

    /// Reads one bit.
    pub fn deserialize_bool(&mut self) -> (r: Result<bool, SerializationError>)
        requires
            old(self).wf(),
        ensures
            read_outcome(*old(self), *final(self), 1, r),
            r matches Ok(b) ==> b == old(self).data()[old(self).position() as int],
    {
        let v = self.deserialize_bits(1)?;
        proof {
            lemma2_to64();
            let w = old(self).next_bits(1);
            assert(w.drop_last() =~= Seq::<bool>::empty());
            assert(value_of(Seq::<bool>::empty()) == 0);
            assert(value_of(w) == value_of(w.drop_last()) + if w.last() { 1int } else { 0int });
        }
        Ok(v != 0)
    }

    /// Reads 8 bits.
    pub fn deserialize_u8(&mut self) -> (r: Result<u8, SerializationError>)
        requires
            old(self).wf(),
        ensures
            read_outcome(*old(self), *final(self), 8, r),
            r matches Ok(v) ==> v == value_of(old(self).next_bits(8)),
    {
        let v = self.deserialize_bits(8)?;
        proof {
            lemma2_to64();
            lemma_value_of_bounds(old(self).next_bits(8));
        }
        Ok(v as u8)
    }

    /// Reads 8 bits of two's complement.
    pub fn deserialize_i8(&mut self) -> (r: Result<i8, SerializationError>)
        requires
            old(self).wf(),
        ensures
            read_outcome(*old(self), *final(self), 8, r),
            r matches Ok(v) ==> v == signed_value_of(old(self).next_bits(8)),
    {
        let v = self.deserialize_bits(8)?;
        proof {
            lemma2_to64();
            lemma_value_of_bounds(old(self).next_bits(8));
            lemma_top_bit(old(self).next_bits(8));
            assert(v < 256 ==> ((v as u8) as i8) as int == if v >= 128 { v - 256 } else { v as int })
                by (bit_vector);
        }
        Ok((v as u8) as i8)
    }

    /// Reads 16 bits.
    pub fn deserialize_u16(&mut self) -> (r: Result<u16, SerializationError>)
        requires
            old(self).wf(),
        ensures
            read_outcome(*old(self), *final(self), 16, r),
            r matches Ok(v) ==> v == value_of(old(self).next_bits(16)),
    {
        let v = self.deserialize_bits(16)?;
        proof {
            lemma2_to64();
            lemma_value_of_bounds(old(self).next_bits(16));
        }
        Ok(v as u16)
    }

    /// Reads 16 bits of two's complement.
    pub fn deserialize_i16(&mut self) -> (r: Result<i16, SerializationError>)
        requires
            old(self).wf(),
        ensures
            read_outcome(*old(self), *final(self), 16, r),
            r matches Ok(v) ==> v == signed_value_of(old(self).next_bits(16)),
    {
        let v = self.deserialize_bits(16)?;
        proof {
            lemma2_to64();
            lemma_value_of_bounds(old(self).next_bits(16));
            lemma_top_bit(old(self).next_bits(16));
            assert(v < 65536 ==> ((v as u16) as i16) as int == if v >= 32768 { v - 65536 } else { v as int })
                by (bit_vector);
        }
        Ok((v as u16) as i16)
    }

    /// Reads 32 bits.
    pub fn deserialize_u32(&mut self) -> (r: Result<u32, SerializationError>)
        requires
            old(self).wf(),
        ensures
            read_outcome(*old(self), *final(self), 32, r),
            r matches Ok(v) ==> v == value_of(old(self).next_bits(32)),
    {
        self.deserialize_bits(32)
    }

    /// Reads 32 bits of two's complement.
    pub fn deserialize_i32(&mut self) -> (r: Result<i32, SerializationError>)
        requires
            old(self).wf(),
        ensures
            read_outcome(*old(self), *final(self), 32, r),
            r matches Ok(v) ==> v == signed_value_of(old(self).next_bits(32)),
    {
        let v = self.deserialize_bits(32)?;
        proof {
            lemma2_to64();
            lemma_top_bit(old(self).next_bits(32));
            assert((v as i32) as int == if v >= 0x8000_0000 { v - 0x1_0000_0000 } else { v as int })
                by (bit_vector);
        }
        Ok(v as i32)
    }

    /// Reads 64 bits: the low word, then the high word.
    #[verifier::spinoff_prover]
    pub fn deserialize_u64(&mut self) -> (r: Result<u64, SerializationError>)
        requires
            old(self).wf(),
        ensures
            read_outcome(*old(self), *final(self), 64, r),
            r matches Ok(v) ==> v == value_of(old(self).next_bits(64)),
    {
        let ghost d0 = *self;
        let r1 = self.deserialize_bits(32);
        let lo = match r1 {
            Ok(v) => v,
            Err(e) => {
                proof { lemma_read_stops::<u32, u64>(d0, *self, 32, 64, r1, Err(e)); }
                return Err(e);
            },
        };
        let ghost d1 = *self;
        let r2 = self.deserialize_bits(32);
        proof { lemma_read_then(d0, d1, *self, 32, 32, r2, r2); }
        let hi = r2?;
        proof {
            lemma2_to64();
            lemma_value_of_append(d0.next_bits(32), d1.next_bits(32));
            assert((lo as u64) | ((hi as u64) << 32u64) == (lo as u64) + (hi as u64) * 0x1_0000_0000)
                by (bit_vector);
            assert(d0.next_bits(64) =~= d0.next_bits(32) + d1.next_bits(32));
            assert(pow2(32) == 0x1_0000_0000);
            assert(value_of(d0.next_bits(64)) == lo + 0x1_0000_0000 * hi);
        }
        let v = (lo as u64) | ((hi as u64) << 32u64);
        proof {
            assert(v == value_of(d0.next_bits(64)));
        }
        Ok(v)
    }

    /// Reads 64 bits of two's complement.
    pub fn deserialize_i64(&mut self) -> (r: Result<i64, SerializationError>)
        requires
            old(self).wf(),
        ensures
            read_outcome(*old(self), *final(self), 64, r),
            r matches Ok(v) ==> v == signed_value_of(old(self).next_bits(64)),
    {
        let v = self.deserialize_u64()?;
        proof {
            lemma2_to64();
            vstd::arithmetic::power2::lemma2_to64_rest();
            lemma_top_bit(old(self).next_bits(64));
            assert((v as i64) as int == if v >= 0x8000_0000_0000_0000 { v - 0x1_0000_0000_0000_0000 } else { v as int })
                by (bit_vector);
        }
        Ok(v as i64)
    }

    /// Reads 128 bits, lowest word first.
    #[verifier::spinoff_prover]
    pub fn deserialize_u128(&mut self) -> (r: Result<u128, SerializationError>)
        requires
            old(self).wf(),
        ensures
            read_outcome(*old(self), *final(self), 128, r),
            r matches Ok(v) ==> v == value_of(old(self).next_bits(128)),
    {
        let ghost d0 = *self;
        let r = self.deserialize_bits(32);
        let a = match r {
            Ok(v) => v,
            Err(e) => {
                proof { lemma_read_stops::<u32, u128>(d0, *self, 32, 128, r, Err(e)); }
                return Err(e);
            },
        };
        let ghost d1 = *self;
        let r = self.deserialize_bits(32);
        proof { lemma_read_then(d0, d1, *self, 32, 32, r, r); }
        let b = match r {
            Ok(v) => v,
            Err(e) => {
                proof { lemma_read_stops::<u32, u128>(d0, *self, 64, 128, r, Err(e)); }
                return Err(e);
            },
        };
        let ghost d2 = *self;
        let r = self.deserialize_bits(32);
        proof { lemma_read_then(d0, d2, *self, 64, 32, r, r); }
        let c = match r {
            Ok(v) => v,
            Err(e) => {
                proof { lemma_read_stops::<u32, u128>(d0, *self, 96, 128, r, Err(e)); }
                return Err(e);
            },
        };
        let ghost d3 = *self;
        let r = self.deserialize_bits(32);
        proof { lemma_read_then(d0, d3, *self, 96, 32, r, r); }
        let d = r?;
        proof {
            lemma2_to64();
            lemma_pow2_adds(32, 32);
            lemma_pow2_adds(64, 32);
            lemma_value_of_append(d0.next_bits(32), d1.next_bits(32));
            assert(d0.next_bits(64) =~= d0.next_bits(32) + d1.next_bits(32));
            lemma_value_of_append(d0.next_bits(64), d2.next_bits(32));
            assert(d0.next_bits(96) =~= d0.next_bits(64) + d2.next_bits(32));
            lemma_value_of_append(d0.next_bits(96), d3.next_bits(32));
            assert(d0.next_bits(128) =~= d0.next_bits(96) + d3.next_bits(32));
            assert(pow2(64) == 0x1_0000_0000_0000_0000);
            assert(pow2(96) == 0x1_0000_0000_0000_0000_0000_0000);
            assert(value_of(d0.next_bits(64)) == a + 0x1_0000_0000 * b);
            assert(value_of(d0.next_bits(96)) == a + 0x1_0000_0000 * b + 0x1_0000_0000_0000_0000 * c);
            assert(value_of(d0.next_bits(128)) == a + 0x1_0000_0000 * b + 0x1_0000_0000_0000_0000 * c
                + 0x1_0000_0000_0000_0000_0000_0000 * d);
            assert((a as u128) | ((b as u128) << 32u128) | ((c as u128) << 64u128) | ((d as u128) << 96u128)
                == (a as u128) + (b as u128) * 0x1_0000_0000 + (c as u128) * 0x1_0000_0000_0000_0000
                + (d as u128) * 0x1_0000_0000_0000_0000_0000_0000) by (bit_vector);
        }
        let v = (a as u128) | ((b as u128) << 32u128) | ((c as u128) << 64u128) | ((d as u128) << 96u128);
        proof {
            assert(v == value_of(d0.next_bits(128)));
        }
        Ok(v)
    }

    /// Reads 128 bits of two's complement.
    pub fn deserialize_i128(&mut self) -> (r: Result<i128, SerializationError>)
        requires
            old(self).wf(),
        ensures
            read_outcome(*old(self), *final(self), 128, r),
            r matches Ok(v) ==> v == signed_value_of(old(self).next_bits(128)),
    {
        let v = self.deserialize_u128()?;
        proof {
            lemma2_to64();
            lemma_pow2_adds(64, 64);
            lemma_pow2_adds(64, 63);
            vstd::arithmetic::power2::lemma2_to64_rest();
            lemma_top_bit(old(self).next_bits(128));
            assert(v >= 0x8000_0000_0000_0000_0000_0000_0000_0000u128 ==> (v as i128) == ((v - 0x8000_0000_0000_0000_0000_0000_0000_0000u128) as i128) + i128::MIN) by (bit_vector);
            assert(v < 0x8000_0000_0000_0000_0000_0000_0000_0000u128 ==> (v as i128) == v) by (bit_vector);
        }
        Ok(v as i128)
    }
}

/// The unsigned number in the next bits a packed read of `min..=max` takes.
pub open spec fn packed_raw(d: Deserializer, min: int, max: int) -> int {
    value_of(d.next_bits(bit_width((max - min) as nat)))
}

/// What a packed read of `min..=max` into a type whose largest value is `limit` does to the
/// deserializer: it fails with `BufferTooSmall` as a read of that many bits does; otherwise it
/// moves past them, and yields `raw + min` when `raw` is at most `limit` and `raw + min` at
/// most `max`, else `ValueOutOfRange`.
pub open spec fn packed_read_outcome<T>(
    old: Deserializer,
    new: Deserializer,
    min: int,
    max: int,
    limit: int,
    r: Result<T, SerializationError>,
) -> bool {
    let b = bit_width((max - min) as nat);
    &&& b > old.available() ==> read_outcome(old, new, b, r)
    &&& b <= old.available() ==> {
        &&& new.wf()
        &&& new.data() == old.data()
        &&& new.position() == old.position() + b
        &&& (r is Ok <==> packed_raw(old, min, max) <= limit && packed_raw(old, min, max) + min <= max)
        &&& r is Err ==> (r matches Err(SerializationError::ValueOutOfRange))
    }
}

impl<'a> Deserializer<'a> {
    /// Reads a value of `min..=max` packed by `serialize_packed_u8`.
    pub fn deserialize_packed_u8(&mut self, min: u8, max: u8) -> (r: Result<u8, SerializationError>)
        requires
            old(self).wf(),
            min <= max,
        ensures
            packed_read_outcome(*old(self), *final(self), min as int, max as int, u8::MAX as int, r),
            r matches Ok(v) ==> v == packed_raw(*old(self), min as int, max as int) + min,
    {
        let bits = calculate_bits_required(min as i128, max as i128);
        proof {
            lemma2_to64();
            lemma_bit_width((max - min) as nat);
            lemma_bit_width_bound((max - min) as nat, 8);
            if bits < 8 {
                vstd::arithmetic::power2::lemma_pow2_strictly_increases(bits as nat, 8);
            }
            lemma_value_of_bounds(self.next_bits(bits as nat));
        }
        let raw = self.deserialize_bits(bits)?;
        let raw = raw as u8;
        match raw.checked_add(min) {
            None => Err(SerializationError::ValueOutOfRange),
            Some(v) => if v > max {
                Err(SerializationError::ValueOutOfRange)
            } else {
                Ok(v)
            },
        }
    }

    /// Reads a value of `min..=max` packed by `serialize_packed_i8`.
    /// Errors with `ValueOutOfRange` when the bits hold more than the type's largest value,
    /// or the value they give passes `max`.
    pub fn deserialize_packed_i8(&mut self, min: i8, max: i8) -> (r: Result<i8, SerializationError>)
        requires
            old(self).wf(),
            min <= max,
        ensures
            packed_read_outcome(*old(self), *final(self), min as int, max as int, i8::MAX as int, r),
            r matches Ok(v) ==> v == packed_raw(*old(self), min as int, max as int) + min,
    {
        let bits = calculate_bits_required(min as i128, max as i128);
        proof {
            lemma2_to64();
            lemma_bit_width((max - min) as nat);
            lemma_bit_width_bound((max - min) as nat, 8);
            if bits < 8 {
                vstd::arithmetic::power2::lemma_pow2_strictly_increases(bits as nat, 8);
            }
            lemma_value_of_bounds(self.next_bits(bits as nat));
        }
        let raw = self.deserialize_bits(bits)?;
        if raw > i8::MAX as u32 {
            return Err(SerializationError::ValueOutOfRange);
        }
        let raw = raw as i8;
        match raw.checked_add(min) {
            None => Err(SerializationError::ValueOutOfRange),
            Some(v) => if v > max {
                Err(SerializationError::ValueOutOfRange)
            } else {
                Ok(v)
            },
        }
    }

    /// Reads a value of `min..=max` packed by `serialize_packed_u16`.
    pub fn deserialize_packed_u16(&mut self, min: u16, max: u16) -> (r: Result<u16, SerializationError>)
        requires
            old(self).wf(),
            min <= max,
        ensures
            packed_read_outcome(*old(self), *final(self), min as int, max as int, u16::MAX as int, r),
            r matches Ok(v) ==> v == packed_raw(*old(self), min as int, max as int) + min,
    {
        let bits = calculate_bits_required(min as i128, max as i128);
        proof {
            lemma2_to64();
            lemma_bit_width((max - min) as nat);
            lemma_bit_width_bound((max - min) as nat, 16);
            if bits < 16 {
                vstd::arithmetic::power2::lemma_pow2_strictly_increases(bits as nat, 16);
            }
            lemma_value_of_bounds(self.next_bits(bits as nat));
        }
        let raw = self.deserialize_bits(bits)?;
        let raw = raw as u16;
        match raw.checked_add(min) {
            None => Err(SerializationError::ValueOutOfRange),
            Some(v) => if v > max {
                Err(SerializationError::ValueOutOfRange)
            } else {
                Ok(v)
            },
        }
    }

    /// Reads a value of `min..=max` packed by `serialize_packed_i16`.
    /// Errors with `ValueOutOfRange` when the bits hold more than the type's largest value,
    /// or the value they give passes `max`.
    pub fn deserialize_packed_i16(&mut self, min: i16, max: i16) -> (r: Result<i16, SerializationError>)
        requires
            old(self).wf(),
            min <= max,
        ensures
            packed_read_outcome(*old(self), *final(self), min as int, max as int, i16::MAX as int, r),
            r matches Ok(v) ==> v == packed_raw(*old(self), min as int, max as int) + min,
    {
        let bits = calculate_bits_required(min as i128, max as i128);
        proof {
            lemma2_to64();
            lemma_bit_width((max - min) as nat);
            lemma_bit_width_bound((max - min) as nat, 16);
            if bits < 16 {
                vstd::arithmetic::power2::lemma_pow2_strictly_increases(bits as nat, 16);
            }
            lemma_value_of_bounds(self.next_bits(bits as nat));
        }
        let raw = self.deserialize_bits(bits)?;
        if raw > i16::MAX as u32 {
            return Err(SerializationError::ValueOutOfRange);
        }
        let raw = raw as i16;
        match raw.checked_add(min) {
            None => Err(SerializationError::ValueOutOfRange),
            Some(v) => if v > max {
                Err(SerializationError::ValueOutOfRange)
            } else {
                Ok(v)
            },
        }
    }

    /// Reads a value of `min..=max` packed by `serialize_packed_u32`.
    pub fn deserialize_packed_u32(&mut self, min: u32, max: u32) -> (r: Result<u32, SerializationError>)
        requires
            old(self).wf(),
            min <= max,
        ensures
            packed_read_outcome(*old(self), *final(self), min as int, max as int, u32::MAX as int, r),
            r matches Ok(v) ==> v == packed_raw(*old(self), min as int, max as int) + min,
    {
        let bits = calculate_bits_required(min as i128, max as i128);
        proof {
            lemma2_to64();
            lemma_bit_width((max - min) as nat);
            lemma_bit_width_bound((max - min) as nat, 32);
            if bits < 32 {
                vstd::arithmetic::power2::lemma_pow2_strictly_increases(bits as nat, 32);
            }
            lemma_value_of_bounds(self.next_bits(bits as nat));
        }
        let raw = self.deserialize_bits(bits)?;

        match raw.checked_add(min) {
            None => Err(SerializationError::ValueOutOfRange),
            Some(v) => if v > max {
                Err(SerializationError::ValueOutOfRange)
            } else {
                Ok(v)
            },
        }
    }

    /// Reads a value of `min..=max` packed by `serialize_packed_i32`.
    /// Errors with `ValueOutOfRange` when the bits hold more than the type's largest value,
    /// or the value they give passes `max`.
    pub fn deserialize_packed_i32(&mut self, min: i32, max: i32) -> (r: Result<i32, SerializationError>)
        requires
            old(self).wf(),
            min <= max,
        ensures
            packed_read_outcome(*old(self), *final(self), min as int, max as int, i32::MAX as int, r),
            r matches Ok(v) ==> v == packed_raw(*old(self), min as int, max as int) + min,
    {
        let bits = calculate_bits_required(min as i128, max as i128);
        proof {
            lemma2_to64();
            lemma_bit_width((max - min) as nat);
            lemma_bit_width_bound((max - min) as nat, 32);
            if bits < 32 {
                vstd::arithmetic::power2::lemma_pow2_strictly_increases(bits as nat, 32);
            }
            lemma_value_of_bounds(self.next_bits(bits as nat));
        }
        let raw = self.deserialize_bits(bits)?;
        if raw > i32::MAX as u32 {
            return Err(SerializationError::ValueOutOfRange);
        }
        let raw = raw as i32;
        match raw.checked_add(min) {
            None => Err(SerializationError::ValueOutOfRange),
            Some(v) => if v > max {
                Err(SerializationError::ValueOutOfRange)
            } else {
                Ok(v)
            },
        }
    }

    /// Reads a value of `min..=max` packed by `serialize_packed_u64`.
    pub fn deserialize_packed_u64(&mut self, min: u64, max: u64) -> (r: Result<u64, SerializationError>)
        requires
            old(self).wf(),
            min <= max,
        ensures
            packed_read_outcome(*old(self), *final(self), min as int, max as int, u64::MAX as int, r),
            r matches Ok(v) ==> v == packed_raw(*old(self), min as int, max as int) + min,
    {
        let bits = calculate_bits_required(min as i128, max as i128);
        let ghost d0 = *self;
        proof {
            lemma2_to64();
            vstd::arithmetic::power2::lemma2_to64_rest();
            lemma_bit_width((max - min) as nat);
            lemma_bit_width_bound((max - min) as nat, 64);
            if bits < 64 {
                vstd::arithmetic::power2::lemma_pow2_strictly_increases(bits as nat, 64);
            }
            lemma_value_of_bounds(self.next_bits(bits as nat));
        }
        let v: u64 = if bits > 32 {
            let r1 = self.deserialize_bits(32);
            let lo = match r1 {
                Ok(x) => x,
                Err(e) => {
                    proof { lemma_read_stops::<u32, u64>(d0, *self, 32, bits as nat, r1, Err(e)); }
                    return Err(e);
                },
            };
            let ghost d1 = *self;
            let r2 = self.deserialize_bits(bits - 32);
            proof { lemma_read_then(d0, d1, *self, 32, (bits - 32) as nat, r2, r2); }
            let hi = match r2 {
                Ok(x) => x,
                Err(e) => {
                    proof { lemma_read_then(d0, d1, *self, 32, (bits - 32) as nat, r2, Err::<u64, SerializationError>(e)); }
                    return Err(e);
                },
            };
            proof {
                lemma_value_of_append(d0.next_bits(32), d1.next_bits((bits - 32) as nat));
                assert((lo as u64) | ((hi as u64) << 32u64) == (lo as u64) + (hi as u64) * 0x1_0000_0000)
                    by (bit_vector);
                assert(d0.next_bits(bits as nat) == d0.next_bits(32) + d1.next_bits((bits - 32) as nat));
                assert(value_of(d0.next_bits(bits as nat)) == lo + 0x1_0000_0000 * hi);
            }
            (lo as u64) | ((hi as u64) << 32u64)
        } else {
            let r1 = self.deserialize_bits(bits);
            match r1 {
                Ok(x) => x as u64,
                Err(e) => {
                    proof { lemma_read_stops::<u32, u64>(d0, *self, bits as nat, bits as nat, r1, Err(e)); }
                    return Err(e);
                },
            }
        };
        proof {
            assert(v == value_of(d0.next_bits(bits as nat)));
            assert(self.position() == d0.position() + bits);
        }

        match v.checked_add(min) {
            None => Err(SerializationError::ValueOutOfRange),
            Some(x) => if x > max {
                Err(SerializationError::ValueOutOfRange)
            } else {
                Ok(x)
            },
        }
    }

    /// Reads a value of `min..=max` packed by `serialize_packed_i64`.
    /// Errors with `ValueOutOfRange` when the bits hold more than the type's largest value,
    /// or the value they give passes `max`.
    pub fn deserialize_packed_i64(&mut self, min: i64, max: i64) -> (r: Result<i64, SerializationError>)
        requires
            old(self).wf(),
            min <= max,
        ensures
            packed_read_outcome(*old(self), *final(self), min as int, max as int, i64::MAX as int, r),
            r matches Ok(v) ==> v == packed_raw(*old(self), min as int, max as int) + min,
    {
        let bits = calculate_bits_required(min as i128, max as i128);
        let ghost d0 = *self;
        proof {
            lemma2_to64();
            vstd::arithmetic::power2::lemma2_to64_rest();
            lemma_bit_width((max - min) as nat);
            lemma_bit_width_bound((max - min) as nat, 64);
            if bits < 64 {
                vstd::arithmetic::power2::lemma_pow2_strictly_increases(bits as nat, 64);
            }
            lemma_value_of_bounds(self.next_bits(bits as nat));
        }
        let v: u64 = if bits > 32 {
            let r1 = self.deserialize_bits(32);
            let lo = match r1 {
                Ok(x) => x,
                Err(e) => {
                    proof { lemma_read_stops::<u32, i64>(d0, *self, 32, bits as nat, r1, Err(e)); }
                    return Err(e);
                },
            };
            let ghost d1 = *self;
            let r2 = self.deserialize_bits(bits - 32);
            proof { lemma_read_then(d0, d1, *self, 32, (bits - 32) as nat, r2, r2); }
            let hi = match r2 {
                Ok(x) => x,
                Err(e) => {
                    proof { lemma_read_then(d0, d1, *self, 32, (bits - 32) as nat, r2, Err::<i64, SerializationError>(e)); }
                    return Err(e);
                },
            };
            proof {
                lemma_value_of_append(d0.next_bits(32), d1.next_bits((bits - 32) as nat));
                assert((lo as u64) | ((hi as u64) << 32u64) == (lo as u64) + (hi as u64) * 0x1_0000_0000)
                    by (bit_vector);
                assert(d0.next_bits(bits as nat) == d0.next_bits(32) + d1.next_bits((bits - 32) as nat));
                assert(value_of(d0.next_bits(bits as nat)) == lo + 0x1_0000_0000 * hi);
            }
            (lo as u64) | ((hi as u64) << 32u64)
        } else {
            let r1 = self.deserialize_bits(bits);
            match r1 {
                Ok(x) => x as u64,
                Err(e) => {
                    proof { lemma_read_stops::<u32, i64>(d0, *self, bits as nat, bits as nat, r1, Err(e)); }
                    return Err(e);
                },
            }
        };
        proof {
            assert(v == value_of(d0.next_bits(bits as nat)));
            assert(self.position() == d0.position() + bits);
        }
        if v > i64::MAX as u64 {
            return Err(SerializationError::ValueOutOfRange);
        }
        let v = v as i64;
        match v.checked_add(min) {
            None => Err(SerializationError::ValueOutOfRange),
            Some(x) => if x > max {
                Err(SerializationError::ValueOutOfRange)
            } else {
                Ok(x)
            },
        }
    }

}

/// The bits a deserializer has left to read.
pub open spec fn remaining(d: Deserializer) -> Seq<bool> {
    d.data().subrange(d.position() as int, d.data().len() as int)
}

/// A read of a fixed `n` bits from the start of `bits`: it takes `n` bits where there are
/// that many, and fails with `BufferTooSmall` otherwise.
pub open spec fn fixed_len(bits: Seq<bool>, n: nat) -> Result<nat, SerializationError> {
    if n <= bits.len() {
        Ok(n)
    } else {
        Err(SerializationError::BufferTooSmall)
    }
}

/// The bits left after a read are the bits left before it, less those it took.
pub proof fn lemma_remaining_after(d0: Deserializer, d1: Deserializer)
    requires
        d0.wf(),
        deserialize_outcome(d0, d1),
    ensures
        d1.position() <= d0.data().len(),
        remaining(d1) == remaining(d0).skip(d1.position() - d0.position()),
        remaining(d0).len() == d0.available(),
        remaining(d0).take(d1.position() - d0.position()) == d0.data().subrange(
            d0.position() as int,
            d1.position() as int,
        ),
{
    d0.lemma_position();
    d1.lemma_position();
    assert(remaining(d1) =~= remaining(d0).skip(d1.position() - d0.position()));
    assert(remaining(d0).take(d1.position() - d0.position()) =~= d0.data().subrange(
        d0.position() as int,
        d1.position() as int,
    ));
}

/// A read of a fixed `n` bits, as `read_outcome` states it, is what `fixed_len` gives.
pub proof fn lemma_fixed_read<T>(d0: Deserializer, d1: Deserializer, n: nat, r: Result<T, SerializationError>)
    requires
        d0.wf(),
        read_outcome(d0, d1, n, r),
    ensures
        match fixed_len(remaining(d0), n) {
            Ok(m) => r is Ok && d1.position() == d0.position() + m,
            Err(e) => r == Err::<T, SerializationError>(e),
        },
{
    d0.lemma_position();
}

/// A value that reads itself from a bit stream.
pub trait Deserialize: Sized {
    /// Whether a read of exactly the bits `bits` yields `v`.
    spec fn decodes(bits: Seq<bool>, v: Self) -> bool;

    /// What a read from the start of `bits` does: the number of bits it takes, or the error
    /// it fails with.
    spec fn read_len(bits: Seq<bool>) -> Result<nat, SerializationError>;

    /// Reads a value at the deserializer's position: it succeeds exactly where `read_len` of
    /// the bits left does, moves past the bits read, and gives the value those bits decode to.
    fn deserialize(deserializer: &mut Deserializer) -> (r: Result<Self, SerializationError>)
        requires
            old(deserializer).wf(),
        ensures
            deserialize_outcome(*old(deserializer), *final(deserializer)),
            match Self::read_len(remaining(*old(deserializer))) {
                Ok(n) => r is Ok && final(deserializer).position() == old(deserializer).position() + n,
                Err(e) => r == Err::<Self, SerializationError>(e),
            },
            r matches Ok(v) ==> Self::decodes(
                old(deserializer).data().subrange(
                    old(deserializer).position() as int,
                    final(deserializer).position() as int,
                ),
                v,
            ),
    ;

    /// Reads a value from the start of a byte buffer, taken as little-endian 32-bit words
    /// (a last partial word is padded with zero bytes).
    fn parse(data: &[u8]) -> (r: Result<Self, SerializationError>)
        ensures
            match Self::read_len(words_bits(bytes_to_words_spec(data@))) {
                Ok(n) => r matches Ok(v) && Self::decodes(words_bits(bytes_to_words_spec(data@)).take(n as int), v),
                Err(e) => r == Err::<Self, SerializationError>(e),
            },
            r matches Ok(v) ==> exists|n: int|
                0 <= n <= words_bits(bytes_to_words_spec(data@)).len() && #[trigger] Self::decodes(
                    words_bits(bytes_to_words_spec(data@)).take(n),
                    v,
                ),
    {
        let words = bytes_to_words(data);
        let mut deserializer = Deserializer::new(words.as_slice());
        let ghost d0 = deserializer;
        let r = Self::deserialize(&mut deserializer);
        proof {
            assert(remaining(d0) =~= words_bits(words@));
            if r is Ok {
                let n = deserializer.position() as int;
                assert(deserializer.data().subrange(0, n) =~= words_bits(words@).take(n));
                assert(Self::decodes(words_bits(bytes_to_words_spec(data@)).take(n), r->Ok_0));
            }
        }
        r
    }
}

/// A read leaves the deserializer valid over the same data, never before where it was.
pub open spec fn deserialize_outcome(old: Deserializer, new: Deserializer) -> bool {
    &&& new.wf()
    &&& new.data() == old.data()
    &&& old.position() <= new.position()
}

/// The words that a byte buffer holds, four little-endian bytes to a word, the last word
/// padded with zero bytes.
pub open spec fn bytes_to_words_spec(b: Seq<u8>) -> Seq<u32> {
    Seq::new(
        ((b.len() + 3) / 4) as nat,
        |i: int| {
            let byte = |k: int| if 4 * i + k < b.len() { b[4 * i + k] as int } else { 0int };
            (byte(0) + 0x100 * byte(1) + 0x1_0000 * byte(2) + 0x100_0000 * byte(3)) as u32
        },
    )
}

/// The words of a byte buffer (see `bytes_to_words_spec`).
pub fn bytes_to_words(data: &[u8]) -> (r: Vec<u32>)
    ensures
        r@ == bytes_to_words_spec(data@),
{
    let n = data.len() / 4 + if data.len() % 4 == 0 { 0 } else { 1 };
    let mut r: Vec<u32> = Vec::new();
    let mut i: usize = 0;
    while i < n
        invariant
            n == (data@.len() + 3) / 4,
            i <= n,
            r@.len() == i,
            forall|j: int| 0 <= j < i ==> #[trigger] r@[j] == bytes_to_words_spec(data@)[j],
        decreases n - i,
    {
        let mut w: u32 = 0;
        let mut k: usize = 0;
        let ghost spec_byte = |k: int| if 4 * i + k < data@.len() { data@[4 * i + k] as int } else { 0int };
        while k < 4
            invariant
                k <= 4,
                i < n,
                n == (data@.len() + 3) / 4,
                spec_byte == (|k: int| if 4 * i + k < data@.len() { data@[4 * i + k] as int } else { 0int }),
                w as int == (if k > 0 { spec_byte(0) } else { 0 }) + (if k > 1 { 0x100 * spec_byte(1) } else { 0 })
                    + (if k > 2 { 0x1_0000 * spec_byte(2) } else { 0 }) + (if k > 3 { 0x100_0000 * spec_byte(3) } else { 0 }),
            decreases 4 - k,
        {
            let b: u32 = if k < data.len() - 4 * i { data[4 * i + k] as u32 } else { 0 };
            let m: u32 = if k == 0 { 1 } else if k == 1 { 0x100 } else if k == 2 { 0x1_0000 } else { 0x100_0000 };
            w = w + b * m;
            k = k + 1;
        }
        proof {
            assert(w == bytes_to_words_spec(data@)[i as int]);
        }
        r.push(w);
        i = i + 1;
    }
    proof {
        assert(r@ =~= bytes_to_words_spec(data@));
    }
    r
}

impl<'a> Deserializer<'a> {
    /// Reads a value of any readable type.
    pub fn deserialize<D: Deserialize>(&mut self) -> (r: Result<D, SerializationError>)
        requires
            old(self).wf(),
        ensures
            deserialize_outcome(*old(self), *final(self)),
            match D::read_len(remaining(*old(self))) {
                Ok(n) => r is Ok && final(self).position() == old(self).position() + n,
                Err(e) => r == Err::<D, SerializationError>(e),
            },
            r matches Ok(v) ==> D::decodes(
                old(self).data().subrange(old(self).position() as int, final(self).position() as int),
                v,
            ),
    {
        D::deserialize(self)
    }
}

impl Deserialize for () {
    open spec fn decodes(bits: Seq<bool>, v: Self) -> bool {
        bits.len() == 0
    }

    /// Nothing is read.
    open spec fn read_len(bits: Seq<bool>) -> Result<nat, SerializationError> {
        Ok(0)
    }

    fn deserialize(deserializer: &mut Deserializer) -> (r: Result<Self, SerializationError>) {
        proof {
            assert(deserializer.data().subrange(deserializer.position() as int, deserializer.position() as int)
                =~= Seq::<bool>::empty());
        }
        Ok(())
    }
}

impl<A: Deserialize, B: Deserialize> Deserialize for (A, B) {
    open spec fn decodes(bits: Seq<bool>, v: Self) -> bool {
        exists|k: int|
            0 <= k <= bits.len() && #[trigger] A::decodes(bits.take(k), v.0) && B::decodes(bits.skip(k), v.1)
    }

    /// The first value, then the second from where it ends.
    open spec fn read_len(bits: Seq<bool>) -> Result<nat, SerializationError> {
        match A::read_len(bits) {
            Ok(n) => match B::read_len(bits.skip(n as int)) {
                Ok(m) => Ok(n + m),
                Err(e) => Err(e),
            },
            Err(e) => Err(e),
        }
    }

    fn deserialize(deserializer: &mut Deserializer) -> (r: Result<Self, SerializationError>) {
        let ghost d0 = *deserializer;
        let a = match A::deserialize(deserializer) {
            Ok(a) => a,
            Err(e) => {
                return Err(e);
            },
        };
        let ghost d1 = *deserializer;
        proof {
            lemma_remaining_after(d0, d1);
        }
        let b = match B::deserialize(deserializer) {
            Ok(b) => b,
            Err(e) => {
                return Err(e);
            },
        };
        proof {
            let bits = d0.data().subrange(d0.position() as int, deserializer.position() as int);
            let k = d1.position() - d0.position();
            assert(bits.take(k) =~= d0.data().subrange(d0.position() as int, d1.position() as int));
            assert(bits.skip(k) =~= d0.data().subrange(d1.position() as int, deserializer.position() as int));
            assert(A::decodes(bits.take(k), a));
            assert(B::decodes(bits.skip(k), b));
            let v = (a, b);
            assert(A::decodes(bits.take(k), v.0) && B::decodes(bits.skip(k), v.1));
        }
        Ok((a, b))
    }
}

impl<T: Deserialize> Deserialize for Option<T> {
    open spec fn decodes(bits: Seq<bool>, v: Self) -> bool {
        &&& bits.len() >= 1
        &&& match v {
            None => bits == seq![false],
            Some(x) => bits[0] && T::decodes(bits.drop_first(), x),
        }
    }

    /// A flag bit, then the value when the flag is set.
    open spec fn read_len(bits: Seq<bool>) -> Result<nat, SerializationError> {
        if bits.len() == 0 {
            Err(SerializationError::BufferTooSmall)
        } else if !bits[0] {
            Ok(1)
        } else {
            match T::read_len(bits.skip(1)) {
                Ok(n) => Ok(n + 1),
                Err(e) => Err(e),
            }
        }
    }

    /// Reads a flag bit, then the value when the flag is set.
    fn deserialize(deserializer: &mut Deserializer) -> (r: Result<Self, SerializationError>) {
        let ghost d0 = *deserializer;
        let rf = deserializer.deserialize_bool();
        proof {
            lemma_fixed_read(d0, *deserializer, 1, rf);
            d0.lemma_position();
        }
        let flag = match rf {
            Ok(f) => f,
            Err(e) => {
                return Err(e);
            },
        };
        proof {
            lemma_remaining_after(d0, *deserializer);
            assert(remaining(d0)[0] == d0.data()[d0.position() as int]);
        }
        if flag {
            let ghost d1 = *deserializer;
            let x = match T::deserialize(deserializer) {
                Ok(x) => x,
                Err(e) => {
                    return Err(e);
                },
            };
            proof {
                let bits = d0.data().subrange(d0.position() as int, deserializer.position() as int);
                assert(bits.drop_first() =~= d0.data().subrange(d1.position() as int, deserializer.position() as int));
            }
            Ok(Some(x))
        } else {
            proof {
                let bits = d0.data().subrange(d0.position() as int, deserializer.position() as int);
                assert(bits =~= seq![false]);
            }
            Ok(None)
        }
    }
}

/// Whether a read of exactly `bits` yields the values `s`, one after the other.
pub open spec fn decodes_all<T: Deserialize>(bits: Seq<bool>, s: Seq<T>) -> bool {
    exists|cuts: Seq<int>| #[trigger] decodes_at(bits, s, cuts)
}

/// Whether `bits`, cut at the positions `cuts`, reads as the values `s`: value `i` from the bits
/// between cuts `i` and `i + 1`.
pub open spec fn decodes_at<T: Deserialize>(bits: Seq<bool>, s: Seq<T>, cuts: Seq<int>) -> bool {
    &&& cuts.len() == s.len() + 1
    &&& cuts[0] == 0
    &&& cuts.last() == bits.len()
    &&& forall|i: int|
        0 <= i < s.len() ==> 0 <= cuts[i] <= cuts[i + 1] <= bits.len() && #[trigger] T::decodes(
            bits.subrange(cuts[i], cuts[i + 1]),
            s[i],
        )
}

/// Values read one after the other: one more value read after the others.
pub proof fn lemma_decodes_all_push<T: Deserialize>(bits: Seq<bool>, s: Seq<T>, x: T, k: int)
    requires
        0 <= k <= bits.len(),
        decodes_all(bits.take(k), s),
        T::decodes(bits.skip(k), x),
    ensures
        decodes_all(bits, s.push(x)),
{
    let cuts = choose|cuts: Seq<int>| #[trigger] decodes_at(bits.take(k), s, cuts);
    assert(decodes_at(bits.take(k), s, cuts));
    let c2 = cuts.push(bits.len() as int);
    let s2 = s.push(x);
    assert forall|i: int| 0 <= i < s2.len() implies 0 <= c2[i] <= c2[i + 1] <= bits.len() && #[trigger] T::decodes(
        bits.subrange(c2[i], c2[i + 1]),
        s2[i],
    ) by {
        if i < s.len() {
            assert(T::decodes(bits.take(k).subrange(cuts[i], cuts[i + 1]), s[i]));
            assert(bits.subrange(c2[i], c2[i + 1]) =~= bits.take(k).subrange(cuts[i], cuts[i + 1]));
            assert(T::decodes(bits.take(k).subrange(cuts[i], cuts[i + 1]), s[i]));
        } else {
            assert(bits.subrange(c2[i], c2[i + 1]) =~= bits.skip(k));
        }
    }
    assert(c2[0] == cuts[0] && cuts[0] == 0);
    assert(c2.last() == bits.len());
    assert(c2.len() == s2.len() + 1);
    assert forall|i: int| 0 <= i < s2.len() implies 0 <= #[trigger] c2[i] && c2[i] <= c2[i + 1] && c2[i + 1] <= bits.len() by {
        if i < s.len() {
            assert(T::decodes(bits.take(k).subrange(cuts[i], cuts[i + 1]), s[i]));
        }
    }
    assert(decodes_at(bits, s2, c2));
}

/// No values are read from no bits.
pub proof fn lemma_decodes_all_empty<T: Deserialize>(bits: Seq<bool>)
    requires
        bits.len() == 0,
    ensures
        decodes_all(bits, Seq::<T>::empty()),
{
    assert(decodes_at(bits, Seq::<T>::empty(), seq![0int]));
}

/// What `count` reads in a row from the start of `bits` do: the bits they take together, or
/// the error of the first that fails.
pub open spec fn read_many_len<T: Deserialize>(bits: Seq<bool>, count: nat) -> Result<nat, SerializationError>
    decreases count,
{
    if count == 0 {
        Ok(0)
    } else {
        match read_many_len::<T>(bits, (count - 1) as nat) {
            Ok(n) => match T::read_len(bits.skip(n as int)) {
                Ok(m) => Ok(n + m),
                Err(e) => Err(e),
            },
            Err(e) => Err(e),
        }
    }
}

/// Once a read in a row fails, reading more in a row fails the same way.
pub proof fn lemma_read_many_fails<T: Deserialize>(bits: Seq<bool>, i: nat, count: nat)
    requires
        i <= count,
        read_many_len::<T>(bits, i) is Err,
    ensures
        read_many_len::<T>(bits, count) == read_many_len::<T>(bits, i),
    decreases count - i,
{
    if i < count {
        lemma_read_many_fails::<T>(bits, i, (count - 1) as nat);
    }
}

impl<T: Deserialize> Deserialize for Vec<T> {
    open spec fn decodes(bits: Seq<bool>, v: Self) -> bool {
        &&& bits.len() >= 32
        &&& v@.len() == value_of(bits.take(32))
        &&& decodes_all(bits.skip(32), v@)
    }

    /// A `u32` length, then that many values.
    open spec fn read_len(bits: Seq<bool>) -> Result<nat, SerializationError> {
        if bits.len() < 32 {
            Err(SerializationError::BufferTooSmall)
        } else {
            match read_many_len::<T>(bits.skip(32), value_of(bits.take(32)) as nat) {
                Ok(n) => Ok(32 + n),
                Err(e) => Err(e),
            }
        }
    }

    /// Reads a `u32` length, then that many values.
    fn deserialize(deserializer: &mut Deserializer) -> (r: Result<Self, SerializationError>) {
        let ghost d0 = *deserializer;
        let rl = deserializer.deserialize_u32();
        proof {
            lemma_fixed_read(d0, *deserializer, 32, rl);
            d0.lemma_position();
        }
        let len = match rl {
            Ok(l) => l,
            Err(e) => {
                return Err(e);
            },
        };
        let ghost d1 = *deserializer;
        let ghost bits1 = remaining(d1);
        proof {
            lemma_remaining_after(d0, d1);
            assert(remaining(d0).take(32) =~= d0.next_bits(32));
            assert(bits1 == remaining(d0).skip(32));
            assert(len as nat == value_of(remaining(d0).take(32)));
        }
        let mut v: Vec<T> = Vec::new();
        let mut i: u32 = 0;
        proof {
            assert(d1.data().subrange(d1.position() as int, d1.position() as int) =~= Seq::<bool>::empty());
            assert(v@ =~= Seq::<T>::empty());
            lemma_decodes_all_empty::<T>(d1.data().subrange(d1.position() as int, d1.position() as int));
        }
        while i < len
            invariant
                deserialize_outcome(d1, *deserializer),
                deserialize_outcome(d0, d1),
                d0 == *old(deserializer),
                d1.wf(),
                bits1 == remaining(d1),
                bits1 == remaining(d0).skip(32),
                remaining(d0).len() >= 32,
                len as nat == value_of(remaining(d0).take(32)),
                i <= len,
                v@.len() == i,
                read_many_len::<T>(bits1, i as nat) == Ok::<nat, SerializationError>(
                    (deserializer.position() - d1.position()) as nat,
                ),
                decodes_all(d1.data().subrange(d1.position() as int, deserializer.position() as int), v@),
            decreases len - i,
        {
            let ghost dk = *deserializer;
            let ghost old_v = v@;
            proof {
                lemma_remaining_after(d1, dk);
                assert(read_many_len::<T>(bits1, (i + 1) as nat) == match T::read_len(bits1.skip(dk.position() - d1.position())) {
                    Ok(m) => Ok::<nat, SerializationError>((dk.position() - d1.position()) as nat + m),
                    Err(e) => Err(e),
                });
            }
            let x = match T::deserialize(deserializer) {
                Ok(x) => x,
                Err(e) => {
                    proof {
                        lemma_read_many_fails::<T>(bits1, (i + 1) as nat, len as nat);
                    }
                    return Err(e);
                },
            };
            v.push(x);
            i = i + 1;
            proof {
                let before = d1.data().subrange(d1.position() as int, dk.position() as int);
                let bits = d1.data().subrange(d1.position() as int, deserializer.position() as int);
                let k = dk.position() - d1.position();
                assert(bits.take(k) =~= before);
                assert(bits.skip(k) =~= d1.data().subrange(dk.position() as int, deserializer.position() as int));
                assert(v@.drop_last() =~= old_v);
                assert(decodes_all(bits.take(k), v@.drop_last()));
                lemma_decodes_all_push(bits, old_v, x, k);
                assert(v@ == old_v.push(x));
            }
        }
        proof {
            let bits = d0.data().subrange(d0.position() as int, deserializer.position() as int);
            assert(bits.take(32) =~= d0.next_bits(32));
            assert(bits.skip(32) =~= d1.data().subrange(d1.position() as int, deserializer.position() as int));
        }
        Ok(v)
    }
}

impl Deserialize for [u8; 16] {
    open spec fn decodes(bits: Seq<bool>, v: Self) -> bool {
        &&& bits.len() == 128
        &&& forall|i: int| 0 <= i < 16 ==> #[trigger] v@[i] == value_of(bits.subrange(8 * i, 8 * i + 8))
    }

    /// Sixteen bytes.
    open spec fn read_len(bits: Seq<bool>) -> Result<nat, SerializationError> {
        fixed_len(bits, 128)
    }

    /// Reads sixteen bytes; fails with `BufferTooSmall` where fewer than 128 bits are left.
    #[verifier::spinoff_prover]
    fn deserialize(deserializer: &mut Deserializer) -> (r: Result<Self, SerializationError>)
        ensures
            r is Ok <==> 128 <= old(deserializer).available(),
            r is Err ==> r == Err::<Self, SerializationError>(SerializationError::BufferTooSmall),
            r is Ok ==> final(deserializer).position() == old(deserializer).position() + 128,
    {
        let ghost d0 = *deserializer;
        let mut a = [0u8; 16];
        let mut i: usize = 0;
        proof {
            d0.lemma_position();
            assert(remaining(d0).len() == d0.available());
        }
        while i < 16
            invariant
                i <= 16,
                d0.wf(),
                remaining(d0).len() == d0.available(),
                d0 == *old(deserializer),
                deserialize_outcome(d0, *deserializer),
                deserializer.position() == d0.position() + 8 * i,
                d0.position() + 8 * i <= d0.data().len(),
                forall|j: int| 0 <= j < i ==> #[trigger] a@[j] == value_of(d0.data().subrange(d0.position() + 8 * j, d0.position() + 8 * j + 8)),
            decreases 16 - i,
        {
            let ghost dk = *deserializer;
            let b = match deserializer.deserialize_u8() {
                Ok(b) => b,
                Err(e) => {
                    proof {
                        assert(d0.available() < 128);
                        assert(<[u8; 16] as Deserialize>::read_len(remaining(d0)) == Err::<nat, SerializationError>(e));
                    }
                    return Err(e);
                },
            };
            a[i] = b;
            i = i + 1;
        }
        proof {
            let bits = d0.data().subrange(d0.position() as int, deserializer.position() as int);
            assert(bits.len() == 128);
            assert forall|j: int| 0 <= j < 16 implies #[trigger] a@[j] == value_of(bits.subrange(8 * j, 8 * j + 8)) by {
                assert(bits.subrange(8 * j, 8 * j + 8) =~= d0.data().subrange(d0.position() + 8 * j, d0.position() + 8 * j + 8));
            }
            assert(<[u8; 16] as Deserialize>::read_len(remaining(d0)) == Ok::<nat, SerializationError>(128));
            assert(<[u8; 16] as Deserialize>::decodes(bits, a));
        }
        Ok(a)
    }
}

impl Deserialize for bool {
    open spec fn decodes(bits: Seq<bool>, v: Self) -> bool {
        bits == seq![v]
    }

    /// One bit.
    open spec fn read_len(bits: Seq<bool>) -> Result<nat, SerializationError> {
        fixed_len(bits, 1)
    }

    fn deserialize(deserializer: &mut Deserializer) -> (r: Result<Self, SerializationError>) {
        let ghost d0 = *deserializer;
        let r = deserializer.deserialize_bool();
        proof {
            lemma_fixed_read(d0, *deserializer, 1, r);
            d0.lemma_position();
            if r is Ok {
                assert(d0.data().subrange(d0.position() as int, deserializer.position() as int) =~= seq![d0.data()[d0.position() as int]]);
            }
        }
        r
    }
}

impl Deserialize for u8 {
    open spec fn decodes(bits: Seq<bool>, v: Self) -> bool {
        bits.len() == 8 && v == value_of(bits)
    }

    /// 8 bits.
    open spec fn read_len(bits: Seq<bool>) -> Result<nat, SerializationError> {
        fixed_len(bits, 8)
    }

    fn deserialize(deserializer: &mut Deserializer) -> (r: Result<Self, SerializationError>) {
        let ghost d0 = *deserializer;
        let r = deserializer.deserialize_u8();
        proof {
            lemma_fixed_read(d0, *deserializer, 8, r);
            d0.lemma_position();
            if r is Ok {
                assert(d0.data().subrange(d0.position() as int, deserializer.position() as int) =~= d0.next_bits((deserializer.position() - d0.position()) as nat));
            }
        }
        r
    }
}

impl Deserialize for i8 {
    open spec fn decodes(bits: Seq<bool>, v: Self) -> bool {
        bits.len() == 8 && v == signed_value_of(bits)
    }

    /// 8 bits.
    open spec fn read_len(bits: Seq<bool>) -> Result<nat, SerializationError> {
        fixed_len(bits, 8)
    }

    fn deserialize(deserializer: &mut Deserializer) -> (r: Result<Self, SerializationError>) {
        let ghost d0 = *deserializer;
        let r = deserializer.deserialize_i8();
        proof {
            lemma_fixed_read(d0, *deserializer, 8, r);
            d0.lemma_position();
            if r is Ok {
                assert(d0.data().subrange(d0.position() as int, deserializer.position() as int) =~= d0.next_bits((deserializer.position() - d0.position()) as nat));
            }
        }
        r
    }
}

impl Deserialize for u16 {
    open spec fn decodes(bits: Seq<bool>, v: Self) -> bool {
        bits.len() == 16 && v == value_of(bits)
    }

    /// 16 bits.
    open spec fn read_len(bits: Seq<bool>) -> Result<nat, SerializationError> {
        fixed_len(bits, 16)
    }

    fn deserialize(deserializer: &mut Deserializer) -> (r: Result<Self, SerializationError>) {
        let ghost d0 = *deserializer;
        let r = deserializer.deserialize_u16();
        proof {
            lemma_fixed_read(d0, *deserializer, 16, r);
            d0.lemma_position();
            if r is Ok {
                assert(d0.data().subrange(d0.position() as int, deserializer.position() as int) =~= d0.next_bits((deserializer.position() - d0.position()) as nat));
            }
        }
        r
    }
}

impl Deserialize for i16 {
    open spec fn decodes(bits: Seq<bool>, v: Self) -> bool {
        bits.len() == 16 && v == signed_value_of(bits)
    }

    /// 16 bits.
    open spec fn read_len(bits: Seq<bool>) -> Result<nat, SerializationError> {
        fixed_len(bits, 16)
    }

    fn deserialize(deserializer: &mut Deserializer) -> (r: Result<Self, SerializationError>) {
        let ghost d0 = *deserializer;
        let r = deserializer.deserialize_i16();
        proof {
            lemma_fixed_read(d0, *deserializer, 16, r);
            d0.lemma_position();
            if r is Ok {
                assert(d0.data().subrange(d0.position() as int, deserializer.position() as int) =~= d0.next_bits((deserializer.position() - d0.position()) as nat));
            }
        }
        r
    }
}

impl Deserialize for u32 {
    open spec fn decodes(bits: Seq<bool>, v: Self) -> bool {
        bits.len() == 32 && v == value_of(bits)
    }

    /// 32 bits.
    open spec fn read_len(bits: Seq<bool>) -> Result<nat, SerializationError> {
        fixed_len(bits, 32)
    }

    fn deserialize(deserializer: &mut Deserializer) -> (r: Result<Self, SerializationError>) {
        let ghost d0 = *deserializer;
        let r = deserializer.deserialize_u32();
        proof {
            lemma_fixed_read(d0, *deserializer, 32, r);
            d0.lemma_position();
            if r is Ok {
                assert(d0.data().subrange(d0.position() as int, deserializer.position() as int) =~= d0.next_bits((deserializer.position() - d0.position()) as nat));
            }
        }
        r
    }
}

impl Deserialize for i32 {
    open spec fn decodes(bits: Seq<bool>, v: Self) -> bool {
        bits.len() == 32 && v == signed_value_of(bits)
    }

    /// 32 bits.
    open spec fn read_len(bits: Seq<bool>) -> Result<nat, SerializationError> {
        fixed_len(bits, 32)
    }

    fn deserialize(deserializer: &mut Deserializer) -> (r: Result<Self, SerializationError>) {
        let ghost d0 = *deserializer;
        let r = deserializer.deserialize_i32();
        proof {
            lemma_fixed_read(d0, *deserializer, 32, r);
            d0.lemma_position();
            if r is Ok {
                assert(d0.data().subrange(d0.position() as int, deserializer.position() as int) =~= d0.next_bits((deserializer.position() - d0.position()) as nat));
            }
        }
        r
    }
}

impl Deserialize for u64 {
    open spec fn decodes(bits: Seq<bool>, v: Self) -> bool {
        bits.len() == 64 && v == value_of(bits)
    }

    /// 64 bits.
    open spec fn read_len(bits: Seq<bool>) -> Result<nat, SerializationError> {
        fixed_len(bits, 64)
    }

    fn deserialize(deserializer: &mut Deserializer) -> (r: Result<Self, SerializationError>) {
        let ghost d0 = *deserializer;
        let r = deserializer.deserialize_u64();
        proof {
            lemma_fixed_read(d0, *deserializer, 64, r);
            d0.lemma_position();
            if r is Ok {
                assert(d0.data().subrange(d0.position() as int, deserializer.position() as int) =~= d0.next_bits((deserializer.position() - d0.position()) as nat));
            }
        }
        r
    }
}

impl Deserialize for i64 {
    open spec fn decodes(bits: Seq<bool>, v: Self) -> bool {
        bits.len() == 64 && v == signed_value_of(bits)
    }

    /// 64 bits.
    open spec fn read_len(bits: Seq<bool>) -> Result<nat, SerializationError> {
        fixed_len(bits, 64)
    }

    fn deserialize(deserializer: &mut Deserializer) -> (r: Result<Self, SerializationError>) {
        let ghost d0 = *deserializer;
        let r = deserializer.deserialize_i64();
        proof {
            lemma_fixed_read(d0, *deserializer, 64, r);
            d0.lemma_position();
            if r is Ok {
                assert(d0.data().subrange(d0.position() as int, deserializer.position() as int) =~= d0.next_bits((deserializer.position() - d0.position()) as nat));
            }
        }
        r
    }
}

impl Deserialize for u128 {
    open spec fn decodes(bits: Seq<bool>, v: Self) -> bool {
        bits.len() == 128 && v == value_of(bits)
    }

    /// 128 bits.
    open spec fn read_len(bits: Seq<bool>) -> Result<nat, SerializationError> {
        fixed_len(bits, 128)
    }

    fn deserialize(deserializer: &mut Deserializer) -> (r: Result<Self, SerializationError>) {
        let ghost d0 = *deserializer;
        let r = deserializer.deserialize_u128();
        proof {
            lemma_fixed_read(d0, *deserializer, 128, r);
            d0.lemma_position();
            if r is Ok {
                assert(d0.data().subrange(d0.position() as int, deserializer.position() as int) =~= d0.next_bits((deserializer.position() - d0.position()) as nat));
            }
        }
        r
    }
}

impl Deserialize for i128 {
    open spec fn decodes(bits: Seq<bool>, v: Self) -> bool {
        bits.len() == 128 && v == signed_value_of(bits)
    }

    /// 128 bits.
    open spec fn read_len(bits: Seq<bool>) -> Result<nat, SerializationError> {
        fixed_len(bits, 128)
    }

    fn deserialize(deserializer: &mut Deserializer) -> (r: Result<Self, SerializationError>) {
        let ghost d0 = *deserializer;
        let r = deserializer.deserialize_i128();
        proof {
            lemma_fixed_read(d0, *deserializer, 128, r);
            d0.lemma_position();
            if r is Ok {
                assert(d0.data().subrange(d0.position() as int, deserializer.position() as int) =~= d0.next_bits((deserializer.position() - d0.position()) as nat));
            }
        }
        r
    }
}

/// What a read of `n` bits does: it succeeds exactly when `n` bits are left, and then moves
/// past them. Otherwise the error is `BufferTooSmall` and the position has moved past the whole
/// 32-bit pieces of the read that were there.
pub open spec fn read_outcome<T>(
    old: Deserializer,
    new: Deserializer,
    n: nat,
    r: Result<T, SerializationError>,
) -> bool {
    &&& new.wf()
    &&& new.data() == old.data()
    &&& (r is Ok <==> n <= old.available())
    &&& r is Ok ==> new.position() == old.position() + n
    &&& r is Err ==> (r matches Err(SerializationError::BufferTooSmall))
    &&& r is Err ==> new.position() == old.position() + 32 * (old.available() / 32)
}

/// Two reads in a row, the first of whole 32-bit pieces, act as one read of both.
pub proof fn lemma_read_then<T, U>(
    d0: Deserializer,
    d1: Deserializer,
    d2: Deserializer,
    n1: nat,
    n2: nat,
    r2: Result<T, SerializationError>,
    r: Result<U, SerializationError>,
)
    requires
        d0.wf(),
        read_outcome(d0, d1, n1, Ok::<(), SerializationError>(())),
        read_outcome(d1, d2, n2, r2),
        r2 is Ok <==> r is Ok,
        r2 is Err ==> r matches Err(SerializationError::BufferTooSmall),
        n1 % 32 == 0,
        n2 <= 32,
    ensures
        read_outcome(d0, d2, n1 + n2, r),
        r is Ok ==> d0.next_bits(n1 + n2) == d0.next_bits(n1) + d1.next_bits(n2),
{
    d0.lemma_position();
    d1.lemma_position();
    if r is Ok {
        assert(d0.next_bits(n1 + n2) =~= d0.next_bits(n1) + d1.next_bits(n2));
    } else {
        assert(d1.available() < 32);
        assert(d0.available() / 32 == n1 / 32);
    }
}

/// A read that fails stops a longer read at the same point.
pub proof fn lemma_read_stops<T, U>(
    d0: Deserializer,
    d1: Deserializer,
    n1: nat,
    n: nat,
    r1: Result<T, SerializationError>,
    r: Result<U, SerializationError>,
)
    requires
        read_outcome(d0, d1, n1, r1),
        r1 is Err,
        r matches Err(SerializationError::BufferTooSmall),
        n1 <= n,
    ensures
        read_outcome(d0, d1, n, r),
{
}

} // verus!
