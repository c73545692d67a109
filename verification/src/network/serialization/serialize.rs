use vstd::prelude::*;
use vstd::arithmetic::power2::{pow2, lemma_pow2_adds, lemma2_to64};
use crate::bits::{bit_of, bits_of, words_bits, zero_bits, twos_complement, lemma_words_bits_push};
use super::{
    SerializationError,
    bit_width,
    calculate_bits_required,
    lemma_bit_width,
    lemma_bit_width_bound,
    lemma_bit_u64,
    lemma_u64_below_rev,
    lemma_or_shifted,
    lemma_split_low_word,
};

verus! {

// ---------------------------------------------------------------------------------------------
// Serializer
// ---------------------------------------------------------------------------------------------

/// Writes a bit stream into a buffer of 32-bit words.
///
/// Once a write has not fit, the serializer stays full: every later write of at least one
/// bit, and `finish`, fail.
pub struct Serializer {
    scratch: u64,
    scratch_bits: usize,
    word_index: usize,
    buffer: Vec<u32>,
    overflowed: bool,
    initial: Ghost<Seq<u32>>,
}

impl Serializer {
    /// The bits written so far: the committed words, then the pending bits.
    pub closed spec fn stream(&self) -> Seq<bool> {
        words_bits(self.buffer@.take(self.word_index as int)) + bits_of(
            self.scratch as nat,
            self.scratch_bits as nat,
        )
    }

    /// The words of the buffer.
    pub closed spec fn words(&self) -> Seq<u32> {
        self.buffer@
    }

    /// The words the buffer held when the serializer was made.
    pub closed spec fn initial_words(&self) -> Seq<u32> {
        self.initial@
    }

    /// The number of words in the buffer.
    pub open spec fn capacity(&self) -> nat {
        self.words().len()
    }

    /// Whether a write has failed for want of room.
    pub closed spec fn is_overflowed(&self) -> bool {
        self.overflowed
    }

    /// How many more bits a write may append: a full buffer plus up to 31 pending bits.
    pub open spec fn room(&self) -> nat {
        if self.is_overflowed() {
            0
        } else {
            (32 * self.capacity() + 31 - self.stream().len()) as nat
        }
    }

    /// The serializer's invariant.
    pub closed spec fn wf(&self) -> bool {
        &&& self.word_index <= self.buffer@.len()
        &&& self.scratch_bits < 32
        &&& self.scratch >> (self.scratch_bits as u64) == 0
        &&& self.initial@.len() == self.buffer@.len()
        &&& self.buffer@.skip(self.word_index as int) == self.initial@.skip(self.word_index as int)
        &&& self.overflowed ==> self.word_index == self.buffer@.len()
    }

    /// The stream holds the committed words and fewer than 32 pending bits.
    pub proof fn lemma_stream_len(&self)
        requires
            self.wf(),
        ensures
            self.stream().len() <= 32 * self.capacity() + 31,
    {
    }

    /// The words committed so far hold the first bits of the stream, and the rest of the
    /// buffer is untouched.
    pub proof fn lemma_committed(&self)
        requires
            self.wf(),
        ensures
            words_bits(self.words().take(self.stream().len() as int / 32)) =~= self.stream().take(
                32 * (self.stream().len() as int / 32),
            ),
            self.words().skip(self.stream().len() as int / 32) == self.initial_words().skip(
                self.stream().len() as int / 32,
            ),
    {
        let w = words_bits(self.buffer@.take(self.word_index as int));
        assert(self.stream().len() as int / 32 == self.word_index as int);
        assert(self.stream().take(32 * self.word_index) =~= w);
    }

    /// A serializer over `buffer`, with an empty stream.
    pub fn new(buffer: Vec<u32>) -> (r: Self)
        ensures
            r.wf(),
            r.stream() == Seq::<bool>::empty(),
            r.words() == buffer@,
            r.initial_words() == buffer@,
            !r.is_overflowed(),
    {
        let ghost init = buffer@;
        let r = Serializer {
            scratch: 0,
            scratch_bits: 0,
            word_index: 0,
            buffer,
            overflowed: false,
            initial: Ghost(init),
        };
        proof {
            assert(0u64 >> 0u64 == 0) by (bit_vector);
            assert(r.buffer@.take(0) =~= Seq::<u32>::empty());
            assert(words_bits(Seq::<u32>::empty()) =~= Seq::<bool>::empty());
            assert(bits_of(0, 0) =~= Seq::<bool>::empty());
            assert(r.stream() =~= Seq::<bool>::empty());
        }
        r
    }

    /// The buffer.
    pub fn buffer(&self) -> (r: &Vec<u32>)
        ensures
            r@ == self.words(),
    {
        &self.buffer
    }

    /// Gives the buffer back.
    pub fn into_buffer(self) -> (r: Vec<u32>)
        ensures
            r@ == self.words(),
    {
        self.buffer
    }

    /// Pads the pending bits with zeros to a full word and commits it.
    /// Returns the number of words written. A stream of whole words is left as it is, so a
    /// second `finish` returns the same count and changes nothing.
    pub fn finish(&mut self) -> (r: Result<usize, SerializationError>)
        requires
            old(self).wf(),
        ensures
            finish_outcome(*old(self), *final(self), r),
    {
        if self.overflowed {
            return Err(SerializationError::BufferTooSmall);
        }
        if self.scratch_bits > 0 {
            if self.word_index >= self.buffer.len() {
                return Err(SerializationError::BufferTooSmall);
            }
            let ghost old_words = self.buffer@.take(self.word_index as int);
            let ghost sb = self.scratch_bits;
            let word = self.scratch as u32;
            proof {
                let s = self.scratch;
                assert(bits_of(word as nat, 32) =~= bits_of(s as nat, sb as nat) + zero_bits(
                    (32 - sb) as nat,
                )) by {
                    assert forall|i: int| 0 <= i < 32 implies #[trigger] bit_of(word as nat, i as nat)
                        == (if i < sb {
                        bit_of(s as nat, i as nat)
                    } else {
                        false
                    }) by {
                        let j = i as u64;
                        lemma_bit_u64(word as u64, j);
                        lemma_bit_u64(s, j);
                        assert(((word as u64 >> j) & 1) == ((s >> j) & 1)) by (bit_vector)
                            requires
                                word == s as u32,
                                j < 32,
                        ;
                        if j >= sb {
                            assert(((s >> j) & 1) == 0) by (bit_vector)
                                requires
                                    s >> (sb as u64) == 0,
                                    sb <= j,
                                    j < 32,
                            ;
                        }
                    }
                }
            }
            let i = self.word_index;
            let ghost old_buf = self.buffer@;
            self.buffer.set(i, word);
            self.word_index = i + 1;
            self.scratch = 0;
            self.scratch_bits = 0;
            proof {
                assert(self.buffer@.take(i + 1) =~= old_words.push(word));
                lemma_words_bits_push(old_words, word);
                assert(bits_of(0, 0) =~= Seq::<bool>::empty());
                assert(0u64 >> 0u64 == 0) by (bit_vector);
                assert(old_buf.skip(i + 1) =~= old_buf.skip(i as int).skip(1));
                assert(self.initial@.skip(i + 1) =~= self.initial@.skip(i as int).skip(1));
                assert(self.buffer@.skip(i + 1) =~= self.initial@.skip(i + 1));
            }
        } else {
            proof {
                assert(zero_bits(0) =~= Seq::<bool>::empty());
            }
        }
        proof {
            assert(bits_of(0, 0) =~= Seq::<bool>::empty());
            assert(self.stream() =~= words_bits(self.buffer@.take(self.word_index as int)));
            let n = self.word_index as int;
            assert(self.stream() =~= old(self).stream() + zero_bits((32 * n - old(self).stream().len()) as nat));
            assert(self.words().skip(n) =~= self.initial_words().skip(n));
        }
        Ok(self.word_index)
    }

    /// Appends the `n` low bits of `v` (`n <= 32`). Errors with `WordTooSmall` when `n > 32`.
    fn serialize_bits(&mut self, n: usize, v: u32) -> (r: Result<(), SerializationError>)
        requires
            old(self).wf(),
            n <= 32 ==> (v as nat) < pow2(n as nat),
        ensures
            n > 32 ==> r == Err::<(), SerializationError>(SerializationError::WordTooSmall)
                && *final(self) == *old(self),
            n <= 32 ==> write_outcome(*old(self), *final(self), bits_of(v as nat, n as nat), r),
    {
        if n > 32 {
            return Err(SerializationError::WordTooSmall);
        }
        proof {
            self.lemma_stream_len();
        }
        if n == 0 {
            proof {
                assert(bits_of(v as nat, 0) =~= Seq::<bool>::empty());
                assert(self.stream() + bits_of(v as nat, 0) =~= self.stream());
            }
            return Ok(());
        }
        if self.overflowed || (self.scratch_bits + n >= 32 && self.word_index >= self.buffer.len()) {
            self.overflowed = true;
            proof {
                assert(bits_of(v as nat, n as nat).take(0) =~= Seq::<bool>::empty());
                assert(self.stream() + Seq::<bool>::empty() =~= self.stream());
            }
            return Err(SerializationError::BufferTooSmall);
        }
        let ghost old_stream = self.stream();
        let ghost old_words = self.buffer@.take(self.word_index as int);
        let sb = self.scratch_bits;
        let s = self.scratch;
        proof {
            lemma_u64_below_rev(v as u64, n as u64);
            lemma_or_shifted(s, v as u64, sb as u64, n as u64);
        }
        let x = s | ((v as u64) << (sb as u64));
        let t = sb + n;
        if t >= 32 {
            proof {
                lemma_split_low_word(x, t as u64);
            }
            let i = self.word_index;
            let word = x as u32;
            let ghost old_buf = self.buffer@;
            self.buffer.set(i, word);
            self.word_index = i + 1;
            self.scratch = x >> 32;
            self.scratch_bits = t - 32;
            proof {
                assert(self.buffer@.take(i + 1) =~= old_words.push(word));
                lemma_words_bits_push(old_words, word);
                assert(old_buf.skip(i + 1) =~= old_buf.skip(i as int).skip(1));
                assert(self.initial@.skip(i + 1) =~= self.initial@.skip(i as int).skip(1));
                assert(self.buffer@.skip(i + 1) =~= self.initial@.skip(i + 1));
                let w0 = words_bits(old_words);
                assert(old_stream == w0 + bits_of(s as nat, sb as nat));
                assert(self.stream() =~= w0 + bits_of(word as nat, 32) + bits_of(
                    (x >> 32) as nat,
                    (t - 32) as nat,
                ));
                assert(self.stream() =~= w0 + bits_of(x as nat, t as nat));
                assert(self.stream() =~= old_stream + bits_of(v as nat, n as nat));
            }
        } else {
            self.scratch = x;
            self.scratch_bits = t;
            proof {
                assert(self.stream() =~= old_stream + bits_of(v as nat, n as nat));
            }
        }
        Ok(())
    }
}


/// Two writes in a row, the first of whole 32-bit pieces, act as one write of both.
pub proof fn lemma_write_then(
    s0: Serializer,
    s1: Serializer,
    s2: Serializer,
    b1: Seq<bool>,
    b2: Seq<bool>,
    r2: Result<(), SerializationError>,
)
    requires
        s0.wf(),
        write_outcome(s0, s1, b1, Ok(())),
        write_outcome(s1, s2, b2, r2),
        b1.len() % 32 == 0,
        b2.len() <= 32,
    ensures
        write_outcome(s0, s2, b1 + b2, r2),
{
    s0.lemma_stream_len();
    s1.lemma_stream_len();
    if r2 is Err {
        let k = b1.len() / 32;
        assert(s1.room() < 32);
        assert(s0.room() == s1.room() + b1.len());
        assert(s0.room() / 32 == k);
        assert(b2.take(0) =~= Seq::<bool>::empty());
        assert((b1 + b2).take(32 * k as int) =~= b1);
        assert(s2.stream() =~= s0.stream() + (b1 + b2).take(32 * (s0.room() / 32) as int));
    } else {
        assert(s2.stream() =~= s0.stream() + (b1 + b2));
    }
}

/// A write that fails stops a longer write at the same point.
pub proof fn lemma_write_stops(s0: Serializer, s1: Serializer, b1: Seq<bool>, b2: Seq<bool>)
    requires
        write_outcome(s0, s1, b1, Err(SerializationError::BufferTooSmall)),
    ensures
        write_outcome(s0, s1, b1 + b2, Err(SerializationError::BufferTooSmall)),
{
    let k = 32 * (s0.room() / 32) as int;
    assert(k <= b1.len());
    assert((b1 + b2).take(k) =~= b1.take(k));
}

/// The 32-bit pieces of a `u128` value `v`, lowest first, give its bits.
proof fn lemma_words_of_u128(v: u128)
    ensures
        bits_of(v as nat, 128) =~= bits_of((v as u32) as nat, 32) + bits_of(((v >> 32) as u32) as nat, 32)
            + bits_of(((v >> 64) as u32) as nat, 32) + bits_of(((v >> 96) as u32) as nat, 32),
{
    lemma2_to64();
    let a0 = v;
    let a1 = v >> 32;
    let a2 = v >> 64;
    let a3 = v >> 96;
    assert(a1 == a0 / 0x1_0000_0000 && a2 == a1 / 0x1_0000_0000 && a3 == a2 / 0x1_0000_0000) by (bit_vector)
        requires a1 == v >> 32, a2 == v >> 64, a3 == v >> 96, a0 == v;
    assert((a0 as u32) as u128 == a0 % 0x1_0000_0000 && (a1 as u32) as u128 == a1 % 0x1_0000_0000
        && (a2 as u32) as u128 == a2 % 0x1_0000_0000 && (a3 as u32) as u128 == a3 % 0x1_0000_0000
        && a3 < 0x1_0000_0000) by (bit_vector)
        requires a1 == v >> 32, a2 == v >> 64, a3 == v >> 96, a0 == v;
    lemma_split_word(a0 as nat, 96);
    lemma_split_word(a1 as nat, 64);
    lemma_split_word(a2 as nat, 32);
    crate::bits::lemma_bits_of_mod(a3 as nat, 32);
    vstd::arithmetic::div_mod::lemma_small_mod(a3 as nat, pow2(32));
}

/// The bits of `v` are its low word's bits, then those of `v / 2^32`.
proof fn lemma_split_word(v: nat, rest: nat)
    ensures
        bits_of(v, 32 + rest) =~= bits_of(v % pow2(32), 32) + bits_of(v / pow2(32), rest),
{
    crate::bits::lemma_bits_split(v, 32, rest);
    crate::bits::lemma_bits_of_mod(v, 32);
}

/// The unsigned number `v as uN` is the two's-complement residue of the signed `v`.
proof fn lemma_signed_cast(v: int, u: nat, n: nat)
    requires
        n > 0,
        -(pow2((n - 1) as nat) as int) <= v < pow2((n - 1) as nat),
        u == if v < 0 { v + pow2(n) } else { v },
    ensures
        u == twos_complement(v, n),
{
    crate::bits::lemma_twos_complement_range(v, n);
}

impl Serializer {
    /// Writes one bit.
    pub fn serialize_bool(&mut self, v: bool) -> (r: Result<(), SerializationError>)
        requires
            old(self).wf(),
        ensures
            write_outcome(*old(self), *final(self), seq![v], r),
    {
        proof {
            lemma2_to64();
            assert(bits_of(if v { 1nat } else { 0nat }, 1) =~= seq![v]);
        }
        self.serialize_bits(1, if v { 1 } else { 0 })
    }

    /// Writes 8 bits.
    pub fn serialize_u8(&mut self, v: u8) -> (r: Result<(), SerializationError>)
        requires
            old(self).wf(),
        ensures
            write_outcome(*old(self), *final(self), bits_of(v as nat, 8), r),
    {
        proof { lemma2_to64(); }
        self.serialize_bits(8, v as u32)
    }

    /// Writes 8 bits of two's complement.
    pub fn serialize_i8(&mut self, v: i8) -> (r: Result<(), SerializationError>)
        requires
            old(self).wf(),
        ensures
            write_outcome(*old(self), *final(self), bits_of(twos_complement(v as int, 8), 8), r),
    {
        let u = v as u8;
        proof {
            lemma2_to64();
            assert((u as int) == if v < 0 { v + 256 } else { v as int }) by (bit_vector)
                requires u == v as u8;
            lemma_signed_cast(v as int, u as nat, 8);
        }
        self.serialize_bits(8, u as u32)
    }

    /// Writes 16 bits.
    pub fn serialize_u16(&mut self, v: u16) -> (r: Result<(), SerializationError>)
        requires
            old(self).wf(),
        ensures
            write_outcome(*old(self), *final(self), bits_of(v as nat, 16), r),
    {
        proof { lemma2_to64(); }
        self.serialize_bits(16, v as u32)
    }

    /// Writes 16 bits of two's complement.
    pub fn serialize_i16(&mut self, v: i16) -> (r: Result<(), SerializationError>)
        requires
            old(self).wf(),
        ensures
            write_outcome(*old(self), *final(self), bits_of(twos_complement(v as int, 16), 16), r),
    {
        let u = v as u16;
        proof {
            lemma2_to64();
            assert((u as int) == if v < 0 { v + 65536 } else { v as int }) by (bit_vector)
                requires u == v as u16;
            lemma_signed_cast(v as int, u as nat, 16);
        }
        self.serialize_bits(16, u as u32)
    }

    /// Writes 32 bits.
    pub fn serialize_u32(&mut self, v: u32) -> (r: Result<(), SerializationError>)
        requires
            old(self).wf(),
        ensures
            write_outcome(*old(self), *final(self), bits_of(v as nat, 32), r),
    {
        proof { lemma2_to64(); }
        self.serialize_bits(32, v)
    }

    /// Writes 32 bits of two's complement.
    pub fn serialize_i32(&mut self, v: i32) -> (r: Result<(), SerializationError>)
        requires
            old(self).wf(),
        ensures
            write_outcome(*old(self), *final(self), bits_of(twos_complement(v as int, 32), 32), r),
    {
        let u = v as u32;
        proof {
            lemma2_to64();
            assert((u as int) == if v < 0 { v + 0x1_0000_0000 } else { v as int }) by (bit_vector)
                requires u == v as u32;
            lemma_signed_cast(v as int, u as nat, 32);
        }
        self.serialize_bits(32, u)
    }

    /// Writes 64 bits: the low word, then the high word.
    pub fn serialize_u64(&mut self, v: u64) -> (r: Result<(), SerializationError>)
        requires
            old(self).wf(),
        ensures
            write_outcome(*old(self), *final(self), bits_of(v as nat, 64), r),
    {
        let ghost s0 = *self;
        let lo = v as u32;
        let hi = (v >> 32) as u32;
        proof {
            lemma2_to64();
            assert((lo as u64) == v % 0x1_0000_0000 && (hi as u64) == v / 0x1_0000_0000) by (bit_vector)
                requires lo == v as u32, hi == (v >> 32) as u32;
            lemma_split_word(v as nat, 32);
        }
        let r1 = self.serialize_bits(32, lo);
        if r1.is_err() {
            proof { lemma_write_stops(s0, *self, bits_of(lo as nat, 32), bits_of(hi as nat, 32)); }
            return r1;
        }
        let ghost s1 = *self;
        let r2 = self.serialize_bits(32, hi);
        proof {
            lemma_write_then(s0, s1, *self, bits_of(lo as nat, 32), bits_of(hi as nat, 32), r2);
        }
        r2
    }

    /// Writes 64 bits of two's complement.
    pub fn serialize_i64(&mut self, v: i64) -> (r: Result<(), SerializationError>)
        requires
            old(self).wf(),
        ensures
            write_outcome(*old(self), *final(self), bits_of(twos_complement(v as int, 64), 64), r),
    {
        let u = v as u64;
        proof {
            lemma2_to64();
            vstd::arithmetic::power2::lemma2_to64_rest();
            assert((u as int) == if v < 0 { v + 0x1_0000_0000_0000_0000 } else { v as int }) by (bit_vector)
                requires u == v as u64;
            lemma_signed_cast(v as int, u as nat, 64);
        }
        self.serialize_u64(u)
    }

    /// Writes 128 bits, lowest word first.
    pub fn serialize_u128(&mut self, v: u128) -> (r: Result<(), SerializationError>)
        requires
            old(self).wf(),
        ensures
            write_outcome(*old(self), *final(self), bits_of(v as nat, 128), r),
    {
        let ghost s0 = *self;
        let w0 = v as u32;
        let w1 = (v >> 32) as u32;
        let w2 = (v >> 64) as u32;
        let w3 = (v >> 96) as u32;
        let ghost b0 = bits_of(w0 as nat, 32);
        let ghost b1 = bits_of(w1 as nat, 32);
        let ghost b2 = bits_of(w2 as nat, 32);
        let ghost b3 = bits_of(w3 as nat, 32);
        proof {
            lemma2_to64();
            lemma_words_of_u128(v);
        }
        let r = self.serialize_bits(32, w0);
        if r.is_err() {
            proof {
                lemma_write_stops(s0, *self, b0, b1 + b2 + b3);
                assert(b0 + (b1 + b2 + b3) =~= b0 + b1 + b2 + b3);
            }
            return r;
        }
        let ghost s1 = *self;
        let r = self.serialize_bits(32, w1);
        proof { lemma_write_then(s0, s1, *self, b0, b1, r); }
        if r.is_err() {
            proof {
                lemma_write_stops(s0, *self, b0 + b1, b2 + b3);
                assert(b0 + b1 + (b2 + b3) =~= b0 + b1 + b2 + b3);
            }
            return r;
        }
        let ghost s2 = *self;
        let r = self.serialize_bits(32, w2);
        proof { lemma_write_then(s0, s2, *self, b0 + b1, b2, r); }
        if r.is_err() {
            proof { lemma_write_stops(s0, *self, b0 + b1 + b2, b3); }
            return r;
        }
        let ghost s3 = *self;
        let r = self.serialize_bits(32, w3);
        proof { lemma_write_then(s0, s3, *self, b0 + b1 + b2, b3, r); }
        r
    }

    /// Writes 128 bits of two's complement.
    pub fn serialize_i128(&mut self, v: i128) -> (r: Result<(), SerializationError>)
        requires
            old(self).wf(),
        ensures
            write_outcome(*old(self), *final(self), bits_of(twos_complement(v as int, 128), 128), r),
    {
        let u = v as u128;
        proof {
            lemma2_to64();
            lemma_pow2_adds(64, 64);
            lemma_pow2_adds(64, 63);
            vstd::arithmetic::power2::lemma2_to64_rest();
            assert(v < 0 ==> u == ((v - i128::MIN) as u128) + 0x8000_0000_0000_0000_0000_0000_0000_0000u128) by (bit_vector)
                requires u == v as u128;
            assert(v >= 0 ==> u == v) by (bit_vector)
                requires u == v as u128;
            lemma_signed_cast(v as int, u as nat, 128);
        }
        self.serialize_u128(u)
    }
}

impl Serializer {
    /// Writes `v - min` in as few bits as every value of `min..=max` needs.
    /// Errors with `ValueOutOfRange`, writing nothing, when `v` is outside `min..=max`.
    pub fn serialize_packed_u8(&mut self, min: u8, max: u8, v: u8) -> (r: Result<(), SerializationError>)
        requires
            old(self).wf(),
            min <= max,
        ensures
            !(min <= v <= max) ==> r == Err::<(), SerializationError>(SerializationError::ValueOutOfRange)
                && *final(self) == *old(self),
            min <= v <= max ==> write_outcome(
                *old(self),
                *final(self),
                bits_of((v - min) as nat, bit_width((max - min) as nat)),
                r,
            ),
    {
        if v < min || v > max {
            return Err(SerializationError::ValueOutOfRange);
        }
        let bits = calculate_bits_required(min as i128, max as i128);
        proof {
            lemma2_to64();
            lemma_bit_width((max - min) as nat);
            lemma_bit_width_bound((max - min) as nat, 8);
        }
        self.serialize_bits(bits, (v - min) as u32)
    }

    /// Writes `v - min` in as few bits as every value of `min..=max` needs.
    /// Errors with `ValueOutOfRange`, writing nothing, when `v` is outside `min..=max`.
    /// `requires` asks that `v - min` fit in the type for every `v` in range, as the
    /// difference is taken in it.
    pub fn serialize_packed_i8(&mut self, min: i8, max: i8, v: i8) -> (r: Result<(), SerializationError>)
        requires
            old(self).wf(),
            min <= max,
            min <= v <= max ==> v - min <= i8::MAX,
        ensures
            !(min <= v <= max) ==> r == Err::<(), SerializationError>(SerializationError::ValueOutOfRange)
                && *final(self) == *old(self),
            min <= v <= max ==> write_outcome(
                *old(self),
                *final(self),
                bits_of((v - min) as nat, bit_width((max - min) as nat)),
                r,
            ),
    {
        if v < min || v > max {
            return Err(SerializationError::ValueOutOfRange);
        }
        let bits = calculate_bits_required(min as i128, max as i128);
        proof {
            lemma2_to64();
            lemma_bit_width((max - min) as nat);
            lemma_bit_width_bound((max - min) as nat, 8);
        }
        self.serialize_bits(bits, (v - min) as u32)
    }

    /// Writes `v - min` in as few bits as every value of `min..=max` needs.
    /// Errors with `ValueOutOfRange`, writing nothing, when `v` is outside `min..=max`.
    pub fn serialize_packed_u16(&mut self, min: u16, max: u16, v: u16) -> (r: Result<(), SerializationError>)
        requires
            old(self).wf(),
            min <= max,
        ensures
            !(min <= v <= max) ==> r == Err::<(), SerializationError>(SerializationError::ValueOutOfRange)
                && *final(self) == *old(self),
            min <= v <= max ==> write_outcome(
                *old(self),
                *final(self),
                bits_of((v - min) as nat, bit_width((max - min) as nat)),
                r,
            ),
    {
        if v < min || v > max {
            return Err(SerializationError::ValueOutOfRange);
        }
        let bits = calculate_bits_required(min as i128, max as i128);
        proof {
            lemma2_to64();
            lemma_bit_width((max - min) as nat);
            lemma_bit_width_bound((max - min) as nat, 16);
        }
        self.serialize_bits(bits, (v - min) as u32)
    }

    /// Writes `v - min` in as few bits as every value of `min..=max` needs.
    /// Errors with `ValueOutOfRange`, writing nothing, when `v` is outside `min..=max`.
    /// `requires` asks that `v - min` fit in the type for every `v` in range, as the
    /// difference is taken in it.
    pub fn serialize_packed_i16(&mut self, min: i16, max: i16, v: i16) -> (r: Result<(), SerializationError>)
        requires
            old(self).wf(),
            min <= max,
            min <= v <= max ==> v - min <= i16::MAX,
        ensures
            !(min <= v <= max) ==> r == Err::<(), SerializationError>(SerializationError::ValueOutOfRange)
                && *final(self) == *old(self),
            min <= v <= max ==> write_outcome(
                *old(self),
                *final(self),
                bits_of((v - min) as nat, bit_width((max - min) as nat)),
                r,
            ),
    {
        if v < min || v > max {
            return Err(SerializationError::ValueOutOfRange);
        }
        let bits = calculate_bits_required(min as i128, max as i128);
        proof {
            lemma2_to64();
            lemma_bit_width((max - min) as nat);
            lemma_bit_width_bound((max - min) as nat, 16);
        }
        self.serialize_bits(bits, (v - min) as u32)
    }

    /// Writes `v - min` in as few bits as every value of `min..=max` needs.
    /// Errors with `ValueOutOfRange`, writing nothing, when `v` is outside `min..=max`.
    pub fn serialize_packed_u32(&mut self, min: u32, max: u32, v: u32) -> (r: Result<(), SerializationError>)
        requires
            old(self).wf(),
            min <= max,
        ensures
            !(min <= v <= max) ==> r == Err::<(), SerializationError>(SerializationError::ValueOutOfRange)
                && *final(self) == *old(self),
            min <= v <= max ==> write_outcome(
                *old(self),
                *final(self),
                bits_of((v - min) as nat, bit_width((max - min) as nat)),
                r,
            ),
    {
        if v < min || v > max {
            return Err(SerializationError::ValueOutOfRange);
        }
        let bits = calculate_bits_required(min as i128, max as i128);
        proof {
            lemma2_to64();
            lemma_bit_width((max - min) as nat);
            lemma_bit_width_bound((max - min) as nat, 32);
        }
        self.serialize_bits(bits, (v - min) as u32)
    }

    /// Writes `v - min` in as few bits as every value of `min..=max` needs.
    /// Errors with `ValueOutOfRange`, writing nothing, when `v` is outside `min..=max`.
    /// `requires` asks that `v - min` fit in the type for every `v` in range, as the
    /// difference is taken in it.
    pub fn serialize_packed_i32(&mut self, min: i32, max: i32, v: i32) -> (r: Result<(), SerializationError>)
        requires
            old(self).wf(),
            min <= max,
            min <= v <= max ==> v - min <= i32::MAX,
        ensures
            !(min <= v <= max) ==> r == Err::<(), SerializationError>(SerializationError::ValueOutOfRange)
                && *final(self) == *old(self),
            min <= v <= max ==> write_outcome(
                *old(self),
                *final(self),
                bits_of((v - min) as nat, bit_width((max - min) as nat)),
                r,
            ),
    {
        if v < min || v > max {
            return Err(SerializationError::ValueOutOfRange);
        }
        let bits = calculate_bits_required(min as i128, max as i128);
        proof {
            lemma2_to64();
            lemma_bit_width((max - min) as nat);
            lemma_bit_width_bound((max - min) as nat, 32);
        }
        self.serialize_bits(bits, (v - min) as u32)
    }

    /// Writes `v - min` in as few bits as every value of `min..=max` needs: when that is more
    /// than 32 bits, the low word first, then the remaining high bits.
    /// Errors with `ValueOutOfRange`, writing nothing, when `v` is outside `min..=max`.
    pub fn serialize_packed_u64(&mut self, min: u64, max: u64, v: u64) -> (r: Result<(), SerializationError>)
        requires
            old(self).wf(),
            min <= max,
        ensures
            !(min <= v <= max) ==> r == Err::<(), SerializationError>(SerializationError::ValueOutOfRange)
                && *final(self) == *old(self),
            min <= v <= max ==> write_outcome(
                *old(self),
                *final(self),
                bits_of((v - min) as nat, bit_width((max - min) as nat)),
                r,
            ),
    {
        if v < min || v > max {
            return Err(SerializationError::ValueOutOfRange);
        }
        let d = (v - min) as u64;
        let bits = calculate_bits_required(min as i128, max as i128);
        let ghost s0 = *self;
        proof {
            lemma2_to64();
            lemma_bit_width((max - min) as nat);
            lemma_bit_width_bound((max - min) as nat, 64);
        }
        if bits > 32 {
            let lo = d as u32;
            let hi = (d >> 32) as u32;
            let ghost b1 = bits_of(lo as nat, 32);
            let ghost b2 = bits_of(hi as nat, (bits - 32) as nat);
            proof {
                assert((lo as u64) == d % 0x1_0000_0000 && (hi as u64) == d / 0x1_0000_0000) by (bit_vector)
                    requires lo == d as u32, hi == (d >> 32) as u32;
                lemma_split_word(d as nat, (bits - 32) as nat);
                lemma_pow2_adds(32, (bits - 32) as nat);
                vstd::arithmetic::div_mod::lemma_multiply_divide_lt(
                    d as int,
                    pow2(32) as int,
                    pow2((bits - 32) as nat) as int,
                );
            }
            let r1 = self.serialize_bits(32, lo);
            if r1.is_err() {
                proof { lemma_write_stops(s0, *self, b1, b2); }
                return r1;
            }
            let ghost s1 = *self;
            let r2 = self.serialize_bits(bits - 32, hi);
            proof { lemma_write_then(s0, s1, *self, b1, b2, r2); }
            r2
        } else {
            proof {
                if bits < 32 {
                    vstd::arithmetic::power2::lemma_pow2_strictly_increases(bits as nat, 32);
                }
            }
            self.serialize_bits(bits, d as u32)
        }
    }

    /// Writes `v - min` in as few bits as every value of `min..=max` needs: when that is more
    /// than 32 bits, the low word first, then the remaining high bits.
    /// Errors with `ValueOutOfRange`, writing nothing, when `v` is outside `min..=max`.
    /// `requires` asks that `v - min` fit in the type for every `v` in range, as the
    /// difference is taken in it.
    pub fn serialize_packed_i64(&mut self, min: i64, max: i64, v: i64) -> (r: Result<(), SerializationError>)
        requires
            old(self).wf(),
            min <= max,
            min <= v <= max ==> v - min <= i64::MAX,
        ensures
            !(min <= v <= max) ==> r == Err::<(), SerializationError>(SerializationError::ValueOutOfRange)
                && *final(self) == *old(self),
            min <= v <= max ==> write_outcome(
                *old(self),
                *final(self),
                bits_of((v - min) as nat, bit_width((max - min) as nat)),
                r,
            ),
    {
        if v < min || v > max {
            return Err(SerializationError::ValueOutOfRange);
        }
        let d = (v - min) as u64;
        let bits = calculate_bits_required(min as i128, max as i128);
        let ghost s0 = *self;
        proof {
            lemma2_to64();
            lemma_bit_width((max - min) as nat);
            lemma_bit_width_bound((max - min) as nat, 64);
        }
        if bits > 32 {
            let lo = d as u32;
            let hi = (d >> 32) as u32;
            let ghost b1 = bits_of(lo as nat, 32);
            let ghost b2 = bits_of(hi as nat, (bits - 32) as nat);
            proof {
                assert((lo as u64) == d % 0x1_0000_0000 && (hi as u64) == d / 0x1_0000_0000) by (bit_vector)
                    requires lo == d as u32, hi == (d >> 32) as u32;
                lemma_split_word(d as nat, (bits - 32) as nat);
                lemma_pow2_adds(32, (bits - 32) as nat);
                vstd::arithmetic::div_mod::lemma_multiply_divide_lt(
                    d as int,
                    pow2(32) as int,
                    pow2((bits - 32) as nat) as int,
                );
            }
            let r1 = self.serialize_bits(32, lo);
            if r1.is_err() {
                proof { lemma_write_stops(s0, *self, b1, b2); }
                return r1;
            }
            let ghost s1 = *self;
            let r2 = self.serialize_bits(bits - 32, hi);
            proof { lemma_write_then(s0, s1, *self, b1, b2, r2); }
            r2
        } else {
            proof {
                if bits < 32 {
                    vstd::arithmetic::power2::lemma_pow2_strictly_increases(bits as nat, 32);
                }
            }
            self.serialize_bits(bits, d as u32)
        }
    }

}

/// A value that writes itself to a bit stream.
pub trait Serialize {
    /// The bits the value writes.
    spec fn encoding(&self) -> Seq<bool>;

    /// Whether the value can be written at all.
    spec fn serializable(&self) -> bool;

    /// Appends the value's bits to the stream.
    fn serialize(&self, serializer: &mut Serializer) -> (r: Result<(), SerializationError>)
        requires
            old(serializer).wf(),
        ensures
            serialize_outcome(*old(serializer), *final(serializer), self.serializable(), self.encoding(), r),
    ;
}

/// What writing a value does: a value that can be written is written exactly when its bits fit
/// in the room left, else the error is `BufferTooSmall` and the serializer is full; a value
/// that cannot be written gives an error. A failed write leaves a prefix of its bits.
pub open spec fn serialize_outcome(
    old: Serializer,
    new: Serializer,
    writable: bool,
    bits: Seq<bool>,
    r: Result<(), SerializationError>,
) -> bool {
    &&& new.wf()
    &&& new.capacity() == old.capacity()
    &&& new.initial_words() == old.initial_words()
    &&& writable ==> (r is Ok <==> bits.len() <= old.room())
    &&& !writable ==> r is Err
    &&& r is Ok ==> new.stream() == old.stream() + bits && new.is_overflowed() == old.is_overflowed()
    &&& (r is Err && writable) ==> (r matches Err(SerializationError::BufferTooSmall)) && new.is_overflowed()
    &&& r is Err ==> old.stream().len() <= new.stream().len() <= old.stream().len() + bits.len()
    &&& r is Err ==> new.stream() == (old.stream() + bits).take(new.stream().len() as int)
}

/// A chunked write is a write in the looser sense.
pub proof fn lemma_write_is_serialize(old: Serializer, new: Serializer, bits: Seq<bool>, r: Result<(), SerializationError>)
    requires
        write_outcome(old, new, bits, r),
    ensures
        serialize_outcome(old, new, true, bits, r),
{
    if r is Err {
        let k = 32 * (old.room() / 32) as int;
        assert(old.stream() + bits.take(k) =~= (old.stream() + bits).take(old.stream().len() + k));
    }
}

/// Two values written in a row act as one value written.
pub proof fn lemma_serialize_then(
    s0: Serializer,
    s1: Serializer,
    s2: Serializer,
    w1: bool,
    b1: Seq<bool>,
    w2: bool,
    b2: Seq<bool>,
    r2: Result<(), SerializationError>,
)
    requires
        s0.wf(),
        serialize_outcome(s0, s1, w1, b1, Ok(())),
        serialize_outcome(s1, s2, w2, b2, r2),
    ensures
        serialize_outcome(s0, s2, w1 && w2, b1 + b2, r2),
{
    s0.lemma_stream_len();
    s1.lemma_stream_len();
    if r2 is Err {
        assert(s1.stream() + b2 =~= s0.stream() + (b1 + b2));
    } else {
        assert(s2.stream() =~= s0.stream() + (b1 + b2));
    }
}

/// A failed write stops a longer write at the same point.
pub proof fn lemma_serialize_stops(
    s0: Serializer,
    s1: Serializer,
    w1: bool,
    b1: Seq<bool>,
    w2: bool,
    b2: Seq<bool>,
    r: Result<(), SerializationError>,
)
    requires
        serialize_outcome(s0, s1, w1, b1, r),
        r is Err,
    ensures
        serialize_outcome(s0, s1, w1 && w2, b1 + b2, r),
{
    assert((s0.stream() + b1).take(s1.stream().len() as int) =~= (s0.stream() + (b1 + b2)).take(
        s1.stream().len() as int,
    ));
}

impl Serialize for () {
    open spec fn encoding(&self) -> Seq<bool> {
        Seq::empty()
    }

    open spec fn serializable(&self) -> bool {
        true
    }

    fn serialize(&self, serializer: &mut Serializer) -> (r: Result<(), SerializationError>) {
        proof {
            serializer.lemma_stream_len();
            assert(serializer.stream() + Seq::<bool>::empty() =~= serializer.stream());
        }
        Ok(())
    }
}

impl<A: Serialize, B: Serialize> Serialize for (A, B) {
    open spec fn encoding(&self) -> Seq<bool> {
        self.0.encoding() + self.1.encoding()
    }

    open spec fn serializable(&self) -> bool {
        self.0.serializable() && self.1.serializable()
    }

    fn serialize(&self, serializer: &mut Serializer) -> (r: Result<(), SerializationError>) {
        let ghost s0 = *serializer;
        let r1 = self.0.serialize(serializer);
        if r1.is_err() {
            proof {
                lemma_serialize_stops(s0, *serializer, self.0.serializable(), self.0.encoding(),
                    self.1.serializable(), self.1.encoding(), r1);
            }
            return r1;
        }
        let ghost s1 = *serializer;
        let r2 = self.1.serialize(serializer);
        proof {
            lemma_serialize_then(s0, s1, *serializer, self.0.serializable(), self.0.encoding(),
                self.1.serializable(), self.1.encoding(), r2);
        }
        r2
    }
}

impl<T: Serialize> Serialize for Option<T> {
    open spec fn encoding(&self) -> Seq<bool> {
        match self {
            Some(v) => seq![true] + v.encoding(),
            None => seq![false],
        }
    }

    open spec fn serializable(&self) -> bool {
        match self {
            Some(v) => v.serializable(),
            None => true,
        }
    }

    fn serialize(&self, serializer: &mut Serializer) -> (r: Result<(), SerializationError>) {
        let ghost s0 = *serializer;
        match self {
            Some(v) => {
                let r1 = serializer.serialize_bool(true);
                proof { lemma_write_is_serialize(s0, *serializer, seq![true], r1); }
                if r1.is_err() {
                    proof {
                        lemma_serialize_stops(s0, *serializer, true, seq![true], v.serializable(),
                            v.encoding(), r1);
                    }
                    return r1;
                }
                let ghost s1 = *serializer;
                let r2 = v.serialize(serializer);
                proof {
                    lemma_serialize_then(s0, s1, *serializer, true, seq![true], v.serializable(),
                        v.encoding(), r2);
                }
                r2
            },
            None => {
                let r = serializer.serialize_bool(false);
                proof { lemma_write_is_serialize(s0, *serializer, seq![false], r); }
                r
            },
        }
    }
}

/// The bits of a sequence of values, one after the other.
pub open spec fn encodings<T: Serialize>(s: Seq<T>) -> Seq<bool>
    decreases s.len(),
{
    if s.len() == 0 {
        Seq::empty()
    } else {
        encodings(s.drop_last()) + s.last().encoding()
    }
}

/// Whether every value of a sequence can be written.
pub open spec fn all_serializable<T: Serialize>(s: Seq<T>) -> bool {
    forall|i: int| 0 <= i < s.len() ==> #[trigger] s[i].serializable()
}

/// Writes the values of `s`, one after the other.
pub(crate) fn serialize_all<T: Serialize>(s: &[T], serializer: &mut Serializer) -> (r: Result<(), SerializationError>)
    requires
        old(serializer).wf(),
    ensures
        serialize_outcome(*old(serializer), *final(serializer), all_serializable(s@), encodings(s@), r),
{
    let ghost s0 = *serializer;
    let mut i: usize = 0;
    proof {
        s0.lemma_stream_len();
        assert(s@.take(0) =~= Seq::<T>::empty());
        assert(s0.stream() + Seq::<bool>::empty() =~= s0.stream());
    }
    while i < s.len()
        invariant
            s0.wf(),
            s0 == *old(serializer),
            i <= s.len(),
            serialize_outcome(s0, *serializer, all_serializable(s@.take(i as int)), encodings(s@.take(i as int)), Ok(())),
        decreases s.len() - i,
    {
        let ghost s1 = *serializer;
        let r = s[i].serialize(serializer);
        proof {
            assert(s@.take(i + 1).drop_last() =~= s@.take(i as int));
            lemma_all_serializable_push(s@, i as int);
        }
        if r.is_err() {
            proof {
                lemma_serialize_then(s0, s1, *serializer, all_serializable(s@.take(i as int)),
                    encodings(s@.take(i as int)), s@[i as int].serializable(), s@[i as int].encoding(), r);
                let e = encodings(s@.take(i + 1));
                assert(s@.take(i + 1).last() == s@[i as int]);
                assert(e == encodings(s@.take(i as int)) + s@[i as int].encoding());
                lemma_encodings_prefix(s@, i + 1);
                lemma_all_serializable_prefix(s@, i + 1);
                let rest = encodings(s@).skip(e.len() as int);
                lemma_serialize_stops(s0, *serializer, all_serializable(s@.take(i + 1)), e,
                    all_serializable(s@), rest, r);
                assert(e + rest == encodings(s@));
                assert((all_serializable(s@.take(i + 1)) && all_serializable(s@)) == all_serializable(s@));
            }
            return r;
        }
        proof {
            lemma_serialize_then(s0, s1, *serializer, all_serializable(s@.take(i as int)),
                encodings(s@.take(i as int)), s@[i as int].serializable(), s@[i as int].encoding(), r);
        }
        i = i + 1;
    }
    proof {
        assert(s@.take(i as int) =~= s@);
    }
    Ok(())
}

/// The encoding of a sequence begins with that of its first values.
proof fn lemma_encodings_prefix<T: Serialize>(s: Seq<T>, k: int)
    requires
        0 <= k <= s.len(),
    ensures
        encodings(s) == encodings(s.take(k)) + encodings(s).skip(encodings(s.take(k)).len() as int),
        encodings(s.take(k)).len() <= encodings(s).len(),
    decreases s.len() - k,
{
    if k == s.len() {
        assert(s.take(k) =~= s);
        assert(encodings(s).skip(encodings(s).len() as int) =~= Seq::<bool>::empty());
        assert(encodings(s) + Seq::<bool>::empty() =~= encodings(s));
    } else {
        lemma_encodings_prefix(s, k + 1);
        assert(s.take(k + 1).drop_last() =~= s.take(k));
        let e = encodings(s);
        let a = encodings(s.take(k));
        let b = encodings(s.take(k + 1));
        assert(b == a + s[k].encoding());
        assert(e =~= a + e.skip(a.len() as int));
    }
}

/// Every one of the first `k + 1` values can be written when the first `k` and the next can.
proof fn lemma_all_serializable_push<T: Serialize>(s: Seq<T>, k: int)
    requires
        0 <= k < s.len(),
    ensures
        all_serializable(s.take(k + 1)) == (all_serializable(s.take(k)) && s[k].serializable()),
{
    let a = s.take(k);
    let b = s.take(k + 1);
    if all_serializable(a) && s[k].serializable() {
        assert forall|j: int| 0 <= j < b.len() implies #[trigger] b[j].serializable() by {
            if j < k {
                assert(b[j] == a[j]);
            }
        }
    }
    if all_serializable(b) {
        assert(b[k] == s[k]);
        assert forall|j: int| 0 <= j < a.len() implies #[trigger] a[j].serializable() by {
            assert(b[j] == a[j]);
        }
    }
}

/// Every value of a sequence can be written only if every one of its first values can.
proof fn lemma_all_serializable_prefix<T: Serialize>(s: Seq<T>, k: int)
    requires
        0 <= k <= s.len(),
    ensures
        all_serializable(s) ==> all_serializable(s.take(k)),
{
    if all_serializable(s) {
        assert forall|j: int| 0 <= j < k implies #[trigger] s.take(k)[j].serializable() by {
            assert(s.take(k)[j] == s[j]);
        }
    }
}

impl<T: Serialize, const N: usize> Serialize for [T; N] {
    open spec fn encoding(&self) -> Seq<bool> {
        encodings(self@)
    }

    open spec fn serializable(&self) -> bool {
        all_serializable(self@)
    }

    fn serialize(&self, serializer: &mut Serializer) -> (r: Result<(), SerializationError>) {
        serialize_all(self.as_slice(), serializer)
    }
}

impl<T: Serialize> Serialize for Vec<T> {
    open spec fn encoding(&self) -> Seq<bool> {
        bits_of(self@.len() % 0x1_0000_0000, 32) + encodings(self@)
    }

    open spec fn serializable(&self) -> bool {
        all_serializable(self@)
    }

    /// Writes the length as a `u32` (the low 32 bits of it), then the values.
    fn serialize(&self, serializer: &mut Serializer) -> (r: Result<(), SerializationError>) {
        let ghost s0 = *serializer;
        let len = self.len();
        let n = len as u32;
        proof {
            assert(n as u64 == (len as u64) % 0x1_0000_0000) by (bit_vector)
                requires n == len as u32;
        }
        let r1 = serializer.serialize_u32(n);
        proof { lemma_write_is_serialize(s0, *serializer, bits_of(n as nat, 32), r1); }
        if r1.is_err() {
            proof {
                lemma_serialize_stops(s0, *serializer, true, bits_of(n as nat, 32),
                    all_serializable(self@), encodings(self@), r1);
            }
            return r1;
        }
        let ghost s1 = *serializer;
        let r2 = serialize_all(self.as_slice(), serializer);
        proof {
            lemma_serialize_then(s0, s1, *serializer, true, bits_of(n as nat, 32),
                all_serializable(self@), encodings(self@), r2);
        }
        r2
    }
}

impl Serialize for bool {
    open spec fn encoding(&self) -> Seq<bool> {
        seq![*self]
    }

    open spec fn serializable(&self) -> bool {
        true
    }

    fn serialize(&self, serializer: &mut Serializer) -> (r: Result<(), SerializationError>) {
        let ghost s0 = *serializer;
        let r = serializer.serialize_bool(*self);
        proof { lemma_write_is_serialize(s0, *serializer, self.encoding(), r); }
        r
    }
}

impl Serialize for u8 {
    open spec fn encoding(&self) -> Seq<bool> {
        bits_of(*self as nat, 8)
    }

    open spec fn serializable(&self) -> bool {
        true
    }

    fn serialize(&self, serializer: &mut Serializer) -> (r: Result<(), SerializationError>) {
        let ghost s0 = *serializer;
        let r = serializer.serialize_u8(*self);
        proof { lemma_write_is_serialize(s0, *serializer, self.encoding(), r); }
        r
    }
}

impl Serialize for i8 {
    open spec fn encoding(&self) -> Seq<bool> {
        bits_of(twos_complement(*self as int, 8), 8)
    }

    open spec fn serializable(&self) -> bool {
        true
    }

    fn serialize(&self, serializer: &mut Serializer) -> (r: Result<(), SerializationError>) {
        let ghost s0 = *serializer;
        let r = serializer.serialize_i8(*self);
        proof { lemma_write_is_serialize(s0, *serializer, self.encoding(), r); }
        r
    }
}

impl Serialize for u16 {
    open spec fn encoding(&self) -> Seq<bool> {
        bits_of(*self as nat, 16)
    }

    open spec fn serializable(&self) -> bool {
        true
    }

    fn serialize(&self, serializer: &mut Serializer) -> (r: Result<(), SerializationError>) {
        let ghost s0 = *serializer;
        let r = serializer.serialize_u16(*self);
        proof { lemma_write_is_serialize(s0, *serializer, self.encoding(), r); }
        r
    }
}

impl Serialize for i16 {
    open spec fn encoding(&self) -> Seq<bool> {
        bits_of(twos_complement(*self as int, 16), 16)
    }

    open spec fn serializable(&self) -> bool {
        true
    }

    fn serialize(&self, serializer: &mut Serializer) -> (r: Result<(), SerializationError>) {
        let ghost s0 = *serializer;
        let r = serializer.serialize_i16(*self);
        proof { lemma_write_is_serialize(s0, *serializer, self.encoding(), r); }
        r
    }
}

impl Serialize for u32 {
    open spec fn encoding(&self) -> Seq<bool> {
        bits_of(*self as nat, 32)
    }

    open spec fn serializable(&self) -> bool {
        true
    }

    fn serialize(&self, serializer: &mut Serializer) -> (r: Result<(), SerializationError>) {
        let ghost s0 = *serializer;
        let r = serializer.serialize_u32(*self);
        proof { lemma_write_is_serialize(s0, *serializer, self.encoding(), r); }
        r
    }
}

impl Serialize for i32 {
    open spec fn encoding(&self) -> Seq<bool> {
        bits_of(twos_complement(*self as int, 32), 32)
    }

    open spec fn serializable(&self) -> bool {
        true
    }

    fn serialize(&self, serializer: &mut Serializer) -> (r: Result<(), SerializationError>) {
        let ghost s0 = *serializer;
        let r = serializer.serialize_i32(*self);
        proof { lemma_write_is_serialize(s0, *serializer, self.encoding(), r); }
        r
    }
}

impl Serialize for u64 {
    open spec fn encoding(&self) -> Seq<bool> {
        bits_of(*self as nat, 64)
    }

    open spec fn serializable(&self) -> bool {
        true
    }

    fn serialize(&self, serializer: &mut Serializer) -> (r: Result<(), SerializationError>) {
        let ghost s0 = *serializer;
        let r = serializer.serialize_u64(*self);
        proof { lemma_write_is_serialize(s0, *serializer, self.encoding(), r); }
        r
    }
}

impl Serialize for i64 {
    open spec fn encoding(&self) -> Seq<bool> {
        bits_of(twos_complement(*self as int, 64), 64)
    }

    open spec fn serializable(&self) -> bool {
        true
    }

    fn serialize(&self, serializer: &mut Serializer) -> (r: Result<(), SerializationError>) {
        let ghost s0 = *serializer;
        let r = serializer.serialize_i64(*self);
        proof { lemma_write_is_serialize(s0, *serializer, self.encoding(), r); }
        r
    }
}

impl Serialize for u128 {
    open spec fn encoding(&self) -> Seq<bool> {
        bits_of(*self as nat, 128)
    }

    open spec fn serializable(&self) -> bool {
        true
    }

    fn serialize(&self, serializer: &mut Serializer) -> (r: Result<(), SerializationError>) {
        let ghost s0 = *serializer;
        let r = serializer.serialize_u128(*self);
        proof { lemma_write_is_serialize(s0, *serializer, self.encoding(), r); }
        r
    }
}

impl Serialize for i128 {
    open spec fn encoding(&self) -> Seq<bool> {
        bits_of(twos_complement(*self as int, 128), 128)
    }

    open spec fn serializable(&self) -> bool {
        true
    }

    fn serialize(&self, serializer: &mut Serializer) -> (r: Result<(), SerializationError>) {
        let ghost s0 = *serializer;
        let r = serializer.serialize_i128(*self);
        proof { lemma_write_is_serialize(s0, *serializer, self.encoding(), r); }
        r
    }
}

/// What `finish` does: it succeeds exactly when the serializer is not full and its stream fits
/// in the buffer; then it pads the stream with zeros to `n` whole words, `n` the count it
/// returns, which the buffer's first `n` words hold, the rest being as they were. A stream of
/// whole words is left as it is. Otherwise the error is `BufferTooSmall` and nothing changes.
pub open spec fn finish_outcome(
    old: Serializer,
    new: Serializer,
    r: Result<usize, SerializationError>,
) -> bool {
    &&& new.wf()
    &&& new.initial_words() == old.initial_words()
    &&& new.capacity() == old.capacity()
    &&& new.is_overflowed() == old.is_overflowed()
    &&& (r is Ok <==> !old.is_overflowed() && old.stream().len() <= 32 * old.capacity())
    &&& r matches Ok(n) ==> {
        &&& n == (old.stream().len() + 31) / 32
        &&& new.stream() == old.stream() + zero_bits((32 * n - old.stream().len()) as nat)
        &&& words_bits(new.words().take(n as int)) == new.stream()
        &&& new.words().skip(n as int) == new.initial_words().skip(n as int)
        &&& old.stream().len() % 32 == 0 ==> new == old
    }
    &&& r is Err ==> r == Err::<usize, SerializationError>(SerializationError::BufferTooSmall)
        && new == old
}

/// What a write of `bits` does: it succeeds exactly when the bits fit in the room left; then
/// the stream grows by them. Otherwise the error is `BufferTooSmall`, the serializer is full,
/// and the stream holds the whole 32-bit pieces of the write that fitted.
pub open spec fn write_outcome(
    old: Serializer,
    new: Serializer,
    bits: Seq<bool>,
    r: Result<(), SerializationError>,
) -> bool {
    &&& new.wf()
    &&& new.capacity() == old.capacity()
    &&& new.initial_words() == old.initial_words()
    &&& (r is Ok <==> bits.len() <= old.room())
    &&& r is Ok ==> new.stream() == old.stream() + bits && new.is_overflowed() == old.is_overflowed()
    &&& r is Err ==> r == Err::<(), SerializationError>(SerializationError::BufferTooSmall)
        && new.is_overflowed() && new.stream() == old.stream() + bits.take(32 * (old.room() / 32) as int)
}

} // verus!
