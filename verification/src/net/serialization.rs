//! The first version of the bit-packed serialization: the same bit stream as
//! `crate::network::serialization`, with fewer error kinds and a `finish` that reports no size.

use vstd::prelude::*;
use crate::bits::{bits_of, twos_complement, value_of, signed_value_of};
use crate::network::serialization as wire;
use crate::network::serialization::bit_width;

verus! {

/// The errors of serialization and deserialization.
#[derive(Debug, Clone, Copy, PartialEq, Eq, Structural)]
pub enum SerializationError {
    BufferTooSmall,
    WordTooSmall,
    ValueOutOfRange,
}

impl SerializationError {
    /// The name of the error, as a `Display` would print it.
    pub fn to_string(&self) -> (r: String)
        ensures
            r@ == match *self {
                SerializationError::BufferTooSmall => "BufferTooSmall"@,
                SerializationError::WordTooSmall => "WordTooSmall"@,
                SerializationError::ValueOutOfRange => "ValueOutOfRange"@,
            },
    {
        match self {
            SerializationError::BufferTooSmall => "BufferTooSmall".to_string(),
            SerializationError::WordTooSmall => "WordTooSmall".to_string(),
            SerializationError::ValueOutOfRange => "ValueOutOfRange".to_string(),
        }
    }
}

/// The error of this module that stands for an error of the bit stream.
pub open spec fn spec_convert_error(e: wire::SerializationError) -> SerializationError {
    match e {
        wire::SerializationError::WordTooSmall => SerializationError::WordTooSmall,
        wire::SerializationError::ValueOutOfRange => SerializationError::ValueOutOfRange,
        _ => SerializationError::BufferTooSmall,
    }
}

fn convert_error(e: wire::SerializationError) -> (r: SerializationError)
    ensures
        r == spec_convert_error(e),
{
    match e {
        wire::SerializationError::WordTooSmall => SerializationError::WordTooSmall,
        wire::SerializationError::ValueOutOfRange => SerializationError::ValueOutOfRange,
        _ => SerializationError::BufferTooSmall,
    }
}

fn convert_result<T>(r: Result<T, wire::SerializationError>) -> (o: Result<T, SerializationError>)
    ensures
        r is Ok <==> o is Ok,
        r matches Ok(v) ==> o == Ok::<T, SerializationError>(v),
        r matches Err(e) ==> o == Err::<T, SerializationError>(spec_convert_error(e)),
{
    match r {
        Ok(v) => Ok(v),
        Err(e) => Err(convert_error(e)),
    }
}

/// Writes a bit stream into a buffer of 32-bit words.
pub struct Serializer {
    inner: wire::Serializer,
}

/// What a write of `bits` does (see `crate::network::serialization::write_outcome`).
pub open spec fn write_outcome(
    old: Serializer,
    new: Serializer,
    bits: Seq<bool>,
    r: Result<(), SerializationError>,
) -> bool {
    &&& new.wf()
    &&& new.capacity() == old.capacity()
    &&& new.initial_words() == old.initial_words()
    &&& (r is Ok <==> bits.len() <= old.room())
    &&& r is Ok ==> new.stream() == old.stream() + bits && new.is_overflowed() == old.is_overflowed()
    &&& r is Err ==> r == Err::<(), SerializationError>(SerializationError::BufferTooSmall)
        && new.is_overflowed() && new.stream() == old.stream() + bits.take(32 * (old.room() / 32) as int)
}

impl Serializer {
    pub closed spec fn stream(&self) -> Seq<bool> { self.inner.stream() }
    pub closed spec fn words(&self) -> Seq<u32> { self.inner.words() }
    pub closed spec fn initial_words(&self) -> Seq<u32> { self.inner.initial_words() }
    pub closed spec fn is_overflowed(&self) -> bool { self.inner.is_overflowed() }
    pub open spec fn capacity(&self) -> nat { self.words().len() }
    pub closed spec fn room(&self) -> nat { self.inner.room() }
    pub closed spec fn wf(&self) -> bool { self.inner.wf() }

    /// The room left is a full buffer and 31 pending bits, less the stream, or nothing once full.
    pub proof fn lemma_room(&self)
        requires
            self.wf(),
        ensures
            self.room() == if self.is_overflowed() { 0 } else {
                (32 * self.capacity() + 31 - self.stream().len()) as nat
            },
            self.stream().len() <= 32 * self.capacity() + 31,
    {
        self.inner.lemma_stream_len();
    }

    /// A serializer over `buffer`, with an empty stream.
    pub fn new(buffer: Vec<u32>) -> (r: Self)
        ensures
            r.wf(),
            r.stream() == Seq::<bool>::empty(),
            r.words() == buffer@,
            r.initial_words() == buffer@,
            !r.is_overflowed(),
    {
        Serializer { inner: wire::Serializer::new(buffer) }
    }

    /// The buffer.
    pub fn buffer(&self) -> (r: &Vec<u32>)
        ensures
            r@ == self.words(),
    {
        self.inner.buffer()
    }

    /// Gives the buffer back.
    pub fn into_buffer(self) -> (r: Vec<u32>)
        ensures
            r@ == self.words(),
    {
        self.inner.into_buffer()
    }

    /// Pads the pending bits with zeros to a full word and commits it. A stream of whole words
    /// is left as it is, so a second `finish` changes nothing.
    pub fn finish(&mut self) -> (r: Result<(), SerializationError>)
        requires
            old(self).wf(),
        ensures
            final(self).wf(),
            final(self).initial_words() == old(self).initial_words(),
            final(self).capacity() == old(self).capacity(),
            final(self).is_overflowed() == old(self).is_overflowed(),
            r is Ok <==> !old(self).is_overflowed() && old(self).stream().len() <= 32 * old(self).capacity(),
            r is Ok ==> {
                let n = (old(self).stream().len() + 31) / 32;
                &&& final(self).stream() == old(self).stream() + crate::bits::zero_bits(
                    (32 * n - old(self).stream().len()) as nat,
                )
                &&& crate::bits::words_bits(final(self).words().take(n as int)) == final(self).stream()
                &&& final(self).words().skip(n as int) == final(self).initial_words().skip(n as int)
                &&& old(self).stream().len() % 32 == 0 ==> *final(self) == *old(self)
            },
            r is Err ==> r == Err::<(), SerializationError>(SerializationError::BufferTooSmall)
                && *final(self) == *old(self),
    {
        match self.inner.finish() {
            Ok(_) => Ok(()),
            Err(_) => Err(SerializationError::BufferTooSmall),
        }
    }

    /// Writes `v` (1 bits).
    pub fn serialize_bool(&mut self, v: bool) -> (r: Result<(), SerializationError>)
        requires
            old(self).wf(),
        ensures
            write_outcome(*old(self), *final(self), seq![v], r),
    {
        convert_result(self.inner.serialize_bool(v))
    }

    /// Writes `v` (8 bits).
    pub fn serialize_u8(&mut self, v: u8) -> (r: Result<(), SerializationError>)
        requires
            old(self).wf(),
        ensures
            write_outcome(*old(self), *final(self), bits_of(v as nat, 8), r),
    {
        convert_result(self.inner.serialize_u8(v))
    }

    /// Writes `v` (8 bits).
    pub fn serialize_i8(&mut self, v: i8) -> (r: Result<(), SerializationError>)
        requires
            old(self).wf(),
        ensures
            write_outcome(*old(self), *final(self), bits_of(twos_complement(v as int, 8), 8), r),
    {
        convert_result(self.inner.serialize_i8(v))
    }

    /// Writes `v` (16 bits).
    pub fn serialize_u16(&mut self, v: u16) -> (r: Result<(), SerializationError>)
        requires
            old(self).wf(),
        ensures
            write_outcome(*old(self), *final(self), bits_of(v as nat, 16), r),
    {
        convert_result(self.inner.serialize_u16(v))
    }

    /// Writes `v` (16 bits).
    pub fn serialize_i16(&mut self, v: i16) -> (r: Result<(), SerializationError>)
        requires
            old(self).wf(),
        ensures
            write_outcome(*old(self), *final(self), bits_of(twos_complement(v as int, 16), 16), r),
    {
        convert_result(self.inner.serialize_i16(v))
    }

    /// Writes `v` (32 bits).
    pub fn serialize_u32(&mut self, v: u32) -> (r: Result<(), SerializationError>)
        requires
            old(self).wf(),
        ensures
            write_outcome(*old(self), *final(self), bits_of(v as nat, 32), r),
    {
        convert_result(self.inner.serialize_u32(v))
    }

    /// Writes `v` (32 bits).
    pub fn serialize_i32(&mut self, v: i32) -> (r: Result<(), SerializationError>)
        requires
            old(self).wf(),
        ensures
            write_outcome(*old(self), *final(self), bits_of(twos_complement(v as int, 32), 32), r),
    {
        convert_result(self.inner.serialize_i32(v))
    }

    /// Writes `v` (64 bits).
    pub fn serialize_u64(&mut self, v: u64) -> (r: Result<(), SerializationError>)
        requires
            old(self).wf(),
        ensures
            write_outcome(*old(self), *final(self), bits_of(v as nat, 64), r),
    {
        convert_result(self.inner.serialize_u64(v))
    }

    /// Writes `v` (64 bits).
    pub fn serialize_i64(&mut self, v: i64) -> (r: Result<(), SerializationError>)
        requires
            old(self).wf(),
        ensures
            write_outcome(*old(self), *final(self), bits_of(twos_complement(v as int, 64), 64), r),
    {
        convert_result(self.inner.serialize_i64(v))
    }

    /// Writes `v` (128 bits).
    pub fn serialize_u128(&mut self, v: u128) -> (r: Result<(), SerializationError>)
        requires
            old(self).wf(),
        ensures
            write_outcome(*old(self), *final(self), bits_of(v as nat, 128), r),
    {
        convert_result(self.inner.serialize_u128(v))
    }

    /// Writes `v` (128 bits).
    pub fn serialize_i128(&mut self, v: i128) -> (r: Result<(), SerializationError>)
        requires
            old(self).wf(),
        ensures
            write_outcome(*old(self), *final(self), bits_of(twos_complement(v as int, 128), 128), r),
    {
        convert_result(self.inner.serialize_i128(v))
    }

    /// Writes `v - min` in as few bits as every value of `min..=max` needs.
    /// Errors with `ValueOutOfRange`, writing nothing, when `v` is outside `min..=max`.
    pub fn serialize_packed_u8(&mut self, min: u8, max: u8, v: u8) -> (r: Result<(), SerializationError>)
        requires
            old(self).wf(),
            min <= max,
        ensures
            !(min <= v <= max) ==> r == Err::<(), SerializationError>(SerializationError::ValueOutOfRange)
                && *final(self) == *old(self),
            min <= v <= max ==> write_outcome(
                *old(self),
                *final(self),
                bits_of((v - min) as nat, bit_width((max - min) as nat)),
                r,
            ),
    {
        convert_result(self.inner.serialize_packed_u8(min, max, v))
    }

    /// Writes `v - min` in as few bits as every value of `min..=max` needs.
    /// Errors with `ValueOutOfRange`, writing nothing, when `v` is outside `min..=max`.
    /// `requires` asks that `v - min` fit in the type for every `v` in range, as the
    /// difference is taken in it.
    pub fn serialize_packed_i8(&mut self, min: i8, max: i8, v: i8) -> (r: Result<(), SerializationError>)
        requires
            old(self).wf(),
            min <= max,
            min <= v <= max ==> v - min <= i8::MAX,
        ensures
            !(min <= v <= max) ==> r == Err::<(), SerializationError>(SerializationError::ValueOutOfRange)
                && *final(self) == *old(self),
            min <= v <= max ==> write_outcome(
                *old(self),
                *final(self),
                bits_of((v - min) as nat, bit_width((max - min) as nat)),
                r,
            ),
    {
        convert_result(self.inner.serialize_packed_i8(min, max, v))
    }

    /// Writes `v - min` in as few bits as every value of `min..=max` needs.
    /// Errors with `ValueOutOfRange`, writing nothing, when `v` is outside `min..=max`.
    pub fn serialize_packed_u16(&mut self, min: u16, max: u16, v: u16) -> (r: Result<(), SerializationError>)
        requires
            old(self).wf(),
            min <= max,
        ensures
            !(min <= v <= max) ==> r == Err::<(), SerializationError>(SerializationError::ValueOutOfRange)
                && *final(self) == *old(self),
            min <= v <= max ==> write_outcome(
                *old(self),
                *final(self),
                bits_of((v - min) as nat, bit_width((max - min) as nat)),
                r,
            ),
    {
        convert_result(self.inner.serialize_packed_u16(min, max, v))
    }

    /// Writes `v - min` in as few bits as every value of `min..=max` needs.
    /// Errors with `ValueOutOfRange`, writing nothing, when `v` is outside `min..=max`.
    /// `requires` asks that `v - min` fit in the type for every `v` in range, as the
    /// difference is taken in it.
    pub fn serialize_packed_i16(&mut self, min: i16, max: i16, v: i16) -> (r: Result<(), SerializationError>)
        requires
            old(self).wf(),
            min <= max,
            min <= v <= max ==> v - min <= i16::MAX,
        ensures
            !(min <= v <= max) ==> r == Err::<(), SerializationError>(SerializationError::ValueOutOfRange)
                && *final(self) == *old(self),
            min <= v <= max ==> write_outcome(
                *old(self),
                *final(self),
                bits_of((v - min) as nat, bit_width((max - min) as nat)),
                r,
            ),
    {
        convert_result(self.inner.serialize_packed_i16(min, max, v))
    }

    /// Writes `v - min` in as few bits as every value of `min..=max` needs.
    /// Errors with `ValueOutOfRange`, writing nothing, when `v` is outside `min..=max`.
    pub fn serialize_packed_u32(&mut self, min: u32, max: u32, v: u32) -> (r: Result<(), SerializationError>)
        requires
            old(self).wf(),
            min <= max,
        ensures
            !(min <= v <= max) ==> r == Err::<(), SerializationError>(SerializationError::ValueOutOfRange)
                && *final(self) == *old(self),
            min <= v <= max ==> write_outcome(
                *old(self),
                *final(self),
                bits_of((v - min) as nat, bit_width((max - min) as nat)),
                r,
            ),
    {
        convert_result(self.inner.serialize_packed_u32(min, max, v))
    }

    /// Writes `v - min` in as few bits as every value of `min..=max` needs.
    /// Errors with `ValueOutOfRange`, writing nothing, when `v` is outside `min..=max`.
    /// `requires` asks that `v - min` fit in the type for every `v` in range, as the
    /// difference is taken in it.
    pub fn serialize_packed_i32(&mut self, min: i32, max: i32, v: i32) -> (r: Result<(), SerializationError>)
        requires
            old(self).wf(),
            min <= max,
            min <= v <= max ==> v - min <= i32::MAX,
        ensures
            !(min <= v <= max) ==> r == Err::<(), SerializationError>(SerializationError::ValueOutOfRange)
                && *final(self) == *old(self),
            min <= v <= max ==> write_outcome(
                *old(self),
                *final(self),
                bits_of((v - min) as nat, bit_width((max - min) as nat)),
                r,
            ),
    {
        convert_result(self.inner.serialize_packed_i32(min, max, v))
    }

    /// Writes `v - min` in as few bits as every value of `min..=max` needs.
    /// Errors with `ValueOutOfRange`, writing nothing, when `v` is outside `min..=max`.
    pub fn serialize_packed_u64(&mut self, min: u64, max: u64, v: u64) -> (r: Result<(), SerializationError>)
        requires
            old(self).wf(),
            min <= max,
        ensures
            !(min <= v <= max) ==> r == Err::<(), SerializationError>(SerializationError::ValueOutOfRange)
                && *final(self) == *old(self),
            min <= v <= max ==> write_outcome(
                *old(self),
                *final(self),
                bits_of((v - min) as nat, bit_width((max - min) as nat)),
                r,
            ),
    {
        convert_result(self.inner.serialize_packed_u64(min, max, v))
    }

    /// Writes `v - min` in as few bits as every value of `min..=max` needs.
    /// Errors with `ValueOutOfRange`, writing nothing, when `v` is outside `min..=max`.
    /// `requires` asks that `v - min` fit in the type for every `v` in range, as the
    /// difference is taken in it.
    pub fn serialize_packed_i64(&mut self, min: i64, max: i64, v: i64) -> (r: Result<(), SerializationError>)
        requires
            old(self).wf(),
            min <= max,
            min <= v <= max ==> v - min <= i64::MAX,
        ensures
            !(min <= v <= max) ==> r == Err::<(), SerializationError>(SerializationError::ValueOutOfRange)
                && *final(self) == *old(self),
            min <= v <= max ==> write_outcome(
                *old(self),
                *final(self),
                bits_of((v - min) as nat, bit_width((max - min) as nat)),
                r,
            ),
    {
        convert_result(self.inner.serialize_packed_i64(min, max, v))
    }
}

/// Reads a bit stream back from a buffer of 32-bit words.
pub struct Deserializer<'a> {
    inner: wire::Deserializer<'a>,
}

/// What a read of `n` bits does (see `crate::network::serialization::read_outcome`).
pub open spec fn read_outcome<T>(
    old: Deserializer,
    new: Deserializer,
    n: nat,
    r: Result<T, SerializationError>,
) -> bool {
    &&& new.wf()
    &&& new.data() == old.data()
    &&& (r is Ok <==> n <= old.available())
    &&& r is Ok ==> new.position() == old.position() + n
    &&& r is Err ==> (r matches Err(SerializationError::BufferTooSmall))
    &&& r is Err ==> new.position() == old.position() + 32 * (old.available() / 32)
}

/// What a packed read of `min..=max` into a type whose largest value is `limit` does (see
/// `crate::network::serialization::packed_read_outcome`).
pub open spec fn packed_read_outcome<T>(
    old: Deserializer,
    new: Deserializer,
    min: int,
    max: int,
    limit: int,
    r: Result<T, SerializationError>,
) -> bool {
    let b = bit_width((max - min) as nat);
    &&& b > old.available() ==> read_outcome(old, new, b, r)
    &&& b <= old.available() ==> {
        &&& new.wf()
        &&& new.data() == old.data()
        &&& new.position() == old.position() + b
        &&& (r is Ok <==> value_of(old.next_bits(b)) <= limit && value_of(old.next_bits(b)) + min <= max)
        &&& r is Err ==> (r matches Err(SerializationError::ValueOutOfRange))
    }
}

impl<'a> Deserializer<'a> {
    pub closed spec fn data(&self) -> Seq<bool> { self.inner.data() }
    pub closed spec fn position(&self) -> nat { self.inner.position() }
    pub closed spec fn wf(&self) -> bool { self.inner.wf() }
    pub open spec fn available(&self) -> nat { (self.data().len() - self.position()) as nat }
    pub open spec fn next_bits(&self, n: nat) -> Seq<bool> {
        self.data().subrange(self.position() as int, (self.position() + n) as int)
    }

    /// The position never passes the end of the data.
    pub proof fn lemma_position(&self)
        requires
            self.wf(),
        ensures
            self.position() <= self.data().len(),
    {
        self.inner.lemma_position();
    }

    /// A deserializer at the start of `buffer`.
    pub fn new(buffer: &'a [u32]) -> (r: Self)
        ensures
            r.wf(),
            r.data() == crate::bits::words_bits(buffer@),
            r.position() == 0,
    {
        Deserializer { inner: wire::Deserializer::new(buffer) }
    }

    /// Reads a `bool` (1 bits).
    pub fn deserialize_bool(&mut self) -> (r: Result<bool, SerializationError>)
        requires
            old(self).wf(),
        ensures
            read_outcome(*old(self), *final(self), 1, r),
            r matches Ok(b) ==> b == old(self).data()[old(self).position() as int],
    {
        convert_result(self.inner.deserialize_bool())
    }

    /// Reads a `u8` (8 bits).
    pub fn deserialize_u8(&mut self) -> (r: Result<u8, SerializationError>)
        requires
            old(self).wf(),
        ensures
            read_outcome(*old(self), *final(self), 8, r),
            r matches Ok(v) ==> v == value_of(old(self).next_bits(8)),
    {
        convert_result(self.inner.deserialize_u8())
    }

    /// Reads a `i8` (8 bits).
    pub fn deserialize_i8(&mut self) -> (r: Result<i8, SerializationError>)
        requires
            old(self).wf(),
        ensures
            read_outcome(*old(self), *final(self), 8, r),
            r matches Ok(v) ==> v == signed_value_of(old(self).next_bits(8)),
    {
        convert_result(self.inner.deserialize_i8())
    }

    /// Reads a `u16` (16 bits).
    pub fn deserialize_u16(&mut self) -> (r: Result<u16, SerializationError>)
        requires
            old(self).wf(),
        ensures
            read_outcome(*old(self), *final(self), 16, r),
            r matches Ok(v) ==> v == value_of(old(self).next_bits(16)),
    {
        convert_result(self.inner.deserialize_u16())
    }

    /// Reads a `i16` (16 bits).
    pub fn deserialize_i16(&mut self) -> (r: Result<i16, SerializationError>)
        requires
            old(self).wf(),
        ensures
            read_outcome(*old(self), *final(self), 16, r),
            r matches Ok(v) ==> v == signed_value_of(old(self).next_bits(16)),
    {
        convert_result(self.inner.deserialize_i16())
    }

    /// Reads a `u32` (32 bits).
    pub fn deserialize_u32(&mut self) -> (r: Result<u32, SerializationError>)
        requires
            old(self).wf(),
        ensures
            read_outcome(*old(self), *final(self), 32, r),
            r matches Ok(v) ==> v == value_of(old(self).next_bits(32)),
    {
        convert_result(self.inner.deserialize_u32())
    }

    /// Reads a `i32` (32 bits).
    pub fn deserialize_i32(&mut self) -> (r: Result<i32, SerializationError>)
        requires
            old(self).wf(),
        ensures
            read_outcome(*old(self), *final(self), 32, r),
            r matches Ok(v) ==> v == signed_value_of(old(self).next_bits(32)),
    {
        convert_result(self.inner.deserialize_i32())
    }

    /// Reads a `u64` (64 bits).
    pub fn deserialize_u64(&mut self) -> (r: Result<u64, SerializationError>)
        requires
            old(self).wf(),
        ensures
            read_outcome(*old(self), *final(self), 64, r),
            r matches Ok(v) ==> v == value_of(old(self).next_bits(64)),
    {
        convert_result(self.inner.deserialize_u64())
    }

    /// Reads a `i64` (64 bits).
    pub fn deserialize_i64(&mut self) -> (r: Result<i64, SerializationError>)
        requires
            old(self).wf(),
        ensures
            read_outcome(*old(self), *final(self), 64, r),
            r matches Ok(v) ==> v == signed_value_of(old(self).next_bits(64)),
    {
        convert_result(self.inner.deserialize_i64())
    }

    /// Reads a `u128` (128 bits).
    pub fn deserialize_u128(&mut self) -> (r: Result<u128, SerializationError>)
        requires
            old(self).wf(),
        ensures
            read_outcome(*old(self), *final(self), 128, r),
            r matches Ok(v) ==> v == value_of(old(self).next_bits(128)),
    {
        convert_result(self.inner.deserialize_u128())
    }

    /// Reads a `i128` (128 bits).
    pub fn deserialize_i128(&mut self) -> (r: Result<i128, SerializationError>)
        requires
            old(self).wf(),
        ensures
            read_outcome(*old(self), *final(self), 128, r),
            r matches Ok(v) ==> v == signed_value_of(old(self).next_bits(128)),
    {
        convert_result(self.inner.deserialize_i128())
    }

    /// Reads a value of `min..=max` packed by `serialize_packed_u8`.
    pub fn deserialize_packed_u8(&mut self, min: u8, max: u8) -> (r: Result<u8, SerializationError>)
        requires
            old(self).wf(),
            min <= max,
        ensures
            packed_read_outcome(*old(self), *final(self), min as int, max as int, u8::MAX as int, r),
            r matches Ok(v) ==> v == value_of(old(self).next_bits(bit_width((max - min) as nat))) + min,
    {
        convert_result(self.inner.deserialize_packed_u8(min, max))
    }

    /// Reads a value of `min..=max` packed by `serialize_packed_i8`.
    /// Errors with `ValueOutOfRange` when the bits hold more than the type's largest value,
    /// or the value they give passes `max`.
    pub fn deserialize_packed_i8(&mut self, min: i8, max: i8) -> (r: Result<i8, SerializationError>)
        requires
            old(self).wf(),
            min <= max,
        ensures
            packed_read_outcome(*old(self), *final(self), min as int, max as int, i8::MAX as int, r),
            r matches Ok(v) ==> v == value_of(old(self).next_bits(bit_width((max - min) as nat))) + min,
    {
        convert_result(self.inner.deserialize_packed_i8(min, max))
    }

    /// Reads a value of `min..=max` packed by `serialize_packed_u16`.
    pub fn deserialize_packed_u16(&mut self, min: u16, max: u16) -> (r: Result<u16, SerializationError>)
        requires
            old(self).wf(),
            min <= max,
        ensures
            packed_read_outcome(*old(self), *final(self), min as int, max as int, u16::MAX as int, r),
            r matches Ok(v) ==> v == value_of(old(self).next_bits(bit_width((max - min) as nat))) + min,
    {
        convert_result(self.inner.deserialize_packed_u16(min, max))
    }

    /// Reads a value of `min..=max` packed by `serialize_packed_i16`.
    /// Errors with `ValueOutOfRange` when the bits hold more than the type's largest value,
    /// or the value they give passes `max`.
    pub fn deserialize_packed_i16(&mut self, min: i16, max: i16) -> (r: Result<i16, SerializationError>)
        requires
            old(self).wf(),
            min <= max,
        ensures
            packed_read_outcome(*old(self), *final(self), min as int, max as int, i16::MAX as int, r),
            r matches Ok(v) ==> v == value_of(old(self).next_bits(bit_width((max - min) as nat))) + min,
    {
        convert_result(self.inner.deserialize_packed_i16(min, max))
    }

    /// Reads a value of `min..=max` packed by `serialize_packed_u32`.
    pub fn deserialize_packed_u32(&mut self, min: u32, max: u32) -> (r: Result<u32, SerializationError>)
        requires
            old(self).wf(),
            min <= max,
        ensures
            packed_read_outcome(*old(self), *final(self), min as int, max as int, u32::MAX as int, r),
            r matches Ok(v) ==> v == value_of(old(self).next_bits(bit_width((max - min) as nat))) + min,
    {
        convert_result(self.inner.deserialize_packed_u32(min, max))
    }

    /// Reads a value of `min..=max` packed by `serialize_packed_i32`.
    /// Errors with `ValueOutOfRange` when the bits hold more than the type's largest value,
    /// or the value they give passes `max`.
    pub fn deserialize_packed_i32(&mut self, min: i32, max: i32) -> (r: Result<i32, SerializationError>)
        requires
            old(self).wf(),
            min <= max,
        ensures
            packed_read_outcome(*old(self), *final(self), min as int, max as int, i32::MAX as int, r),
            r matches Ok(v) ==> v == value_of(old(self).next_bits(bit_width((max - min) as nat))) + min,
    {
        convert_result(self.inner.deserialize_packed_i32(min, max))
    }

    /// Reads a value of `min..=max` packed by `serialize_packed_u64`.
    pub fn deserialize_packed_u64(&mut self, min: u64, max: u64) -> (r: Result<u64, SerializationError>)
        requires
            old(self).wf(),
            min <= max,
        ensures
            packed_read_outcome(*old(self), *final(self), min as int, max as int, u64::MAX as int, r),
            r matches Ok(v) ==> v == value_of(old(self).next_bits(bit_width((max - min) as nat))) + min,
    {
        convert_result(self.inner.deserialize_packed_u64(min, max))
    }

    /// Reads a value of `min..=max` packed by `serialize_packed_i64`.
    /// Errors with `ValueOutOfRange` when the bits hold more than the type's largest value,
    /// or the value they give passes `max`.
    pub fn deserialize_packed_i64(&mut self, min: i64, max: i64) -> (r: Result<i64, SerializationError>)
        requires
            old(self).wf(),
            min <= max,
        ensures
            packed_read_outcome(*old(self), *final(self), min as int, max as int, i64::MAX as int, r),
            r matches Ok(v) ==> v == value_of(old(self).next_bits(bit_width((max - min) as nat))) + min,
    {
        convert_result(self.inner.deserialize_packed_i64(min, max))
    }
}

/// A value that writes itself to a bit stream.
pub trait Serialize: Sized {
    /// The bits the value writes.
    spec fn encoding(&self) -> Seq<bool>;

    /// Appends the value's bits to the stream.
    fn serialize(self, serializer: &mut Serializer) -> (r: Result<(), SerializationError>)
        requires
            old(serializer).wf(),
        ensures
            write_outcome(*old(serializer), *final(serializer), self.encoding(), r),
    ;
}

/// A value that reads itself from a bit stream.
pub trait Deserialize: Sized {
    /// How many bits a value takes.
    spec fn width() -> nat;

    /// The value that bits stand for.
    spec fn decode(bits: Seq<bool>) -> Self;

    /// Reads a value at the deserializer's position.
    fn deserialize(deserializer: &mut Deserializer) -> (r: Result<Self, SerializationError>)
        requires
            old(deserializer).wf(),
        ensures
            read_outcome(*old(deserializer), *final(deserializer), Self::width(), r),
            r matches Ok(v) ==> v == Self::decode(old(deserializer).next_bits(Self::width())),
    ;
}

impl Serialize for bool {
    open spec fn encoding(&self) -> Seq<bool> {
        seq![*self]
    }

    fn serialize(self, serializer: &mut Serializer) -> (r: Result<(), SerializationError>) {
        serializer.serialize_bool(self)
    }
}

impl Deserialize for bool {
    open spec fn width() -> nat {
        1
    }

    open spec fn decode(bits: Seq<bool>) -> Self {
        bits[0]
    }

    fn deserialize(deserializer: &mut Deserializer) -> (r: Result<Self, SerializationError>) {
        let ghost d0 = *deserializer;
        let r = deserializer.deserialize_bool();
        proof {
            d0.lemma_position();
            if r is Ok {
                assert(d0.next_bits(1)[0] == d0.data()[d0.position() as int]);
            }
        }
        r
    }
}

impl Serialize for u8 {
    open spec fn encoding(&self) -> Seq<bool> {
        bits_of(*self as nat, 8)
    }

    fn serialize(self, serializer: &mut Serializer) -> (r: Result<(), SerializationError>) {
        serializer.serialize_u8(self)
    }
}

impl Deserialize for u8 {
    open spec fn width() -> nat {
        8
    }

    open spec fn decode(bits: Seq<bool>) -> Self {
        value_of(bits) as u8
    }

    fn deserialize(deserializer: &mut Deserializer) -> (r: Result<Self, SerializationError>) {
        deserializer.deserialize_u8()
    }
}

impl Serialize for i8 {
    open spec fn encoding(&self) -> Seq<bool> {
        bits_of(twos_complement(*self as int, 8), 8)
    }

    fn serialize(self, serializer: &mut Serializer) -> (r: Result<(), SerializationError>) {
        serializer.serialize_i8(self)
    }
}

impl Deserialize for i8 {
    open spec fn width() -> nat {
        8
    }

    open spec fn decode(bits: Seq<bool>) -> Self {
        signed_value_of(bits) as i8
    }

    fn deserialize(deserializer: &mut Deserializer) -> (r: Result<Self, SerializationError>) {
        deserializer.deserialize_i8()
    }
}

impl Serialize for u16 {
    open spec fn encoding(&self) -> Seq<bool> {
        bits_of(*self as nat, 16)
    }

    fn serialize(self, serializer: &mut Serializer) -> (r: Result<(), SerializationError>) {
        serializer.serialize_u16(self)
    }
}

impl Deserialize for u16 {
    open spec fn width() -> nat {
        16
    }

    open spec fn decode(bits: Seq<bool>) -> Self {
        value_of(bits) as u16
    }

    fn deserialize(deserializer: &mut Deserializer) -> (r: Result<Self, SerializationError>) {
        deserializer.deserialize_u16()
    }
}

impl Serialize for i16 {
    open spec fn encoding(&self) -> Seq<bool> {
        bits_of(twos_complement(*self as int, 16), 16)
    }

    fn serialize(self, serializer: &mut Serializer) -> (r: Result<(), SerializationError>) {
        serializer.serialize_i16(self)
    }
}

impl Deserialize for i16 {
    open spec fn width() -> nat {
        16
    }

    open spec fn decode(bits: Seq<bool>) -> Self {
        signed_value_of(bits) as i16
    }

    fn deserialize(deserializer: &mut Deserializer) -> (r: Result<Self, SerializationError>) {
        deserializer.deserialize_i16()
    }
}

impl Serialize for u32 {
    open spec fn encoding(&self) -> Seq<bool> {
        bits_of(*self as nat, 32)
    }

    fn serialize(self, serializer: &mut Serializer) -> (r: Result<(), SerializationError>) {
        serializer.serialize_u32(self)
    }
}

impl Deserialize for u32 {
    open spec fn width() -> nat {
        32
    }

    open spec fn decode(bits: Seq<bool>) -> Self {
        value_of(bits) as u32
    }

    fn deserialize(deserializer: &mut Deserializer) -> (r: Result<Self, SerializationError>) {
        deserializer.deserialize_u32()
    }
}

impl Serialize for i32 {
    open spec fn encoding(&self) -> Seq<bool> {
        bits_of(twos_complement(*self as int, 32), 32)
    }

    fn serialize(self, serializer: &mut Serializer) -> (r: Result<(), SerializationError>) {
        serializer.serialize_i32(self)
    }
}

impl Deserialize for i32 {
    open spec fn width() -> nat {
        32
    }

    open spec fn decode(bits: Seq<bool>) -> Self {
        signed_value_of(bits) as i32
    }

    fn deserialize(deserializer: &mut Deserializer) -> (r: Result<Self, SerializationError>) {
        deserializer.deserialize_i32()
    }
}

impl Serialize for u64 {
    open spec fn encoding(&self) -> Seq<bool> {
        bits_of(*self as nat, 64)
    }

    fn serialize(self, serializer: &mut Serializer) -> (r: Result<(), SerializationError>) {
        serializer.serialize_u64(self)
    }
}

impl Deserialize for u64 {
    open spec fn width() -> nat {
        64
    }

    open spec fn decode(bits: Seq<bool>) -> Self {
        value_of(bits) as u64
    }

    fn deserialize(deserializer: &mut Deserializer) -> (r: Result<Self, SerializationError>) {
        deserializer.deserialize_u64()
    }
}

impl Serialize for i64 {
    open spec fn encoding(&self) -> Seq<bool> {
        bits_of(twos_complement(*self as int, 64), 64)
    }

    fn serialize(self, serializer: &mut Serializer) -> (r: Result<(), SerializationError>) {
        serializer.serialize_i64(self)
    }
}

impl Deserialize for i64 {
    open spec fn width() -> nat {
        64
    }

    open spec fn decode(bits: Seq<bool>) -> Self {
        signed_value_of(bits) as i64
    }

    fn deserialize(deserializer: &mut Deserializer) -> (r: Result<Self, SerializationError>) {
        deserializer.deserialize_i64()
    }
}

impl Serialize for u128 {
    open spec fn encoding(&self) -> Seq<bool> {
        bits_of(*self as nat, 128)
    }

    fn serialize(self, serializer: &mut Serializer) -> (r: Result<(), SerializationError>) {
        serializer.serialize_u128(self)
    }
}

impl Deserialize for u128 {
    open spec fn width() -> nat {
        128
    }

    open spec fn decode(bits: Seq<bool>) -> Self {
        value_of(bits) as u128
    }

    fn deserialize(deserializer: &mut Deserializer) -> (r: Result<Self, SerializationError>) {
        deserializer.deserialize_u128()
    }
}

impl Serialize for i128 {
    open spec fn encoding(&self) -> Seq<bool> {
        bits_of(twos_complement(*self as int, 128), 128)
    }

    fn serialize(self, serializer: &mut Serializer) -> (r: Result<(), SerializationError>) {
        serializer.serialize_i128(self)
    }
}

impl Deserialize for i128 {
    open spec fn width() -> nat {
        128
    }

    open spec fn decode(bits: Seq<bool>) -> Self {
        signed_value_of(bits) as i128
    }

    fn deserialize(deserializer: &mut Deserializer) -> (r: Result<Self, SerializationError>) {
        deserializer.deserialize_i128()
    }
}

} // verus!
