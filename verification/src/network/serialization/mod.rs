//! Bit-packed serialization into 32-bit words.
//!
//! A `Serializer` appends fields of 1 to 32 bits to a bit stream, least significant bit first,
//! and commits each full 32-bit word to its buffer. A `Deserializer` reads the same bit stream
//! back from a word buffer.

pub mod deserialize;
pub mod serialize;

pub use deserialize::{Deserializer, Deserialize, read_outcome, packed_raw, packed_read_outcome,
    deserialize_outcome, decodes_all, decodes_at, bytes_to_words, bytes_to_words_spec, remaining, fixed_len,
    read_many_len};
pub use serialize::{Serializer, Serialize, write_outcome, finish_outcome, serialize_outcome, encodings, all_serializable};
use serialize::lemma_serialize_then;

use vstd::prelude::*;
use vstd::arithmetic::power2::{pow2, lemma_pow2_pos, lemma_pow2_adds, lemma2_to64, lemma_pow2_unfold};
use vstd::bits::lemma_u64_shr_is_div;
use crate::bits::{bit_of, bits_of, words_bits, value_of, signed_value_of, twos_complement};

verus! {

/// The errors of serialization and deserialization.
#[derive(Debug, Clone, Copy, PartialEq, Eq, Structural)]
pub enum SerializationError {
    BufferTooSmall,
    WordTooSmall,
    ByteCountExceedsMaxSize,
    ValueOutOfRange,
    InvalidProtocol,
    InvalidVersion,
}

impl SerializationError {
    /// The name of the error, as a `Display` would print it.
    pub fn to_string(&self) -> (r: String)
        ensures
            r@ == error_name(*self),
    {
        match self {
            SerializationError::BufferTooSmall => "BufferTooSmall".to_string(),
            SerializationError::WordTooSmall => "WordTooSmall".to_string(),
            SerializationError::ByteCountExceedsMaxSize => "ByteCountExceedsMaxSize".to_string(),
            SerializationError::ValueOutOfRange => "ValueOutOfRange".to_string(),
            SerializationError::InvalidProtocol => "InvalidProtocol".to_string(),
            SerializationError::InvalidVersion => "InvalidVersion".to_string(),
        }
    }
}

/// The name of each error.
pub open spec fn error_name(e: SerializationError) -> Seq<char> {
    match e {
        SerializationError::BufferTooSmall => "BufferTooSmall"@,
        SerializationError::WordTooSmall => "WordTooSmall"@,
        SerializationError::ByteCountExceedsMaxSize => "ByteCountExceedsMaxSize"@,
        SerializationError::ValueOutOfRange => "ValueOutOfRange"@,
        SerializationError::InvalidProtocol => "InvalidProtocol"@,
        SerializationError::InvalidVersion => "InvalidVersion"@,
    }
}

/// Number of bits needed to write every integer of `0..=d`: the smallest `k` with `d < 2^k`.
pub open spec fn bit_width(d: nat) -> nat
    decreases d,
{
    if d == 0 {
        0
    } else {
        1 + bit_width(d / 2)
    }
}

/// `bit_width(d)` is the smallest `k` with `d < 2^k`.
pub proof fn lemma_bit_width(d: nat)
    ensures
        d < pow2(bit_width(d)),
        d > 0 ==> pow2((bit_width(d) - 1) as nat) <= d,
    decreases d,
{
    if d == 0 {
        lemma_pow2_pos(0);
    } else {
        lemma_bit_width(d / 2);
        lemma_pow2_unfold(bit_width(d));
        if d / 2 > 0 {
            lemma_pow2_unfold((bit_width(d) - 1) as nat);
        } else {
            assert(pow2(0) == 1) by { lemma2_to64(); }
        }
    }
}

/// `bit_width` is monotone.
pub proof fn lemma_bit_width_monotone(a: nat, b: nat)
    requires
        a <= b,
    ensures
        bit_width(a) <= bit_width(b),
    decreases b,
{
    if a > 0 {
        lemma_bit_width_monotone(a / 2, b / 2);
    }
}

/// A number below `2^k` needs at most `k` bits.
pub proof fn lemma_bit_width_bound(d: nat, k: nat)
    requires
        d < pow2(k),
    ensures
        bit_width(d) <= k,
{
    lemma_bit_width(d);
    if bit_width(d) > k {
        if k < (bit_width(d) - 1) as nat {
            vstd::arithmetic::power2::lemma_pow2_strictly_increases(k, (bit_width(d) - 1) as nat);
        }
    }
}

/// Bits needed to pack any value of `min..=max` as its distance from `min`.
///
/// `requires` asks that `max - min` be neither negative nor past `i128`.
pub fn calculate_bits_required(min: i128, max: i128) -> (r: usize)
    requires
        min <= max,
        max - min <= i128::MAX,
    ensures
        r == bit_width((max - min) as nat),
        r <= 127,
{
    if min == max {
        return 0;
    }
    let d0: u128 = (max - min) as u128;
    let mut d: u128 = d0;
    let mut k: usize = 0;
    proof {
        lemma_pow2_adds(64, 63);
        lemma2_to64();
        vstd::arithmetic::power2::lemma2_to64_rest();
        lemma_bit_width_bound(d0 as nat, 127);
    }
    while d > 0
        invariant
            bit_width(d0 as nat) == k + bit_width(d as nat),
            bit_width(d0 as nat) <= 127,
        decreases d,
    {
        assert(d >> 1 == d / 2) by (bit_vector);
        d = d >> 1;
        k = k + 1;
    }
    k
}

// ---------------------------------------------------------------------------------------------
// Bit facts on machine words
// ---------------------------------------------------------------------------------------------

/// Bit `i` of a `u64`, as the model and as the machine see it.
pub proof fn lemma_bit_u64(x: u64, i: u64)
    requires
        i < 64,
    ensures
        bit_of(x as nat, i as nat) == (((x >> i) & 1) == 1),
{
    lemma_u64_shr_is_div(x, i);
    let y = x >> i;
    assert(((y & 1) == 1) == (y % 2 == 1)) by (bit_vector);
}

/// A `u64` that is zero from bit `n` on is below `2^n`.
pub proof fn lemma_u64_below(x: u64, n: u64)
    requires
        n < 64,
        x >> n == 0,
    ensures
        (x as nat) < pow2(n as nat),
{
    lemma_u64_shr_is_div(x, n);
    lemma_pow2_pos(n as nat);
    vstd::arithmetic::div_mod::lemma_fundamental_div_mod(x as int, pow2(n as nat) as int);
    vstd::arithmetic::div_mod::lemma_mod_pos_bound(x as int, pow2(n as nat) as int);
}

/// A `u64` below `2^n` is zero from bit `n` on.
pub proof fn lemma_u64_below_rev(x: u64, n: u64)
    requires
        n < 64,
        (x as nat) < pow2(n as nat),
    ensures
        x >> n == 0,
{
    lemma_u64_shr_is_div(x, n);
    lemma_pow2_pos(n as nat);
    vstd::arithmetic::div_mod::lemma_basic_div(x as int, pow2(n as nat) as int);
}

/// The bits of `s | (v << sb)` are those of `s` followed by those of `v`.
pub proof fn lemma_or_shifted(s: u64, v: u64, sb: u64, n: u64)
    requires
        sb < 32,
        n <= 32,
        s >> sb == 0,
        v >> n == 0,
    ensures
        bits_of((s | (v << sb)) as nat, (sb + n) as nat) =~= bits_of(s as nat, sb as nat) + bits_of(
            v as nat,
            n as nat,
        ),
        (s | (v << sb)) >> (sb + n) == 0,
{
    let x = s | (v << sb);
    assert forall|i: int| 0 <= i < sb + n implies #[trigger] bit_of(x as nat, i as nat) == (
    if i < sb {
        bit_of(s as nat, i as nat)
    } else {
        bit_of(v as nat, (i - sb) as nat)
    }) by {
        let j = i as u64;
        lemma_bit_u64(x, j);
        if j < sb {
            lemma_bit_u64(s, j);
            assert(((x >> j) & 1) == ((s >> j) & 1)) by (bit_vector)
                requires
                    x == s | (v << sb),
                    j < sb,
                    sb < 32,
                    s >> sb == 0,
            ;
        } else {
            let k = (j - sb) as u64;
            lemma_bit_u64(v, k);
            assert(((x >> j) & 1) == ((v >> k) & 1)) by (bit_vector)
                requires
                    x == s | (v << sb),
                    j < sb + n,
                    sb <= j,
                    k == j - sb,
                    sb < 32,
                    n <= 32,
                    s >> sb == 0,
                    v >> n == 0,
            ;
        }
    }
    assert(x >> (sb + n) == 0) by (bit_vector)
        requires
            x == s | (v << sb),
            sb < 32,
            n <= 32,
            s >> sb == 0,
            v >> n == 0,
    ;
}

/// Splitting a `u64` holding `t >= 32` bits into its low word and the rest.
pub proof fn lemma_split_low_word(x: u64, t: u64)
    requires
        32 <= t < 64,
        x >> t == 0,
    ensures
        bits_of(x as nat, t as nat) =~= bits_of((x as u32) as nat, 32) + bits_of(
            (x >> 32) as nat,
            (t - 32) as nat,
        ),
        (x >> 32) >> ((t - 32) as u64) == 0,
{
    let lo = (x as u32) as u64;
    let hi = x >> 32;
    assert forall|i: int| 0 <= i < t implies #[trigger] bit_of(x as nat, i as nat) == (if i < 32 {
        bit_of(lo as nat, i as nat)
    } else {
        bit_of(hi as nat, (i - 32) as nat)
    }) by {
        let j = i as u64;
        lemma_bit_u64(x, j);
        if j < 32 {
            lemma_bit_u64(lo, j);
            assert(((x >> j) & 1) == ((lo >> j) & 1)) by (bit_vector)
                requires
                    lo == (x as u32) as u64,
                    j < 32,
            ;
        } else {
            let k = (j - 32) as u64;
            lemma_bit_u64(hi, k);
            assert(((x >> j) & 1) == ((hi >> k) & 1)) by (bit_vector)
                requires
                    hi == x >> 32,
                    k == j - 32,
                    32 <= j < 64,
            ;
        }
    }
    assert(hi >> ((t - 32) as u64) == 0) by (bit_vector)
        requires
            hi == x >> 32,
            32 <= t < 64,
            x >> t == 0,
    ;
}

/// Splitting a `u64` holding `t` bits into its low `n` bits and the rest.
pub proof fn lemma_split_low_bits(x: u64, t: u64, n: u64)
    requires
        n <= 32,
        n <= t < 64,
        x >> t == 0,
    ensures
        bits_of(x as nat, t as nat) =~= bits_of((x & (((1u64 << n) - 1) as u64)) as nat, n as nat) + bits_of(
            (x >> n) as nat,
            (t - n) as nat,
        ),
        (x >> n) >> ((t - n) as u64) == 0,
        (x & (((1u64 << n) - 1) as u64)) >> n == 0,
        (x & (((1u64 << n) - 1) as u64)) <= u32::MAX,
{
    let lo = x & (((1u64 << n) - 1) as u64);
    let hi = x >> n;
    assert forall|i: int| 0 <= i < t implies #[trigger] bit_of(x as nat, i as nat) == (if i < n {
        bit_of(lo as nat, i as nat)
    } else {
        bit_of(hi as nat, (i - n) as nat)
    }) by {
        let j = i as u64;
        lemma_bit_u64(x, j);
        if j < n {
            lemma_bit_u64(lo, j);
            assert(((x >> j) & 1) == ((lo >> j) & 1)) by (bit_vector)
                requires
                    lo == x & (((1u64 << n) - 1) as u64),
                    j < n,
                    n <= 32,
            ;
        } else {
            let k = (j - n) as u64;
            lemma_bit_u64(hi, k);
            assert(((x >> j) & 1) == ((hi >> k) & 1)) by (bit_vector)
                requires
                    hi == x >> n,
                    k == j - n,
                    n <= j < 64,
            ;
        }
    }
    assert(hi >> ((t - n) as u64) == 0 && lo >> n == 0 && lo <= 0xffff_ffff) by (bit_vector)
        requires
            hi == x >> n,
            lo == x & (((1u64 << n) - 1) as u64),
            n <= 32,
            n <= t < 64,
            x >> t == 0,
    ;
}


// ---------------------------------------------------------------------------------------------
// Reading back what was written
// ---------------------------------------------------------------------------------------------

/// A finished serializer (a whole number of words written) holds its stream in its first words.
pub proof fn lemma_finished_words_hold_stream(s: Serializer)
    requires
        s.wf(),
        s.stream().len() % 32 == 0,
    ensures
        s.stream().len() <= words_bits(s.words()).len(),
        words_bits(s.words()).take(s.stream().len() as int) == s.stream(),
{
    s.lemma_committed();
    let k = s.stream().len() as int / 32;
    s.lemma_stream_len();
    crate::bits::lemma_words_bits_take(s.words(), k);
    assert(s.stream().take(32 * k) =~= s.stream());
}

/// Unsigned read-back: where a stream that begins the deserializer's data holds the `n` bits
/// of `v < 2^n`, a read of `n` bits there yields `v`.
pub proof fn lemma_read_back_unsigned(d: Deserializer, stream: Seq<bool>, v: nat, n: nat)
    requires
        stream.len() <= d.data().len(),
        d.data().take(stream.len() as int) == stream,
        d.position() + n <= stream.len(),
        stream.subrange(d.position() as int, (d.position() + n) as int) == bits_of(v, n),
        v < pow2(n),
    ensures
        value_of(d.next_bits(n)) == v,
{
    assert(d.next_bits(n) =~= stream.subrange(d.position() as int, (d.position() + n) as int));
    crate::bits::lemma_unsigned_round_trip(v, n);
}

/// Signed read-back: where the stream holds the `n`-bit two's complement of `v` in
/// `[-2^(n-1), 2^(n-1))`, a signed read of `n` bits there yields `v`.
pub proof fn lemma_read_back_signed(d: Deserializer, stream: Seq<bool>, v: int, n: nat)
    requires
        n > 0,
        stream.len() <= d.data().len(),
        d.data().take(stream.len() as int) == stream,
        d.position() + n <= stream.len(),
        stream.subrange(d.position() as int, (d.position() + n) as int) == bits_of(twos_complement(v, n), n),
        -(pow2((n - 1) as nat) as int) <= v < pow2((n - 1) as nat),
    ensures
        signed_value_of(d.next_bits(n)) == v,
{
    assert(d.next_bits(n) =~= stream.subrange(d.position() as int, (d.position() + n) as int));
    crate::bits::lemma_signed_round_trip(v, n);
}

/// Packed read-back: where the stream holds what a packed write of `v` in `min..=max` wrote,
/// a packed read of `min..=max` there yields `v`.
pub proof fn lemma_read_back_packed(d: Deserializer, stream: Seq<bool>, min: int, max: int, v: int)
    requires
        min <= v <= max,
        stream.len() <= d.data().len(),
        d.data().take(stream.len() as int) == stream,
        d.position() + bit_width((max - min) as nat) <= stream.len(),
        stream.subrange(d.position() as int, (d.position() + bit_width((max - min) as nat)) as int)
            == bits_of((v - min) as nat, bit_width((max - min) as nat)),
    ensures
        packed_raw(d, min, max) + min == v,
        packed_raw(d, min, max) + min <= max,
{
    let b = bit_width((max - min) as nat);
    lemma_bit_width((max - min) as nat);
    lemma_read_back_unsigned(d, stream, (v - min) as nat, b);
}

/// The bits of a sequence of writes, one after the other.
pub open spec fn concat_bits(parts: Seq<Seq<bool>>) -> Seq<bool>
    decreases parts.len(),
{
    if parts.len() == 0 {
        Seq::empty()
    } else {
        concat_bits(parts.drop_last()) + parts.last()
    }
}

/// Writes that all succeed, one after the other, leave the stream grown by all their bits in
/// order, over the same buffer, and every value written could be written.
pub proof fn lemma_writes_in_order(states: Seq<Serializer>, writable: Seq<bool>, parts: Seq<Seq<bool>>)
    requires
        states.len() == parts.len() + 1,
        writable.len() == parts.len(),
        states[0].wf(),
        forall|i: int| 0 <= i < parts.len() ==> #[trigger] serialize_outcome(
            states[i], states[i + 1], writable[i], parts[i], Ok(())),
    ensures
        serialize_outcome(states[0], states.last(), true, concat_bits(parts), Ok(())),
        forall|i: int| 0 <= i < parts.len() ==> #[trigger] writable[i],
    decreases parts.len(),
{
    if parts.len() == 0 {
        states[0].lemma_stream_len();
        assert(states[0].stream() + Seq::<bool>::empty() =~= states[0].stream());
    } else {
        let n = parts.len() - 1;
        let st = states.drop_last();
        assert forall|i: int| 0 <= i < n implies #[trigger] serialize_outcome(
            st[i], st[i + 1], writable.drop_last()[i], parts.drop_last()[i], Ok(())) by {
            assert(serialize_outcome(states[i], states[i + 1], writable[i], parts[i], Ok(())));
        }
        lemma_writes_in_order(st, writable.drop_last(), parts.drop_last());
        assert(serialize_outcome(states[n], states[n + 1], writable[n], parts[n], Ok(())));
        assert(st.last() == states[n]);
        lemma_serialize_then(states[0], states[n], states[n + 1], true, concat_bits(parts.drop_last()),
            writable[n], parts[n], Ok(()));
        assert forall|i: int| 0 <= i < parts.len() implies #[trigger] writable[i] by {
            if i < n {
                assert(writable.drop_last()[i] == writable[i]);
            }
        }
    }
}

/// `finish` is idempotent: once it has returned a count, a second `finish` returns the same
/// count and leaves the serializer, its buffer included, as it was.
pub proof fn lemma_finish_twice(
    s0: Serializer,
    s1: Serializer,
    r1: Result<usize, SerializationError>,
    s2: Serializer,
    r2: Result<usize, SerializationError>,
)
    requires
        s0.wf(),
        finish_outcome(s0, s1, r1),
        finish_outcome(s1, s2, r2),
        r1 is Ok,
    ensures
        r2 == r1,
        s2 == s1,
        s2.words() == s1.words(),
{
    let n = r1->Ok_0;
    assert(s1.stream().len() == 32 * n);
    s1.lemma_stream_len();
}

/// The bits of two runs of writes, one after the other, are those of the first, then those of
/// the second.
pub proof fn lemma_concat_bits_add(a: Seq<Seq<bool>>, b: Seq<Seq<bool>>)
    ensures
        concat_bits(a + b) == concat_bits(a) + concat_bits(b),
    decreases b.len(),
{
    if b.len() == 0 {
        assert(a + b =~= a);
        assert(concat_bits(a) + concat_bits(b) =~= concat_bits(a));
    } else {
        lemma_concat_bits_add(a, b.drop_last());
        assert((a + b).drop_last() =~= a + b.drop_last());
        assert((a + b).last() == b.last());
        assert(concat_bits(a + b) =~= concat_bits(a) + concat_bits(b));
    }
}

/// One value of a run of writes, whatever its type: the bits its write appends, how many bits
/// a read of its type takes from the start of a stream (or the error it fails with), and which
/// bit strings a read turns into that value and no other.
pub struct Field {
    pub bits: Seq<bool>,
    pub read: spec_fn(Seq<bool>) -> Result<nat, SerializationError>,
    pub only: spec_fn(Seq<bool>) -> bool,
}

/// The field of a value written and read by its `Serialize` and `Deserialize` impls.
pub open spec fn field_of<T: Serialize + Deserialize>(v: T) -> Field {
    Field {
        bits: v.encoding(),
        read: |b: Seq<bool>| T::read_len(b),
        only: |b: Seq<bool>| forall|w: T| #[trigger] T::decodes(b, w) ==> w == v,
    }
}

/// The field of `v` written by a packed write of `min..=max` and read back by a packed read of
/// `min..=max` into a type whose largest value is `limit`.
pub open spec fn packed_field(min: int, max: int, limit: int, v: int) -> Field {
    Field {
        bits: bits_of((v - min) as nat, bit_width((max - min) as nat)),
        read: |b: Seq<bool>| fixed_len(b, bit_width((max - min) as nat)),
        only: |b: Seq<bool>| value_of(b) <= limit && value_of(b) + min <= max && value_of(b) + min == v,
    }
}

/// Whether a field reads back from its own bits: a read from them, whatever follows, takes
/// exactly them, and they are read as its value and no other.
pub open spec fn field_reads_back(f: Field) -> bool {
    &&& forall|rest: Seq<bool>| #[trigger] (f.read)(f.bits + rest) == Ok::<nat, SerializationError>(f.bits.len())
    &&& (f.only)(f.bits)
}

/// The bits of a run of writes of the fields `fs`, one after the other.
pub open spec fn fields_bits(fs: Seq<Field>) -> Seq<bool> {
    concat_bits(fs.map_values(|f: Field| f.bits))
}

/// A value that reads back from its own bits gives a field that does.
pub proof fn lemma_field_of<T: Serialize + Deserialize>(v: T)
    requires
        reads_back(v),
    ensures
        field_reads_back(field_of(v)),
        field_of(v).bits == v.encoding(),
{
    let f = field_of(v);
    assert forall|rest: Seq<bool>| #[trigger] (f.read)(f.bits + rest) == Ok::<nat, SerializationError>(f.bits.len()) by {
        assert(T::read_len(v.encoding() + rest) == Ok::<nat, SerializationError>(v.encoding().len()));
    }
}

/// A packed value of `min..=max` whose distance from `min` the reading type holds reads back
/// from its own bits.
pub proof fn lemma_packed_field(min: int, max: int, limit: int, v: int)
    requires
        min <= v <= max,
        v - min <= limit,
    ensures
        field_reads_back(packed_field(min, max, limit, v)),
{
    let f = packed_field(min, max, limit, v);
    let w = bit_width((max - min) as nat);
    lemma_bit_width((max - min) as nat);
    crate::bits::lemma_unsigned_round_trip((v - min) as nat, w);
    assert forall|rest: Seq<bool>| #[trigger] (f.read)(f.bits + rest) == Ok::<nat, SerializationError>(f.bits.len()) by {
        assert(fixed_len(f.bits + rest, w) == Ok::<nat, SerializationError>(w));
    }
}

/// Values of any types, written one after the other, read back in the same order: where a
/// stream begins with the bits of the fields `fs`, the read of field `i` at the end of the
/// first `i` fields' bits takes exactly its own bits, and these are read as its value alone.
pub proof fn lemma_fields_read_back(fs: Seq<Field>, data: Seq<bool>)
    requires
        forall|i: int| 0 <= i < fs.len() ==> field_reads_back(#[trigger] fs[i]),
        fields_bits(fs).len() <= data.len(),
        data.take(fields_bits(fs).len() as int) == fields_bits(fs),
    ensures
        forall|i: int| 0 <= i < fs.len() ==> {
            let at = fields_bits(fs.take(i)).len() as int;
            &&& ((#[trigger] fs[i]).read)(data.skip(at)) == Ok::<nat, SerializationError>(fs[i].bits.len())
            &&& at + fs[i].bits.len() <= data.len()
            &&& data.subrange(at, at + fs[i].bits.len()) == fs[i].bits
            &&& (fs[i].only)(data.subrange(at, at + fs[i].bits.len()))
        },
{
    let p = fs.map_values(|f: Field| f.bits);
    let rest = data.skip(fields_bits(fs).len() as int);
    assert(data =~= fields_bits(fs) + rest);
    assert forall|i: int| 0 <= i < fs.len() implies {
        let at = fields_bits(fs.take(i)).len() as int;
        &&& ((#[trigger] fs[i]).read)(data.skip(at)) == Ok::<nat, SerializationError>(fs[i].bits.len())
        &&& at + fs[i].bits.len() <= data.len()
        &&& data.subrange(at, at + fs[i].bits.len()) == fs[i].bits
        &&& (fs[i].only)(data.subrange(at, at + fs[i].bits.len()))
    } by {
        let one = seq![p[i]];
        assert(p =~= p.take(i) + one + p.skip(i + 1));
        lemma_concat_bits_add(p.take(i) + one, p.skip(i + 1));
        lemma_concat_bits_add(p.take(i), one);
        assert(one.drop_last() =~= Seq::<Seq<bool>>::empty());
        assert(concat_bits(one) == concat_bits(one.drop_last()) + one.last());
        assert(concat_bits(one.drop_last()) =~= Seq::<bool>::empty());
        assert(concat_bits(one) =~= p[i]);
        assert(fs.take(i).map_values(|f: Field| f.bits) =~= p.take(i));
        let tail = concat_bits(p.skip(i + 1)) + rest;
        let at = fields_bits(fs.take(i)).len() as int;
        assert(fields_bits(fs) == concat_bits(p.take(i)) + p[i] + concat_bits(p.skip(i + 1)));
        assert(data.skip(at) =~= fs[i].bits + tail);
        assert(field_reads_back(fs[i]));
        assert((fs[i].read)(fs[i].bits + tail) == Ok::<nat, SerializationError>(fs[i].bits.len()));
        assert(data.subrange(at, at + fs[i].bits.len()) =~= fs[i].bits);
    }
}

/// A whole run: a serializer with an empty stream writes the fields `fs` one after the other,
/// each write succeeding, and `finish` returns `n`. Then `n` is the number of words the run's
/// bits fill, and in the bits of the first `n` words each field reads back, in order, as its
/// value alone.
pub proof fn lemma_run_round_trip(
    states: Seq<Serializer>,
    writable: Seq<bool>,
    fs: Seq<Field>,
    fin: Serializer,
    r: Result<usize, SerializationError>,
)
    requires
        states.len() == fs.len() + 1,
        writable.len() == fs.len(),
        states[0].wf(),
        states[0].stream().len() == 0,
        forall|i: int| 0 <= i < fs.len() ==> serialize_outcome(
            states[i], states[i + 1], writable[i], (#[trigger] fs[i]).bits, Ok(())),
        forall|i: int| 0 <= i < fs.len() ==> field_reads_back(#[trigger] fs[i]),
        finish_outcome(states.last(), fin, r),
        r is Ok,
    ensures
        r->Ok_0 == (fields_bits(fs).len() + 31) / 32,
        ({
            let data = words_bits(fin.words().take(r->Ok_0 as int));
            forall|i: int| 0 <= i < fs.len() ==> {
                let at = fields_bits(fs.take(i)).len() as int;
                &&& ((#[trigger] fs[i]).read)(data.skip(at)) == Ok::<nat, SerializationError>(fs[i].bits.len())
                &&& data.subrange(at, at + fs[i].bits.len()) == fs[i].bits
                &&& (fs[i].only)(data.subrange(at, at + fs[i].bits.len()))
            }
        }),
{
    let p = fs.map_values(|f: Field| f.bits);
    assert forall|i: int| 0 <= i < p.len() implies #[trigger] serialize_outcome(
        states[i], states[i + 1], writable[i], p[i], Ok(())) by {
        assert(p[i] == fs[i].bits);
    }
    lemma_writes_in_order(states, writable, p);
    assert(states.last().stream() =~= fields_bits(fs));
    let data = words_bits(fin.words().take(r->Ok_0 as int));
    assert(data.take(fields_bits(fs).len() as int) =~= fields_bits(fs));
    lemma_fields_read_back(fs, data);
}

/// Whether `v` reads back from its own bits: a read from its bits, whatever follows them,
/// takes exactly those bits, and the only value they decode to is `v`.
pub open spec fn reads_back<T: Serialize + Deserialize>(v: T) -> bool {
    &&& v.serializable()
    &&& forall|rest: Seq<bool>| #[trigger] T::read_len(v.encoding() + rest) == Ok::<nat, SerializationError>(
        v.encoding().len(),
    )
    &&& forall|w: T| #[trigger] T::decodes(v.encoding(), w) ==> w == v
}

/// The values of `vs`, written one after the other, read back in the same order: the read at
/// the end of the first `i` values' bits takes exactly the bits of value `i`, which decode to
/// nothing but value `i`; and reading `vs.len()` values takes exactly all their bits.
#[verifier::spinoff_prover]
pub proof fn lemma_sequence_reads_back<T: Serialize + Deserialize>(vs: Seq<T>, rest: Seq<bool>)
    requires
        forall|i: int| 0 <= i < vs.len() ==> reads_back(#[trigger] vs[i]),
    ensures
        read_many_len::<T>(encodings(vs) + rest, vs.len()) == Ok::<nat, SerializationError>(encodings(vs).len()),
        forall|i: int| 0 <= i < vs.len() ==> {
            let at = encodings(vs.take(i)).len() as int;
            &&& T::read_len((encodings(vs) + rest).skip(at)) == Ok::<nat, SerializationError>(
                (#[trigger] vs[i]).encoding().len(),
            )
            &&& (encodings(vs) + rest).subrange(at, at + vs[i].encoding().len()) == vs[i].encoding()
            &&& forall|w: T| T::decodes(vs[i].encoding(), w) ==> w == vs[i]
        },
    decreases vs.len(),
{
    if vs.len() > 0 {
        let n = vs.len() - 1;
        let init = vs.drop_last();
        let last = vs.last();
        let tail = last.encoding() + rest;
        assert forall|i: int| 0 <= i < init.len() implies reads_back(#[trigger] init[i]) by {
            assert(init[i] == vs[i]);
        }
        assert(encodings(vs) + rest =~= encodings(init) + tail);
        lemma_sequence_reads_back(init, tail);
        assert(vs.take(n) =~= init);
        assert((encodings(vs) + rest).skip(encodings(init).len() as int) =~= last.encoding() + rest);
        assert(reads_back(vs[n]));
        assert(T::read_len(last.encoding() + rest) == Ok::<nat, SerializationError>(last.encoding().len()));
        assert forall|i: int| 0 <= i < vs.len() implies {
            let at = encodings(vs.take(i)).len() as int;
            &&& T::read_len((encodings(vs) + rest).skip(at)) == Ok::<nat, SerializationError>(
                (#[trigger] vs[i]).encoding().len(),
            )
            &&& (encodings(vs) + rest).subrange(at, at + vs[i].encoding().len()) == vs[i].encoding()
            &&& forall|w: T| T::decodes(vs[i].encoding(), w) ==> w == vs[i]
        } by {
            assert(reads_back(vs[i]));
            if i < n {
                assert(init[i] == vs[i]);
                assert(init.take(i) =~= vs.take(i));
            } else {
                let at = encodings(init).len() as int;
                assert((encodings(vs) + rest).subrange(at, at + last.encoding().len()) =~= last.encoding());
            }
        }
    } else {
        assert(encodings(vs) + rest =~= rest);
    }
}

/// Each primitive reads back from its own bits.
pub proof fn lemma_primitives_read_back(b: bool, a: u8, c: i8, d: u16, e: i16, f: u32, g: i32, h: u64, i: i64, j: u128, k: i128)
    ensures
        reads_back(b),
        reads_back(a),
        reads_back(c),
        reads_back(d),
        reads_back(e),
        reads_back(f),
        reads_back(g),
        reads_back(h),
        reads_back(i),
        reads_back(j),
        reads_back(k),
{
    lemma2_to64();
    vstd::arithmetic::power2::lemma2_to64_rest();
    lemma_pow2_adds(64, 64);
    lemma_pow2_adds(63, 64);
    assert(pow2(127) == 0x8000_0000_0000_0000_0000_0000_0000_0000);
    crate::bits::lemma_unsigned_round_trip(a as nat, 8);
    crate::bits::lemma_unsigned_round_trip(d as nat, 16);
    crate::bits::lemma_unsigned_round_trip(f as nat, 32);
    crate::bits::lemma_unsigned_round_trip(h as nat, 64);
    crate::bits::lemma_unsigned_round_trip(j as nat, 128);
    crate::bits::lemma_signed_round_trip(c as int, 8);
    crate::bits::lemma_signed_round_trip(e as int, 16);
    crate::bits::lemma_signed_round_trip(g as int, 32);
    crate::bits::lemma_signed_round_trip(i as int, 64);
    crate::bits::lemma_signed_round_trip(k as int, 128);
    assert forall|rest: Seq<bool>| #[trigger] bool::read_len(b.encoding() + rest) == Ok::<nat, SerializationError>(1) by {}
    assert forall|w: bool| #[trigger] bool::decodes(b.encoding(), w) implies w == b by {
        assert(seq![w][0] == w);
    }
}

} // verus!
