//! The messages of the network protocol, their bit layout, and packets.
//!
//! A message is a protocol id (32 bits), a version (8 bits), a tag (8 bits) and the fields of
//! its payload, written with the bit serializer of `serialization`.

use vstd::prelude::*;
use vstd::arithmetic::power2::{pow2, lemma2_to64};
use crate::bits::{bits_of, value_of, words_bits, zero_bits, lemma_unsigned_round_trip, lemma_value_of_bounds};
use crate::network::serialization::{
    SerializationError, Serializer, Deserializer, Serialize, Deserialize, encodings, all_serializable,
    serialize_outcome, deserialize_outcome, bytes_to_words_spec, remaining,
};
use crate::network::serialization::serialize::{
    serialize_all, lemma_write_is_serialize, lemma_serialize_then, lemma_serialize_stops,
};

verus! {

broadcast use vstd::array::group_array_axioms;

pub const PROTOCOL_ID: u32 = 0x2e413454;

pub const NET_MAX_PACKET_SIZE: usize = 512;

pub const NET_MAX_PAYLOAD_SIZE: usize = 504;

pub const NET_CHALLENGE_SIZE: usize = 16;

/// The id a client gives itself.
pub type ClientId = u64;

/// The bytes of a challenge.
pub type ChallengeData = [u8; 16];

/// Why a server refuses a connection.
#[derive(Copy, Clone, Debug, PartialEq, Eq, Structural)]
pub enum ConnectionRejectReason {
    ServerFull,
    AlreadyConnected,
}

/// The code of a reason on the wire.
pub open spec fn reason_code(r: ConnectionRejectReason) -> nat {
    match r {
        ConnectionRejectReason::ServerFull => 0,
        ConnectionRejectReason::AlreadyConnected => 1,
    }
}

/// What a payload holds, with the bytes of a data payload up to its byte count.
pub enum PayloadView {
    Heartbeat,
    ConnectionRequest(u64),
    ConnectionAccept,
    ConnectionReject(ConnectionRejectReason),
    DisconnectNotice(u64),
    ChallengeRequest(Seq<u8>),
    ChallengeResponse(u64, Seq<u8>),
    Data(Seq<u8>),
}

/// What a message holds.
pub struct MessageView {
    pub protocol: u32,
    pub version: u8,
    pub payload: PayloadView,
}

/// The eight bits of a tag or a byte.
pub open spec fn byte_bits(b: nat) -> Seq<bool> {
    bits_of(b, 8)
}

/// The bits that a payload writes: its tag, then its fields.
pub open spec fn payload_bits(p: PayloadView) -> Seq<bool> {
    match p {
        PayloadView::Heartbeat => byte_bits(0),
        PayloadView::ConnectionRequest(id) => byte_bits(1) + bits_of(id as nat, 64),
        PayloadView::ConnectionAccept => byte_bits(2),
        PayloadView::ConnectionReject(r) => byte_bits(3) + byte_bits(reason_code(r)),
        PayloadView::DisconnectNotice(id) => byte_bits(4) + bits_of(id as nat, 64),
        PayloadView::ChallengeRequest(c) => byte_bits(5) + encodings(c),
        PayloadView::ChallengeResponse(id, c) => byte_bits(6) + bits_of(id as nat, 64) + encodings(c),
        PayloadView::Data(b) => byte_bits(10) + bits_of(b.len() % 0x1_0000, 16) + encodings(b),
    }
}

/// The bits that a message writes.
pub open spec fn message_bits(m: MessageView) -> Seq<bool> {
    bits_of(m.protocol as nat, 32) + byte_bits(m.version as nat) + payload_bits(m.payload)
}

/// Whether a payload can be written and read back: challenges hold 16 bytes, and data fewer
/// than `NET_MAX_PAYLOAD_SIZE` bytes.
pub open spec fn payload_fits(p: PayloadView) -> bool {
    match p {
        PayloadView::ChallengeRequest(c) => c.len() == NET_CHALLENGE_SIZE,
        PayloadView::ChallengeResponse(_, c) => c.len() == NET_CHALLENGE_SIZE,
        PayloadView::Data(b) => b.len() < NET_MAX_PAYLOAD_SIZE,
        _ => true,
    }
}

/// The unsigned number in the `n` bits of `s` from `at`.
pub open spec fn field(s: Seq<bool>, at: int, n: int) -> int {
    value_of(s.subrange(at, at + n))
}

/// The `n` bytes of `s` from `at`.
pub open spec fn bytes_at(s: Seq<bool>, at: int, n: nat) -> Seq<u8> {
    Seq::new(n, |i: int| field(s, at + 8 * i, 8) as u8)
}

/// What a read of the fields of a data payload gives from bits `t`: a 16-bit byte count
/// below `NET_MAX_PAYLOAD_SIZE`, then that many bytes.
pub open spec fn decode_data(t: Seq<bool>) -> Result<Seq<u8>, SerializationError> {
    if t.len() < 16 {
        Err(SerializationError::BufferTooSmall)
    } else if field(t, 0, 16) >= NET_MAX_PAYLOAD_SIZE {
        Err(SerializationError::ByteCountExceedsMaxSize)
    } else if t.len() < 16 + 8 * field(t, 0, 16) {
        Err(SerializationError::BufferTooSmall)
    } else {
        Ok(bytes_at(t, 16, field(t, 0, 16) as nat))
    }
}

/// What a read of the fields of a payload with tag `tag` gives from bits `t`.
pub open spec fn decode_payload(t: Seq<bool>, tag: int) -> Result<PayloadView, SerializationError> {
    if tag == 0 {
        Ok(PayloadView::Heartbeat)
    } else if tag == 1 {
        if t.len() < 64 {
            Err(SerializationError::BufferTooSmall)
        } else {
            Ok(PayloadView::ConnectionRequest(field(t, 0, 64) as u64))
        }
    } else if tag == 2 {
        Ok(PayloadView::ConnectionAccept)
    } else if tag == 3 {
        if t.len() < 1 {
            Err(SerializationError::BufferTooSmall)
        } else {
            Ok(PayloadView::ConnectionReject(
                if t[0] { ConnectionRejectReason::AlreadyConnected } else { ConnectionRejectReason::ServerFull },
            ))
        }
    } else if tag == 4 {
        if t.len() < 64 {
            Err(SerializationError::BufferTooSmall)
        } else {
            Ok(PayloadView::DisconnectNotice(field(t, 0, 64) as u64))
        }
    } else if tag == 5 {
        if t.len() < 128 {
            Err(SerializationError::BufferTooSmall)
        } else {
            Ok(PayloadView::ChallengeRequest(bytes_at(t, 0, 16)))
        }
    } else if tag == 6 {
        if t.len() < 192 {
            Err(SerializationError::BufferTooSmall)
        } else {
            Ok(PayloadView::ChallengeResponse(field(t, 0, 64) as u64, bytes_at(t, 64, 16)))
        }
    } else if tag == 10 {
        match decode_data(t) {
            Ok(b) => Ok(PayloadView::Data(b)),
            Err(e) => Err(e),
        }
    } else {
        Err(SerializationError::ValueOutOfRange)
    }
}

/// What a read of a message from bits `s` gives: the header is checked field by field, then
/// the payload's fields are read by its tag; a read past the end of `s` is `BufferTooSmall`.
pub open spec fn decode_message(s: Seq<bool>) -> Result<MessageView, SerializationError> {
    if s.len() < 32 {
        Err(SerializationError::BufferTooSmall)
    } else if field(s, 0, 32) != PROTOCOL_ID {
        Err(SerializationError::InvalidProtocol)
    } else if s.len() < 40 {
        Err(SerializationError::BufferTooSmall)
    } else if field(s, 32, 8) != 1 {
        Err(SerializationError::InvalidVersion)
    } else if s.len() < 48 {
        Err(SerializationError::BufferTooSmall)
    } else {
        match decode_payload(s.subrange(48, s.len() as int), field(s, 40, 8)) {
            Ok(p) => Ok(MessageView { protocol: PROTOCOL_ID, version: 1, payload: p }),
            Err(e) => Err(e),
        }
    }
}

/// How many bits a read of the fields of a payload takes.
pub open spec fn payload_len(p: PayloadView) -> nat {
    match p {
        PayloadView::Heartbeat => 0,
        PayloadView::ConnectionRequest(_) => 64,
        PayloadView::ConnectionAccept => 0,
        PayloadView::ConnectionReject(_) => 1,
        PayloadView::DisconnectNotice(_) => 64,
        PayloadView::ChallengeRequest(_) => 128,
        PayloadView::ChallengeResponse(_, _) => 192,
        PayloadView::Data(b) => 16 + 8 * b.len(),
    }
}

/// The bits of `n` bytes are 8 bits each, byte by byte.
proof fn lemma_encodings_bytes(b: Seq<u8>)
    ensures
        encodings(b).len() == 8 * b.len(),
        forall|i: int| 0 <= i < b.len() ==> #[trigger] encodings(b).subrange(8 * i, 8 * i + 8) == bits_of(b[i] as nat, 8),
    decreases b.len(),
{
    if b.len() > 0 {
        let r = b.drop_last();
        lemma_encodings_bytes(r);
        let e = encodings(b);
        assert(e == encodings(r) + bits_of(b.last() as nat, 8));
        assert forall|i: int| 0 <= i < b.len() implies #[trigger] encodings(b).subrange(8 * i, 8 * i + 8) == bits_of(b[i] as nat, 8) by {
            if i < r.len() {
                assert(e.subrange(8 * i, 8 * i + 8) =~= encodings(r).subrange(8 * i, 8 * i + 8));
                assert(r[i] == b[i]);
            } else {
                assert(e.subrange(8 * i, 8 * i + 8) =~= bits_of(b.last() as nat, 8));
            }
        }
    }
}

/// Where `s` holds the bits of bytes `b` from `at`, the bytes read there are `b`.
proof fn lemma_bytes_at(s: Seq<bool>, at: int, b: Seq<u8>)
    requires
        0 <= at,
        at + 8 * b.len() <= s.len(),
        s.subrange(at, at + 8 * b.len()) == encodings(b),
    ensures
        bytes_at(s, at, b.len()) == b,
{
    lemma_encodings_bytes(b);
    assert forall|i: int| 0 <= i < b.len() implies #[trigger] bytes_at(s, at, b.len())[i] == b[i] by {
        assert(s.subrange(at + 8 * i, at + 8 * i + 8) =~= encodings(b).subrange(8 * i, 8 * i + 8));
        lemma2_to64();
        lemma_unsigned_round_trip(b[i] as nat, 8);
    }
    assert(bytes_at(s, at, b.len()) =~= b);
}

/// Where `s` holds the `n` bits of `v < 2^n` from `at`, the field read there is `v`.
proof fn lemma_field(s: Seq<bool>, at: int, v: nat, n: nat)
    requires
        0 <= at,
        at + n <= s.len(),
        s.subrange(at, at + n) == bits_of(v, n),
        v < pow2(n),
    ensures
        field(s, at, n as int) == v,
{
    lemma_unsigned_round_trip(v, n);
}

/// Round trip of messages: the bits that a message with the protocol's id and version writes,
/// whatever follows them, read back as that message.
pub proof fn lemma_message_round_trip(m: MessageView, rest: Seq<bool>)
    requires
        m.protocol == PROTOCOL_ID,
        m.version == 1,
        payload_fits(m.payload),
    ensures
        decode_message(message_bits(m) + rest) == Ok::<MessageView, SerializationError>(m),
{
    lemma2_to64();
    let s = message_bits(m) + rest;
    let p = payload_bits(m.payload);
    let head = bits_of(m.protocol as nat, 32);
    assert(s.subrange(0, 32) =~= head);
    lemma_field(s, 0, m.protocol as nat, 32);
    assert(s.subrange(32, 40) =~= byte_bits(1));
    lemma_field(s, 32, 1, 8);
    let tag: nat = match m.payload {
        PayloadView::Heartbeat => 0,
        PayloadView::ConnectionRequest(_) => 1,
        PayloadView::ConnectionAccept => 2,
        PayloadView::ConnectionReject(_) => 3,
        PayloadView::DisconnectNotice(_) => 4,
        PayloadView::ChallengeRequest(_) => 5,
        PayloadView::ChallengeResponse(_, _) => 6,
        PayloadView::Data(_) => 10,
    };
    assert(p.subrange(0, 8) =~= byte_bits(tag));
    assert(s.subrange(40, 48) =~= p.subrange(0, 8));
    lemma_field(s, 40, tag, 8);
    let t = s.subrange(48, s.len() as int);
    match m.payload {
        PayloadView::ConnectionRequest(id) => {
            assert(t.subrange(0, 64) =~= bits_of(id as nat, 64));
            lemma_field(t, 0, id as nat, 64);
        },
        PayloadView::DisconnectNotice(id) => {
            assert(t.subrange(0, 64) =~= bits_of(id as nat, 64));
            lemma_field(t, 0, id as nat, 64);
        },
        PayloadView::ConnectionReject(r) => {
            assert(t[0] == byte_bits(reason_code(r))[0]);
            crate::bits::lemma_value_of_bits(reason_code(r), 8);
            assert(byte_bits(reason_code(r))[0] == (reason_code(r) % 2 == 1));
        },
        PayloadView::ChallengeRequest(c) => {
            lemma_encodings_bytes(c);
            assert(t.subrange(0, 128) =~= encodings(c));
            lemma_bytes_at(t, 0, c);
        },
        PayloadView::ChallengeResponse(id, c) => {
            lemma_encodings_bytes(c);
            assert(t.subrange(0, 64) =~= bits_of(id as nat, 64));
            lemma_field(t, 0, id as nat, 64);
            assert(t.subrange(64, 192) =~= encodings(c));
            lemma_bytes_at(t, 64, c);
        },
        PayloadView::Data(b) => {
            lemma_encodings_bytes(b);
            assert(t.subrange(0, 16) =~= bits_of(b.len() % 0x1_0000, 16));
            assert(b.len() % 0x1_0000 == b.len());
            lemma_field(t, 0, b.len(), 16);
            assert(t.subrange(16, 16 + 8 * b.len() as int) =~= encodings(b));
            lemma_bytes_at(t, 16, b);
        },
        _ => {},
    }
}

// ---------------------------------------------------------------------------------------------
// Messages
// ---------------------------------------------------------------------------------------------

/// The data of a data message: `byte_count` bytes of `data`.
#[derive(Clone, Copy, Debug)]
pub struct DataPayload {
    pub byte_count: u32,
    pub data: [u8; 504],
}

impl DataPayload {
    /// The bytes that count.
    pub open spec fn bytes(&self) -> Seq<u8> {
        if self.byte_count <= NET_MAX_PAYLOAD_SIZE {
            self.data@.take(self.byte_count as int)
        } else {
            self.data@
        }
    }

    /// The bytes that count. `requires` rules out a byte count past the buffer.
    pub fn data(&self) -> (r: &[u8])
        requires
            self.byte_count <= NET_MAX_PAYLOAD_SIZE,
        ensures
            r@ == self.bytes(),
    {
        vstd::slice::slice_subrange(self.data.as_slice(), 0, self.byte_count as usize)
    }
}

/// What a message carries.
#[derive(Clone, Copy, Debug)]
pub enum MessagePayload {
    Heartbeat,
    ConnectionRequest(ClientId),
    ConnectionAccept,
    ConnectionReject(ConnectionRejectReason),
    DisconnectNotice(ClientId),
    ChallengeRequest(ChallengeData),
    ChallengeResponse(ClientId, ChallengeData),
    Data(DataPayload),
}

impl MessagePayload {
    /// What the payload holds.
    pub open spec fn view(&self) -> PayloadView {
        match *self {
            MessagePayload::Heartbeat => PayloadView::Heartbeat,
            MessagePayload::ConnectionRequest(id) => PayloadView::ConnectionRequest(id),
            MessagePayload::ConnectionAccept => PayloadView::ConnectionAccept,
            MessagePayload::ConnectionReject(r) => PayloadView::ConnectionReject(r),
            MessagePayload::DisconnectNotice(id) => PayloadView::DisconnectNotice(id),
            MessagePayload::ChallengeRequest(c) => PayloadView::ChallengeRequest(c@),
            MessagePayload::ChallengeResponse(id, c) => PayloadView::ChallengeResponse(id, c@),
            MessagePayload::Data(d) => PayloadView::Data(d.bytes()),
        }
    }
}

/// A message: protocol id, version and payload.
#[derive(Clone, Copy, Debug)]
pub struct Message {
    pub protocol: u32,
    pub version: u8,
    pub payload: MessagePayload,
}

impl Message {
    /// What the message holds.
    pub open spec fn view(&self) -> MessageView {
        MessageView { protocol: self.protocol, version: self.version, payload: self.payload.view() }
    }

    /// Whether a data payload's byte count is below `NET_MAX_PAYLOAD_SIZE` and its bytes after
    /// that count are zero, as a read leaves them; such a message is known by its view.
    pub open spec fn zero_padded(&self) -> bool {
        self.payload matches MessagePayload::Data(p) ==> p.byte_count < NET_MAX_PAYLOAD_SIZE && forall|i: int|
            p.byte_count <= i < NET_MAX_PAYLOAD_SIZE ==> #[trigger] p.data@[i] == 0
    }
}

/// Two messages that a read can give are equal when they hold the same: a message read from
/// a packet is determined by what the packet decodes to.
pub proof fn lemma_zero_padded_view_unique(m1: Message, m2: Message)
    requires
        m1.zero_padded(),
        m2.zero_padded(),
        m1.view() == m2.view(),
    ensures
        m1 == m2,
{
    broadcast use vstd::array::group_array_axioms;
    match (m1.payload, m2.payload) {
        (MessagePayload::Data(p1), MessagePayload::Data(p2)) => {
            assert(p1.bytes() == p2.bytes());
            assert(p1.byte_count == p1.bytes().len());
            assert(p1.byte_count == p2.byte_count);
            assert forall|i: int| 0 <= i < NET_MAX_PAYLOAD_SIZE implies p1.data@[i] == p2.data@[i] by {
                if i < p1.byte_count {
                    assert(p1.data@[i] == p1.bytes()[i]);
                    assert(p2.data@[i] == p2.bytes()[i]);
                }
            }
            assert(p1.data@ =~= p2.data@);
            assert(p1.data == p2.data);
        },
        (MessagePayload::ChallengeRequest(c1), MessagePayload::ChallengeRequest(c2)) => {
            assert(c1@ =~= c2@);
            assert(c1 == c2);
        },
        (MessagePayload::ChallengeResponse(i1, c1), MessagePayload::ChallengeResponse(i2, c2)) => {
            assert(c1@ =~= c2@);
            assert(c1 == c2);
        },
        _ => {},
    }
}

/// A message of this protocol's id and version with the given payload.
pub open spec fn is_message_of(m: Message, payload: MessagePayload) -> bool {
    &&& m.protocol == PROTOCOL_ID
    &&& m.version == 1
    &&& m.payload == payload
}

pub struct Heartbeat;

impl Heartbeat {
    pub fn build_message() -> (r: Message)
        ensures
            is_message_of(r, MessagePayload::Heartbeat),
    {
        Message { protocol: PROTOCOL_ID, version: 1, payload: MessagePayload::Heartbeat }
    }
}

pub struct ConnectionRequest;

impl ConnectionRequest {
    pub fn build_message(client_id: ClientId) -> (r: Message)
        ensures
            is_message_of(r, MessagePayload::ConnectionRequest(client_id)),
    {
        Message { protocol: PROTOCOL_ID, version: 1, payload: MessagePayload::ConnectionRequest(client_id) }
    }
}

pub struct ConnectionAccept;

impl ConnectionAccept {
    pub fn build_message() -> (r: Message)
        ensures
            is_message_of(r, MessagePayload::ConnectionAccept),
    {
        Message { protocol: PROTOCOL_ID, version: 1, payload: MessagePayload::ConnectionAccept }
    }
}

pub struct ConnectionReject;

impl ConnectionReject {
    pub fn build_message(reason: ConnectionRejectReason) -> (r: Message)
        ensures
            is_message_of(r, MessagePayload::ConnectionReject(reason)),
    {
        Message { protocol: PROTOCOL_ID, version: 1, payload: MessagePayload::ConnectionReject(reason) }
    }
}

pub struct DisconnectNotice;

impl DisconnectNotice {
    pub fn build_message(client_id: ClientId) -> (r: Message)
        ensures
            is_message_of(r, MessagePayload::DisconnectNotice(client_id)),
    {
        Message { protocol: PROTOCOL_ID, version: 1, payload: MessagePayload::DisconnectNotice(client_id) }
    }
}

pub struct ChallengeRequest;

impl ChallengeRequest {
    pub fn build_message(challenge_data: ChallengeData) -> (r: Message)
        ensures
            is_message_of(r, MessagePayload::ChallengeRequest(challenge_data)),
    {
        Message { protocol: PROTOCOL_ID, version: 1, payload: MessagePayload::ChallengeRequest(challenge_data) }
    }
}

pub struct ChallengeResponse;

impl ChallengeResponse {
    pub fn build_message(client_id: ClientId, challenge_data: ChallengeData) -> (r: Message)
        ensures
            is_message_of(r, MessagePayload::ChallengeResponse(client_id, challenge_data)),
    {
        Message {
            protocol: PROTOCOL_ID,
            version: 1,
            payload: MessagePayload::ChallengeResponse(client_id, challenge_data),
        }
    }
}

pub struct Data;

impl Data {
    /// A data message over the given bytes; the count is taken modulo `2^32`.
    pub fn build_message_raw(data: [u8; 504], byte_count: usize) -> (r: Message)
        ensures
            is_message_of(r, MessagePayload::Data(DataPayload { byte_count: byte_count as u32, data })),
    {
        Message {
            protocol: PROTOCOL_ID,
            version: 1,
            payload: MessagePayload::Data(DataPayload { byte_count: byte_count as u32, data }),
        }
    }
}

// ---------------------------------------------------------------------------------------------
// Writing
// ---------------------------------------------------------------------------------------------

impl Serialize for DataPayload {
    open spec fn encoding(&self) -> Seq<bool> {
        bits_of(self.bytes().len() % 0x1_0000, 16) + encodings(self.bytes())
    }

    open spec fn serializable(&self) -> bool {
        self.byte_count < NET_MAX_PAYLOAD_SIZE
    }

    /// Writes the byte count in 16 bits, then the bytes. A count of `NET_MAX_PAYLOAD_SIZE` or
    /// more is `ByteCountExceedsMaxSize`, with nothing written.
    fn serialize(&self, serializer: &mut Serializer) -> (r: Result<(), SerializationError>)
        ensures
            !self.serializable() ==> r == Err::<(), SerializationError>(SerializationError::ByteCountExceedsMaxSize)
                && *final(serializer) == *old(serializer),
    {
        if self.byte_count as usize >= NET_MAX_PAYLOAD_SIZE {
            proof {
                serializer.lemma_stream_len();
                assert((serializer.stream() + self.encoding()).take(serializer.stream().len() as int) =~= serializer.stream());
            }
            return Err(SerializationError::ByteCountExceedsMaxSize);
        }
        let ghost s0 = *serializer;
        let n = self.byte_count as u16;
        proof {
            assert(n as nat == self.byte_count as nat % 0x1_0000);
            assert(self.bytes().len() == self.byte_count);
        }
        let r1 = serializer.serialize_u16(n);
        proof { lemma_write_is_serialize(s0, *serializer, bits_of(n as nat, 16), r1); }
        let bytes = vstd::slice::slice_subrange(self.data.as_slice(), 0, self.byte_count as usize);
        proof {
            assert forall|i: int| 0 <= i < bytes@.len() implies #[trigger] bytes@[i].serializable() by {}
            assert(all_serializable(bytes@));
            assert(bytes@ == self.bytes());
        }
        if r1.is_err() {
            proof {
                lemma_serialize_stops(s0, *serializer, true, bits_of(n as nat, 16), true, encodings(bytes@), r1);
            }
            return r1;
        }
        let ghost s1 = *serializer;
        let r2 = serialize_all(bytes, serializer);
        proof {
            lemma_serialize_then(s0, s1, *serializer, true, bits_of(n as nat, 16), true, encodings(bytes@), r2);
        }
        r2
    }
}

/// Writes the tag and the fields of a payload.
fn serialize_payload(payload: &MessagePayload, serializer: &mut Serializer) -> (r: Result<(), SerializationError>)
    requires
        old(serializer).wf(),
    ensures
        serialize_outcome(
            *old(serializer),
            *final(serializer),
            payload_serializable(*payload),
            payload_bits(payload.view()),
            r,
        ),
        !payload_serializable(*payload) && old(serializer).room() >= 8 ==> r == Err::<(), SerializationError>(
            SerializationError::ByteCountExceedsMaxSize,
        ),
{
    proof {
        lemma2_to64();
    }
    match payload {
        MessagePayload::Heartbeat => 0u8.serialize(serializer),
        MessagePayload::ConnectionRequest(id) => (1u8, *id).serialize(serializer),
        MessagePayload::ConnectionAccept => 2u8.serialize(serializer),
        MessagePayload::ConnectionReject(reason) => {
            let code: u8 = match reason {
                ConnectionRejectReason::ServerFull => 0,
                ConnectionRejectReason::AlreadyConnected => 1,
            };
            (3u8, code).serialize(serializer)
        },
        MessagePayload::DisconnectNotice(id) => (4u8, *id).serialize(serializer),
        MessagePayload::ChallengeRequest(c) => {
            proof {
                assert forall|i: int| 0 <= i < c@.len() implies #[trigger] c@[i].serializable() by {}
            }
            (5u8, *c).serialize(serializer)
        },
        MessagePayload::ChallengeResponse(id, c) => {
            proof {
                assert forall|i: int| 0 <= i < c@.len() implies #[trigger] c@[i].serializable() by {}
            }
            ((6u8, *id), *c).serialize(serializer)
        },
        MessagePayload::Data(d) => {
            let ghost s0 = *serializer;
            let r1 = 10u8.serialize(serializer);
            if r1.is_err() {
                proof {
                    lemma_serialize_stops(s0, *serializer, true, byte_bits(10), d.serializable(), d.encoding(), r1);
                    assert(byte_bits(10) + d.encoding() =~= payload_bits(payload.view()));
                }
                return r1;
            }
            let ghost s1 = *serializer;
            let r2 = d.serialize(serializer);
            proof {
                lemma_serialize_then(s0, s1, *serializer, true, byte_bits(10), d.serializable(), d.encoding(), r2);
                assert(byte_bits(10) + d.encoding() =~= payload_bits(payload.view()));
            }
            r2
        },
    }
}

/// Whether a payload can be written: a data payload needs a byte count below
/// `NET_MAX_PAYLOAD_SIZE`.
pub open spec fn payload_serializable(p: MessagePayload) -> bool {
    match p {
        MessagePayload::Data(d) => d.serializable(),
        _ => true,
    }
}

impl Serialize for Message {
    open spec fn encoding(&self) -> Seq<bool> {
        message_bits(self.view())
    }

    open spec fn serializable(&self) -> bool {
        payload_serializable(self.payload)
    }

    /// Writes the protocol id (32 bits), the version (8 bits), then the payload's tag and
    /// fields.
    fn serialize(&self, serializer: &mut Serializer) -> (r: Result<(), SerializationError>)
        ensures
            !self.serializable() && old(serializer).room() >= 48 ==> r == Err::<(), SerializationError>(
                SerializationError::ByteCountExceedsMaxSize,
            ),
    {
        let ghost s0 = *serializer;
        let ghost head = bits_of(self.protocol as nat, 32) + byte_bits(self.version as nat);
        let r1 = (self.protocol, self.version).serialize(serializer);
        proof {
            assert(head.len() == 40);
        }
        if r1.is_err() {
            proof {
                lemma_serialize_stops(s0, *serializer, true, head, self.serializable(), payload_bits(self.payload.view()), r1);
            }
            return r1;
        }
        let ghost s1 = *serializer;
        proof {
            assert(head.len() == 40);
            if s0.room() >= 48 {
                assert(!s0.is_overflowed());
                assert((self.protocol, self.version).encoding() == head);
                assert(!s1.is_overflowed());
                assert(s1.capacity() == s0.capacity());
                assert(s1.stream().len() == s0.stream().len() + 40);
                s1.lemma_stream_len();
                assert(s1.room() >= 8);
            }
        }
        let r2 = serialize_payload(&self.payload, serializer);
        proof {
            lemma_serialize_then(s0, s1, *serializer, true, head, self.serializable(), payload_bits(self.payload.view()), r2);
        }
        r2
    }
}

// ---------------------------------------------------------------------------------------------
// Reading
// ---------------------------------------------------------------------------------------------

/// A field within the first `k` bits reads the same from the first `k` bits.
proof fn lemma_field_take(s: Seq<bool>, k: int, at: int, n: int)
    requires
        0 <= at,
        0 <= n,
        at + n <= k <= s.len(),
    ensures
        field(s.take(k), at, n) == field(s, at, n),
{
    assert(s.take(k).subrange(at, at + n) =~= s.subrange(at, at + n));
}

/// Bytes within the first `k` bits read the same from the first `k` bits.
proof fn lemma_bytes_take(s: Seq<bool>, k: int, at: int, n: nat)
    requires
        0 <= at,
        at + 8 * n <= k <= s.len(),
    ensures
        bytes_at(s.take(k), at, n) == bytes_at(s, at, n),
{
    assert forall|i: int| 0 <= i < n implies #[trigger] bytes_at(s.take(k), at, n)[i] == bytes_at(s, at, n)[i] by {
        lemma_field_take(s, k, at + 8 * i, 8);
    }
    assert(bytes_at(s.take(k), at, n) =~= bytes_at(s, at, n));
}

/// A read of a message takes only the bits of its fields: the same bits, cut after the last
/// field, read as the same message.
proof fn lemma_decode_prefix(s: Seq<bool>, k: int)
    requires
        decode_message(s) is Ok,
        k == 48 + payload_len(decode_message(s)->Ok_0.payload),
    ensures
        k <= s.len(),
        decode_message(s.take(k)) == decode_message(s),
{
    let m = decode_message(s)->Ok_0;
    let t = s.subrange(48, s.len() as int);
    let u = s.take(k).subrange(48, k);
    let tag = field(s, 40, 8);
    let pl = payload_len(m.payload) as int;
    if tag == 10 {
        lemma_value_of_bounds(t.subrange(0, 16));
        assert(pl == 16 + 8 * field(t, 0, 16));
    }
    assert(k <= s.len());
    assert(u =~= t.take(pl));
    lemma_field_take(s, k, 0, 32);
    lemma_field_take(s, k, 32, 8);
    lemma_field_take(s, k, 40, 8);
    if tag == 1 || tag == 4 || tag == 6 {
        lemma_field_take(t, pl, 0, 64);
    }
    if tag == 5 {
        lemma_bytes_take(t, pl, 0, 16);
    }
    if tag == 6 {
        lemma_bytes_take(t, pl, 64, 16);
    }
    if tag == 3 {
        assert(u[0] == t[0]);
    }
    if tag == 10 {
        lemma_field_take(t, pl, 0, 16);
        lemma_bytes_take(t, pl, 16, field(t, 0, 16) as nat);
    }
    assert(decode_payload(u, tag) == decode_payload(t, tag));
}

impl Deserialize for DataPayload {
    open spec fn decodes(bits: Seq<bool>, v: Self) -> bool {
        &&& decode_data(bits) == Ok::<Seq<u8>, SerializationError>(v.bytes())
        &&& v.byte_count < NET_MAX_PAYLOAD_SIZE
        &&& bits.len() == 16 + 8 * v.byte_count
        &&& forall|i: int| v.byte_count <= i < NET_MAX_PAYLOAD_SIZE ==> #[trigger] v.data@[i] == 0
    }

    /// A 16-bit byte count, then that many bytes.
    open spec fn read_len(bits: Seq<bool>) -> Result<nat, SerializationError> {
        match decode_data(bits) {
            Ok(b) => Ok(16 + 8 * b.len()),
            Err(e) => Err(e),
        }
    }

    /// Reads a 16-bit byte count, then that many bytes; the bytes after them are zero.
    fn deserialize(deserializer: &mut Deserializer) -> (r: Result<Self, SerializationError>)
        ensures
            match r {
                Ok(v) => {
                    &&& decode_data(remaining(*old(deserializer))) == Ok::<Seq<u8>, SerializationError>(v.bytes())
                    &&& final(deserializer).position() == old(deserializer).position() + 16 + 8 * v.byte_count
                },
                Err(e) => decode_data(remaining(*old(deserializer))) == Err::<Seq<u8>, SerializationError>(e),
            },
    {
        let ghost d0 = *deserializer;
        let ghost s = remaining(d0);
        proof {
            d0.lemma_position();
        }
        let n = match deserializer.deserialize_u16() {
            Ok(n) => n,
            Err(e) => {
                return Err(e);
            },
        };
        proof {
            assert(d0.next_bits(16) =~= s.subrange(0, 16));
        }
        if n as usize >= NET_MAX_PAYLOAD_SIZE {
            return Err(SerializationError::ByteCountExceedsMaxSize);
        }
        let mut data = [0u8; 504];
        proof {
            assert(data == vstd::array::spec_array_fill_for_copy_type::<u8, 504>(0u8));
        }
        let mut i: usize = 0;
        while i < n as usize
            invariant
                d0.wf(),
                d0 == *old(deserializer),
                d0.position() <= d0.data().len(),
                s == remaining(d0),
                n == field(s, 0, 16),
                n < NET_MAX_PAYLOAD_SIZE,
                i <= n,
                deserialize_outcome(d0, *deserializer),
                deserializer.position() == d0.position() + 16 + 8 * i,
                16 + 8 * i <= s.len(),
                forall|j: int| 0 <= j < i ==> #[trigger] data@[j] == field(s, 16 + 8 * j, 8) as u8,
                forall|j: int| i <= j < NET_MAX_PAYLOAD_SIZE ==> #[trigger] data@[j] == 0,
            decreases n - i,
        {
            let ghost dk = *deserializer;
            let b = match deserializer.deserialize_u8() {
                Ok(b) => b,
                Err(e) => {
                    return Err(e);
                },
            };
            proof {
                assert(dk.next_bits(8) =~= s.subrange(16 + 8 * i, 16 + 8 * i + 8));
            }
            data[i] = b;
            i = i + 1;
        }
        let v = DataPayload { byte_count: n as u32, data };
        proof {
            assert(v.bytes() =~= bytes_at(s, 16, n as nat));
            let k = 16 + 8 * n;
            lemma_field_take(s, k, 0, 16);
            lemma_bytes_take(s, k, 16, n as nat);
            assert(d0.data().subrange(d0.position() as int, deserializer.position() as int) =~= s.take(k));
        }
        Ok(v)
    }
}

/// Reads the fields of a payload with tag `tag`.
fn deserialize_payload(tag: u8, deserializer: &mut Deserializer) -> (r: Result<MessagePayload, SerializationError>)
    requires
        old(deserializer).wf(),
    ensures
        deserialize_outcome(*old(deserializer), *final(deserializer)),
        match r {
            Ok(p) => {
                &&& decode_payload(remaining(*old(deserializer)), tag as int) == Ok::<PayloadView, SerializationError>(p.view())
                &&& final(deserializer).position() == old(deserializer).position() + payload_len(p.view())
                &&& p matches MessagePayload::Data(d) ==> d.byte_count < NET_MAX_PAYLOAD_SIZE
                    && forall|i: int| d.byte_count <= i < NET_MAX_PAYLOAD_SIZE ==> #[trigger] d.data@[i] == 0
            },
            Err(e) => decode_payload(remaining(*old(deserializer)), tag as int) == Err::<PayloadView, SerializationError>(e),
        },
{
    let ghost d3 = *deserializer;
    let ghost t = remaining(d3);
    proof {
        d3.lemma_position();
    }
    let payload = if tag == 0 {
        MessagePayload::Heartbeat
    } else if tag == 1 {
        let id = match deserializer.deserialize_u64() {
            Ok(v) => v,
            Err(e) => {
                return Err(e);
            },
        };
        proof {
            assert(d3.next_bits(64) =~= t.subrange(0, 64));
        }
        MessagePayload::ConnectionRequest(id)
    } else if tag == 2 {
        MessagePayload::ConnectionAccept
    } else if tag == 3 {
        proof {
            lemma2_to64();
            crate::network::serialization::lemma_bit_width(1);
            assert(crate::network::serialization::bit_width(1) == 1) by {
                reveal_with_fuel(crate::network::serialization::bit_width, 2);
            }
            lemma_value_of_bounds(d3.next_bits(1));
        }
        let code = match deserializer.deserialize_packed_u8(0, 1) {
            Ok(v) => v,
            Err(e) => {
                return Err(e);
            },
        };
        proof {
            let w = d3.next_bits(1);
            assert(w.drop_last() =~= Seq::<bool>::empty());
            assert(w[0] == t[0]);
            assert(w.last() == w[0]);
            assert(value_of(Seq::<bool>::empty()) == 0);
            assert(pow2(0) == 1);
            assert(value_of(w) == if t[0] { 1int } else { 0int });
            assert(code == value_of(w));
        }
        if code == 0 {
            MessagePayload::ConnectionReject(ConnectionRejectReason::ServerFull)
        } else {
            MessagePayload::ConnectionReject(ConnectionRejectReason::AlreadyConnected)
        }
    } else if tag == 4 {
        let id = match deserializer.deserialize_u64() {
            Ok(v) => v,
            Err(e) => {
                return Err(e);
            },
        };
        proof {
            assert(d3.next_bits(64) =~= t.subrange(0, 64));
        }
        MessagePayload::DisconnectNotice(id)
    } else if tag == 5 {
        let c = match <ChallengeData as Deserialize>::deserialize(deserializer) {
            Ok(v) => v,
            Err(e) => {
                return Err(e);
            },
        };
        proof {
            let bits = d3.data().subrange(d3.position() as int, deserializer.position() as int);
            assert forall|j: int| 0 <= j < 16 implies #[trigger] bytes_at(t, 0, 16)[j] == c@[j] by {
                assert(bits.subrange(8 * j, 8 * j + 8) =~= t.subrange(8 * j, 8 * j + 8));
            }
            assert(bytes_at(t, 0, 16) =~= c@);
        }
        MessagePayload::ChallengeRequest(c)
    } else if tag == 6 {
        let id = match deserializer.deserialize_u64() {
            Ok(v) => v,
            Err(e) => {
                return Err(e);
            },
        };
        proof {
            assert(d3.next_bits(64) =~= t.subrange(0, 64));
        }
        let ghost d4 = *deserializer;
        let c = match <ChallengeData as Deserialize>::deserialize(deserializer) {
            Ok(v) => v,
            Err(e) => {
                return Err(e);
            },
        };
        proof {
            let bits = d4.data().subrange(d4.position() as int, deserializer.position() as int);
            assert forall|j: int| 0 <= j < 16 implies #[trigger] bytes_at(t, 64, 16)[j] == c@[j] by {
                assert(bits.subrange(8 * j, 8 * j + 8) =~= t.subrange(64 + 8 * j, 64 + 8 * j + 8));
            }
            assert(bytes_at(t, 64, 16) =~= c@);
        }
        MessagePayload::ChallengeResponse(id, c)
    } else if tag == 10 {
        let p = match DataPayload::deserialize(deserializer) {
            Ok(v) => v,
            Err(e) => {
                return Err(e);
            },
        };
        MessagePayload::Data(p)
    } else {
        return Err(SerializationError::ValueOutOfRange);
    };
    Ok(payload)
}

impl Deserialize for Message {
    open spec fn decodes(bits: Seq<bool>, v: Self) -> bool {
        &&& decode_message(bits) == Ok::<MessageView, SerializationError>(v.view())
        &&& bits.len() == 48 + payload_len(v.view().payload)
        &&& v.payload matches MessagePayload::Data(p) ==> p.byte_count < NET_MAX_PAYLOAD_SIZE
            && forall|i: int| p.byte_count <= i < NET_MAX_PAYLOAD_SIZE ==> #[trigger] p.data@[i] == 0
    }

    /// The header, then the payload that its tag names.
    open spec fn read_len(bits: Seq<bool>) -> Result<nat, SerializationError> {
        match decode_message(bits) {
            Ok(view) => Ok(48 + payload_len(view.payload)),
            Err(e) => Err(e),
        }
    }

    /// Reads and checks the header, then reads the payload by its tag.
    fn deserialize(deserializer: &mut Deserializer) -> (r: Result<Self, SerializationError>)
        ensures
            match r {
                Ok(v) => {
                    &&& decode_message(remaining(*old(deserializer))) == Ok::<MessageView, SerializationError>(v.view())
                    &&& final(deserializer).position() == old(deserializer).position() + 48 + payload_len(v.view().payload)
                },
                Err(e) => decode_message(remaining(*old(deserializer))) == Err::<MessageView, SerializationError>(e),
            },
    {
        let ghost d0 = *deserializer;
        let ghost s = remaining(d0);
        proof {
            d0.lemma_position();
        }
        let protocol = match deserializer.deserialize_u32() {
            Ok(v) => v,
            Err(e) => {
                return Err(e);
            },
        };
        proof {
            assert(d0.next_bits(32) =~= s.subrange(0, 32));
        }
        if protocol != PROTOCOL_ID {
            return Err(SerializationError::InvalidProtocol);
        }
        let ghost d1 = *deserializer;
        let version = match deserializer.deserialize_u8() {
            Ok(v) => v,
            Err(e) => {
                return Err(e);
            },
        };
        proof {
            assert(d1.next_bits(8) =~= s.subrange(32, 40));
        }
        if version != 1 {
            return Err(SerializationError::InvalidVersion);
        }
        let ghost d2 = *deserializer;
        let tag = match deserializer.deserialize_u8() {
            Ok(v) => v,
            Err(e) => {
                return Err(e);
            },
        };
        let ghost d3 = *deserializer;
        proof {
            assert(d2.next_bits(8) =~= s.subrange(40, 48));
            assert(remaining(d3) =~= s.subrange(48, s.len() as int));
        }
        let payload = match deserialize_payload(tag, deserializer) {
            Ok(p) => p,
            Err(e) => {
                return Err(e);
            },
        };
        let m = Message { protocol, version, payload };
        proof {
            assert(decode_message(s) == Ok::<MessageView, SerializationError>(m.view()));
            let k = deserializer.position() - d0.position();
            lemma_decode_prefix(s, k);
            assert(d0.data().subrange(d0.position() as int, deserializer.position() as int) =~= s.take(k));
        }
        Ok(m)
    }
}

// ---------------------------------------------------------------------------------------------
// Packets
// ---------------------------------------------------------------------------------------------

/// The bits of words whose tail is zero are those of the head, then zeros.
proof fn lemma_words_bits_zero_tail(ws: Seq<u32>, n: int)
    requires
        0 <= n <= ws.len(),
        forall|i: int| n <= i < ws.len() ==> #[trigger] ws[i] == 0,
    ensures
        words_bits(ws) == words_bits(ws.take(n)) + zero_bits((32 * (ws.len() - n)) as nat),
{
    crate::bits::lemma_words_bits_take(ws, n);
    let a = words_bits(ws);
    let b = words_bits(ws.take(n)) + zero_bits((32 * (ws.len() - n)) as nat);
    assert forall|i: int| 0 <= i < a.len() implies #[trigger] a[i] == b[i] by {
        if i >= 32 * n {
            assert(i / 32 >= n);
            assert(ws[i / 32] == 0);
            vstd::arithmetic::power2::lemma_pow2_pos((i % 32) as nat);
            assert(0nat / pow2((i % 32) as nat) == 0);
        }
    }
    assert(a =~= b);
}

/// `n` zero words.
fn zero_words(n: usize) -> (r: Vec<u32>)
    ensures
        r@.len() == n,
        forall|i: int| 0 <= i < n ==> #[trigger] r@[i] == 0,
{
    let mut v: Vec<u32> = Vec::new();
    let mut i: usize = 0;
    while i < n
        invariant
            i <= n,
            v@.len() == i,
            forall|j: int| 0 <= j < i ==> #[trigger] v@[j] == 0,
        decreases n - i,
    {
        v.push(0);
        i = i + 1;
    }
    v
}

/// Writes the words as bytes, four little-endian bytes to a word.
fn fill_bytes<const N: usize>(words: &[u32], out: &mut [u8; N])
    requires
        N == 4 * words@.len(),
    ensures
        bytes_to_words_spec(final(out)@) == words@,
{
    let mut i: usize = 0;
    while i < words.len()
        invariant
            N == 4 * words@.len(),
            i <= words@.len(),
            out@.len() == N,
            forall|j: int| 0 <= j < i ==> #[trigger] bytes_to_words_spec(out@)[j] == words@[j],
        decreases words@.len() - i,
    {
        let w = words[i];
        let b0 = (w & 0xff) as u8;
        let b1 = ((w >> 8u32) & 0xff) as u8;
        let b2 = ((w >> 16u32) & 0xff) as u8;
        let b3 = ((w >> 24u32) & 0xff) as u8;
        proof {
            assert(w == b0 as u32 + 0x100 * (b1 as u32) + 0x1_0000 * (b2 as u32) + 0x100_0000 * (b3 as u32)) by (bit_vector)
                requires
                    b0 == (w & 0xff) as u8,
                    b1 == ((w >> 8u32) & 0xff) as u8,
                    b2 == ((w >> 16u32) & 0xff) as u8,
                    b3 == ((w >> 24u32) & 0xff) as u8,
            ;
        }
        let ghost before = out@;
        out[4 * i] = b0;
        out[4 * i + 1] = b1;
        out[4 * i + 2] = b2;
        out[4 * i + 3] = b3;
        proof {
            assert forall|j: int| 0 <= j <= i implies #[trigger] bytes_to_words_spec(out@)[j] == words@[j] by {
                if j < i {
                    assert(out@[4 * j] == before[4 * j]);
                    assert(out@[4 * j + 1] == before[4 * j + 1]);
                    assert(out@[4 * j + 2] == before[4 * j + 2]);
                    assert(out@[4 * j + 3] == before[4 * j + 3]);
                    assert(bytes_to_words_spec(before)[j] == words@[j]);
                }
            }
        }
        i = i + 1;
    }
    proof {
        assert(bytes_to_words_spec(out@) =~= words@);
    }
}

impl Message {
    /// Writes the message into a packet of `NET_MAX_PACKET_SIZE` bytes (32-bit words, little
    /// endian) and gives the packet with the number of bytes used, a whole number of words.
    /// Fails where the message does not fit (`BufferTooSmall`) or its data payload is too long
    /// (`ByteCountExceedsMaxSize`).
    pub fn create_packet(&self) -> (r: Result<([u8; 512], usize), SerializationError>)
        ensures
            r is Ok <==> self.serializable() && message_bits(self.view()).len() <= 8 * NET_MAX_PACKET_SIZE,
            r matches Err(e) ==> if self.serializable() {
                e == SerializationError::BufferTooSmall
            } else {
                e == SerializationError::ByteCountExceedsMaxSize
            },
            r matches Ok((bytes, size)) ==> {
                &&& size == 4 * ((message_bits(self.view()).len() + 31) / 32)
                &&& words_bits(bytes_to_words_spec(bytes@)) == message_bits(self.view()) + zero_bits(
                    (8 * NET_MAX_PACKET_SIZE - message_bits(self.view()).len()) as nat,
                )
            },
    {
        let mut serializer = Serializer::new(zero_words(128));
        let ghost s0 = serializer;
        proof {
            lemma2_to64();
        }
        match self.serialize(&mut serializer) {
            Ok(()) => {},
            Err(e) => {
                return Err(e);
            },
        }
        let ghost s1 = serializer;
        let n = match serializer.finish() {
            Ok(n) => n,
            Err(e) => {
                return Err(e);
            },
        };
        let words = serializer.into_buffer();
        let mut bytes = [0u8; 512];
        fill_bytes(words.as_slice(), &mut bytes);
        proof {
            assert forall|i: int| n <= i < words@.len() implies #[trigger] words@[i] == 0 by {
                assert(words@[i] == words@.skip(n as int)[i - n]);
                assert(s0.initial_words().skip(n as int)[i - n] == s0.initial_words()[i]);
            }
            let bits = message_bits(self.view());
            lemma_words_bits_zero_tail(words@, n as int);
            assert(words_bits(words@) =~= bits + zero_bits((4096 - bits.len()) as nat));
        }
        Ok((bytes, n * 4))
    }

    /// Reads a message from a packet, taken as little-endian 32-bit words (a last partial word
    /// padded with zero bytes).
    pub fn parse(packet: &[u8]) -> (r: Result<Message, SerializationError>)
        ensures
            match r {
                Ok(m) => decode_message(words_bits(bytes_to_words_spec(packet@))) == Ok::<MessageView, SerializationError>(m.view())
                    && m.zero_padded(),
                Err(e) => decode_message(words_bits(bytes_to_words_spec(packet@))) == Err::<MessageView, SerializationError>(e),
            },
    {
        let words = crate::network::serialization::bytes_to_words(packet);
        let mut deserializer = Deserializer::new(words.as_slice());
        proof {
            assert(remaining(deserializer) =~= words_bits(words@));
        }
        <Message as Deserialize>::deserialize(&mut deserializer)
    }
}


/// What building the data message of `data_payload` gives: a message of this protocol and
/// version whose payload holds the payload's bits, zero-filled, with its byte count rounded
/// up to whole words; refused where the payload cannot be written, where it does not fit in
/// `NET_MAX_PAYLOAD_SIZE` bytes (`BufferTooSmall`), or where its words fill them
/// (`ByteCountExceedsMaxSize`).
pub open spec fn data_message_built<S: Serialize>(data_payload: S, r: Result<Message, SerializationError>) -> bool {
    &&& r is Ok <==> data_payload.serializable() && data_payload.encoding().len() <= 8 * (NET_MAX_PAYLOAD_SIZE - 4)
    &&& data_payload.serializable() ==> (r matches Err(e) ==> if data_payload.encoding().len() > 8 * NET_MAX_PAYLOAD_SIZE {
        e == SerializationError::BufferTooSmall
    } else {
        e == SerializationError::ByteCountExceedsMaxSize
    })
    &&& r matches Ok(m) ==> m.protocol == PROTOCOL_ID && m.version == 1 && (m.payload matches MessagePayload::Data(p) && {
        &&& p.byte_count == 4 * ((data_payload.encoding().len() + 31) / 32)
        &&& words_bits(bytes_to_words_spec(p.data@)) == data_payload.encoding() + zero_bits(
            (8 * NET_MAX_PAYLOAD_SIZE - data_payload.encoding().len()) as nat,
        )
    })
}

impl Data {
    /// A data message that carries what `data_payload` writes, padded with zeros to whole
    /// 32-bit words. Fails where the payload cannot be written, where it does not fit in
    /// `NET_MAX_PAYLOAD_SIZE` bytes (`BufferTooSmall`), or where its words fill them
    /// (`ByteCountExceedsMaxSize`).
    pub fn build_message<S: Serialize>(data_payload: S) -> (r: Result<Message, SerializationError>)
        ensures
            data_message_built(data_payload, r),
    {
        let mut serializer = Serializer::new(zero_words(126));
        let ghost s0 = serializer;
        match data_payload.serialize(&mut serializer) {
            Ok(()) => {},
            Err(e) => {
                return Err(e);
            },
        }
        let packet_size = match serializer.finish() {
            Ok(n) => n,
            Err(e) => {
                return Err(e);
            },
        };
        let byte_count = (packet_size * 4) as u32;
        if byte_count as usize >= NET_MAX_PAYLOAD_SIZE {
            return Err(SerializationError::ByteCountExceedsMaxSize);
        }
        let words = serializer.into_buffer();
        let mut data = [0u8; 504];
        fill_bytes(words.as_slice(), &mut data);
        proof {
            let bits = data_payload.encoding();
            assert forall|i: int| packet_size <= i < words@.len() implies #[trigger] words@[i] == 0 by {
                assert(words@[i] == words@.skip(packet_size as int)[i - packet_size]);
                assert(s0.initial_words().skip(packet_size as int)[i - packet_size] == s0.initial_words()[i]);
            }
            lemma_words_bits_zero_tail(words@, packet_size as int);
            assert(words_bits(words@) =~= bits + zero_bits((4032 - bits.len()) as nat));
        }
        Ok(Message {
            protocol: PROTOCOL_ID,
            version: 1,
            payload: MessagePayload::Data(DataPayload { byte_count, data }),
        })
    }
}

/// Round trip of packets: a packet that holds the bits of a message of this protocol's id and
/// version, then zeros, reads back as that message, whole or cut after the words that hold the
/// message (as `create_packet` gives it).
pub proof fn lemma_packet_round_trip(m: MessageView, packet: Seq<u8>, size: int)
    requires
        m.protocol == PROTOCOL_ID,
        m.version == 1,
        payload_fits(m.payload),
        packet.len() == NET_MAX_PACKET_SIZE,
        message_bits(m).len() <= 8 * NET_MAX_PACKET_SIZE,
        words_bits(bytes_to_words_spec(packet)) == message_bits(m) + zero_bits(
            (8 * NET_MAX_PACKET_SIZE - message_bits(m).len()) as nat,
        ),
        size == 4 * ((message_bits(m).len() + 31) / 32),
    ensures
        decode_message(words_bits(bytes_to_words_spec(packet))) == Ok::<MessageView, SerializationError>(m),
        decode_message(words_bits(bytes_to_words_spec(packet.take(size)))) == Ok::<MessageView, SerializationError>(m),
{
    let bits = message_bits(m);
    let len = bits.len() as int;
    lemma_message_round_trip(m, zero_bits((8 * NET_MAX_PACKET_SIZE - len) as nat));
    let k = (len + 31) / 32;
    let w = bytes_to_words_spec(packet);
    let wk = bytes_to_words_spec(packet.take(size));
    assert(wk.len() == k);
    assert forall|i: int| 0 <= i < k implies #[trigger] wk[i] == w.take(k)[i] by {
        assert(4 * i + 3 < size);
    }
    assert(wk =~= w.take(k));
    crate::bits::lemma_words_bits_take(w, k);
    let rest = zero_bits((32 * k - len) as nat);
    assert(words_bits(w).take(32 * k) =~= bits + rest);
    lemma_message_round_trip(m, rest);
}

} // verus!
