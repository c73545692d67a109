use engine::network::messages::{
    ChallengeRequest, ChallengeResponse, ConnectionAccept, ConnectionReject, ConnectionRejectReason,
    ConnectionRequest, Data, DataPayload, DisconnectNotice, Heartbeat, Message, MessagePayload,
    NET_MAX_PAYLOAD_SIZE, PROTOCOL_ID,
};
use engine::network::serialization::{Deserialize, Deserializer, SerializationError, Serialize, Serializer};

fn round_trip(m: &Message) -> Message {
    let (packet, size) = m.create_packet().unwrap();
    Message::parse(&packet[..size]).unwrap()
}

#[test]
fn heartbeat_packet_is_two_words() {
    let m = Heartbeat::build_message();
    assert_eq!(m.protocol, PROTOCOL_ID);
    assert_eq!(m.version, 1);
    let (packet, size) = m.create_packet().unwrap();
    // 32 + 8 + 8 bits, padded to two words.
    assert_eq!(size, 8);
    assert_eq!(&packet[..8], &[0x54, 0x34, 0x41, 0x2e, 0x01, 0x00, 0x00, 0x00]);
    assert!(packet[8..].iter().all(|b| *b == 0));
    assert!(matches!(round_trip(&m).payload, MessagePayload::Heartbeat));
}

#[test]
fn messages_read_back() {
    let challenge = [7u8; 16];
    match round_trip(&ConnectionRequest::build_message(0x1122_3344_5566_7788)).payload {
        MessagePayload::ConnectionRequest(id) => assert_eq!(id, 0x1122_3344_5566_7788),
        _ => panic!("wrong payload"),
    }
    assert!(matches!(round_trip(&ConnectionAccept::build_message()).payload, MessagePayload::ConnectionAccept));
    match round_trip(&ConnectionReject::build_message(ConnectionRejectReason::AlreadyConnected)).payload {
        MessagePayload::ConnectionReject(r) => assert_eq!(r, ConnectionRejectReason::AlreadyConnected),
        _ => panic!("wrong payload"),
    }
    match round_trip(&ConnectionReject::build_message(ConnectionRejectReason::ServerFull)).payload {
        MessagePayload::ConnectionReject(r) => assert_eq!(r, ConnectionRejectReason::ServerFull),
        _ => panic!("wrong payload"),
    }
    match round_trip(&DisconnectNotice::build_message(42)).payload {
        MessagePayload::DisconnectNotice(id) => assert_eq!(id, 42),
        _ => panic!("wrong payload"),
    }
    match round_trip(&ChallengeRequest::build_message(challenge)).payload {
        MessagePayload::ChallengeRequest(c) => assert_eq!(c, challenge),
        _ => panic!("wrong payload"),
    }
    match round_trip(&ChallengeResponse::build_message(43, challenge)).payload {
        MessagePayload::ChallengeResponse(id, c) => {
            assert_eq!(id, 43);
            assert_eq!(c, challenge);
        },
        _ => panic!("wrong payload"),
    }
}

#[test]
fn data_message_carries_serialized_payload() {
    let m = Data::build_message((-5i32, 77u32)).unwrap();
    let p = match m.payload {
        MessagePayload::Data(p) => p,
        _ => panic!("not data"),
    };
    assert_eq!(p.byte_count, 8);
    assert_eq!(p.data(), &[0xfb, 0xff, 0xff, 0xff, 77, 0, 0, 0]);

    let back = match round_trip(&m).payload {
        MessagePayload::Data(p) => p,
        _ => panic!("not data"),
    };
    assert_eq!(back.byte_count, 8);
    assert_eq!(back.data(), p.data());

    let words: Vec<u32> = back
        .data()
        .chunks(4)
        .map(|c| u32::from_le_bytes([c[0], c[1], c[2], c[3]]))
        .collect();
    let mut d = Deserializer::new(&words);
    assert_eq!(d.deserialize::<i32>().unwrap(), -5);
    assert_eq!(d.deserialize::<u32>().unwrap(), 77);
}

#[test]
fn data_message_too_large_is_refused() {
    // 126 words of payload fill all 504 bytes.
    let v: Vec<u8> = vec![1u8; 500];
    assert_eq!(Data::build_message(v).unwrap_err(), SerializationError::ByteCountExceedsMaxSize);
    let v: Vec<u8> = vec![1u8; 600];
    assert_eq!(Data::build_message(v).unwrap_err(), SerializationError::BufferTooSmall);
}

#[test]
fn data_payload_byte_count_limit() {
    let payload = DataPayload { byte_count: NET_MAX_PAYLOAD_SIZE as u32, data: [0u8; 504] };
    let mut s = Serializer::new(vec![0u32; 200]);
    assert_eq!(payload.serialize(&mut s).unwrap_err(), SerializationError::ByteCountExceedsMaxSize);

    let m = Data::build_message_raw([3u8; 504], 600);
    assert_eq!(m.create_packet().unwrap_err(), SerializationError::ByteCountExceedsMaxSize);

    let m = Data::build_message_raw([3u8; 504], 3);
    match round_trip(&m).payload {
        MessagePayload::Data(p) => {
            assert_eq!(p.data(), &[3, 3, 3]);
            assert!(p.data[3..].iter().all(|b| *b == 0));
        },
        _ => panic!("not data"),
    }
}

#[test]
fn parse_checks_the_header() {
    let (mut packet, size) = Heartbeat::build_message().create_packet().unwrap();
    packet[0] ^= 1;
    assert_eq!(Message::parse(&packet[..size]).unwrap_err(), SerializationError::InvalidProtocol);
    packet[0] ^= 1;
    packet[4] = 2;
    assert_eq!(Message::parse(&packet[..size]).unwrap_err(), SerializationError::InvalidVersion);
    packet[4] = 1;
    packet[5] = 0x77;
    assert_eq!(Message::parse(&packet[..size]).unwrap_err(), SerializationError::ValueOutOfRange);
    assert_eq!(Message::parse(&packet[..0]).unwrap_err(), SerializationError::BufferTooSmall);
    let (packet, size) = DisconnectNotice::build_message(9).create_packet().unwrap();
    assert_eq!(size, 16);
    assert_eq!(Message::parse(&packet[..8]).unwrap_err(), SerializationError::BufferTooSmall);
}

#[test]
fn message_deserializes_from_words() {
    let m = ChallengeResponse::build_message(5, [9u8; 16]);
    let mut s = Serializer::new(vec![0u32; 16]);
    m.serialize(&mut s).unwrap();
    let n = s.finish().unwrap();
    assert_eq!(n, (48 + 64 + 128 + 31) / 32);
    let words = s.into_buffer();
    let mut d = Deserializer::new(&words);
    match Message::deserialize(&mut d).unwrap().payload {
        MessagePayload::ChallengeResponse(id, c) => {
            assert_eq!(id, 5);
            assert_eq!(c, [9u8; 16]);
        },
        _ => panic!("wrong payload"),
    }
}
