use engine::network::serialization::{Serializer, Deserializer, Serialize, Deserialize, SerializationError};

#[test]
fn serialization_deserialization() {
    let buffer = vec![0u32; 23];

    // serialize

    let mut serializer = Serializer::new(buffer);

    let v = true;
    v.serialize(&mut serializer).unwrap();

    let v = -1i8;
    v.serialize(&mut serializer).unwrap();
    let v = 1u8;
    v.serialize(&mut serializer).unwrap();

    let v = -0x1122i16;
    v.serialize(&mut serializer).unwrap();
    let v = 0xaabbu16;
    v.serialize(&mut serializer).unwrap();

    let v = -0x11223344i32;
    v.serialize(&mut serializer).unwrap();
    let v = 0xaabbccddu32;
    v.serialize(&mut serializer).unwrap();

    let v = -0x1122334455667788i64;
    v.serialize(&mut serializer).unwrap();
    let v = 0xaabbccddeeff0011u64;
    v.serialize(&mut serializer).unwrap();

    let v = -0x1122334455667788_99aabbccddeeff00i128;
    v.serialize(&mut serializer).unwrap();
    let v = 0xaabbccddeeff0011_2233445566778899u128;
    v.serialize(&mut serializer).unwrap();

    let v = -10i8;
    serializer.serialize_packed_i8(-20, 20, v).unwrap();
    let v = 10u8;
    serializer.serialize_packed_u8(5, 20, v).unwrap();

    let v = -0x1122i16;
    serializer.serialize_packed_i16(-0x2233, 0x2233, v).unwrap();
    let v = 0xaabbu16;
    serializer.serialize_packed_u16(0x1122, 0xddee, v).unwrap();

    let v = -0x11223344i32;
    serializer.serialize_packed_i32(-0x22334455, 0x22334455, v).unwrap();
    let v = 0xaabbccddu32;
    serializer.serialize_packed_u32(0x11223344, 0xddccbbaa, v).unwrap();

    let v = -0x11223344_55667788i64;
    serializer.serialize_packed_i64(-0x22334455_66778899, 0x22334455_66778899, v).unwrap();
    let v = 0xaabbccdd_eeff0011u64;
    serializer.serialize_packed_u64(0x11223344_55667788, 0xddccbbaa_99887766, v).unwrap();

    assert_eq!(serializer.finish().unwrap(), 23);

    let buffer = serializer.into_buffer();

    // deserialize

    let mut deserializer = Deserializer::new(&buffer);

    let v = bool::deserialize(&mut deserializer).unwrap();
    assert_eq!(v, true);

    let v = i8::deserialize(&mut deserializer).unwrap();
    assert_eq!(v, -1i8);
    let v = u8::deserialize(&mut deserializer).unwrap();
    assert_eq!(v, 1u8);

    let v = i16::deserialize(&mut deserializer).unwrap();
    assert_eq!(v, -0x1122i16);
    let v = u16::deserialize(&mut deserializer).unwrap();
    assert_eq!(v, 0xaabbu16);

    let v = i32::deserialize(&mut deserializer).unwrap();
    assert_eq!(v, -0x11223344i32);
    let v = u32::deserialize(&mut deserializer).unwrap();
    assert_eq!(v, 0xaabbccddu32);

    let v = i64::deserialize(&mut deserializer).unwrap();
    assert_eq!(v, -0x1122334455667788i64);
    let v = u64::deserialize(&mut deserializer).unwrap();
    assert_eq!(v, 0xaabbccddeeff0011u64);

    let v = i128::deserialize(&mut deserializer).unwrap();
    assert_eq!(v, -0x1122334455667788_99aabbccddeeff00i128);
    let v = u128::deserialize(&mut deserializer).unwrap();
    assert_eq!(v, 0xaabbccddeeff0011_2233445566778899u128);

    let v = deserializer.deserialize_packed_i8(-20, 20).unwrap();
    assert_eq!(v, -10i8);
    let v = deserializer.deserialize_packed_u8(5, 20).unwrap();
    assert_eq!(v, 10u8);

    let v = deserializer.deserialize_packed_i16(-0x2233, 0x2233).unwrap();
    assert_eq!(v, -0x1122i16);
    let v = deserializer.deserialize_packed_u16(0x1122, 0xddee).unwrap();
    assert_eq!(v, 0xaabbu16);

    let v = deserializer.deserialize_packed_i32(-0x22334455, 0x22334455).unwrap();
    assert_eq!(v, -0x11223344i32);
    let v = deserializer.deserialize_packed_u32(0x11223344, 0xddccbbaa).unwrap();
    assert_eq!(v, 0xaabbccddu32);

    let v = deserializer.deserialize_packed_i64(-0x22334455_66778899, 0x22334455_66778899).unwrap();
    assert_eq!(v, -0x11223344_55667788i64);
    let v = deserializer.deserialize_packed_u64(0x11223344_55667788, 0xddccbbaa_99887766).unwrap();
    assert_eq!(v, 0xaabbccdd_eeff0011u64);
}

#[test]
fn packed_signed_ranges_wider_than_the_type() {
    // -100..=100 spans 200 values: eight bits, more than an i8 holds from zero.
    let mut serializer = Serializer::new(vec![0u32; 2]);
    serializer.serialize_packed_i8(-100, 100, -50).unwrap();
    serializer.serialize_packed_i8(-100, 100, 27).unwrap();
    assert_eq!(serializer.serialize_packed_i8(-100, 100, 101), Err(SerializationError::ValueOutOfRange));
    // A raw 200 is past what an i8 holds.
    200u8.serialize(&mut serializer).unwrap();
    assert_eq!(serializer.finish(), Ok(1));
    let buffer = serializer.into_buffer();
    assert_eq!(buffer[0], 50 | (127 << 8) | (200 << 16));
    let mut deserializer = Deserializer::new(&buffer);
    assert_eq!(deserializer.deserialize_packed_i8(-100, 100), Ok(-50));
    assert_eq!(deserializer.deserialize_packed_i8(-100, 100), Ok(27));
    assert_eq!(deserializer.deserialize_packed_i8(-100, 100), Err(SerializationError::ValueOutOfRange));
}

#[test]
fn finish_twice_gives_the_same_count() {
    let mut serializer = Serializer::new(vec![7u32; 3]);
    0x1234u16.serialize(&mut serializer).unwrap();
    true.serialize(&mut serializer).unwrap();
    assert_eq!(serializer.finish(), Ok(1));
    let first = serializer.buffer().clone();
    assert_eq!(serializer.finish(), Ok(1));
    assert_eq!(serializer.buffer(), &first);
    assert_eq!(first, vec![0x1234 | (1 << 16), 7, 7]);
}
