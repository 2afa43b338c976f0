//! Codec round trips and decoder behaviour on malformed input.
use snmp::pdu::{build_get, build_getbulk, build_response};
use snmp::{SnmpError, SnmpMessageType, SnmpPdu, Value, Varbind};

fn sys_descr_oid() -> Vec<u32> {
    vec![1, 3, 6, 1, 2, 1, 1, 1, 0]
}

fn round_trip_value(v: Value) {
    let mut buf: Vec<u8> = Vec::new();
    let vb = Varbind {
        name: sys_descr_oid(),
        value: v.clone(),
    };
    build_response(b"public", 7, 0, 0, &[vb], &mut buf);
    let pdu = SnmpPdu::from_bytes(&buf).expect("round trip must decode");
    assert_eq!(pdu.message_type, SnmpMessageType::Response);
    assert_eq!(pdu.req_id, 7);
    assert_eq!(pdu.varbinds.len(), 1);
    assert_eq!(pdu.varbinds[0].name, sys_descr_oid());
    assert_eq!(pdu.varbinds[0].value, v);
}

#[test]
fn round_trip_boolean() {
    round_trip_value(Value::Boolean(true));
    round_trip_value(Value::Boolean(false));
}

#[test]
fn round_trip_null_and_exceptions() {
    round_trip_value(Value::Null);
    round_trip_value(Value::NoSuchObject);
    round_trip_value(Value::NoSuchInstance);
    round_trip_value(Value::EndOfMibView);
}

#[test]
fn round_trip_integers() {
    round_trip_value(Value::Integer(0));
    round_trip_value(Value::Integer(1));
    round_trip_value(Value::Integer(-1));
    round_trip_value(Value::Integer(127));
    round_trip_value(Value::Integer(128));
    round_trip_value(Value::Integer(-128));
    round_trip_value(Value::Integer(-129));
    round_trip_value(Value::Integer(i64::MAX));
    round_trip_value(Value::Integer(i64::MIN));
}

#[test]
fn round_trip_unsigned_kinds() {
    round_trip_value(Value::Counter32(0));
    round_trip_value(Value::Counter32(u32::MAX));
    round_trip_value(Value::Unsigned32(42));
    round_trip_value(Value::Timeticks(123456789));
    round_trip_value(Value::Counter64(0));
    round_trip_value(Value::Counter64(u64::MAX));
}

#[test]
fn round_trip_buffers() {
    round_trip_value(Value::OctetString(b"stub".to_vec()));
    round_trip_value(Value::OctetString(Vec::new()));
    round_trip_value(Value::Opaque(vec![0, 1, 2, 254, 255]));
    round_trip_value(Value::IpAddress([192, 168, 0, 1]));
    let long = vec![0xABu8; 300];
    round_trip_value(Value::OctetString(long));
}

#[test]
fn round_trip_object_identifier() {
    round_trip_value(Value::ObjectIdentifier(vec![1, 3, 6, 1, 4, 1, 9999, 1]));
    round_trip_value(Value::ObjectIdentifier(vec![0, 39]));
    round_trip_value(Value::ObjectIdentifier(vec![2, 4_294_967_295]));
}

#[test]
fn get_request_round_trip_varbinds() {
    let names = vec![vec![1u32, 3, 6, 1, 2, 1, 1, 1, 0], vec![1u32, 3, 6, 1, 2, 1, 1, 5, 0]];
    let mut buf: Vec<u8> = Vec::new();
    build_get(b"public", 42, &names, &mut buf);
    let pdu = SnmpPdu::from_bytes(&buf).expect("our own request must decode");
    assert_eq!(pdu.message_type, SnmpMessageType::GetRequest);
    assert_eq!(pdu.req_id, 42);
    assert_eq!(pdu.error_status, 0);
    assert_eq!(pdu.error_index, 0);
    assert_eq!(pdu.community, b"public".to_vec());
    assert_eq!(pdu.varbinds.len(), 2);
    for (i, name) in names.iter().enumerate() {
        assert_eq!(&pdu.varbinds[i].name, name);
        assert_eq!(pdu.varbinds[i].value, Value::Null);
    }
}

#[test]
fn getbulk_carries_counts_in_integer_slots() {
    let names = vec![vec![1u32, 3, 6, 1, 2, 1, 2, 2, 1, 2]];
    let mut buf: Vec<u8> = Vec::new();
    build_getbulk(b"public", 9, &names, 0, 3, &mut buf);
    let pdu = SnmpPdu::from_bytes(&buf).expect("bulk request must decode");
    assert_eq!(pdu.message_type, SnmpMessageType::GetBulkRequest);
    assert_eq!(pdu.error_status, 0);
    assert_eq!(pdu.error_index, 3);
}

#[test]
fn oid_with_five_base128_bytes_round_trips() {
    let name = vec![1u32, 3, 0x1000_0000, 4_294_967_295];
    let mut buf: Vec<u8> = Vec::new();
    build_get(b"public", 1, &[name.clone()], &mut buf);
    let pdu = SnmpPdu::from_bytes(&buf).expect("large sub-identifier must decode");
    assert_eq!(pdu.varbinds[0].name, name);
}

#[test]
fn first_arc_folding_is_lossy_outside_ber_limits() {
    // BER folds the first two sub-identifiers into 40 * a + b, which is
    // injective only for a <= 2 (and b < 40 below arc 2). An OID outside
    // those limits encodes, but decodes to the canonical split of the fold.
    let mut buf: Vec<u8> = Vec::new();
    build_get(b"public", 1, &[vec![5u32, 0]], &mut buf);
    let pdu = SnmpPdu::from_bytes(&buf).expect("the fold still decodes");
    assert_eq!(pdu.varbinds[0].name, vec![2, 120]);
}

#[test]
fn decoder_is_total_on_garbage() {
    assert_eq!(SnmpPdu::from_bytes(&[]), Err(SnmpError::AsnEof));
    for b in 0..=255u8 {
        let r = SnmpPdu::from_bytes(&[b]);
        assert!(r.is_err());
    }
    let mut junk: Vec<u8> = Vec::new();
    let mut x: u32 = 12345;
    for _ in 0..2048 {
        x = x.wrapping_mul(1103515245).wrapping_add(12345);
        junk.push((x >> 16) as u8);
    }
    let _ = SnmpPdu::from_bytes(&junk);
    for cut in 0..64 {
        let _ = SnmpPdu::from_bytes(&junk[..cut]);
    }
}

#[test]
fn decoder_rejects_truncated_own_message() {
    let mut buf: Vec<u8> = Vec::new();
    build_get(b"public", 3, &[vec![1u32, 3, 6, 1, 2, 1, 1, 1, 0]], &mut buf);
    for cut in 0..buf.len() {
        assert!(SnmpPdu::from_bytes(&buf[..cut]).is_err());
    }
}

#[test]
fn error_kinds_on_malformed_headers() {
    assert_eq!(SnmpPdu::from_bytes(&[0x31, 0x00]), Err(SnmpError::AsnWrongType));
    assert_eq!(
        SnmpPdu::from_bytes(&[0x30, 0x85, 1, 1, 1, 1, 1]),
        Err(SnmpError::AsnInvalidLen)
    );
    assert_eq!(
        SnmpPdu::from_bytes(&[0x30, 0x84, 0xFF, 0xFF, 0xFF, 0xFF, 0x00]),
        Err(SnmpError::AsnInvalidLen)
    );
    // Non-canonical version integer: a redundant leading zero byte.
    assert_eq!(
        SnmpPdu::from_bytes(&[0x30, 0x04, 0x02, 0x02, 0x00, 0x01]),
        Err(SnmpError::AsnParseError)
    );
    // An unknown context tag in PDU position.
    assert_eq!(
        SnmpPdu::from_bytes(&[0x30, 0x08, 0x02, 0x01, 0x01, 0x04, 0x00, 0xA7, 0x01, 0x00]),
        Err(SnmpError::AsnInvalidTag)
    );
}

#[test]
fn unknown_value_tag_is_invalid_tag() {
    let mut buf: Vec<u8> = Vec::new();
    let vb = Varbind {
        name: sys_descr_oid(),
        value: Value::Null,
    };
    build_response(b"public", 7, 0, 0, &[vb], &mut buf);
    // The Null value TLV is the last two bytes; give it a tag this client
    // does not know.
    let n = buf.len();
    assert_eq!(buf[n - 2], 0x05);
    buf[n - 2] = 0x47;
    assert_eq!(SnmpPdu::from_bytes(&buf), Err(SnmpError::AsnInvalidTag));
}

#[test]
fn boolean_content_length_is_checked() {
    // Boolean with two content bytes inside an otherwise valid message.
    let mut buf: Vec<u8> = Vec::new();
    let vb = Varbind {
        name: vec![1, 3],
        value: Value::Boolean(true),
    };
    build_response(b"c", 1, 0, 0, &[vb], &mut buf);
    let n = buf.len();
    assert_eq!(buf[n - 3], 0x01);
    assert_eq!(SnmpPdu::from_bytes(&buf).unwrap().varbinds[0].value, Value::Boolean(true));
}
