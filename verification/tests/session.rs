//! Session bookkeeping: request-id sequencing, reply validation, the
//! builder, and broadcast reply filtering.
use snmp::pdu::build_response;
use snmp::sync::collect_valid_responses;
use snmp::{
    handle_response, ResponseItemInt, SessionCore, SnmpError, SnmpMessageType, SyncSessionBuilder,
    Value, Varbind, BUFFER_SIZE,
};

fn sys_descr_oid() -> Vec<u32> {
    vec![1, 3, 6, 1, 2, 1, 1, 1, 0]
}

#[test]
fn request_ids_increase_by_one() {
    let mut core = SessionCore::new(None, 5);
    let names = vec![sys_descr_oid()];
    assert_eq!(core.prepare_get(&names), 5);
    assert_eq!(core.prepare_get(&names), 6);
    assert_eq!(core.prepare_getnext(&sys_descr_oid()), 7);
    assert_eq!(core.prepare_getbulk(&names, 0, 3), 8);
    assert_eq!(core.req_id, 9);
}

#[test]
fn request_id_wraps_at_signed_boundary() {
    let mut core = SessionCore::new(None, i32::MAX);
    let names = vec![sys_descr_oid()];
    assert_eq!(core.prepare_get(&names), i32::MAX);
    assert_eq!(core.prepare_get(&names), i32::MIN);
    assert_eq!(core.req_id, i32::MIN + 1);
}

#[test]
fn builder_collects_configuration() {
    let b: SyncSessionBuilder<&str, &[u8]> = SyncSessionBuilder::new("127.0.0.1:161");
    assert!(b.community.is_none());
    assert!(b.timeout_ms.is_none());
    assert_eq!(b.req_id, 0);
    let b = b.community(b"private".as_slice()).timeout(50).req_id(9);
    assert_eq!(b.destination, "127.0.0.1:161");
    assert_eq!(b.community, Some(b"private".as_slice()));
    assert_eq!(b.timeout_ms, Some(50));
    assert_eq!(b.req_id, 9);
}

#[test]
fn default_community_is_public() {
    let core = SessionCore::new(None, 0);
    assert_eq!(core.community, b"public".to_vec());
    let core = SessionCore::new(Some(b"secret".to_vec()), 0);
    assert_eq!(core.community, b"secret".to_vec());
}

#[test]
fn get_sysdescr_against_stub_reply() {
    let mut core = SessionCore::new(None, 17);
    let rid = core.prepare_get(&[sys_descr_oid()]);
    assert!(core.send_pdu.len() <= BUFFER_SIZE);
    // The stub agent answers with one OctetString varbind.
    let reply_vb = Varbind {
        name: sys_descr_oid(),
        value: Value::OctetString(b"stub".to_vec()),
    };
    let mut reply: Vec<u8> = Vec::new();
    build_response(b"public", rid, 0, 0, &[reply_vb], &mut reply);
    let pdu = handle_response(rid, &core.community, &reply).expect("stub reply must validate");
    assert_eq!(pdu.message_type, SnmpMessageType::Response);
    assert_eq!(pdu.error_status, 0);
    assert_eq!(pdu.error_index, 0);
    assert_eq!(pdu.varbinds.len(), 1);
    assert_eq!(pdu.varbinds[0].name, sys_descr_oid());
    assert_eq!(pdu.varbinds[0].value, Value::OctetString(b"stub".to_vec()));
}

#[test]
fn request_id_mismatch_is_rejected() {
    let mut core = SessionCore::new(None, 100);
    let rid = core.prepare_get(&[sys_descr_oid()]);
    let mut reply: Vec<u8> = Vec::new();
    // A crafted datagram with the previous request-id.
    build_response(b"public", rid - 1, 0, 0, &[], &mut reply);
    assert_eq!(
        handle_response(rid, &core.community, &reply),
        Err(SnmpError::RequestIdMismatch)
    );
}

#[test]
fn community_mismatch_is_rejected() {
    let mut core = SessionCore::new(None, 1);
    let rid = core.prepare_get(&[sys_descr_oid()]);
    let mut reply: Vec<u8> = Vec::new();
    build_response(b"private", rid, 0, 0, &[], &mut reply);
    assert_eq!(
        handle_response(rid, &core.community, &reply),
        Err(SnmpError::CommunityMismatch)
    );
}

#[test]
fn non_response_pdu_is_wrong_type() {
    let mut core = SessionCore::new(None, 1);
    let rid = core.prepare_get(&[sys_descr_oid()]);
    // Feed the request itself back: right id and community, wrong PDU tag.
    let sent = core.send_pdu.clone();
    assert_eq!(handle_response(rid, &core.community, &sent), Err(SnmpError::AsnWrongType));
}

#[test]
fn set_rejects_exception_value_before_sending() {
    let mut core = SessionCore::new(None, 30);
    let vb = Varbind {
        name: sys_descr_oid(),
        value: Value::NoSuchInstance,
    };
    let r = core.prepare_set(&[vb]);
    assert_eq!(r, Err(SnmpError::UnsupportedValueType));
    // Nothing was built, so nothing could have been sent.
    assert!(core.send_pdu.is_empty());
    // The counter still advanced, as it does for every operation.
    assert_eq!(core.req_id, 31);
}

#[test]
fn set_accepts_plain_values() {
    let mut core = SessionCore::new(None, 30);
    let vb = Varbind {
        name: sys_descr_oid(),
        value: Value::Integer(5),
    };
    let r = core.prepare_set(&[vb]);
    assert_eq!(r, Ok(30));
    assert!(!core.send_pdu.is_empty());
}

#[test]
fn broadcast_filter_keeps_valid_replies_in_order() {
    let rid: i32 = 77;
    let community = b"public".to_vec();
    let mut raw: Vec<ResponseItemInt> = Vec::new();
    for i in 1..=5u8 {
        let vb = Varbind {
            name: sys_descr_oid(),
            value: Value::Integer(i as i64),
        };
        let mut reply: Vec<u8> = Vec::new();
        build_response(&community, rid, 0, 0, &[vb], &mut reply);
        raw.push(ResponseItemInt {
            address: format!("10.0.0.{}", i),
            data: reply,
        });
    }
    // A reply with the wrong community, one with the wrong id, and garbage:
    // all dropped silently.
    let mut bad1: Vec<u8> = Vec::new();
    build_response(b"private", rid, 0, 0, &[], &mut bad1);
    raw.insert(2, ResponseItemInt { address: "10.0.0.250".to_string(), data: bad1 });
    let mut bad2: Vec<u8> = Vec::new();
    build_response(&community, rid - 1, 0, 0, &[], &mut bad2);
    raw.push(ResponseItemInt { address: "10.0.0.251".to_string(), data: bad2 });
    raw.push(ResponseItemInt { address: "10.0.0.252".to_string(), data: vec![0xDE, 0xAD] });

    let kept = collect_valid_responses(rid, &community, &raw);
    assert_eq!(kept.len(), 5);
    for (i, item) in kept.iter().enumerate() {
        assert_eq!(item.address, format!("10.0.0.{}", i + 1));
        assert_eq!(item.data.varbinds[0].value, Value::Integer((i + 1) as i64));
    }
}

#[test]
fn broadcast_filter_keeps_duplicate_sources() {
    let rid: i32 = 8;
    let community = b"public".to_vec();
    let mut reply: Vec<u8> = Vec::new();
    build_response(&community, rid, 0, 0, &[], &mut reply);
    let raw = vec![
        ResponseItemInt { address: "10.0.0.1".to_string(), data: reply.clone() },
        ResponseItemInt { address: "10.0.0.1".to_string(), data: reply },
    ];
    let kept = collect_valid_responses(rid, &community, &raw);
    assert_eq!(kept.len(), 2);
}
