//! SNMP PDU codec: the typed value tree, the request builders, and the
//! response parser.
//!
//! Requests and responses share one envelope: an outer `Sequence` holding the
//! version, the community octet string, and a context-tagged PDU with the
//! request-id, two integer slots, and the variable-binding list.
use vstd::prelude::*;

use crate::ber::{
    decode_int, decode_oid, decode_u32, decode_u64, int_content, lemma_int_rt, lemma_oid_rt,
    lemma_tlv_rt, oid_content, push_int_content, push_oid_content, push_tlv, push_uint_content,
    read_tlv, sp_int_range, sp_oid, sp_read_tlv, tlv, valid_oid,
};
use crate::{SnmpError, SnmpMessageType, SnmpResult};

verus! {

pub const TAG_BOOLEAN: u8 = 0x01;

pub const TAG_INTEGER: u8 = 0x02;

pub const TAG_OCTET_STRING: u8 = 0x04;

pub const TAG_NULL: u8 = 0x05;

pub const TAG_OBJECT_ID: u8 = 0x06;

pub const TAG_SEQUENCE: u8 = 0x30;

pub const TAG_IP_ADDRESS: u8 = 0x40;

pub const TAG_COUNTER32: u8 = 0x41;

pub const TAG_UNSIGNED32: u8 = 0x42;

pub const TAG_TIMETICKS: u8 = 0x43;

pub const TAG_OPAQUE: u8 = 0x44;

pub const TAG_COUNTER64: u8 = 0x46;

pub const TAG_GET_REQUEST: u8 = 0xA0;

pub const TAG_GET_NEXT_REQUEST: u8 = 0xA1;

pub const TAG_RESPONSE: u8 = 0xA2;

pub const TAG_SET_REQUEST: u8 = 0xA3;

pub const TAG_GET_BULK_REQUEST: u8 = 0xA5;

pub const TAG_NO_SUCH_OBJECT: u8 = 0x80;

pub const TAG_NO_SUCH_INSTANCE: u8 = 0x81;

pub const TAG_END_OF_MIB_VIEW: u8 = 0x82;

/// Wire value of the version field for SNMPv2c.
pub const SNMP_VERSION_2C: i64 = 1;

/// A typed SNMP value, one case for each wire-distinct BER tag.
#[derive(Clone, Debug, PartialEq, Eq)]
pub enum Value {
    Boolean(bool),
    Null,
    Integer(i64),
    OctetString(Vec<u8>),
    ObjectIdentifier(Vec<u32>),
    IpAddress([u8; 4]),
    Counter32(u32),
    Unsigned32(u32),
    Timeticks(u32),
    Opaque(Vec<u8>),
    Counter64(u64),
    NoSuchObject,
    NoSuchInstance,
    EndOfMibView,
}

/// The mathematical shadow of `Value`, with sequences for the buffers.
pub enum ValueV {
    Boolean(bool),
    Null,
    Integer(i64),
    OctetString(Seq<u8>),
    ObjectIdentifier(Seq<u32>),
    IpAddress(Seq<u8>),
    Counter32(u32),
    Unsigned32(u32),
    Timeticks(u32),
    Opaque(Seq<u8>),
    Counter64(u64),
    NoSuchObject,
    NoSuchInstance,
    EndOfMibView,
}

impl DeepView for Value {
    type V = ValueV;

    open spec fn deep_view(&self) -> ValueV {
        match self {
            Value::Boolean(b) => ValueV::Boolean(*b),
            Value::Null => ValueV::Null,
            Value::Integer(i) => ValueV::Integer(*i),
            Value::OctetString(s) => ValueV::OctetString(s@),
            Value::ObjectIdentifier(o) => ValueV::ObjectIdentifier(o@),
            Value::IpAddress(a) => ValueV::IpAddress(a@),
            Value::Counter32(u) => ValueV::Counter32(*u),
            Value::Unsigned32(u) => ValueV::Unsigned32(*u),
            Value::Timeticks(u) => ValueV::Timeticks(*u),
            Value::Opaque(s) => ValueV::Opaque(s@),
            Value::Counter64(u) => ValueV::Counter64(*u),
            Value::NoSuchObject => ValueV::NoSuchObject,
            Value::NoSuchInstance => ValueV::NoSuchInstance,
            Value::EndOfMibView => ValueV::EndOfMibView,
        }
    }
}

/// One variable binding: an OID and its value.
#[derive(Clone, Debug, PartialEq, Eq)]
pub struct Varbind {
    pub name: Vec<u32>,
    pub value: Value,
}

/// The mathematical shadow of `Varbind`.
pub struct VarbindV {
    pub name: Seq<u32>,
    pub value: ValueV,
}

impl DeepView for Varbind {
    type V = VarbindV;

    open spec fn deep_view(&self) -> VarbindV {
        VarbindV { name: self.name@, value: self.value.deep_view() }
    }
}

/// A decoded SNMP message: type, ids, status fields, community, bindings.
#[derive(Clone, Debug, PartialEq, Eq)]
pub struct SnmpPdu {
    pub message_type: SnmpMessageType,
    pub req_id: i32,
    pub error_status: u32,
    pub error_index: u32,
    pub community: Vec<u8>,
    pub varbinds: Vec<Varbind>,
}

/// The mathematical shadow of `SnmpPdu`.
pub struct SnmpPduV {
    pub message_type: SnmpMessageType,
    pub req_id: i32,
    pub error_status: u32,
    pub error_index: u32,
    pub community: Seq<u8>,
    pub varbinds: Seq<VarbindV>,
}

impl DeepView for SnmpPdu {
    type V = SnmpPduV;

    open spec fn deep_view(&self) -> SnmpPduV {
        SnmpPduV {
            message_type: self.message_type,
            req_id: self.req_id,
            error_status: self.error_status,
            error_index: self.error_index,
            community: self.community@,
            varbinds: self.varbinds.deep_view(),
        }
    }
}

// ---------------------------------------------------------------------------
// Spec-level encoding of values, varbinds and messages
// ---------------------------------------------------------------------------

/// The BER tag of a value.
pub open spec fn value_tag(v: ValueV) -> u8 {
    match v {
        ValueV::Boolean(_) => TAG_BOOLEAN,
        ValueV::Null => TAG_NULL,
        ValueV::Integer(_) => TAG_INTEGER,
        ValueV::OctetString(_) => TAG_OCTET_STRING,
        ValueV::ObjectIdentifier(_) => TAG_OBJECT_ID,
        ValueV::IpAddress(_) => TAG_IP_ADDRESS,
        ValueV::Counter32(_) => TAG_COUNTER32,
        ValueV::Unsigned32(_) => TAG_UNSIGNED32,
        ValueV::Timeticks(_) => TAG_TIMETICKS,
        ValueV::Opaque(_) => TAG_OPAQUE,
        ValueV::Counter64(_) => TAG_COUNTER64,
        ValueV::NoSuchObject => TAG_NO_SUCH_OBJECT,
        ValueV::NoSuchInstance => TAG_NO_SUCH_INSTANCE,
        ValueV::EndOfMibView => TAG_END_OF_MIB_VIEW,
    }
}

/// The content bytes of a value.
pub open spec fn value_content(v: ValueV) -> Seq<u8> {
    match v {
        ValueV::Boolean(b) => seq![if b { 255u8 } else { 0u8 }],
        ValueV::Null => seq![],
        ValueV::Integer(i) => int_content(i as int),
        ValueV::OctetString(s) => s,
        ValueV::ObjectIdentifier(o) => oid_content(o),
        ValueV::IpAddress(a) => a,
        ValueV::Counter32(u) => int_content(u as int),
        ValueV::Unsigned32(u) => int_content(u as int),
        ValueV::Timeticks(u) => int_content(u as int),
        ValueV::Opaque(s) => s,
        ValueV::Counter64(u) => int_content(u as int),
        ValueV::NoSuchObject => seq![],
        ValueV::NoSuchInstance => seq![],
        ValueV::EndOfMibView => seq![],
    }
}

/// The whole TLV of a value.
pub open spec fn value_enc(v: ValueV) -> Seq<u8> {
    tlv(value_tag(v), value_content(v))
}

/// What the encoder needs of a value: object identifiers carry at least two
/// sub-identifiers (the SNMP data model guarantees this of every OID).
pub open spec fn enc_ok_value(v: ValueV) -> bool {
    match v {
        ValueV::ObjectIdentifier(o) => o.len() >= 2,
        _ => true,
    }
}

/// Whether a value may appear in a SET request: the response-only exception
/// markers may not go on the wire.
pub open spec fn sendable_value(v: ValueV) -> bool {
    match v {
        ValueV::NoSuchObject => false,
        ValueV::NoSuchInstance => false,
        ValueV::EndOfMibView => false,
        _ => true,
    }
}

/// The TLV of one variable binding: a sequence of the OID and the value.
pub open spec fn varbind_enc(vb: VarbindV) -> Seq<u8> {
    tlv(TAG_SEQUENCE, tlv(TAG_OBJECT_ID, oid_content(vb.name)) + value_enc(vb.value))
}

pub open spec fn enc_ok_varbind(vb: VarbindV) -> bool {
    vb.name.len() >= 2 && enc_ok_value(vb.value)
}

/// The content of a variable-binding list, from index `i` on.
pub open spec fn varbinds_enc_from(vbs: Seq<VarbindV>, i: int) -> Seq<u8>
    decreases vbs.len() - i,
{
    if i < 0 || i >= vbs.len() {
        seq![]
    } else {
        varbind_enc(vbs[i]) + varbinds_enc_from(vbs, i + 1)
    }
}

/// The content of a variable-binding list.
pub open spec fn varbinds_enc(vbs: Seq<VarbindV>) -> Seq<u8> {
    varbinds_enc_from(vbs, 0)
}

/// The context tag of a message type.
pub open spec fn msg_tag(t: SnmpMessageType) -> u8 {
    match t {
        SnmpMessageType::GetRequest => TAG_GET_REQUEST,
        SnmpMessageType::GetNextRequest => TAG_GET_NEXT_REQUEST,
        SnmpMessageType::Response => TAG_RESPONSE,
        SnmpMessageType::SetRequest => TAG_SET_REQUEST,
        SnmpMessageType::GetBulkRequest => TAG_GET_BULK_REQUEST,
    }
}

/// The context-tagged PDU element: request-id, the two integer slots (error
/// status and index, or non-repeaters and max-repetitions for bulk), and the
/// binding list.
pub open spec fn pdu_tlv(p: SnmpPduV) -> Seq<u8> {
    tlv(
        msg_tag(p.message_type),
        tlv(TAG_INTEGER, int_content(p.req_id as int)) + tlv(
            TAG_INTEGER,
            int_content(p.error_status as int),
        ) + tlv(TAG_INTEGER, int_content(p.error_index as int)) + tlv(
            TAG_SEQUENCE,
            varbinds_enc(p.varbinds),
        ),
    )
}

/// The whole message: `Sequence { version, community, pdu }`.
pub open spec fn message_enc(p: SnmpPduV) -> Seq<u8> {
    tlv(
        TAG_SEQUENCE,
        tlv(TAG_INTEGER, int_content(SNMP_VERSION_2C as int)) + tlv(TAG_OCTET_STRING, p.community)
            + pdu_tlv(p),
    )
}

pub open spec fn enc_ok_varbinds(vbs: Seq<VarbindV>) -> bool {
    forall|i: int| 0 <= i < vbs.len() ==> enc_ok_varbind(#[trigger] vbs[i])
}

/// The varbind list of a read request: each OID bound to Null.
pub open spec fn null_varbinds(names: Seq<Seq<u32>>) -> Seq<VarbindV> {
    Seq::new(names.len(), |i: int| VarbindV { name: names[i], value: ValueV::Null })
}

/// The message of a request, given its tag and the two integer slots.
pub open spec fn request_pdu(
    t: SnmpMessageType,
    community: Seq<u8>,
    req_id: i32,
    f1: u32,
    f2: u32,
    vbs: Seq<VarbindV>,
) -> SnmpPduV {
    SnmpPduV {
        message_type: t,
        req_id: req_id,
        error_status: f1,
        error_index: f2,
        community: community,
        varbinds: vbs,
    }
}

// ---------------------------------------------------------------------------
// Executable encoders
// ---------------------------------------------------------------------------

/// Appends the TLV of one value.
fn push_value(out: &mut Vec<u8>, v: &Value)
    requires
        enc_ok_value(v.deep_view()),
    ensures
        final(out)@ == old(out)@ + value_enc(v.deep_view()),
{
    let mut c: Vec<u8> = Vec::new();
    match v {
        Value::Boolean(b) => {
            c.push(if *b { 255 } else { 0 });
            assert(c@ =~= value_content(v.deep_view()));
            push_tlv(out, TAG_BOOLEAN, &mut c);
        },
        Value::Null => {
            assert(c@ =~= value_content(v.deep_view()));
            push_tlv(out, TAG_NULL, &mut c);
        },
        Value::Integer(i) => {
            push_int_content(&mut c, *i);
            assert(c@ =~= value_content(v.deep_view()));
            push_tlv(out, TAG_INTEGER, &mut c);
        },
        Value::OctetString(s) => {
            let mut copy = vstd::slice::slice_to_vec(s.as_slice());
            assert(copy@ =~= value_content(v.deep_view()));
            push_tlv(out, TAG_OCTET_STRING, &mut copy);
        },
        Value::ObjectIdentifier(o) => {
            push_oid_content(&mut c, o.as_slice());
            assert(c@ =~= value_content(v.deep_view()));
            push_tlv(out, TAG_OBJECT_ID, &mut c);
        },
        Value::IpAddress(a) => {
            c.push(a[0]);
            c.push(a[1]);
            c.push(a[2]);
            c.push(a[3]);
            assert(c@ =~= value_content(v.deep_view()));
            push_tlv(out, TAG_IP_ADDRESS, &mut c);
        },
        Value::Counter32(u) => {
            push_uint_content(&mut c, *u as u64);
            assert(c@ =~= value_content(v.deep_view()));
            push_tlv(out, TAG_COUNTER32, &mut c);
        },
        Value::Unsigned32(u) => {
            push_uint_content(&mut c, *u as u64);
            assert(c@ =~= value_content(v.deep_view()));
            push_tlv(out, TAG_UNSIGNED32, &mut c);
        },
        Value::Timeticks(u) => {
            push_uint_content(&mut c, *u as u64);
            assert(c@ =~= value_content(v.deep_view()));
            push_tlv(out, TAG_TIMETICKS, &mut c);
        },
        Value::Opaque(s) => {
            let mut copy = vstd::slice::slice_to_vec(s.as_slice());
            assert(copy@ =~= value_content(v.deep_view()));
            push_tlv(out, TAG_OPAQUE, &mut copy);
        },
        Value::Counter64(u) => {
            push_uint_content(&mut c, *u);
            assert(c@ =~= value_content(v.deep_view()));
            push_tlv(out, TAG_COUNTER64, &mut c);
        },
        Value::NoSuchObject => {
            assert(c@ =~= value_content(v.deep_view()));
            push_tlv(out, TAG_NO_SUCH_OBJECT, &mut c);
        },
        Value::NoSuchInstance => {
            assert(c@ =~= value_content(v.deep_view()));
            push_tlv(out, TAG_NO_SUCH_INSTANCE, &mut c);
        },
        Value::EndOfMibView => {
            assert(c@ =~= value_content(v.deep_view()));
            push_tlv(out, TAG_END_OF_MIB_VIEW, &mut c);
        },
    }
}

/// Appends the TLV of one variable binding.
fn push_varbind(out: &mut Vec<u8>, vb: &Varbind)
    requires
        enc_ok_varbind(vb.deep_view()),
    ensures
        final(out)@ == old(out)@ + varbind_enc(vb.deep_view()),
{
    let mut oid_c: Vec<u8> = Vec::new();
    push_oid_content(&mut oid_c, vb.name.as_slice());
    let mut inner: Vec<u8> = Vec::new();
    push_tlv(&mut inner, TAG_OBJECT_ID, &mut oid_c);
    push_value(&mut inner, &vb.value);
    push_tlv(out, TAG_SEQUENCE, &mut inner);
    assert(out@ =~= old(out)@ + varbind_enc(vb.deep_view()));
}

/// Appends the content of a variable-binding list.
fn push_varbinds(out: &mut Vec<u8>, vbs: &[Varbind])
    requires
        enc_ok_varbinds(vbs.deep_view()),
    ensures
        final(out)@ == old(out)@ + varbinds_enc(vbs.deep_view()),
{
    let mut i: usize = 0;
    while i < vbs.len()
        invariant
            0 <= i <= vbs@.len(),
            enc_ok_varbinds(vbs.deep_view()),
            vbs.deep_view().len() == vbs@.len(),
            out@ + varbinds_enc_from(vbs.deep_view(), i as int) == old(out)@ + varbinds_enc_from(
                vbs.deep_view(),
                0,
            ),
        decreases vbs@.len() - i,
    {
        let vb = vstd::slice::slice_index_get(vbs, i);
        proof {
            assert(vbs.deep_view()[i as int] == vb.deep_view());
            assert(varbinds_enc_from(vbs.deep_view(), i as int) == varbind_enc(
                vbs.deep_view()[i as int],
            ) + varbinds_enc_from(vbs.deep_view(), i + 1));
        }
        let ghost out_pre = out@;
        push_varbind(out, vb);
        proof {
            assert(out@ + varbinds_enc_from(vbs.deep_view(), i + 1) =~= out_pre + varbinds_enc_from(
                vbs.deep_view(),
                i as int,
            ));
        }
        i = i + 1;
    }
    proof {
        assert(varbinds_enc_from(vbs.deep_view(), i as int) =~= Seq::<u8>::empty());
        assert(out@ + varbinds_enc_from(vbs.deep_view(), i as int) =~= out@);
        assert(out@ =~= old(out)@ + varbinds_enc(vbs.deep_view()));
    }
}

/// The context tag byte of a message type.
fn msg_tag_of(t: SnmpMessageType) -> (r: u8)
    ensures
        r == msg_tag(t),
{
    match t {
        SnmpMessageType::GetRequest => TAG_GET_REQUEST,
        SnmpMessageType::GetNextRequest => TAG_GET_NEXT_REQUEST,
        SnmpMessageType::Response => TAG_RESPONSE,
        SnmpMessageType::SetRequest => TAG_SET_REQUEST,
        SnmpMessageType::GetBulkRequest => TAG_GET_BULK_REQUEST,
    }
}

/// Clears `out` and writes one whole message into it.
fn build_message(
    t: SnmpMessageType,
    community: &[u8],
    req_id: i32,
    f1: u32,
    f2: u32,
    varbinds: &[Varbind],
    out: &mut Vec<u8>,
)
    requires
        enc_ok_varbinds(varbinds.deep_view()),
    ensures
        final(out)@ == message_enc(
            request_pdu(t, community@, req_id, f1, f2, varbinds.deep_view()),
        ),
{
    out.clear();
    let mut vbl: Vec<u8> = Vec::new();
    push_varbinds(&mut vbl, varbinds);
    let mut pdu_c: Vec<u8> = Vec::new();
    let mut tmp: Vec<u8> = Vec::new();
    push_int_content(&mut tmp, req_id as i64);
    assert(tmp@ =~= int_content(req_id as int));
    push_tlv(&mut pdu_c, TAG_INTEGER, &mut tmp);
    push_uint_content(&mut tmp, f1 as u64);
    assert(tmp@ =~= int_content(f1 as int));
    push_tlv(&mut pdu_c, TAG_INTEGER, &mut tmp);
    push_uint_content(&mut tmp, f2 as u64);
    assert(tmp@ =~= int_content(f2 as int));
    push_tlv(&mut pdu_c, TAG_INTEGER, &mut tmp);
    push_tlv(&mut pdu_c, TAG_SEQUENCE, &mut vbl);
    let mut msg_c: Vec<u8> = Vec::new();
    push_int_content(&mut tmp, SNMP_VERSION_2C);
    assert(tmp@ =~= int_content(SNMP_VERSION_2C as int));
    push_tlv(&mut msg_c, TAG_INTEGER, &mut tmp);
    let mut comm = vstd::slice::slice_to_vec(community);
    push_tlv(&mut msg_c, TAG_OCTET_STRING, &mut comm);
    push_tlv(&mut msg_c, msg_tag_of(t), &mut pdu_c);
    push_tlv(out, TAG_SEQUENCE, &mut msg_c);
    assert(out@ =~= message_enc(request_pdu(t, community@, req_id, f1, f2, varbinds.deep_view())));
}

/// Copies one OID into an owned vector.
fn copy_oid(name: &[u32]) -> (r: Vec<u32>)
    ensures
        r@ == name@,
{
    vstd::slice::slice_to_vec(name)
}

/// Builds the varbind list of a read request: every OID bound to Null.
fn null_binding_list(names: &[Vec<u32>]) -> (r: Vec<Varbind>)
    ensures
        r.deep_view() =~= null_varbinds(names.deep_view()),
{
    let mut r: Vec<Varbind> = Vec::new();
    let mut i: usize = 0;
    while i < names.len()
        invariant
            0 <= i <= names@.len(),
            r.deep_view() =~= null_varbinds(names.deep_view()).take(i as int),
        decreases names@.len() - i,
    {
        let name = copy_oid(vstd::slice::slice_index_get(names, i).as_slice());
        let ghost r_pre = r.deep_view();
        r.push(Varbind { name, value: Value::Null });
        proof {
            assert(names.deep_view()[i as int] == names@[i as int]@);
            assert(r.deep_view() =~= r_pre + seq![
                VarbindV { name: names.deep_view()[i as int], value: ValueV::Null },
            ]);
            assert(r.deep_view() =~= null_varbinds(names.deep_view()).take(i + 1));
        }
        i = i + 1;
    }
    assert(null_varbinds(names.deep_view()).take(i as int) =~= null_varbinds(names.deep_view()));
    r
}

/// Builds a GetRequest for the given OIDs into `out`.
pub fn build_get(community: &[u8], req_id: i32, names: &[Vec<u32>], out: &mut Vec<u8>)
    requires
        forall|i: int| 0 <= i < names@.len() ==> (#[trigger] names@[i])@.len() >= 2,
    ensures
        final(out)@ == message_enc(
            request_pdu(
                SnmpMessageType::GetRequest,
                community@,
                req_id,
                0,
                0,
                null_varbinds(names.deep_view()),
            ),
        ),
{
    let vbs = null_binding_list(names);
    proof {
        assert forall|i: int| 0 <= i < vbs.deep_view().len() implies enc_ok_varbind(
            #[trigger] vbs.deep_view()[i],
        ) by {
            assert(vbs.deep_view()[i].name == names.deep_view()[i]);
            assert(names.deep_view()[i] == names@[i]@);
        }
    }
    let vbs_s = vbs.as_slice();
    proof {
        assert(vbs_s.deep_view() =~= vbs.deep_view());
    }
    build_message(SnmpMessageType::GetRequest, community, req_id, 0, 0, vbs_s, out);
}

/// Builds a GetNextRequest for one OID into `out`.
pub fn build_getnext(community: &[u8], req_id: i32, name: &[u32], out: &mut Vec<u8>)
    requires
        name@.len() >= 2,
    ensures
        final(out)@ == message_enc(
            request_pdu(
                SnmpMessageType::GetNextRequest,
                community@,
                req_id,
                0,
                0,
                seq![VarbindV { name: name@, value: ValueV::Null }],
            ),
        ),
{
    let mut vbs: Vec<Varbind> = Vec::new();
    vbs.push(Varbind { name: copy_oid(name), value: Value::Null });
    proof {
        assert(vbs.deep_view() =~= seq![VarbindV { name: name@, value: ValueV::Null }]);
    }
    let vbs_s = vbs.as_slice();
    proof {
        assert(vbs_s.deep_view() =~= vbs.deep_view());
    }
    build_message(SnmpMessageType::GetNextRequest, community, req_id, 0, 0, vbs_s, out);
}

/// Builds a GetBulkRequest into `out`; the two integer slots carry the
/// non-repeaters and max-repetitions counts.
pub fn build_getbulk(
    community: &[u8],
    req_id: i32,
    names: &[Vec<u32>],
    non_repeaters: u32,
    max_repetitions: u32,
    out: &mut Vec<u8>,
)
    requires
        forall|i: int| 0 <= i < names@.len() ==> (#[trigger] names@[i])@.len() >= 2,
    ensures
        final(out)@ == message_enc(
            request_pdu(
                SnmpMessageType::GetBulkRequest,
                community@,
                req_id,
                non_repeaters,
                max_repetitions,
                null_varbinds(names.deep_view()),
            ),
        ),
{
    let vbs = null_binding_list(names);
    proof {
        assert forall|i: int| 0 <= i < vbs.deep_view().len() implies enc_ok_varbind(
            #[trigger] vbs.deep_view()[i],
        ) by {
            assert(vbs.deep_view()[i].name == names.deep_view()[i]);
            assert(names.deep_view()[i] == names@[i]@);
        }
    }
    let vbs_s = vbs.as_slice();
    proof {
        assert(vbs_s.deep_view() =~= vbs.deep_view());
    }
    build_message(
        SnmpMessageType::GetBulkRequest,
        community,
        req_id,
        non_repeaters,
        max_repetitions,
        vbs_s,
        out,
    );
}

/// Builds a SetRequest into `out`. Fails with `UnsupportedValueType`, leaving
/// `out` unchanged, if any value is a response-only exception marker; nothing
/// is built (and so nothing can be sent) in that case.
pub fn build_set(community: &[u8], req_id: i32, varbinds: &[Varbind], out: &mut Vec<u8>) -> (r:
    Result<(), SnmpError>)
    requires
        enc_ok_varbinds(varbinds.deep_view()),
    ensures
        (forall|i: int|
            0 <= i < varbinds.deep_view().len() ==> sendable_value(
                #[trigger] varbinds.deep_view()[i].value,
            )) ==> r == Ok::<(), SnmpError>(()) && final(out)@ == message_enc(
            request_pdu(
                SnmpMessageType::SetRequest,
                community@,
                req_id,
                0,
                0,
                varbinds.deep_view(),
            ),
        ),
        (exists|i: int|
            0 <= i < varbinds.deep_view().len() && !sendable_value(
                #[trigger] varbinds.deep_view()[i].value,
            )) ==> r == Err::<(), SnmpError>(SnmpError::UnsupportedValueType) && final(out)@ == old(
            out,
        )@,
{
    let mut i: usize = 0;
    while i < varbinds.len()
        invariant
            0 <= i <= varbinds@.len(),
            varbinds.deep_view().len() == varbinds@.len(),
            forall|j: int|
                0 <= j < i ==> sendable_value(#[trigger] varbinds.deep_view()[j].value),
        decreases varbinds@.len() - i,
    {
        let vb = vstd::slice::slice_index_get(varbinds, i);
        let supported = match &vb.value {
            Value::NoSuchObject => false,
            Value::NoSuchInstance => false,
            Value::EndOfMibView => false,
            _ => true,
        };
        proof {
            assert(varbinds.deep_view()[i as int] == vb.deep_view());
        }
        if !supported {
            proof {
                assert(!sendable_value(varbinds.deep_view()[i as int].value));
            }
            return Err(SnmpError::UnsupportedValueType);
        }
        i = i + 1;
    }
    build_message(SnmpMessageType::SetRequest, community, req_id, 0, 0, varbinds, out);
    Ok(())
}

// ---------------------------------------------------------------------------
// Spec-level parsing of values, varbinds and messages
// ---------------------------------------------------------------------------

/// Parses one value TLV; unknown tags in value position are `AsnInvalidTag`.
pub open spec fn sp_value(s: Seq<u8>) -> Result<(ValueV, Seq<u8>), SnmpError> {
    match sp_read_tlv(s) {
        Err(e) => Err(e),
        Ok((tag, c, rest)) => if tag == TAG_BOOLEAN {
            if c.len() == 1 {
                Ok((ValueV::Boolean(c[0] != 0), rest))
            } else {
                Err(SnmpError::AsnInvalidLen)
            }
        } else if tag == TAG_INTEGER {
            match sp_int_range(c, i64::MIN as int, i64::MAX as int) {
                Ok(v) => Ok((ValueV::Integer(v as i64), rest)),
                Err(e) => Err(e),
            }
        } else if tag == TAG_OCTET_STRING {
            Ok((ValueV::OctetString(c), rest))
        } else if tag == TAG_NULL {
            if c.len() == 0 {
                Ok((ValueV::Null, rest))
            } else {
                Err(SnmpError::AsnInvalidLen)
            }
        } else if tag == TAG_OBJECT_ID {
            match sp_oid(c) {
                Ok(o) => Ok((ValueV::ObjectIdentifier(o), rest)),
                Err(e) => Err(e),
            }
        } else if tag == TAG_IP_ADDRESS {
            if c.len() == 4 {
                Ok((ValueV::IpAddress(c), rest))
            } else {
                Err(SnmpError::AsnInvalidLen)
            }
        } else if tag == TAG_COUNTER32 {
            match sp_int_range(c, 0, u32::MAX as int) {
                Ok(v) => Ok((ValueV::Counter32(v as u32), rest)),
                Err(e) => Err(e),
            }
        } else if tag == TAG_UNSIGNED32 {
            match sp_int_range(c, 0, u32::MAX as int) {
                Ok(v) => Ok((ValueV::Unsigned32(v as u32), rest)),
                Err(e) => Err(e),
            }
        } else if tag == TAG_TIMETICKS {
            match sp_int_range(c, 0, u32::MAX as int) {
                Ok(v) => Ok((ValueV::Timeticks(v as u32), rest)),
                Err(e) => Err(e),
            }
        } else if tag == TAG_OPAQUE {
            Ok((ValueV::Opaque(c), rest))
        } else if tag == TAG_COUNTER64 {
            match sp_int_range(c, 0, u64::MAX as int) {
                Ok(v) => Ok((ValueV::Counter64(v as u64), rest)),
                Err(e) => Err(e),
            }
        } else if tag == TAG_NO_SUCH_OBJECT {
            if c.len() == 0 {
                Ok((ValueV::NoSuchObject, rest))
            } else {
                Err(SnmpError::AsnInvalidLen)
            }
        } else if tag == TAG_NO_SUCH_INSTANCE {
            if c.len() == 0 {
                Ok((ValueV::NoSuchInstance, rest))
            } else {
                Err(SnmpError::AsnInvalidLen)
            }
        } else if tag == TAG_END_OF_MIB_VIEW {
            if c.len() == 0 {
                Ok((ValueV::EndOfMibView, rest))
            } else {
                Err(SnmpError::AsnInvalidLen)
            }
        } else {
            Err(SnmpError::AsnInvalidTag)
        },
    }
}

/// Parses one variable binding: `Sequence { ObjectIdentifier, value }`, with
/// nothing left over inside the sequence.
pub open spec fn sp_varbind(s: Seq<u8>) -> Result<(VarbindV, Seq<u8>), SnmpError> {
    match sp_read_tlv(s) {
        Err(e) => Err(e),
        Ok((tag, c, rest)) => if tag != TAG_SEQUENCE {
            Err(SnmpError::AsnWrongType)
        } else {
            match sp_read_tlv(c) {
                Err(e) => Err(e),
                Ok((t2, oc, r2)) => if t2 != TAG_OBJECT_ID {
                    Err(SnmpError::AsnWrongType)
                } else {
                    match sp_oid(oc) {
                        Err(e) => Err(e),
                        Ok(name) => match sp_value(r2) {
                            Err(e) => Err(e),
                            Ok((v, r3)) => if r3.len() != 0 {
                                Err(SnmpError::AsnInvalidLen)
                            } else {
                                Ok((VarbindV { name, value: v }, rest))
                            },
                        },
                    }
                },
            }
        },
    }
}

/// A successful varbind parse consumes at least one byte.
pub proof fn lemma_sp_varbind_consumes(s: Seq<u8>)
    ensures
        sp_varbind(s) matches Ok((vb, rest)) ==> rest.len() < s.len(),
{
    crate::ber::lemma_sp_read_tlv_consumes(s);
}

/// Parses a variable-binding list until its content is exhausted.
pub open spec fn sp_vb_list(s: Seq<u8>) -> Result<Seq<VarbindV>, SnmpError>
    decreases s.len(),
    via sp_vb_list_decreases
{
    if s.len() == 0 {
        Ok(seq![])
    } else {
        match sp_varbind(s) {
            Err(e) => Err(e),
            Ok((vb, rest)) => match sp_vb_list(rest) {
                Err(e) => Err(e),
                Ok(tail) => Ok(seq![vb] + tail),
            },
        }
    }
}

#[via_fn]
proof fn sp_vb_list_decreases(s: Seq<u8>) {
    lemma_sp_varbind_consumes(s);
}

/// The message type of a PDU tag, where the tag is one this client knows.
pub open spec fn sp_msg_type(t: u8) -> Option<SnmpMessageType> {
    if t == TAG_GET_REQUEST {
        Some(SnmpMessageType::GetRequest)
    } else if t == TAG_GET_NEXT_REQUEST {
        Some(SnmpMessageType::GetNextRequest)
    } else if t == TAG_RESPONSE {
        Some(SnmpMessageType::Response)
    } else if t == TAG_SET_REQUEST {
        Some(SnmpMessageType::SetRequest)
    } else if t == TAG_GET_BULK_REQUEST {
        Some(SnmpMessageType::GetBulkRequest)
    } else {
        None
    }
}

/// Parses a whole datagram into a message. The outermost element must be a
/// `Sequence`, the version must be SNMPv2c, the PDU tag must be one of the
/// five known kinds; bytes after the outer element are ignored (UDP padding),
/// bytes left over inside an element are an error.
pub open spec fn sp_message(s: Seq<u8>) -> Result<SnmpPduV, SnmpError> {
    match sp_read_tlv(s) {
        Err(e) => Err(e),
        Ok((t0, c0, _after)) => if t0 != TAG_SEQUENCE {
            Err(SnmpError::AsnWrongType)
        } else {
            match sp_read_tlv(c0) {
                Err(e) => Err(e),
                Ok((t1, vc, r1)) => if t1 != TAG_INTEGER {
                    Err(SnmpError::AsnWrongType)
                } else {
                    match sp_int_range(vc, i64::MIN as int, i64::MAX as int) {
                        Err(e) => Err(e),
                        Ok(ver) => if ver != SNMP_VERSION_2C as int {
                            Err(SnmpError::AsnWrongType)
                        } else {
                            match sp_read_tlv(r1) {
                                Err(e) => Err(e),
                                Ok((t2, comm, r2)) => if t2 != TAG_OCTET_STRING {
                                    Err(SnmpError::AsnWrongType)
                                } else {
                                    sp_message_pdu(comm, r2)
                                },
                            }
                        },
                    }
                },
            }
        },
    }
}

/// Parses the context-tagged PDU that follows the community string.
pub open spec fn sp_message_pdu(comm: Seq<u8>, r2: Seq<u8>) -> Result<SnmpPduV, SnmpError> {
    match sp_read_tlv(r2) {
        Err(e) => Err(e),
        Ok((t3, pc, r3)) => match sp_msg_type(t3) {
            None => Err(SnmpError::AsnInvalidTag),
            Some(mt) => if r3.len() != 0 {
                Err(SnmpError::AsnInvalidLen)
            } else {
                match sp_read_tlv(pc) {
                    Err(e) => Err(e),
                    Ok((t4, rc, r4)) => if t4 != TAG_INTEGER {
                        Err(SnmpError::AsnWrongType)
                    } else {
                        match sp_int_range(rc, i32::MIN as int, i32::MAX as int) {
                            Err(e) => Err(e),
                            Ok(rid) => match sp_read_tlv(r4) {
                                Err(e) => Err(e),
                                Ok((t5, es, r5)) => if t5 != TAG_INTEGER {
                                    Err(SnmpError::AsnWrongType)
                                } else {
                                    match sp_int_range(es, 0, u32::MAX as int) {
                                        Err(e) => Err(e),
                                        Ok(status) => match sp_read_tlv(r5) {
                                            Err(e) => Err(e),
                                            Ok((t6, ei, r6)) => if t6 != TAG_INTEGER {
                                                Err(SnmpError::AsnWrongType)
                                            } else {
                                                match sp_int_range(ei, 0, u32::MAX as int) {
                                                    Err(e) => Err(e),
                                                    Ok(index) => match sp_read_tlv(r6) {
                                                        Err(e) => Err(e),
                                                        Ok((t7, vbl, r7)) => if t7
                                                            != TAG_SEQUENCE {
                                                            Err(SnmpError::AsnWrongType)
                                                        } else if r7.len() != 0 {
                                                            Err(SnmpError::AsnInvalidLen)
                                                        } else {
                                                            match sp_vb_list(vbl) {
                                                                Err(e) => Err(e),
                                                                Ok(vbs) => Ok(
                                                                    SnmpPduV {
                                                                        message_type: mt,
                                                                        req_id: rid as i32,
                                                                        error_status: status
                                                                            as u32,
                                                                        error_index: index
                                                                            as u32,
                                                                        community: comm,
                                                                        varbinds: vbs,
                                                                    },
                                                                )
                                                            }
                                                        },
                                                    },
                                                }
                                            },
                                        },
                                    }
                                },
                            },
                        }
                    },
                }
            },
        },
    }
}

// ---------------------------------------------------------------------------
// Round trips: the codec laws
// ---------------------------------------------------------------------------

/// A TLV is its content plus at least two bytes of header.
proof fn lemma_tlv_len(tag: u8, c: Seq<u8>)
    ensures
        tlv(tag, c).len() == 1 + crate::ber::len_enc(c.len()).len() + c.len(),
        crate::ber::len_enc(c.len()).len() >= 1,
        tlv(tag, c).len() >= c.len() + 2,
{
}

/// The constraints under which a value survives the round trip: OIDs within
/// the BER arc limits, addresses of four bytes, content below the length
/// decoder's four-byte cap.
pub open spec fn rt_ok_value(v: ValueV) -> bool {
    &&& match v {
        ValueV::ObjectIdentifier(o) => valid_oid(o),
        ValueV::IpAddress(a) => a.len() == 4,
        _ => true,
    }
    &&& value_content(v).len() < 0x1_0000_0000
}

/// The value round trip: decoding an encoded value yields the value back,
/// whatever follows it.
pub proof fn lemma_value_rt(v: ValueV, rest: Seq<u8>)
    requires
        rt_ok_value(v),
    ensures
        sp_value(value_enc(v) + rest) == Ok::<(ValueV, Seq<u8>), SnmpError>((v, rest)),
{
    lemma_tlv_rt(value_tag(v), value_content(v), rest);
    match v {
        ValueV::Integer(i) => {
            lemma_int_rt(i as int, i64::MIN as int, i64::MAX as int);
        },
        ValueV::ObjectIdentifier(o) => {
            lemma_oid_rt(o);
        },
        ValueV::Counter32(u) => {
            lemma_int_rt(u as int, 0, u32::MAX as int);
        },
        ValueV::Unsigned32(u) => {
            lemma_int_rt(u as int, 0, u32::MAX as int);
        },
        ValueV::Timeticks(u) => {
            lemma_int_rt(u as int, 0, u32::MAX as int);
        },
        ValueV::Counter64(u) => {
            lemma_int_rt(u as int, 0, u64::MAX as int);
        },
        _ => {},
    }
}

/// The constraints under which a varbind survives the round trip.
pub open spec fn rt_ok_varbind(vb: VarbindV) -> bool {
    &&& valid_oid(vb.name)
    &&& rt_ok_value(vb.value)
    &&& varbind_enc(vb).len() < 0x1_0000_0000
}

/// The varbind round trip.
pub proof fn lemma_varbind_rt(vb: VarbindV, rest: Seq<u8>)
    requires
        rt_ok_varbind(vb),
    ensures
        sp_varbind(varbind_enc(vb) + rest) == Ok::<(VarbindV, Seq<u8>), SnmpError>((vb, rest)),
{
    let oc = oid_content(vb.name);
    let oidtlv = tlv(TAG_OBJECT_ID, oc);
    let ve = value_enc(vb.value);
    let inner = oidtlv + ve;
    lemma_tlv_len(TAG_SEQUENCE, inner);
    lemma_tlv_len(TAG_OBJECT_ID, oc);
    lemma_tlv_len(value_tag(vb.value), value_content(vb.value));
    lemma_tlv_rt(TAG_SEQUENCE, inner, rest);
    lemma_tlv_rt(TAG_OBJECT_ID, oc, ve);
    lemma_oid_rt(vb.name);
    lemma_value_rt(vb.value, Seq::<u8>::empty());
    assert(ve + Seq::<u8>::empty() =~= ve);
    assert(vb == VarbindV { name: vb.name, value: vb.value });
}

pub open spec fn rt_ok_varbinds(vbs: Seq<VarbindV>) -> bool {
    forall|i: int| 0 <= i < vbs.len() ==> rt_ok_varbind(#[trigger] vbs[i])
}

/// The varbind-list round trip, from index `i` on.
#[verifier::rlimit(100)]
proof fn lemma_vb_list_rt_from(vbs: Seq<VarbindV>, i: int)
    requires
        0 <= i <= vbs.len(),
        rt_ok_varbinds(vbs),
    ensures
        sp_vb_list(varbinds_enc_from(vbs, i)) == Ok::<Seq<VarbindV>, SnmpError>(vbs.skip(i)),
    decreases vbs.len() - i,
{
    if i == vbs.len() {
        assert(varbinds_enc_from(vbs, i) =~= Seq::<u8>::empty());
        assert(vbs.skip(i) =~= Seq::<VarbindV>::empty());
    } else {
        let tail = varbinds_enc_from(vbs, i + 1);
        assert(varbinds_enc_from(vbs, i) == varbind_enc(vbs[i]) + tail);
        lemma_tlv_len(
            TAG_SEQUENCE,
            tlv(TAG_OBJECT_ID, oid_content(vbs[i].name)) + value_enc(vbs[i].value),
        );
        assert(varbinds_enc_from(vbs, i).len() > 0);
        lemma_varbind_rt(vbs[i], tail);
        lemma_vb_list_rt_from(vbs, i + 1);
        assert(seq![vbs[i]] + vbs.skip(i + 1) =~= vbs.skip(i));
    }
}

/// The varbind-list round trip.
pub proof fn lemma_vb_list_rt(vbs: Seq<VarbindV>)
    requires
        rt_ok_varbinds(vbs),
    ensures
        sp_vb_list(varbinds_enc(vbs)) == Ok::<Seq<VarbindV>, SnmpError>(vbs),
{
    lemma_vb_list_rt_from(vbs, 0);
    assert(vbs.skip(0) =~= vbs);
}

/// The constraints under which a whole message survives the round trip: its
/// encoding stays below the length decoder's four-byte cap, and each varbind
/// is itself round-trippable.
pub open spec fn rt_ok_message(p: SnmpPduV) -> bool {
    &&& rt_ok_varbinds(p.varbinds)
    &&& message_enc(p).len() < 0x1_0000_0000
}

/// The inner PDU element round-trips.
#[verifier::rlimit(100)]
proof fn lemma_pdu_rt(p: SnmpPduV)
    requires
        rt_ok_varbinds(p.varbinds),
        pdu_tlv(p).len() < 0x1_0000_0000,
    ensures
        sp_message_pdu(p.community, pdu_tlv(p)) == Ok::<SnmpPduV, SnmpError>(p),
{
    let vbl = varbinds_enc(p.varbinds);
    let vbltlv = tlv(TAG_SEQUENCE, vbl);
    let ric = int_content(p.req_id as int);
    let esc = int_content(p.error_status as int);
    let eic = int_content(p.error_index as int);
    let pc = tlv(TAG_INTEGER, ric) + tlv(TAG_INTEGER, esc) + tlv(TAG_INTEGER, eic) + vbltlv;
    lemma_tlv_len(msg_tag(p.message_type), pc);
    lemma_tlv_len(TAG_INTEGER, ric);
    lemma_tlv_len(TAG_INTEGER, esc);
    lemma_tlv_len(TAG_INTEGER, eic);
    lemma_tlv_len(TAG_SEQUENCE, vbl);
    assert(pdu_tlv(p) =~= tlv(msg_tag(p.message_type), pc) + Seq::<u8>::empty());
    lemma_tlv_rt(msg_tag(p.message_type), pc, Seq::<u8>::empty());
    assert(sp_msg_type(msg_tag(p.message_type)) == Some(p.message_type));
    assert(pc =~= tlv(TAG_INTEGER, ric) + (tlv(TAG_INTEGER, esc) + (tlv(TAG_INTEGER, eic)
        + vbltlv)));
    lemma_tlv_rt(TAG_INTEGER, ric, tlv(TAG_INTEGER, esc) + (tlv(TAG_INTEGER, eic) + vbltlv));
    lemma_int_rt(p.req_id as int, i32::MIN as int, i32::MAX as int);
    lemma_tlv_rt(TAG_INTEGER, esc, tlv(TAG_INTEGER, eic) + vbltlv);
    lemma_int_rt(p.error_status as int, 0, u32::MAX as int);
    lemma_tlv_rt(TAG_INTEGER, eic, vbltlv);
    lemma_int_rt(p.error_index as int, 0, u32::MAX as int);
    assert(vbltlv =~= tlv(TAG_SEQUENCE, vbl) + Seq::<u8>::empty());
    lemma_tlv_rt(TAG_SEQUENCE, vbl, Seq::<u8>::empty());
    lemma_vb_list_rt(p.varbinds);
    assert(p == SnmpPduV {
        message_type: p.message_type,
        req_id: p.req_id,
        error_status: p.error_status,
        error_index: p.error_index,
        community: p.community,
        varbinds: p.varbinds,
    });
}

/// The message round trip: a built message parses back to the same message —
/// same type, ids, community, and varbind list in the same order.
#[verifier::rlimit(100)]
pub proof fn lemma_message_rt(p: SnmpPduV)
    requires
        rt_ok_message(p),
    ensures
        sp_message(message_enc(p)) == Ok::<SnmpPduV, SnmpError>(p),
{
    let vc = int_content(SNMP_VERSION_2C as int);
    let c0 = tlv(TAG_INTEGER, vc) + tlv(TAG_OCTET_STRING, p.community) + pdu_tlv(p);
    let msg = message_enc(p);
    assert(msg == tlv(TAG_SEQUENCE, c0));
    lemma_tlv_len(TAG_SEQUENCE, c0);
    lemma_tlv_len(TAG_INTEGER, vc);
    lemma_tlv_len(TAG_OCTET_STRING, p.community);
    assert(msg =~= tlv(TAG_SEQUENCE, c0) + Seq::<u8>::empty());
    lemma_tlv_rt(TAG_SEQUENCE, c0, Seq::<u8>::empty());
    assert(c0 =~= tlv(TAG_INTEGER, vc) + (tlv(TAG_OCTET_STRING, p.community) + pdu_tlv(p)));
    lemma_tlv_rt(TAG_INTEGER, vc, tlv(TAG_OCTET_STRING, p.community) + pdu_tlv(p));
    lemma_int_rt(SNMP_VERSION_2C as int, i64::MIN as int, i64::MAX as int);
    lemma_tlv_rt(TAG_OCTET_STRING, p.community, pdu_tlv(p));
    lemma_pdu_rt(p);
}

/// The GetRequest round trip: building a read request for some OIDs and
/// parsing the same bytes back yields exactly those OIDs, each bound to
/// Null, in the same order, under the same request-id and community.
pub proof fn lemma_get_request_rt(community: Seq<u8>, req_id: i32, names: Seq<Seq<u32>>)
    requires
        forall|i: int| 0 <= i < names.len() ==> valid_oid(#[trigger] names[i]),
        rt_ok_message(
            request_pdu(
                SnmpMessageType::GetRequest,
                community,
                req_id,
                0,
                0,
                null_varbinds(names),
            ),
        ),
    ensures
        sp_message(
            message_enc(
                request_pdu(
                    SnmpMessageType::GetRequest,
                    community,
                    req_id,
                    0,
                    0,
                    null_varbinds(names),
                ),
            ),
        ) == Ok::<SnmpPduV, SnmpError>(
            request_pdu(SnmpMessageType::GetRequest, community, req_id, 0, 0, null_varbinds(names)),
        ),
{
    lemma_message_rt(
        request_pdu(SnmpMessageType::GetRequest, community, req_id, 0, 0, null_varbinds(names)),
    );
}

// ---------------------------------------------------------------------------
// Executable parser
// ---------------------------------------------------------------------------

/// Parses one value TLV off the front of `s`.
fn parse_value<'a>(s: &'a [u8]) -> (r: Result<(Value, &'a [u8]), SnmpError>)
    ensures
        match r {
            Ok((v, rest)) => sp_value(s@) == Ok::<(ValueV, Seq<u8>), SnmpError>(
                (v.deep_view(), rest@),
            ),
            Err(e) => sp_value(s@) == Err::<(ValueV, Seq<u8>), SnmpError>(e),
        },
{
    let (tag, content, rest) = match read_tlv(s) {
        Err(e) => {
            return Err(e);
        },
        Ok(t) => t,
    };
    if tag == TAG_BOOLEAN {
        if content.len() == 1 {
            Ok((Value::Boolean(content[0] != 0), rest))
        } else {
            Err(SnmpError::AsnInvalidLen)
        }
    } else if tag == TAG_INTEGER {
        match decode_int(content) {
            Err(e) => Err(e),
            Ok(v) => Ok((Value::Integer(v), rest)),
        }
    } else if tag == TAG_OCTET_STRING {
        Ok((Value::OctetString(vstd::slice::slice_to_vec(content)), rest))
    } else if tag == TAG_NULL {
        if content.len() == 0 {
            Ok((Value::Null, rest))
        } else {
            Err(SnmpError::AsnInvalidLen)
        }
    } else if tag == TAG_OBJECT_ID {
        match decode_oid(content) {
            Err(e) => Err(e),
            Ok(o) => Ok((Value::ObjectIdentifier(o), rest)),
        }
    } else if tag == TAG_IP_ADDRESS {
        if content.len() == 4 {
            let a = [content[0], content[1], content[2], content[3]];
            proof {
                assert(a@ =~= content@);
            }
            Ok((Value::IpAddress(a), rest))
        } else {
            Err(SnmpError::AsnInvalidLen)
        }
    } else if tag == TAG_COUNTER32 {
        match decode_u32(content) {
            Err(e) => Err(e),
            Ok(v) => Ok((Value::Counter32(v), rest)),
        }
    } else if tag == TAG_UNSIGNED32 {
        match decode_u32(content) {
            Err(e) => Err(e),
            Ok(v) => Ok((Value::Unsigned32(v), rest)),
        }
    } else if tag == TAG_TIMETICKS {
        match decode_u32(content) {
            Err(e) => Err(e),
            Ok(v) => Ok((Value::Timeticks(v), rest)),
        }
    } else if tag == TAG_OPAQUE {
        Ok((Value::Opaque(vstd::slice::slice_to_vec(content)), rest))
    } else if tag == TAG_COUNTER64 {
        match decode_u64(content) {
            Err(e) => Err(e),
            Ok(v) => Ok((Value::Counter64(v), rest)),
        }
    } else if tag == TAG_NO_SUCH_OBJECT {
        if content.len() == 0 {
            Ok((Value::NoSuchObject, rest))
        } else {
            Err(SnmpError::AsnInvalidLen)
        }
    } else if tag == TAG_NO_SUCH_INSTANCE {
        if content.len() == 0 {
            Ok((Value::NoSuchInstance, rest))
        } else {
            Err(SnmpError::AsnInvalidLen)
        }
    } else if tag == TAG_END_OF_MIB_VIEW {
        if content.len() == 0 {
            Ok((Value::EndOfMibView, rest))
        } else {
            Err(SnmpError::AsnInvalidLen)
        }
    } else {
        Err(SnmpError::AsnInvalidTag)
    }
}

/// Parses one variable binding off the front of `s`.
fn parse_varbind<'a>(s: &'a [u8]) -> (r: Result<(Varbind, &'a [u8]), SnmpError>)
    ensures
        match r {
            Ok((vb, rest)) => sp_varbind(s@) == Ok::<(VarbindV, Seq<u8>), SnmpError>(
                (vb.deep_view(), rest@),
            ),
            Err(e) => sp_varbind(s@) == Err::<(VarbindV, Seq<u8>), SnmpError>(e),
        },
{
    let (tag, content, rest) = match read_tlv(s) {
        Err(e) => {
            return Err(e);
        },
        Ok(t) => t,
    };
    if tag != TAG_SEQUENCE {
        return Err(SnmpError::AsnWrongType);
    }
    let (t2, oc, r2) = match read_tlv(content) {
        Err(e) => {
            return Err(e);
        },
        Ok(t) => t,
    };
    if t2 != TAG_OBJECT_ID {
        return Err(SnmpError::AsnWrongType);
    }
    let name = match decode_oid(oc) {
        Err(e) => {
            return Err(e);
        },
        Ok(o) => o,
    };
    let (value, r3) = match parse_value(r2) {
        Err(e) => {
            return Err(e);
        },
        Ok(t) => t,
    };
    if r3.len() != 0 {
        return Err(SnmpError::AsnInvalidLen);
    }
    proof {
        assert(r3@ =~= Seq::<u8>::empty());
    }
    Ok((Varbind { name, value }, rest))
}

/// Parses a whole variable-binding list content.
#[verifier::rlimit(100)]
fn parse_vb_list(content: &[u8]) -> (r: Result<Vec<Varbind>, SnmpError>)
    ensures
        match r {
            Ok(vbs) => sp_vb_list(content@) == Ok::<Seq<VarbindV>, SnmpError>(vbs.deep_view()),
            Err(e) => sp_vb_list(content@) == Err::<Seq<VarbindV>, SnmpError>(e),
        },
{
    let mut out: Vec<Varbind> = Vec::new();
    let mut rem: &[u8] = content;
    proof {
        assert(out.deep_view() =~= Seq::<VarbindV>::empty());
    }
    loop
        invariant
            sp_vb_list(content@) == (match sp_vb_list(rem@) {
                Ok(tail) => Ok::<Seq<VarbindV>, SnmpError>(out.deep_view() + tail),
                Err(e) => Err::<Seq<VarbindV>, SnmpError>(e),
            }),
        decreases rem@.len(),
    {
        if rem.len() == 0 {
            proof {
                assert(rem@ =~= Seq::<u8>::empty());
                assert(out.deep_view() + Seq::<VarbindV>::empty() =~= out.deep_view());
            }
            return Ok(out);
        }
        let ghost rem_old = rem@;
        match parse_varbind(rem) {
            Err(e) => {
                return Err(e);
            },
            Ok((vb, rem2)) => {
                let ghost out_old = out.deep_view();
                proof {
                    lemma_sp_varbind_consumes(rem_old);
                    match sp_vb_list(rem2@) {
                        Ok(t) => {
                            assert(sp_vb_list(rem_old) == Ok::<Seq<VarbindV>, SnmpError>(
                                seq![vb.deep_view()] + t,
                            ));
                            assert(out_old + (seq![vb.deep_view()] + t) =~= (out_old + seq![
                                vb.deep_view(),
                            ]) + t);
                        },
                        Err(_) => {},
                    }
                }
                out.push(vb);
                rem = rem2;
                proof {
                    assert(out.deep_view() =~= out_old + seq![out@[out@.len() - 1].deep_view()]);
                }
            },
        }
    }
}

impl SnmpPdu {
    /// Decodes a datagram into a message, exactly as `sp_message` reads it.
    /// This parser is total: on any byte string it either returns a message
    /// or one of the `Asn` errors, and it never reads past the slice.
    pub fn from_bytes(data: &[u8]) -> (r: Result<SnmpPdu, SnmpError>)
        ensures
            match r {
                Ok(p) => sp_message(data@) == Ok::<SnmpPduV, SnmpError>(p.deep_view()),
                Err(e) => sp_message(data@) == Err::<SnmpPduV, SnmpError>(e),
            },
    {
        let (t0, c0, _after) = match read_tlv(data) {
            Err(e) => {
                return Err(e);
            },
            Ok(t) => t,
        };
        if t0 != TAG_SEQUENCE {
            return Err(SnmpError::AsnWrongType);
        }
        let (t1, vc, r1) = match read_tlv(c0) {
            Err(e) => {
                return Err(e);
            },
            Ok(t) => t,
        };
        if t1 != TAG_INTEGER {
            return Err(SnmpError::AsnWrongType);
        }
        let ver = match decode_int(vc) {
            Err(e) => {
                return Err(e);
            },
            Ok(v) => v,
        };
        if ver != SNMP_VERSION_2C {
            return Err(SnmpError::AsnWrongType);
        }
        let (t2, comm, r2) = match read_tlv(r1) {
            Err(e) => {
                return Err(e);
            },
            Ok(t) => t,
        };
        if t2 != TAG_OCTET_STRING {
            return Err(SnmpError::AsnWrongType);
        }
        let (t3, pc, r3) = match read_tlv(r2) {
            Err(e) => {
                return Err(e);
            },
            Ok(t) => t,
        };
        let mt = if t3 == TAG_GET_REQUEST {
            SnmpMessageType::GetRequest
        } else if t3 == TAG_GET_NEXT_REQUEST {
            SnmpMessageType::GetNextRequest
        } else if t3 == TAG_RESPONSE {
            SnmpMessageType::Response
        } else if t3 == TAG_SET_REQUEST {
            SnmpMessageType::SetRequest
        } else if t3 == TAG_GET_BULK_REQUEST {
            SnmpMessageType::GetBulkRequest
        } else {
            return Err(SnmpError::AsnInvalidTag);
        };
        if r3.len() != 0 {
            return Err(SnmpError::AsnInvalidLen);
        }
        let (t4, rc, r4) = match read_tlv(pc) {
            Err(e) => {
                return Err(e);
            },
            Ok(t) => t,
        };
        if t4 != TAG_INTEGER {
            return Err(SnmpError::AsnWrongType);
        }
        let rid64 = match decode_int(rc) {
            Err(e) => {
                return Err(e);
            },
            Ok(v) => v,
        };
        if rid64 < i32::MIN as i64 || rid64 > i32::MAX as i64 {
            return Err(SnmpError::AsnParseError);
        }
        let (t5, es, r5) = match read_tlv(r4) {
            Err(e) => {
                return Err(e);
            },
            Ok(t) => t,
        };
        if t5 != TAG_INTEGER {
            return Err(SnmpError::AsnWrongType);
        }
        let status = match decode_u32(es) {
            Err(e) => {
                return Err(e);
            },
            Ok(v) => v,
        };
        let (t6, ei, r6) = match read_tlv(r5) {
            Err(e) => {
                return Err(e);
            },
            Ok(t) => t,
        };
        if t6 != TAG_INTEGER {
            return Err(SnmpError::AsnWrongType);
        }
        let index = match decode_u32(ei) {
            Err(e) => {
                return Err(e);
            },
            Ok(v) => v,
        };
        let (t7, vbl, r7) = match read_tlv(r6) {
            Err(e) => {
                return Err(e);
            },
            Ok(t) => t,
        };
        if t7 != TAG_SEQUENCE {
            return Err(SnmpError::AsnWrongType);
        }
        if r7.len() != 0 {
            return Err(SnmpError::AsnInvalidLen);
        }
        let varbinds = match parse_vb_list(vbl) {
            Err(e) => {
                return Err(e);
            },
            Ok(v) => v,
        };
        Ok(
            SnmpPdu {
                message_type: mt,
                req_id: rid64 as i32,
                error_status: status,
                error_index: index,
                community: vstd::slice::slice_to_vec(comm),
                varbinds,
            },
        )
    }
}

/// Compares two byte strings.
fn bytes_eq(a: &[u8], b: &[u8]) -> (r: bool)
    ensures
        r <==> a@ =~= b@,
{
    if a.len() != b.len() {
        return false;
    }
    let mut i: usize = 0;
    while i < a.len()
        invariant
            0 <= i <= a@.len(),
            a@.len() == b@.len(),
            forall|k: int| 0 <= k < i ==> a@[k] == b@[k],
        decreases a@.len() - i,
    {
        if a[i] != b[i] {
            return false;
        }
        i = i + 1;
    }
    true
}

/// Validates a received reply: it must decode, be a Response, carry the
/// issued request-id, and carry the session's community — checked in that
/// order, yielding `Asn*`, `AsnWrongType`, `RequestIdMismatch`, or
/// `CommunityMismatch` respectively.
pub fn handle_response(req_id: i32, community: &[u8], data: &[u8]) -> (r: SnmpResult<SnmpPdu>)
    ensures
        match sp_message(data@) {
            Err(e) => r == Err::<SnmpPdu, SnmpError>(e),
            Ok(p) => {
                if p.message_type != SnmpMessageType::Response {
                    r == Err::<SnmpPdu, SnmpError>(SnmpError::AsnWrongType)
                } else if p.req_id != req_id {
                    r == Err::<SnmpPdu, SnmpError>(SnmpError::RequestIdMismatch)
                } else if p.community != community@ {
                    r == Err::<SnmpPdu, SnmpError>(SnmpError::CommunityMismatch)
                } else {
                    r matches Ok(resp) && resp.deep_view() == p
                }
            },
        },
{
    let resp = match SnmpPdu::from_bytes(data) {
        Err(e) => {
            return Err(e);
        },
        Ok(p) => p,
    };
    if !matches!(resp.message_type, SnmpMessageType::Response) {
        return Err(SnmpError::AsnWrongType);
    }
    if resp.req_id != req_id {
        return Err(SnmpError::RequestIdMismatch);
    }
    if !bytes_eq(resp.community.as_slice(), community) {
        return Err(SnmpError::CommunityMismatch);
    }
    Ok(resp)
}

/// Builds a Response message into `out`; what an agent (or a test harness)
/// sends back.
pub fn build_response(
    community: &[u8],
    req_id: i32,
    error_status: u32,
    error_index: u32,
    varbinds: &[Varbind],
    out: &mut Vec<u8>,
)
    requires
        enc_ok_varbinds(varbinds.deep_view()),
    ensures
        final(out)@ == message_enc(
            request_pdu(
                SnmpMessageType::Response,
                community@,
                req_id,
                error_status,
                error_index,
                varbinds.deep_view(),
            ),
        ),
{
    build_message(
        SnmpMessageType::Response,
        community,
        req_id,
        error_status,
        error_index,
        varbinds,
        out,
    );
}

} // verus!
