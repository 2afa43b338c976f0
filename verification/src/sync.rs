//! Session bookkeeping for the synchronous SNMPv2c client: the builder, the
//! request-id counter, the reusable send buffer, and reply filtering for the
//! broadcast fan-in mode.
//!
//! The UDP socket itself lives outside this crate; a caller asks the session
//! core to prepare a datagram, sends it, and hands the raw reply bytes back
//! for validation.
use vstd::prelude::*;

use crate::pdu::{
    build_get, build_getbulk, build_getnext, build_set, message_enc, null_varbinds, request_pdu,
    sp_message, SnmpPdu, SnmpPduV, Varbind, VarbindV,
};
use crate::pdu::handle_response;
use crate::{SnmpError, SnmpMessageType};

verus! {

/// Configuration for a synchronous session: destination, community bytes,
/// receive timeout in milliseconds, and the first request-id.
pub struct SyncSessionBuilder<A, S> {
    pub destination: A,
    pub community: Option<S>,
    pub timeout_ms: Option<u64>,
    pub req_id: i32,
}

impl<A, S> SyncSessionBuilder<A, S> {
    /// A builder for the given destination, with no community, no timeout and
    /// request-id seed zero.
    pub fn new(destination: A) -> (r: Self)
        ensures
            r.destination == destination,
            r.community is None,
            r.timeout_ms is None,
            r.req_id == 0,
    {
        SyncSessionBuilder { destination, community: None, timeout_ms: None, req_id: 0 }
    }

    /// Sets the community bytes.
    pub fn community(self, community: S) -> (r: Self)
        ensures
            r.destination == self.destination,
            r.community == Some(community),
            r.timeout_ms == self.timeout_ms,
            r.req_id == self.req_id,
    {
        SyncSessionBuilder { community: Some(community), ..self }
    }

    /// Sets the receive timeout, in milliseconds.
    pub fn timeout(self, timeout_ms: u64) -> (r: Self)
        ensures
            r.destination == self.destination,
            r.community == self.community,
            r.timeout_ms == Some(timeout_ms),
            r.req_id == self.req_id,
    {
        SyncSessionBuilder { timeout_ms: Some(timeout_ms), ..self }
    }

    /// Sets the request-id seed.
    pub fn req_id(self, req_id: i32) -> (r: Self)
        ensures
            r.destination == self.destination,
            r.community == self.community,
            r.timeout_ms == self.timeout_ms,
            r.req_id == req_id,
    {
        SyncSessionBuilder { req_id, ..self }
    }
}

/// The community used when the builder sets none: `"public"`.
pub open spec fn default_community_bytes() -> Seq<u8> {
    seq![112u8, 117u8, 98u8, 108u8, 105u8, 99u8]
}

/// The default community, `"public"`, as owned bytes.
pub fn default_community() -> (r: Vec<u8>)
    ensures
        r@ == default_community_bytes(),
{
    let mut r: Vec<u8> = Vec::new();
    r.push(112);
    r.push(117);
    r.push(98);
    r.push(108);
    r.push(105);
    r.push(99);
    assert(r@ =~= default_community_bytes());
    r
}

/// The request-id counter's step: plus one, wrapping the signed 32-bit range.
pub open spec fn wrap_inc(r: i32) -> i32 {
    if r == i32::MAX {
        i32::MIN
    } else {
        (r + 1) as i32
    }
}

/// The request-id after `n` operations from `seed`.
pub open spec fn nth_req_id(seed: i32, n: nat) -> i32
    decreases n,
{
    if n == 0 {
        seed
    } else {
        wrap_inc(nth_req_id(seed, (n - 1) as nat))
    }
}

/// Request-id monotonicity modulo wrap: over successive operations the
/// observed request-ids are `seed, seed + 1, ...` reduced into the signed
/// 32-bit range, that is, the id of the `n`-th operation is congruent to
/// `seed + n` modulo `2^32`.
pub proof fn lemma_req_id_sequence(seed: i32, n: nat)
    ensures
        nth_req_id(seed, n) as int == ((seed + n + 0x8000_0000) % 0x1_0000_0000) - 0x8000_0000,
    decreases n,
{
    let m = 0x1_0000_0000int;
    if n == 0 {
        vstd::arithmetic::div_mod::lemma_small_mod((seed + 0x8000_0000) as nat, m as nat);
    } else {
        lemma_req_id_sequence(seed, (n - 1) as nat);
        let a = seed + (n - 1) + 0x8000_0000;
        let prev = nth_req_id(seed, (n - 1) as nat);
        assert(prev + 0x8000_0000 == a % m);
        vstd::arithmetic::div_mod::lemma_mod_bound(a, m);
        vstd::arithmetic::div_mod::lemma_add_mod_noop(a, 1, m);
        vstd::arithmetic::div_mod::lemma_mod_bound(1, m);
        vstd::arithmetic::div_mod::lemma_small_mod(1nat, m as nat);
        if prev == i32::MAX {
            assert(a % m == m - 1);
            assert((a % m + 1int % m) == m);
            vstd::arithmetic::div_mod::lemma_mod_self_0(m);
            assert((a + 1) % m == 0);
        } else {
            assert(a % m + 1 < m);
            vstd::arithmetic::div_mod::lemma_small_mod((a % m + 1) as nat, m as nat);
            assert((a + 1) % m == a % m + 1);
        }
    }
}

/// The state a session keeps between operations: community bytes, the
/// request-id counter, and the reusable send buffer.
pub struct SessionCore {
    pub community: Vec<u8>,
    pub req_id: i32,
    pub send_pdu: Vec<u8>,
}

impl SessionCore {
    /// A fresh core; a missing community means `"public"`.
    pub fn new(community: Option<Vec<u8>>, starting_req_id: i32) -> (r: SessionCore)
        ensures
            match community {
                Some(c) => r.community@ == c@,
                None => r.community@ == default_community_bytes(),
            },
            r.req_id == starting_req_id,
            r.send_pdu@ == Seq::<u8>::empty(),
    {
        let comm = match community {
            Some(c) => c,
            None => default_community(),
        };
        SessionCore { community: comm, req_id: starting_req_id, send_pdu: Vec::new() }
    }

    /// Takes the current request-id for an operation and advances the
    /// counter by one with signed wrap.
    pub fn next_req_id(&mut self) -> (r: i32)
        ensures
            r == old(self).req_id,
            final(self).req_id == wrap_inc(old(self).req_id),
            final(self).community == old(self).community,
            final(self).send_pdu == old(self).send_pdu,
    {
        let rid = self.req_id;
        self.req_id = self.req_id.wrapping_add(1);
        rid
    }

    /// Prepares a GetRequest in the send buffer; returns the request-id the
    /// datagram carries, and advances the counter.
    pub fn prepare_get(&mut self, names: &[Vec<u32>]) -> (r: i32)
        requires
            forall|i: int| 0 <= i < names@.len() ==> (#[trigger] names@[i])@.len() >= 2,
        ensures
            r == old(self).req_id,
            final(self).req_id == wrap_inc(old(self).req_id),
            final(self).community == old(self).community,
            final(self).send_pdu@ == message_enc(
                request_pdu(
                    SnmpMessageType::GetRequest,
                    old(self).community@,
                    r,
                    0,
                    0,
                    null_varbinds(names.deep_view()),
                ),
            ),
    {
        let rid = self.next_req_id();
        build_get(self.community.as_slice(), rid, names, &mut self.send_pdu);
        rid
    }

    /// Prepares a GetNextRequest for one OID in the send buffer.
    pub fn prepare_getnext(&mut self, name: &[u32]) -> (r: i32)
        requires
            name@.len() >= 2,
        ensures
            r == old(self).req_id,
            final(self).req_id == wrap_inc(old(self).req_id),
            final(self).community == old(self).community,
            final(self).send_pdu@ == message_enc(
                request_pdu(
                    SnmpMessageType::GetNextRequest,
                    old(self).community@,
                    r,
                    0,
                    0,
                    seq![VarbindV { name: name@, value: crate::pdu::ValueV::Null }],
                ),
            ),
    {
        let rid = self.next_req_id();
        build_getnext(self.community.as_slice(), rid, name, &mut self.send_pdu);
        rid
    }

    /// Prepares a GetBulkRequest in the send buffer.
    pub fn prepare_getbulk(
        &mut self,
        names: &[Vec<u32>],
        non_repeaters: u32,
        max_repetitions: u32,
    ) -> (r: i32)
        requires
            forall|i: int| 0 <= i < names@.len() ==> (#[trigger] names@[i])@.len() >= 2,
        ensures
            r == old(self).req_id,
            final(self).req_id == wrap_inc(old(self).req_id),
            final(self).community == old(self).community,
            final(self).send_pdu@ == message_enc(
                request_pdu(
                    SnmpMessageType::GetBulkRequest,
                    old(self).community@,
                    r,
                    non_repeaters,
                    max_repetitions,
                    null_varbinds(names.deep_view()),
                ),
            ),
    {
        let rid = self.next_req_id();
        build_getbulk(
            self.community.as_slice(),
            rid,
            names,
            non_repeaters,
            max_repetitions,
            &mut self.send_pdu,
        );
        rid
    }

    /// Prepares a SetRequest in the send buffer. The counter advances even
    /// when the build is refused; on `UnsupportedValueType` the buffer is
    /// left as it was and nothing can be sent.
    pub fn prepare_set(&mut self, varbinds: &[Varbind]) -> (r: Result<i32, SnmpError>)
        requires
            crate::pdu::enc_ok_varbinds(varbinds.deep_view()),
        ensures
            final(self).req_id == wrap_inc(old(self).req_id),
            final(self).community == old(self).community,
            (forall|i: int|
                0 <= i < varbinds.deep_view().len() ==> crate::pdu::sendable_value(
                    #[trigger] varbinds.deep_view()[i].value,
                )) ==> r == Ok::<i32, SnmpError>(old(self).req_id) && final(self).send_pdu@
                == message_enc(
                request_pdu(
                    SnmpMessageType::SetRequest,
                    old(self).community@,
                    old(self).req_id,
                    0,
                    0,
                    varbinds.deep_view(),
                ),
            ),
            (exists|i: int|
                0 <= i < varbinds.deep_view().len() && !crate::pdu::sendable_value(
                    #[trigger] varbinds.deep_view()[i].value,
                )) ==> r == Err::<i32, SnmpError>(SnmpError::UnsupportedValueType)
                && final(self).send_pdu@ == old(self).send_pdu@,
    {
        let rid = self.next_req_id();
        match build_set(self.community.as_slice(), rid, varbinds, &mut self.send_pdu) {
            Ok(()) => Ok(rid),
            Err(e) => Err(e),
        }
    }
}

/// A raw reply as received from the socket: source address and datagram.
pub struct ResponseItemInt {
    pub address: String,
    pub data: Vec<u8>,
}

/// A decoded reply from one agent, used by the broadcast fan-in mode.
pub struct ResponseItem {
    pub address: String,
    pub data: SnmpPdu,
}

/// The mathematical shadow of `ResponseItem`.
pub struct ResponseItemV {
    pub address: Seq<char>,
    pub data: SnmpPduV,
}

impl DeepView for ResponseItem {
    type V = ResponseItemV;

    open spec fn deep_view(&self) -> ResponseItemV {
        ResponseItemV { address: self.address@, data: self.data.deep_view() }
    }
}

/// Whether a raw reply passes validation against the issued request-id and
/// the session community.
pub open spec fn reply_kept(req_id: i32, community: Seq<u8>, data: Seq<u8>) -> bool {
    match sp_message(data) {
        Ok(p) => p.message_type == SnmpMessageType::Response && p.req_id == req_id && p.community
            == community,
        Err(_) => false,
    }
}

/// What one raw reply contributes to the broadcast result: the decoded
/// message with its source address if it passes validation, nothing if not.
#[verifier::opaque]
pub open spec fn kept_item(req_id: i32, community: Seq<u8>, item: ResponseItemInt) -> Option<
    ResponseItemV,
> {
    if reply_kept(req_id, community, item.data@) {
        Some(ResponseItemV { address: item.address@, data: sp_message(item.data@)->Ok_0 })
    } else {
        None
    }
}

/// The replies that survive validation, in arrival order, paired with their
/// source addresses.
pub open spec fn collect_spec(req_id: i32, community: Seq<u8>, items: Seq<ResponseItemInt>) -> Seq<
    ResponseItemV,
>
    decreases items.len(),
{
    if items.len() == 0 {
        seq![]
    } else {
        let rest = collect_spec(req_id, community, items.skip(1));
        match kept_item(req_id, community, items[0]) {
            Some(ri) => seq![ri] + rest,
            None => rest,
        }
    }
}

/// Validates one raw reply, returning the decoded message with its source
/// address, or nothing if the reply is dropped.
fn filter_one(req_id: i32, community: &[u8], item: &ResponseItemInt) -> (r: Option<ResponseItem>)
    ensures
        match r {
            Some(ri) => kept_item(req_id, community@, *item) == Some(ri.deep_view()),
            None => kept_item(req_id, community@, *item) is None,
        },
{
    proof {
        reveal(kept_item);
    }
    match handle_response(req_id, community, item.data.as_slice()) {
        Ok(pdu) => {
            let address = item.address.clone();
            Some(ResponseItem { address, data: pdu })
        },
        Err(_) => None,
    }
}

/// Filters raw broadcast replies: keeps each one that decodes to a Response
/// with the issued request-id and the session community, in arrival order;
/// drops all the others silently.
pub fn collect_valid_responses(req_id: i32, community: &[u8], raw: &[ResponseItemInt]) -> (r: Vec<
    ResponseItem,
>)
    ensures
        r.deep_view() == collect_spec(req_id, community@, raw@),
{
    let mut r: Vec<ResponseItem> = Vec::new();
    let mut i: usize = 0;
    proof {
        assert(raw@.skip(0) =~= raw@);
        assert(r.deep_view() =~= Seq::<ResponseItemV>::empty());
    }
    while i < raw.len()
        invariant
            0 <= i <= raw@.len(),
            collect_spec(req_id, community@, raw@) == r.deep_view() + collect_spec(
                req_id,
                community@,
                raw@.skip(i as int),
            ),
        decreases raw@.len() - i,
    {
        let item = vstd::slice::slice_index_get(raw, i);
        proof {
            assert(raw@.skip(i as int)[0] == raw@[i as int]);
            assert(raw@.skip(i as int).skip(1) =~= raw@.skip(i + 1));
        }
        let ghost r_old = r.deep_view();
        match filter_one(req_id, community, item) {
            Some(ri) => {
                let ghost riv = ri.deep_view();
                r.push(ri);
                proof {
                    assert(r.deep_view() =~= r_old + seq![riv]);
                    assert(r_old + (seq![riv] + collect_spec(req_id, community@, raw@.skip(i + 1)))
                        =~= r.deep_view() + collect_spec(req_id, community@, raw@.skip(i + 1)));
                }
            },
            None => {},
        }
        i = i + 1;
    }
    proof {
        assert(raw@.skip(i as int) =~= Seq::<ResponseItemInt>::empty());
        assert(r.deep_view() + Seq::<ResponseItemV>::empty() =~= r.deep_view());
    }
    r
}

} // verus!
