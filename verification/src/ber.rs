//! BER (ITU-T X.690) primitives: length headers, signed integers in minimal
//! two's complement, base-128 sub-identifiers, and object-identifier content.
//!
//! Every executable encoder is specified against a spec-level encoding
//! function, and every decoder against a spec-level parser, so that the
//! round-trip laws can be stated and proved once, over the spec functions.
use vstd::arithmetic::div_mod::{
    lemma_fundamental_div_mod, lemma_fundamental_div_mod_converse,
};
use vstd::prelude::*;

verus! {

// ---------------------------------------------------------------------------
// Spec-level encodings
// ---------------------------------------------------------------------------

/// Minimal big-endian base-256 digits of an unsigned value (zero is `[0]`).
pub open spec fn be_bytes(v: nat) -> Seq<u8>
    decreases v,
{
    if v < 256 {
        seq![v as u8]
    } else {
        be_bytes(v / 256) + seq![(v % 256) as u8]
    }
}

/// A BER length header: short form below 128, else `0x80 | k` followed by the
/// `k` minimal big-endian bytes of the length.
pub open spec fn len_enc(n: nat) -> Seq<u8> {
    if n < 128 {
        seq![n as u8]
    } else {
        seq![(128 + be_bytes(n).len()) as u8] + be_bytes(n)
    }
}

/// A whole tag-length-value element.
pub open spec fn tlv(tag: u8, content: Seq<u8>) -> Seq<u8> {
    seq![tag] + len_enc(content.len()) + content
}

/// The value of a byte read as a two's complement octet.
pub open spec fn sbyte(b: u8) -> int {
    if b >= 128 {
        b - 256
    } else {
        b as int
    }
}

/// Minimal big-endian two's complement content of a signed integer.
/// (For a non-negative value this is the minimal unsigned encoding, with one
/// leading zero byte whenever the top bit would otherwise be set.)
pub open spec fn int_content(v: int) -> Seq<u8>
    decreases (if v >= 0 { v } else { -(v + 1) }),
    via int_content_decreases
{
    if -128 <= v < 128 {
        seq![(v % 256) as u8]
    } else {
        int_content(v / 256) + seq![(v % 256) as u8]
    }
}

#[via_fn]
proof fn int_content_decreases(v: int) {
    if !(-128 <= v < 128) {
        lemma_div256_shrinks(v);
    }
}

/// Euclidean division by 256 moves any value out of the recursive range of
/// `int_content` strictly toward the single-byte base case.
proof fn lemma_div256_shrinks(v: int)
    requires
        v < -128 || v >= 128,
    ensures
        v >= 128 ==> 0 <= v / 256 < v,
        v < -128 ==> v < v / 256 <= -1,
{
    lemma_fundamental_div_mod(v, 256);
    let q = v / 256;
    let r = v % 256;
    assert(v == 256 * q + r);
    if v >= 128 {
        assert(q < v) by (nonlinear_arith)
            requires
                v == 256 * q + r,
                0 <= r < 256,
                v >= 128,
        ;
        assert(q >= 0) by (nonlinear_arith)
            requires
                v == 256 * q + r,
                0 <= r < 256,
                v >= 128,
        ;
    } else {
        assert(v < q && q <= -1) by (nonlinear_arith)
            requires
                v == 256 * q + r,
                0 <= r < 256,
                v < -128,
        ;
    }
}

/// Unsigned big-endian value of a byte string (empty reads as zero).
pub open spec fn u_from_bytes(s: Seq<u8>) -> nat
    decreases s.len(),
{
    if s.len() == 0 {
        0
    } else {
        (u_from_bytes(s.drop_last()) * 256 + s.last()) as nat
    }
}

/// Two's complement big-endian value of a non-empty byte string.
pub open spec fn int_from_bytes(s: Seq<u8>) -> int
    decreases s.len(),
{
    if s.len() <= 1 {
        if s.len() == 1 {
            sbyte(s[0])
        } else {
            0
        }
    } else {
        int_from_bytes(s.drop_last()) * 256 + s.last()
    }
}

/// The leading (continuation) bytes of a base-128 sub-identifier encoding.
pub open spec fn b128_hi(v: nat) -> Seq<u8>
    decreases v,
{
    if v == 0 {
        seq![]
    } else {
        b128_hi(v / 128) + seq![(v % 128 + 128) as u8]
    }
}

/// Minimal base-128 encoding of a sub-identifier: the top bit is set on every
/// byte but the last.
pub open spec fn b128_enc(v: nat) -> Seq<u8> {
    b128_hi(v / 128) + seq![(v % 128) as u8]
}

/// Content bytes of the sub-identifiers of an OID from index `i` on.
pub open spec fn oid_tail(o: Seq<u32>, i: int) -> Seq<u8>
    decreases o.len() - i,
{
    if i < 0 || i >= o.len() {
        seq![]
    } else {
        b128_enc(o[i] as nat) + oid_tail(o, i + 1)
    }
}

/// Content bytes of an object identifier: the first two sub-identifiers fold
/// into `40 * a + b`, the rest follow in base-128.
pub open spec fn oid_content(o: Seq<u32>) -> Seq<u8>
    recommends
        o.len() >= 2,
{
    b128_enc((o[0] * 40 + o[1]) as nat) + oid_tail(o, 2)
}

/// The sub-identifier constraints under which BER object-identifier encoding
/// is injective: the first arc is at most 2 and, below arc 2, the second is
/// below 40.
pub open spec fn valid_oid(o: Seq<u32>) -> bool {
    &&& o.len() >= 2
    &&& o[0] <= 2
    &&& (o[0] < 2 ==> o[1] < 40)
}

// ---------------------------------------------------------------------------
// Executable encoders
// ---------------------------------------------------------------------------

/// Appends the minimal big-endian base-256 digits of `n`.
pub fn push_be(out: &mut Vec<u8>, n: u64)
    ensures
        final(out)@ == old(out)@ + be_bytes(n as nat),
    decreases n,
{
    if n < 256 {
        out.push(n as u8);
        assert(out@ =~= old(out)@ + be_bytes(n as nat));
    } else {
        push_be(out, n / 256);
        out.push((n % 256) as u8);
        assert(out@ =~= old(out)@ + be_bytes(n as nat));
    }
}

/// Powers of 256, to bound the length of base-256 digit strings.
pub open spec fn pow256(k: nat) -> nat
    decreases k,
{
    if k == 0 {
        1
    } else {
        256 * pow256((k - 1) as nat)
    }
}

/// A value below `256^k` has at most `k` base-256 digits.
pub proof fn lemma_be_bytes_len(v: nat, k: nat)
    requires
        k >= 1,
        v < pow256(k),
    ensures
        be_bytes(v).len() <= k,
    decreases k,
{
    if v < 256 {
    } else {
        let p = pow256((k - 1) as nat);
        assert(pow256(k) == 256 * p);
        assert(k >= 2);
        lemma_fundamental_div_mod(v as int, 256);
        assert(v / 256 < p) by (nonlinear_arith)
            requires
                v < 256 * p,
                v as int == 256 * (v as int / 256) + v as int % 256,
                0 <= v as int % 256 < 256,
                v / 256 == (v as int / 256) as nat,
        ;
        lemma_be_bytes_len(v / 256, (k - 1) as nat);
    }
}

/// The first powers of 256 written out, so that fixed-width bounds can be
/// compared against them.
pub proof fn lemma_pow256_8()
    ensures
        pow256(0) == 1,
        pow256(1) == 0x100,
        pow256(2) == 0x1_0000,
        pow256(3) == 0x100_0000,
        pow256(4) == 0x1_0000_0000,
        pow256(5) == 0x100_0000_0000,
        pow256(6) == 0x1_0000_0000_0000,
        pow256(7) == 0x100_0000_0000_0000,
        pow256(8) == 0x1_0000_0000_0000_0000,
        pow256(9) == 0x100_0000_0000_0000_0000,
{
    assert(pow256(0) == 1);
    assert(pow256(1) == 256);
    assert(pow256(2) == 0x1_0000);
    assert(pow256(3) == 0x100_0000);
    assert(pow256(4) == 0x1_0000_0000);
    assert(pow256(5) == 0x100_0000_0000);
    assert(pow256(6) == 0x1_0000_0000_0000);
    assert(pow256(7) == 0x100_0000_0000_0000);
    assert(pow256(8) == 0x1_0000_0000_0000_0000);
    assert(pow256(9) == 0x100_0000_0000_0000_0000);
}

/// Appends a BER length header for `n`.
pub fn push_len(out: &mut Vec<u8>, n: usize)
    ensures
        final(out)@ == old(out)@ + len_enc(n as nat),
{
    if n < 128 {
        out.push(n as u8);
        assert(out@ =~= old(out)@ + len_enc(n as nat));
    } else {
        let mut tmp: Vec<u8> = Vec::new();
        push_be(&mut tmp, n as u64);
        proof {
            lemma_pow256_8();
            lemma_be_bytes_len(n as nat, 8);
        }
        out.push((128 + tmp.len()) as u8);
        out.append(&mut tmp);
        assert(out@ =~= old(out)@ + len_enc(n as nat));
    }
}

/// Euclidean quotient and remainder of an `i64` by 256.
fn divmod256(v: i64) -> (r: (i64, u8))
    ensures
        r.0 as int == v as int / 256,
        r.1 as int == v as int % 256,
{
    if v >= 0 {
        let u = v as u64;
        ((u / 256) as i64, (u % 256) as u8)
    } else {
        let p = (-(v + 1)) as u64;
        let q = (p / 256) as i64;
        let r = (p % 256) as u8;
        proof {
            lemma_fundamental_div_mod(p as int, 256);
            assert(v as int == 256 * (-(q as int) - 1) + (255 - r as int)) by (nonlinear_arith)
                requires
                    p as int == -(v as int) - 1,
                    p as int == 256 * (q as int) + r as int,
            ;
            lemma_fundamental_div_mod_converse(v as int, 256, -(q as int) - 1, 255 - r as int);
        }
        (-q - 1, 255 - r)
    }
}

/// Appends the minimal two's complement content bytes of `v`.
pub fn push_int_content(out: &mut Vec<u8>, v: i64)
    ensures
        final(out)@ == old(out)@ + int_content(v as int),
    decreases (if v >= 0 { v as int } else { -(v as int + 1) }),
{
    if -128 <= v && v < 128 {
        let b: u8 = if v >= 0 {
            v as u8
        } else {
            (v + 256) as u8
        };
        proof {
            lemma_fundamental_div_mod_converse(
                v as int,
                256,
                if v >= 0 { 0int } else { -1int },
                b as int,
            );
        }
        out.push(b);
        assert(out@ =~= old(out)@ + int_content(v as int));
    } else {
        let (q, r) = divmod256(v);
        proof {
            lemma_div256_shrinks(v as int);
        }
        push_int_content(out, q);
        out.push(r);
        assert(out@ =~= old(out)@ + int_content(v as int));
    }
}

/// Appends the minimal two's complement content bytes of an unsigned value
/// (adding the leading zero byte exactly when the top bit would be set).
pub fn push_uint_content(out: &mut Vec<u8>, v: u64)
    ensures
        final(out)@ == old(out)@ + int_content(v as int),
    decreases v,
{
    if v < 128 {
        out.push(v as u8);
        assert(out@ =~= old(out)@ + int_content(v as int));
    } else {
        push_uint_content(out, v / 256);
        out.push((v % 256) as u8);
        assert(out@ =~= old(out)@ + int_content(v as int));
    }
}

/// Appends the continuation bytes of a base-128 encoding.
fn push_b128_hi(out: &mut Vec<u8>, v: u64)
    ensures
        final(out)@ == old(out)@ + b128_hi(v as nat),
    decreases v,
{
    if v == 0 {
        assert(out@ =~= old(out)@ + b128_hi(v as nat));
    } else {
        push_b128_hi(out, v / 128);
        out.push((v % 128 + 128) as u8);
        assert(out@ =~= old(out)@ + b128_hi(v as nat));
    }
}

/// Appends the minimal base-128 encoding of one sub-identifier.
pub fn push_b128(out: &mut Vec<u8>, v: u64)
    ensures
        final(out)@ == old(out)@ + b128_enc(v as nat),
{
    push_b128_hi(out, v / 128);
    out.push((v % 128) as u8);
    assert(out@ =~= old(out)@ + b128_enc(v as nat));
}

/// Appends the content bytes of an object identifier.
pub fn push_oid_content(out: &mut Vec<u8>, o: &[u32])
    requires
        o@.len() >= 2,
    ensures
        final(out)@ == old(out)@ + oid_content(o@),
{
    let first: u64 = o[0] as u64 * 40 + o[1] as u64;
    push_b128(out, first);
    let mut i: usize = 2;
    while i < o.len()
        invariant
            2 <= i <= o@.len(),
            out@ == old(out)@ + b128_enc((o@[0] * 40 + o@[1]) as nat) + oid_tail(o@, 2).take(
                oid_tail(o@, 2).len() - oid_tail(o@, i as int).len(),
            ),
            oid_tail(o@, i as int).len() <= oid_tail(o@, 2).len(),
        decreases o@.len() - i,
    {
        assert(oid_tail(o@, i as int) == b128_enc(o@[i as int] as nat) + oid_tail(o@, i + 1));
        push_b128(out, o[i] as u64);
        proof {
            lemma_oid_tail_prefix(o@, i as int);
        }
        i = i + 1;
    }
    assert(oid_tail(o@, o@.len() as int) =~= Seq::<u8>::empty());
    assert(out@ =~= old(out)@ + oid_content(o@));
}

/// Each step of the sub-identifier loop extends the already-written prefix of
/// `oid_tail` by exactly one encoded sub-identifier.
proof fn lemma_oid_tail_prefix(o: Seq<u32>, i: int)
    requires
        2 <= i < o.len(),
    ensures
        oid_tail(o, 2).take(oid_tail(o, 2).len() - oid_tail(o, i).len()) + b128_enc(o[i] as nat)
            =~= oid_tail(o, 2).take(oid_tail(o, 2).len() - oid_tail(o, i + 1).len()),
        oid_tail(o, i + 1).len() <= oid_tail(o, 2).len(),
    decreases i,
{
    lemma_oid_tail_split(o, 2, i);
    lemma_oid_tail_split(o, 2, i + 1);
    assert(oid_tail(o, i) == b128_enc(o[i] as nat) + oid_tail(o, i + 1));
}

/// `oid_tail(o, j)` splits as the bytes for indices `j..k` followed by
/// `oid_tail(o, k)`.
proof fn lemma_oid_tail_split(o: Seq<u32>, j: int, k: int)
    requires
        0 <= j <= k <= o.len(),
    ensures
        oid_tail(o, j).len() >= oid_tail(o, k).len(),
        oid_tail(o, j).take(oid_tail(o, j).len() - oid_tail(o, k).len()) + oid_tail(o, k)
            =~= oid_tail(o, j),
    decreases k - j,
{
    if j < k {
        lemma_oid_tail_split(o, j + 1, k);
        assert(oid_tail(o, j) == b128_enc(o[j] as nat) + oid_tail(o, j + 1));
    }
}

/// Appends one whole TLV element, taking the prepared content bytes.
pub fn push_tlv(out: &mut Vec<u8>, tag: u8, content: &mut Vec<u8>)
    ensures
        final(out)@ == old(out)@ + tlv(tag, old(content)@),
        final(content)@ == Seq::<u8>::empty(),
{
    out.push(tag);
    push_len(out, content.len());
    out.append(content);
    assert(out@ =~= old(out)@ + tlv(tag, old(content)@));
}

// ---------------------------------------------------------------------------
// Spec-level parsers
// ---------------------------------------------------------------------------

/// Parses a BER length header; returns the length and the remaining bytes.
/// Length fields wider than four bytes are rejected, so a parsed length always
/// fits in 32 bits.
pub open spec fn sp_read_len(s: Seq<u8>) -> Result<(nat, Seq<u8>), crate::SnmpError> {
    if s.len() == 0 {
        Err(crate::SnmpError::AsnEof)
    } else if s[0] < 128 {
        Ok((s[0] as nat, s.skip(1)))
    } else if s[0] == 128 {
        Err(crate::SnmpError::AsnInvalidLen)
    } else {
        let k = s[0] - 128;
        if k > 4 {
            Err(crate::SnmpError::AsnInvalidLen)
        } else if s.len() < 1 + k {
            Err(crate::SnmpError::AsnEof)
        } else {
            Ok((u_from_bytes(s.subrange(1, 1 + k)), s.skip(1 + k)))
        }
    }
}

/// Parses one TLV element: its tag, its content bytes, and what follows it.
pub open spec fn sp_read_tlv(s: Seq<u8>) -> Result<(u8, Seq<u8>, Seq<u8>), crate::SnmpError> {
    if s.len() == 0 {
        Err(crate::SnmpError::AsnEof)
    } else {
        match sp_read_len(s.skip(1)) {
            Err(e) => Err(e),
            Ok((n, rest)) => if rest.len() < n {
                Err(crate::SnmpError::AsnInvalidLen)
            } else {
                Ok((s[0], rest.take(n as int), rest.skip(n as int)))
            },
        }
    }
}

/// A successful length parse consumes at least one byte.
pub proof fn lemma_sp_read_len_consumes(s: Seq<u8>)
    ensures
        sp_read_len(s) matches Ok((n, rest)) ==> rest.len() < s.len(),
{
}

/// A successful TLV parse consumes at least two bytes, and neither the
/// content nor the remainder reaches the whole input's length.
pub proof fn lemma_sp_read_tlv_consumes(s: Seq<u8>)
    ensures
        sp_read_tlv(s) matches Ok((t, c, a)) ==> a.len() < s.len() && c.len() < s.len(),
{
    if s.len() > 0 {
        lemma_sp_read_len_consumes(s.skip(1));
    }
}

/// Canonical (minimal) two's complement content: non-empty, and the first
/// nine bits are not all equal.
pub open spec fn canonical_int(s: Seq<u8>) -> bool {
    &&& s.len() >= 1
    &&& (s.len() >= 2 ==> !(s[0] == 0 && s[1] < 128) && !(s[0] == 255 && s[1] >= 128))
}

/// Value of INTEGER content bytes; non-canonical content is an error.
pub open spec fn sp_int_val(s: Seq<u8>) -> Result<int, crate::SnmpError> {
    if canonical_int(s) {
        Ok(int_from_bytes(s))
    } else {
        Err(crate::SnmpError::AsnParseError)
    }
}

/// INTEGER content constrained to `[lo, hi]`; out-of-range values are a parse
/// error.
pub open spec fn sp_int_range(s: Seq<u8>, lo: int, hi: int) -> Result<int, crate::SnmpError> {
    match sp_int_val(s) {
        Ok(v) => if lo <= v <= hi {
            Ok(v)
        } else {
            Err(crate::SnmpError::AsnParseError)
        },
        Err(e) => Err(e),
    }
}

/// Parses one base-128 value, continuing while the top bit is set; values
/// above `max` are a parse error.
pub open spec fn sp_b128(s: Seq<u8>, acc: nat, max: nat) -> Result<(nat, Seq<u8>), crate::SnmpError>
    decreases s.len(),
{
    if s.len() == 0 {
        Err(crate::SnmpError::AsnEof)
    } else {
        let a2 = (acc * 128 + (s[0] % 128)) as nat;
        if a2 > max {
            Err(crate::SnmpError::AsnParseError)
        } else if s[0] >= 128 {
            sp_b128(s.skip(1), a2, max)
        } else {
            Ok((a2, s.skip(1)))
        }
    }
}

/// A successful base-128 parse consumes at least one byte.
pub proof fn lemma_sp_b128_consumes(s: Seq<u8>, acc: nat, max: nat)
    ensures
        sp_b128(s, acc, max) matches Ok((v, rest)) ==> rest.len() < s.len(),
    decreases s.len(),
{
    if s.len() > 0 {
        let a2 = (acc * 128 + (s[0] % 128)) as nat;
        if a2 <= max && s[0] >= 128 {
            lemma_sp_b128_consumes(s.skip(1), a2, max);
        }
    }
}

/// Largest value accepted for the folded first two sub-identifiers:
/// `40 * 2 + u32::MAX`.
pub const OID_FIRST_MAX: u64 = 0x1_0000_004F;

/// Parses the sub-identifiers after the first two until the content ends.
pub open spec fn sp_oid_rest(s: Seq<u8>) -> Result<Seq<u32>, crate::SnmpError>
    decreases s.len(),
    via sp_oid_rest_decreases
{
    if s.len() == 0 {
        Ok(seq![])
    } else {
        match sp_b128(s, 0, 0xFFFF_FFFF) {
            Err(e) => Err(e),
            Ok((v, rest)) => match sp_oid_rest(rest) {
                Err(e) => Err(e),
                Ok(tail) => Ok(seq![v as u32] + tail),
            },
        }
    }
}

#[via_fn]
proof fn sp_oid_rest_decreases(s: Seq<u8>) {
    lemma_sp_b128_consumes(s, 0, 0xFFFF_FFFF);
}

/// Splits the folded first value `x` back into the first two sub-identifiers.
pub open spec fn oid_first_two(x: nat) -> (u32, u32) {
    if x < 40 {
        (0u32, x as u32)
    } else if x < 80 {
        (1u32, (x - 40) as u32)
    } else {
        (2u32, (x - 80) as u32)
    }
}

/// Parses whole object-identifier content into its sub-identifiers.
pub open spec fn sp_oid(s: Seq<u8>) -> Result<Seq<u32>, crate::SnmpError> {
    match sp_b128(s, 0, OID_FIRST_MAX as nat) {
        Err(e) => Err(e),
        Ok((x, rest)) => match sp_oid_rest(rest) {
            Err(e) => Err(e),
            Ok(tail) => Ok(seq![oid_first_two(x).0, oid_first_two(x).1] + tail),
        },
    }
}

// ---------------------------------------------------------------------------
// Small facts about byte-string values
// ---------------------------------------------------------------------------

/// `pow256` never decreases.
pub proof fn lemma_pow256_mono(a: nat, b: nat)
    requires
        a <= b,
    ensures
        pow256(a) <= pow256(b),
    decreases b,
{
    if a < b {
        lemma_pow256_mono(a, (b - 1) as nat);
        assert(pow256(b) == 256 * pow256((b - 1) as nat));
    }
}

/// The sign of a two's complement byte string is its top bit.
pub proof fn lemma_ifb_sign(s: Seq<u8>)
    requires
        s.len() >= 1,
    ensures
        int_from_bytes(s) < 0 <==> s[0] >= 128,
    decreases s.len(),
{
    if s.len() > 1 {
        lemma_ifb_sign(s.drop_last());
        assert(s.drop_last()[0] == s[0]);
    }
}

/// With the top bit clear, the two's complement and unsigned readings agree.
pub proof fn lemma_ifb_nonneg_eq(s: Seq<u8>)
    requires
        s.len() >= 1,
        s[0] < 128,
    ensures
        int_from_bytes(s) == u_from_bytes(s),
    decreases s.len(),
{
    if s.len() == 1 {
        assert(s.drop_last() =~= Seq::<u8>::empty());
        assert(u_from_bytes(s) == u_from_bytes(s.drop_last()) * 256 + s.last());
        assert(int_from_bytes(s) == sbyte(s[0]));
        assert(s.last() == s[0]);
    } else {
        lemma_ifb_nonneg_eq(s.drop_last());
        assert(s.drop_last()[0] == s[0]);
    }
}

/// A leading zero byte does not change the unsigned reading.
pub proof fn lemma_ufb_skip_zero(s: Seq<u8>)
    requires
        s.len() >= 1,
        s[0] == 0,
    ensures
        u_from_bytes(s) == u_from_bytes(s.skip(1)),
    decreases s.len(),
{
    if s.len() == 1 {
        assert(s.skip(1) =~= Seq::<u8>::empty());
    } else {
        lemma_ufb_skip_zero(s.drop_last());
        assert(s.drop_last()[0] == s[0]);
        assert(s.skip(1).drop_last() =~= s.drop_last().skip(1));
        assert(s.skip(1).last() == s.last());
    }
}

/// A non-zero leading byte pushes the unsigned reading to at least
/// `first * 256^(k-1)`.
pub proof fn lemma_ufb_lower(s: Seq<u8>)
    requires
        s.len() >= 1,
    ensures
        u_from_bytes(s) >= s[0] * pow256((s.len() - 1) as nat),
    decreases s.len(),
{
    if s.len() == 1 {
        assert(s.drop_last() =~= Seq::<u8>::empty());
        assert(u_from_bytes(s) == u_from_bytes(s.drop_last()) * 256 + s.last());
        assert(pow256(0) == 1);
        assert(s[0] * 1 == s[0]) by (nonlinear_arith);
        assert(s.last() == s[0]);
    } else {
        lemma_ufb_lower(s.drop_last());
        assert(s.drop_last()[0] == s[0]);
        let k = (s.len() - 2) as nat;
        assert(pow256((s.len() - 1) as nat) == 256 * pow256(k));
        let a = s[0] as int;
        let p = pow256(k) as int;
        let w = u_from_bytes(s.drop_last()) as int;
        vstd::arithmetic::mul::lemma_mul_inequality(a * p, w, 256);
        vstd::arithmetic::mul::lemma_mul_is_associative(a, p, 256);
        assert(p * 256 == 256 * p);
        assert(u_from_bytes(s) == w * 256 + s.last());
    }
}

/// A canonical byte string of `k` bytes encodes a value of magnitude at least
/// `256^(k-1) / 2`.
pub proof fn lemma_canonical_min_magnitude(s: Seq<u8>)
    requires
        s.len() >= 2,
        canonical_int(s),
    ensures
        2 * int_from_bytes(s) >= pow256((s.len() - 1) as nat) || 2 * int_from_bytes(s) < -pow256(
            (s.len() - 1) as nat,
        ),
    decreases s.len(),
{
    if s.len() == 2 {
        assert(s.drop_last() =~= seq![s[0]]);
        assert(int_from_bytes(s.drop_last()) == sbyte(s[0]));
        assert(s.last() == s[1]);
        assert(int_from_bytes(s) == sbyte(s[0]) * 256 + s[1]);
        lemma_pow256_8();
    } else {
        let d = s.drop_last();
        assert(d[0] == s[0] && d[1] == s[1]);
        lemma_canonical_min_magnitude(d);
        let p = pow256((s.len() - 2) as nat);
        assert(pow256((s.len() - 1) as nat) == 256 * p);
        let w = int_from_bytes(d);
        assert(int_from_bytes(s) == w * 256 + s.last());
        if 2 * w >= p {
            assert(2 * (w * 256) >= 256 * p) by (nonlinear_arith)
                requires
                    2 * w >= p,
            ;
        } else {
            assert(2 * w < -p);
            assert(2 * (w * 256) <= (-p - 1) * 256) by (nonlinear_arith)
                requires
                    2 * w <= -p - 1,
            ;
        }
    }
}

// ---------------------------------------------------------------------------
// Round trips: parsing an encoding gives the value back
// ---------------------------------------------------------------------------

/// Reading back the minimal base-256 digits recovers the value.
pub proof fn lemma_ufb_be_bytes(v: nat)
    ensures
        u_from_bytes(be_bytes(v)) == v,
    decreases v,
{
    if v < 256 {
        assert(be_bytes(v) =~= seq![v as u8]);
        assert(be_bytes(v).drop_last() =~= Seq::<u8>::empty());
        assert(u_from_bytes(Seq::<u8>::empty()) == 0);
        assert(be_bytes(v).last() == v as u8);
    } else {
        lemma_ufb_be_bytes(v / 256);
        assert(be_bytes(v).drop_last() =~= be_bytes(v / 256));
        assert(be_bytes(v).last() == (v % 256) as u8);
        assert(u_from_bytes(be_bytes(v)) == (u_from_bytes(be_bytes(v / 256)) * 256 + (v % 256)
            as u8) as nat);
        lemma_fundamental_div_mod(v as int, 256);
    }
}

/// Parsing a length header written by `len_enc` gives the length back and
/// leaves the rest untouched.
pub proof fn lemma_len_rt(n: nat, rest: Seq<u8>)
    requires
        n < 0x1_0000_0000,
    ensures
        sp_read_len(len_enc(n) + rest) == Ok::<(nat, Seq<u8>), crate::SnmpError>((n, rest)),
{
    let s = len_enc(n) + rest;
    if n < 128 {
        assert(s[0] == n as u8);
        assert(s.skip(1) =~= rest);
    } else {
        lemma_pow256_8();
        lemma_be_bytes_len(n, 4);
        let be = be_bytes(n);
        let k = be.len();
        assert(1 <= k <= 4);
        assert(s[0] == (128 + k) as u8);
        assert(s.len() == 1 + k + rest.len());
        assert(s.subrange(1, 1 + k as int) =~= be);
        lemma_ufb_be_bytes(n);
        assert(s.skip(1 + k as int) =~= rest);
    }
}

/// Parsing a TLV element written by `tlv` gives tag, content and rest back.
pub proof fn lemma_tlv_rt(tag: u8, c: Seq<u8>, rest: Seq<u8>)
    requires
        c.len() < 0x1_0000_0000,
    ensures
        sp_read_tlv(tlv(tag, c) + rest) == Ok::<(u8, Seq<u8>, Seq<u8>), crate::SnmpError>(
            (tag, c, rest),
        ),
{
    let s = tlv(tag, c) + rest;
    assert(s[0] == tag);
    assert(s.skip(1) =~= len_enc(c.len()) + (c + rest));
    lemma_len_rt(c.len(), c + rest);
    assert((c + rest).take(c.len() as int) =~= c);
    assert((c + rest).skip(c.len() as int) =~= rest);
}

/// `int_content` always writes the canonical (minimal) form.
pub proof fn lemma_int_content_canonical(v: int)
    ensures
        canonical_int(int_content(v)),
        int_content(v).len() >= 1,
        int_content(v).len() == 1 <==> -128 <= v < 128,
    decreases (if v >= 0 { v } else { -(v + 1) }),
{
    if -128 <= v < 128 {
    } else {
        lemma_div256_shrinks(v);
        lemma_int_content_canonical(v / 256);
        let d = int_content(v / 256);
        let s = int_content(v);
        assert(s == d + seq![(v % 256) as u8]);
        assert(s[0] == d[0]);
        lemma_fundamental_div_mod(v, 256);
        if d.len() == 1 {
            assert(-128 <= v / 256 < 128);
            assert(s[1] == (v % 256) as u8);
            if v >= 128 {
                assert(d[0] == (v / 256) as u8);
                if v / 256 == 0 {
                    assert(v == v % 256);
                    assert(s[1] >= 128);
                }
                assert(d[0] != 255);
            } else {
                assert(v / 256 <= -1);
                assert(d[0] == ((v / 256) % 256) as u8);
                lemma_fundamental_div_mod_converse(v / 256, 256, -1, v / 256 + 256);
                assert(d[0] as int == v / 256 + 256);
                assert(d[0] >= 128);
                if d[0] == 255 {
                    assert(v / 256 == -1);
                    assert(v == -256 + v % 256);
                    assert(v % 256 < 128);
                    assert(s[1] < 128);
                }
            }
        } else {
            assert(s[1] == d[1]);
        }
    }
}

/// Reading back `int_content` recovers the signed value.
pub proof fn lemma_int_content_value(v: int)
    ensures
        int_from_bytes(int_content(v)) == v,
    decreases (if v >= 0 { v } else { -(v + 1) }),
{
    if -128 <= v < 128 {
        if v >= 0 {
            lemma_fundamental_div_mod_converse(v, 256, 0, v);
        } else {
            lemma_fundamental_div_mod_converse(v, 256, -1, v + 256);
        }
    } else {
        lemma_div256_shrinks(v);
        lemma_int_content_value(v / 256);
        let d = int_content(v / 256);
        let s = int_content(v);
        assert(s.drop_last() =~= d);
        assert(s.last() == (v % 256) as u8);
        lemma_int_content_canonical(v / 256);
        assert(s.len() >= 2);
        lemma_fundamental_div_mod(v, 256);
    }
}

/// The INTEGER round trip, with a range check: content written by
/// `int_content` parses back to the value whenever it lies in `[lo, hi]`.
pub proof fn lemma_int_rt(v: int, lo: int, hi: int)
    requires
        lo <= v <= hi,
    ensures
        sp_int_range(int_content(v), lo, hi) == Ok::<int, crate::SnmpError>(v),
{
    lemma_int_content_canonical(v);
    lemma_int_content_value(v);
}

/// Powers of 128, to reason about base-128 continuation bytes.
pub open spec fn pow128(k: nat) -> nat
    decreases k,
{
    if k == 0 {
        1
    } else {
        128 * pow128((k - 1) as nat)
    }
}

/// Parsing the continuation bytes of `w` folds `w` into the accumulator.
proof fn lemma_b128_hi_parse(w: nat, acc: nat, max: nat, tail: Seq<u8>)
    requires
        acc * pow128(b128_hi(w).len()) + w <= max,
    ensures
        sp_b128(b128_hi(w) + tail, acc, max) == sp_b128(
            tail,
            (acc * pow128(b128_hi(w).len()) + w) as nat,
            max,
        ),
    decreases w,
{
    if w == 0 {
        assert(b128_hi(0) + tail =~= tail);
        assert(pow128(0) == 1);
        assert(acc * 1 == acc) by (nonlinear_arith);
    } else {
        let b = (w % 128 + 128) as u8;
        let hi = b128_hi(w / 128);
        let k = hi.len();
        assert(b128_hi(w) == hi + seq![b]);
        assert(b128_hi(w).len() == k + 1);
        assert(pow128(k + 1) == 128 * pow128(k));
        lemma_fundamental_div_mod(w as int, 128);
        let a1 = acc * pow128(k) + w / 128;
        assert((acc * pow128(k)) * 128 == acc * (pow128(k) * 128)) by (nonlinear_arith);
        assert(pow128(k) * 128 == 128 * pow128(k));
        assert(a1 * 128 + w % 128 == acc * pow128(k + 1) + w) by (nonlinear_arith)
            requires
                a1 == acc * pow128(k) + w / 128,
                (acc * pow128(k)) * 128 == acc * pow128(k + 1),
                w == 128 * (w as int / 128) + w as int % 128,
                w / 128 == (w as int / 128) as nat,
                w % 128 == (w as int % 128) as nat,
        ;
        assert(a1 <= a1 * 128 + w % 128) by (nonlinear_arith)
            requires
                a1 >= 0,
        ;
        lemma_b128_hi_parse(w / 128, acc, max, seq![b] + tail);
        assert(b128_hi(w) + tail =~= hi + (seq![b] + tail));
        let s1 = seq![b] + tail;
        assert(s1[0] == b);
        assert(b >= 128);
        assert(b % 128 == w % 128);
        assert(s1.skip(1) =~= tail);
    }
}

/// The base-128 round trip: an encoded sub-identifier parses back to itself.
pub proof fn lemma_b128_rt(v: nat, max: nat, tail: Seq<u8>)
    requires
        v <= max,
    ensures
        sp_b128(b128_enc(v) + tail, 0, max) == Ok::<(nat, Seq<u8>), crate::SnmpError>((v, tail)),
{
    let b = (v % 128) as u8;
    let hi = b128_hi(v / 128);
    let k = hi.len();
    lemma_fundamental_div_mod(v as int, 128);
    assert(v / 128 <= v) by (nonlinear_arith)
        requires
            v as int == 128 * (v as int / 128) + v as int % 128,
            0 <= v as int % 128,
            v / 128 == (v as int / 128) as nat,
    ;
    assert(0 * pow128(k) == 0) by (nonlinear_arith);
    lemma_b128_hi_parse(v / 128, 0, max, seq![b] + tail);
    assert(b128_enc(v) + tail =~= hi + (seq![b] + tail));
    let s1 = seq![b] + tail;
    assert(s1[0] == b);
    assert(b < 128);
    assert((v / 128) * 128 + v % 128 == v);
    assert(s1.skip(1) =~= tail);
}

/// The tail sub-identifiers round-trip one by one.
proof fn lemma_oid_rest_rt(o: Seq<u32>, i: int)
    requires
        0 <= i <= o.len(),
        2 <= i,
    ensures
        sp_oid_rest(oid_tail(o, i)) == Ok::<Seq<u32>, crate::SnmpError>(o.skip(i)),
    decreases o.len() - i,
{
    if i == o.len() {
        assert(oid_tail(o, i) =~= Seq::<u8>::empty());
        assert(o.skip(i) =~= Seq::<u32>::empty());
    } else {
        let tail = oid_tail(o, i + 1);
        assert(oid_tail(o, i) == b128_enc(o[i] as nat) + tail);
        lemma_b128_rt(o[i] as nat, 0xFFFF_FFFF, tail);
        assert(b128_enc(o[i] as nat).len() >= 1);
        assert(oid_tail(o, i).len() >= 1);
        lemma_oid_rest_rt(o, i + 1);
        assert(seq![o[i]] + o.skip(i + 1) =~= o.skip(i));
    }
}

/// The object-identifier round trip: content written by `oid_content` parses
/// back to the same sub-identifiers, for every OID within the BER constraints.
pub proof fn lemma_oid_rt(o: Seq<u32>)
    requires
        valid_oid(o),
    ensures
        sp_oid(oid_content(o)) == Ok::<Seq<u32>, crate::SnmpError>(o),
{
    let x = (o[0] * 40 + o[1]) as nat;
    assert(x <= OID_FIRST_MAX as nat);
    let tail = oid_tail(o, 2);
    lemma_b128_rt(x, OID_FIRST_MAX as nat, tail);
    assert(oid_content(o) + Seq::<u8>::empty() =~= oid_content(o));
    assert(b128_enc(x) + tail =~= b128_enc(x) + (tail + Seq::<u8>::empty()));
    assert(sp_b128(oid_content(o), 0, OID_FIRST_MAX as nat) == Ok::<
        (nat, Seq<u8>),
        crate::SnmpError,
    >((x, tail))) by {
        assert(oid_content(o) =~= b128_enc(x) + tail);
    }
    assert(oid_first_two(x).0 == o[0] && oid_first_two(x).1 == o[1]) by {
        if o[0] == 0 {
            assert(x < 40);
        } else if o[0] == 1 {
            assert(40 <= x < 80);
        } else {
            assert(x >= 80);
            assert(x - 80 == o[1]);
        }
    }
    lemma_oid_rest_rt(o, 2);
    assert(seq![o[0], o[1]] + o.skip(2) =~= o);
}

// ---------------------------------------------------------------------------
// Executable decoders
// ---------------------------------------------------------------------------

/// Reads a BER length header off the front of `s`.
pub fn read_len<'a>(s: &'a [u8]) -> (r: Result<(usize, &'a [u8]), crate::SnmpError>)
    ensures
        match r {
            Ok((n, rest)) => sp_read_len(s@) == Ok::<(nat, Seq<u8>), crate::SnmpError>(
                (n as nat, rest@),
            ),
            Err(e) => sp_read_len(s@) == Err::<(nat, Seq<u8>), crate::SnmpError>(e),
        },
{
    if s.len() == 0 {
        return Err(crate::SnmpError::AsnEof);
    }
    let b = s[0];
    if b < 128 {
        let rest = vstd::slice::slice_subrange(s, 1, s.len());
        return Ok((b as usize, rest));
    }
    if b == 128 {
        return Err(crate::SnmpError::AsnInvalidLen);
    }
    let k = (b - 128) as usize;
    if k > 4 {
        return Err(crate::SnmpError::AsnInvalidLen);
    }
    if s.len() < 1 + k {
        return Err(crate::SnmpError::AsnEof);
    }
    let mut acc: u64 = 0;
    let mut i: usize = 1;
    proof {
        assert(s@.subrange(1, 1int) =~= Seq::<u8>::empty());
    }
    while i < 1 + k
        invariant
            1 <= i <= 1 + k,
            k <= 4,
            s@.len() >= 1 + k,
            acc as nat == u_from_bytes(s@.subrange(1, i as int)),
            acc < pow256((i - 1) as nat),
        decreases 1 + k - i,
    {
        proof {
            assert(s@.subrange(1, i + 1).drop_last() =~= s@.subrange(1, i as int));
            assert(s@.subrange(1, i + 1).last() == s@[i as int]);
            assert(pow256(i as nat) == 256 * pow256((i - 1) as nat));
            lemma_pow256_mono((i - 1) as nat, 3);
            assert(pow256(3) == 0x100_0000) by {
                lemma_pow256_8();
            }
        }
        acc = acc * 256 + (s[i] as u64);
        i = i + 1;
    }
    proof {
        lemma_pow256_mono((i - 1) as nat, 4);
        lemma_pow256_8();
        assert(pow256(4) == 0x1_0000_0000);
    }
    let n = acc as usize;
    let rest = vstd::slice::slice_subrange(s, 1 + k, s.len());
    proof {
        assert(rest@ =~= s@.skip(1 + k as int));
    }
    Ok((n, rest))
}

/// Reads one TLV element off the front of `s`.
pub fn read_tlv<'a>(s: &'a [u8]) -> (r: Result<(u8, &'a [u8], &'a [u8]), crate::SnmpError>)
    ensures
        match r {
            Ok((tag, content, after)) => sp_read_tlv(s@) == Ok::<
                (u8, Seq<u8>, Seq<u8>),
                crate::SnmpError,
            >((tag, content@, after@)),
            Err(e) => sp_read_tlv(s@) == Err::<(u8, Seq<u8>, Seq<u8>), crate::SnmpError>(e),
        },
{
    if s.len() == 0 {
        return Err(crate::SnmpError::AsnEof);
    }
    let tag = s[0];
    let tail = vstd::slice::slice_subrange(s, 1, s.len());
    proof {
        assert(tail@ =~= s@.skip(1));
    }
    match read_len(tail) {
        Err(e) => Err(e),
        Ok((n, rest)) => {
            if rest.len() < n {
                return Err(crate::SnmpError::AsnInvalidLen);
            }
            let content = vstd::slice::slice_subrange(rest, 0, n);
            let after = vstd::slice::slice_subrange(rest, n, rest.len());
            proof {
                assert(content@ =~= rest@.take(n as int));
                assert(after@ =~= rest@.skip(n as int));
            }
            Ok((tag, content, after))
        },
    }
}

/// Rejects empty or non-minimal INTEGER content.
fn check_canonical(s: &[u8]) -> (r: bool)
    ensures
        r == canonical_int(s@),
{
    if s.len() == 0 {
        return false;
    }
    if s.len() >= 2 {
        if s[0] == 0 && s[1] < 128 {
            return false;
        }
        if s[0] == 255 && s[1] >= 128 {
            return false;
        }
    }
    true
}

/// Decodes INTEGER content as a signed 64-bit value.
pub fn decode_int(content: &[u8]) -> (r: Result<i64, crate::SnmpError>)
    ensures
        match r {
            Ok(v) => sp_int_range(content@, i64::MIN as int, i64::MAX as int) == Ok::<
                int,
                crate::SnmpError,
            >(v as int),
            Err(e) => sp_int_range(content@, i64::MIN as int, i64::MAX as int) == Err::<
                int,
                crate::SnmpError,
            >(e),
        },
{
    if !check_canonical(content) {
        return Err(crate::SnmpError::AsnParseError);
    }
    if content.len() > 8 {
        proof {
            lemma_canonical_min_magnitude(content@);
            lemma_pow256_mono(8, (content@.len() - 1) as nat);
            lemma_pow256_8();
        }
        return Err(crate::SnmpError::AsnParseError);
    }
    let b0 = content[0];
    let mut acc: i64 = if b0 >= 128 {
        (b0 as i64) - 256
    } else {
        b0 as i64
    };
    let mut i: usize = 1;
    proof {
        assert(content@.take(1) =~= seq![content@[0]]);
        assert(int_from_bytes(seq![content@[0]]) == sbyte(content@[0]));
        lemma_pow256_8();
    }
    while i < content.len()
        invariant
            1 <= i <= content@.len() <= 8,
            acc as int == int_from_bytes(content@.take(i as int)),
            -pow256(i as nat) <= 2 * (acc as int) < pow256(i as nat),
        decreases content@.len() - i,
    {
        proof {
            assert(content@.take(i + 1).drop_last() =~= content@.take(i as int));
            assert(content@.take(i + 1).last() == content@[i as int]);
            assert(pow256((i + 1) as nat) == 256 * pow256(i as nat));
            lemma_pow256_mono(i as nat, 7);
            lemma_pow256_8();
            assert(pow256(7) == 0x100_0000_0000_0000);
            assert(2 * ((acc as int) * 256) == (2 * (acc as int)) * 256) by (nonlinear_arith);
            assert((2 * (acc as int)) * 256 < pow256(i as nat) * 256 && (2 * (acc as int)) * 256
                >= (-pow256(i as nat)) * 256) by (nonlinear_arith)
                requires
                    -pow256(i as nat) <= 2 * (acc as int) < pow256(i as nat),
            ;
        }
        acc = acc * 256 + (content[i] as i64);
        i = i + 1;
    }
    proof {
        assert(content@.take(content@.len() as int) =~= content@);
        lemma_pow256_mono(content@.len() as nat, 8);
        lemma_pow256_8();
    }
    Ok(acc)
}

/// Decodes INTEGER content as an unsigned 64-bit value (one leading zero byte
/// is the canonical form when the top bit is set).
pub fn decode_u64(content: &[u8]) -> (r: Result<u64, crate::SnmpError>)
    ensures
        match r {
            Ok(v) => sp_int_range(content@, 0, u64::MAX as int) == Ok::<int, crate::SnmpError>(
                v as int,
            ),
            Err(e) => sp_int_range(content@, 0, u64::MAX as int) == Err::<int, crate::SnmpError>(
                e,
            ),
        },
{
    if !check_canonical(content) {
        return Err(crate::SnmpError::AsnParseError);
    }
    if content[0] >= 128 {
        proof {
            lemma_ifb_sign(content@);
        }
        return Err(crate::SnmpError::AsnParseError);
    }
    proof {
        lemma_ifb_nonneg_eq(content@);
        lemma_ifb_sign(content@);
    }
    if content.len() > 9 {
        proof {
            lemma_canonical_min_magnitude(content@);
            lemma_pow256_mono(9, (content@.len() - 1) as nat);
            lemma_pow256_8();
            assert(pow256(9) == 256 * pow256(8));
        }
        return Err(crate::SnmpError::AsnParseError);
    }
    let start: usize = if content.len() == 9 {
        if content[0] != 0 {
            proof {
                lemma_ufb_lower(content@);
                lemma_pow256_8();
                vstd::arithmetic::mul::lemma_mul_inequality(
                    1,
                    content@[0] as int,
                    pow256(8) as int,
                );
                assert(1 * (pow256(8) as int) == pow256(8) as int);
            }
            return Err(crate::SnmpError::AsnParseError);
        }
        1
    } else {
        0
    };
    proof {
        if start == 1 {
            lemma_ufb_skip_zero(content@);
        }
    }
    let mut acc: u64 = 0;
    let mut i: usize = start;
    proof {
        assert(content@.subrange(start as int, start as int) =~= Seq::<u8>::empty());
    }
    while i < content.len()
        invariant
            start <= i <= content@.len(),
            content@.len() - start <= 8,
            start < 2,
            acc as nat == u_from_bytes(content@.subrange(start as int, i as int)),
            (acc as nat) < pow256((i - start) as nat),
        decreases content@.len() - i,
    {
        proof {
            assert(content@.subrange(start as int, i + 1).drop_last() =~= content@.subrange(
                start as int,
                i as int,
            ));
            assert(content@.subrange(start as int, i + 1).last() == content@[i as int]);
            assert(pow256((i + 1 - start) as nat) == 256 * pow256((i - start) as nat));
            lemma_pow256_mono((i - start) as nat, 7);
            lemma_pow256_8();
        }
        acc = acc * 256 + (content[i] as u64);
        i = i + 1;
    }
    proof {
        if start == 1 {
            assert(content@.subrange(1, content@.len() as int) =~= content@.skip(1));
        } else {
            assert(content@.subrange(0, content@.len() as int) =~= content@);
            lemma_ifb_nonneg_eq(content@);
        }
    }
    Ok(acc)
}

/// Decodes INTEGER content as an unsigned 32-bit value.
pub fn decode_u32(content: &[u8]) -> (r: Result<u32, crate::SnmpError>)
    ensures
        match r {
            Ok(v) => sp_int_range(content@, 0, u32::MAX as int) == Ok::<int, crate::SnmpError>(
                v as int,
            ),
            Err(e) => sp_int_range(content@, 0, u32::MAX as int) == Err::<int, crate::SnmpError>(
                e,
            ),
        },
{
    match decode_u64(content) {
        Err(e) => Err(e),
        Ok(v) => if v <= 0xFFFF_FFFF {
            Ok(v as u32)
        } else {
            Err(crate::SnmpError::AsnParseError)
        },
    }
}

/// Reads one base-128 value off the front of `s`.
pub fn read_b128<'a>(s: &'a [u8], max: u64) -> (r: Result<(u64, &'a [u8]), crate::SnmpError>)
    requires
        max <= 0x2_0000_0000,
    ensures
        match r {
            Ok((v, rest)) => sp_b128(s@, 0, max as nat) == Ok::<
                (nat, Seq<u8>),
                crate::SnmpError,
            >((v as nat, rest@)) && v <= max,
            Err(e) => sp_b128(s@, 0, max as nat) == Err::<(nat, Seq<u8>), crate::SnmpError>(e),
        },
{
    let mut acc: u64 = 0;
    let mut i: usize = 0;
    proof {
        assert(s@.skip(0) =~= s@);
    }
    loop
        invariant
            0 <= i <= s@.len(),
            acc <= max <= 0x2_0000_0000,
            sp_b128(s@, 0, max as nat) == sp_b128(s@.skip(i as int), acc as nat, max as nat),
        decreases s@.len() - i,
    {
        if i >= s.len() {
            proof {
                assert(s@.skip(i as int) =~= Seq::<u8>::empty());
            }
            return Err(crate::SnmpError::AsnEof);
        }
        let b = s[i];
        proof {
            assert(s@.skip(i as int)[0] == s@[i as int]);
            assert(s@.skip(i as int).skip(1) =~= s@.skip(i + 1));
        }
        let a2: u64 = acc * 128 + ((b % 128) as u64);
        if a2 > max {
            return Err(crate::SnmpError::AsnParseError);
        }
        if b >= 128 {
            acc = a2;
            i = i + 1;
        } else {
            let rest = vstd::slice::slice_subrange(s, i + 1, s.len());
            proof {
                assert(rest@ =~= s@.skip(i + 1));
            }
            return Ok((a2, rest));
        }
    }
}

/// Decodes object-identifier content into its sub-identifiers.
pub fn decode_oid(content: &[u8]) -> (r: Result<Vec<u32>, crate::SnmpError>)
    ensures
        match r {
            Ok(o) => sp_oid(content@) == Ok::<Seq<u32>, crate::SnmpError>(o@),
            Err(e) => sp_oid(content@) == Err::<Seq<u32>, crate::SnmpError>(e),
        },
{
    let (x, mut rest) = match read_b128(content, OID_FIRST_MAX) {
        Err(e) => {
            return Err(e);
        },
        Ok(p) => p,
    };
    let mut out: Vec<u32> = Vec::new();
    if x < 40 {
        out.push(0);
        out.push(x as u32);
    } else if x < 80 {
        out.push(1);
        out.push((x - 40) as u32);
    } else {
        out.push(2);
        out.push((x - 80) as u32);
    }
    assert(out@ =~= seq![oid_first_two(x as nat).0, oid_first_two(x as nat).1]);
    loop
        invariant
            sp_oid(content@) == (match sp_oid_rest(rest@) {
                Ok(tail) => Ok::<Seq<u32>, crate::SnmpError>(out@ + tail),
                Err(e) => Err::<Seq<u32>, crate::SnmpError>(e),
            }),
        decreases rest@.len(),
    {
        if rest.len() == 0 {
            proof {
                assert(rest@ =~= Seq::<u8>::empty());
                assert(out@ + Seq::<u32>::empty() =~= out@);
            }
            return Ok(out);
        }
        let ghost rest_old = rest@;
        match read_b128(rest, 0xFFFF_FFFF) {
            Err(e) => {
                return Err(e);
            },
            Ok((v, rest2)) => {
                let ghost out_old = out@;
                proof {
                    lemma_sp_b128_consumes(rest_old, 0, 0xFFFF_FFFF);
                    assert(sp_b128(rest_old, 0, 0xFFFF_FFFF as nat) == Ok::<
                        (nat, Seq<u8>),
                        crate::SnmpError,
                    >((v as nat, rest2@)));
                    assert((v as nat) as u32 == v as u32);
                    match sp_oid_rest(rest2@) {
                        Ok(t) => {
                            assert(sp_oid_rest(rest_old) == Ok::<Seq<u32>, crate::SnmpError>(
                                seq![v as u32] + t,
                            ));
                            assert(out@ + (seq![v as u32] + t) =~= (out@ + seq![v as u32]) + t);
                            assert(sp_oid(content@) == Ok::<Seq<u32>, crate::SnmpError>(
                                (out@ + seq![v as u32]) + t,
                            ));
                        },
                        Err(e2) => {
                            assert(sp_oid_rest(rest_old) == Err::<Seq<u32>, crate::SnmpError>(e2));
                            assert(sp_oid(content@) == Err::<Seq<u32>, crate::SnmpError>(e2));
                        },
                    }
                }
                out.push(v as u32);
                rest = rest2;
                proof {
                    assert(out@ =~= out_old + seq![v as u32]);
                }
            },
        }
    }
}

} // verus!
