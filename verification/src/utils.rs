//! The OID string helper: turns a dotted string like `"1.3.6"` into its
//! sub-identifier vector.
//!
//! One leading dot is skipped, and a trailing `0` is appended unless the last
//! sub-identifier already is `0` (the leaf-OID convention of this client).
use vstd::prelude::*;

verus! {

/// Whether a character is an ASCII decimal digit.
pub open spec fn is_oid_digit(c: char) -> bool {
    48 <= c as u32 <= 57
}

/// The numeric value of an ASCII decimal digit.
pub open spec fn digit_val(c: char) -> nat {
    (c as u32 - 48) as nat
}

/// Parses dot-separated decimal groups. `cur` carries the group being read:
/// `None` before its first digit, so an empty group (a stray or doubled dot,
/// or an empty string) fails, as does a group above `u32::MAX`.
pub open spec fn sp_groups(s: Seq<char>, cur: Option<nat>) -> Option<Seq<u32>>
    decreases s.len(),
{
    if s.len() == 0 {
        match cur {
            Some(v) => if v <= u32::MAX as nat {
                Some(seq![v as u32])
            } else {
                None
            },
            None => None,
        }
    } else if s[0] as u32 == 46 {
        match cur {
            Some(v) => if v <= u32::MAX as nat {
                match sp_groups(s.skip(1), None) {
                    Some(t) => Some(seq![v as u32] + t),
                    None => None,
                }
            } else {
                None
            },
            None => None,
        }
    } else if is_oid_digit(s[0]) {
        let base = match cur {
            Some(v) => v,
            None => 0,
        };
        sp_groups(s.skip(1), Some(base * 10 + digit_val(s[0])))
    } else {
        None
    }
}

/// Appends a trailing zero unless the last sub-identifier already is zero.
pub open spec fn with_trailing_zero(g: Seq<u32>) -> Seq<u32> {
    if g.len() > 0 && g.last() == 0 {
        g
    } else {
        g + seq![0u32]
    }
}

/// The value of a dotted OID string: one leading dot is skipped, the groups
/// are parsed, and the trailing-zero convention is applied.
pub open spec fn oid_from_str(s: Seq<char>) -> Option<Seq<u32>> {
    let body = if s.len() > 0 && s[0] as u32 == 46 {
        s.skip(1)
    } else {
        s
    };
    match sp_groups(body, None) {
        Some(g) => Some(with_trailing_zero(g)),
        None => None,
    }
}

/// Converts a dotted OID string like `"1.3.6"` into `[1, 3, 6, 0]`: a
/// leading dot is skipped and a trailing zero appended unless one is already
/// there. Fails exactly on the strings `oid_from_str` rejects: an empty
/// group, a non-digit character, or a sub-identifier above `u32::MAX`.
#[verifier::rlimit(30)]
pub fn oid_str_to_vec32(oid: &str) -> (r: Result<Vec<u32>, String>)
    ensures
        match r {
            Ok(v) => oid_from_str(oid@) == Some(v@),
            Err(_) => oid_from_str(oid@) is None,
        },
{
    let n = oid.unicode_len();
    let ghost s = oid@;
    let start: usize = if n > 0 && (oid.get_char(0) as u32) == 46 {
        1
    } else {
        0
    };
    let ghost body = if start == 1 { s.skip(1) } else { s };
    let mut res: Vec<u32> = Vec::new();
    let mut acc: u64 = 0;
    let mut has_cur: bool = false;
    let mut over: bool = false;
    let ghost mut specv: nat = 0nat;
    let mut i: usize = start;
    proof {
        assert(body.skip(0) =~= body);
        assert(res@ =~= Seq::<u32>::empty());
        match sp_groups(body, None::<nat>) {
            Some(t) => {
                assert(res@ + t =~= t);
            },
            None => {},
        }
    }
    while i < n
        invariant
            s == oid@,
            start <= i <= n,
            n == s.len(),
            body == (if start == 1 { s.skip(1) } else { s }),
            start == 1 ==> s.len() > 0 && s[0] as u32 == 46,
            start == 0 ==> !(s.len() > 0 && s[0] as u32 == 46),
            start == 0 || start == 1,
            body.len() == n - start,
            has_cur ==> (over <==> specv > u32::MAX as nat),
            has_cur && !over ==> acc as nat == specv && acc <= u32::MAX as u64,
            !has_cur ==> acc == 0 && !over,
            sp_groups(body, None) == (match sp_groups(
                body.skip(i - start),
                if has_cur {
                    Some(specv)
                } else {
                    None
                },
            ) {
                Some(t) => Some(res@ + t),
                None => None::<Seq<u32>>,
            }),
        decreases n - i,
    {
        let c = oid.get_char(i);
        let cu = c as u32;
        proof {
            assert(c == s[i as int]);
            assert(cu == s[i as int] as u32);
            assert(body.skip(i - start)[0] == body[i - start]);
            assert(body[i - start] == s[i as int]);
            assert(body.skip(i - start).skip(1) =~= body.skip(i + 1 - start));
        }
        if cu == 46 {
            if !has_cur || over {
                return Err("invalid OID string".to_owned());
            }
            let ghost res_old = res@;
            res.push(acc as u32);
            proof {
                assert(res@ =~= res_old + seq![(specv as u32)]);
                match sp_groups(body.skip(i + 1 - start), None) {
                    Some(t) => {
                        assert(res_old + (seq![(specv as u32)] + t) =~= res@ + t);
                    },
                    None => {},
                }
            }
            acc = 0;
            has_cur = false;
            proof {
                specv = 0nat;
            }
        } else if cu >= 48 && cu <= 57 {
            let d = (cu - 48) as u64;
            proof {
                assert(d as nat == digit_val(s[i as int]));
            }
            let ghost base: nat = if has_cur {
                specv
            } else {
                0nat
            };
            proof {
                specv = base * 10 + digit_val(s[i as int]);
            }
            if !over {
                let a2 = acc * 10 + d;
                if a2 > 0xFFFF_FFFF {
                    over = true;
                } else {
                    acc = a2;
                }
                proof {
                    if a2 > 0xFFFF_FFFF {
                        assert(specv > u32::MAX as nat);
                    } else {
                        assert(acc as nat == specv);
                    }
                }
            } else {
                proof {
                    assert(base * 10 >= base) by (nonlinear_arith)
                        requires
                            base >= 0,
                    ;
                    assert(specv > u32::MAX as nat);
                }
            }
            has_cur = true;
        } else {
            return Err("invalid OID string".to_owned());
        }
        i = i + 1;
    }
    proof {
        assert(body.skip(i - start) =~= Seq::<char>::empty());
    }
    if !has_cur || over {
        return Err("invalid OID string".to_owned());
    }
    let ghost res_old = res@;
    res.push(acc as u32);
    proof {
        assert(res@ =~= res_old + seq![(specv as u32)]);
        assert(sp_groups(body, None) == Some(res@));
    }
    let last = res[res.len() - 1];
    if last != 0 {
        res.push(0);
        proof {
            assert(res@ =~= with_trailing_zero(res@.drop_last()));
        }
    } else {
        proof {
            assert(res@ =~= with_trailing_zero(res@));
        }
    }
    Ok(res)
}

} // verus!
