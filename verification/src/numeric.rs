use vstd::prelude::*;

verus! {

/// An ASCII decimal digit.
pub open spec fn is_digit(b: u8) -> bool {
    48 <= b <= 57
}

pub open spec fn all_digits(t: Seq<u8>) -> bool {
    forall|k: int| 0 <= k < t.len() ==> is_digit(#[trigger] t[k])
}

/// The value of a digit string, most significant first.
pub open spec fn dec_val(t: Seq<u8>) -> nat
    decreases t.len(),
{
    if t.len() == 0 {
        0
    } else {
        dec_val(t.drop_last()) * 10 + (t.last() - 48) as nat
    }
}

/// What `str::parse` to an unsigned integer accepts: an optional leading
/// '+', then one or more digits; the magnitude is unbounded here and each
/// width checks its own range.
pub open spec fn parse_unsigned(t: Seq<u8>) -> Option<nat> {
    let d = if t.len() >= 1 && t[0] == 43 {
        t.drop_first()
    } else {
        t
    };
    if d.len() >= 1 && all_digits(d) {
        Some(dec_val(d))
    } else {
        None
    }
}

/// What `str::parse` to a signed integer accepts: an optional leading '+'
/// or '-', then one or more digits.
pub open spec fn parse_signed(t: Seq<u8>) -> Option<int> {
    if t.len() >= 1 && t[0] == 45 {
        let d = t.drop_first();
        if d.len() >= 1 && all_digits(d) {
            Some(-(dec_val(d) as int))
        } else {
            None
        }
    } else {
        match parse_unsigned(t) {
            Some(v) => Some(v as int),
            None => None,
        }
    }
}

/// A longer digit string never has a smaller value.
proof fn lemma_dec_val_prefix(t: Seq<u8>, k: int)
    requires
        0 <= k <= t.len(),
    ensures
        dec_val(t.take(k)) <= dec_val(t),
    decreases t.len() - k,
{
    if k < t.len() {
        lemma_dec_val_prefix(t, k + 1);
        assert(t.take(k + 1).drop_last() =~= t.take(k));
        assert(dec_val(t.take(k + 1)) == dec_val(t.take(k)) * 10 + (t.take(k + 1).last() - 48) as nat);
        assert(dec_val(t.take(k)) * 10 >= dec_val(t.take(k)));
    } else {
        assert(t.take(k) =~= t);
    }
}

/// The digit portion of a numeric token: everything after an optional sign.
fn digits_of(t: &[u8]) -> (r: &[u8])
    ensures
        r@ == (if t@.len() >= 1 && (t@[0] == 43 || t@[0] == 45) {
            t@.drop_first()
        } else {
            t@
        }),
{
    if t.len() >= 1 && (t[0] == 43 || t[0] == 45) {
        let r = vstd::slice::slice_subrange(t, 1, t.len());
        proof {
            assert(r@ =~= t@.drop_first());
        }
        r
    } else {
        t
    }
}

/// The magnitude of a digit string, up to `cap`; `None` when the string is
/// empty, holds a non-digit, or exceeds `cap`.
fn dec_magnitude(d: &[u8], cap: u64) -> (r: Option<u64>)
    ensures
        match r {
            Some(v) => d@.len() >= 1 && all_digits(d@) && v == dec_val(d@) && v <= cap,
            None => !(d@.len() >= 1 && all_digits(d@) && dec_val(d@) <= cap),
        },
{
    if d.len() == 0 {
        return None;
    }
    let mut acc: u64 = 0;
    let mut k: usize = 0;
    while k < d.len()
        invariant
            0 <= k <= d@.len(),
            acc == dec_val(d@.take(k as int)),
            acc <= cap,
            cap <= u64::MAX,
            forall|j: int| 0 <= j < k ==> is_digit(#[trigger] d@[j]),
        decreases d@.len() - k,
    {
        let b = d[k];
        if b < 48 || b > 57 {
            return None;
        }
        proof {
            assert(d@.take(k as int + 1).drop_last() =~= d@.take(k as int));
            assert(d@.take(k as int + 1).last() == d@[k as int]);
        }
        let dig = (b - 48) as u64;
        if dig > cap {
            proof {
                assert(dec_val(d@.take(k as int + 1)) == acc * 10 + dig);
                lemma_dec_val_prefix(d@, k as int + 1);
                assert(dec_val(d@) > cap);
            }
            return None;
        }
        if acc > (cap - dig) / 10 {
            proof {
                assert(dec_val(d@.take(k as int + 1)) == acc * 10 + dig);
                assert(acc * 10 + dig > cap) by (nonlinear_arith)
                    requires
                        acc > (cap - dig) / 10,
                        dig <= 9,
                        cap >= dig,
                        acc >= 0,
                {
                }
                lemma_dec_val_prefix(d@, k as int + 1);
                assert(dec_val(d@) > cap);
            }
            return None;
        }
        proof {
            assert(acc * 10 + dig <= cap) by (nonlinear_arith)
                requires
                    acc <= (cap - dig) / 10,
                    dig <= 9,
                    cap >= dig,
                    acc >= 0,
            {
            }
        }
        acc = acc * 10 + dig;
        k = k + 1;
    }
    proof {
        assert(d@.take(d@.len() as int) =~= d@);
    }
    Some(acc)
}

/// `str::parse::<u64>` on the token's bytes, written out: optional '+',
/// digits, range check.
pub fn parse_u64_bytes(t: &[u8]) -> (r: Option<u64>)
    ensures
        match r {
            Some(v) => parse_unsigned(t@) == Some(v as nat),
            None => !(parse_unsigned(t@) matches Some(v) && v <= u64::MAX),
        },
{
    if t.len() >= 1 && t[0] == 45 {
        return None;
    }
    let d = digits_of(t);
    dec_magnitude(d, u64::MAX)
}

/// `str::parse::<i64>` on the token's bytes.
pub fn parse_i64_bytes(t: &[u8]) -> (r: Option<i64>)
    ensures
        match r {
            Some(v) => parse_signed(t@) == Some(v as int),
            None => !(parse_signed(t@) matches Some(v) && i64::MIN <= v <= i64::MAX),
        },
{
    if t.len() >= 1 && t[0] == 45 {
        let d = digits_of(t);
        match dec_magnitude(d, 9223372036854775808u64) {
            Some(m) => {
                if m == 9223372036854775808u64 {
                    Some(i64::MIN)
                } else {
                    Some(-(m as i64))
                }
            },
            None => None,
        }
    } else {
        let d = digits_of(t);
        match dec_magnitude(d, i64::MAX as u64) {
            Some(m) => Some(m as i64),
            None => None,
        }
    }
}

} // verus!
