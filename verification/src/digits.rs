//! Verified decimal and hexadecimal digit reading, matching what
//! `str::parse` for unsigned integers and single-digit
//! `from_str_radix(.., 16)` accept: an optional leading `+`, then decimal
//! digits, rejected on any other character or on overflow.

use vstd::prelude::*;

verus! {

pub open spec fn is_digit(c: char) -> bool {
    48 <= (c as u32) && (c as u32) <= 57
}

pub open spec fn digit_val(c: char) -> nat {
    ((c as u32) - 48) as nat
}

pub open spec fn all_digits(s: Seq<char>) -> bool {
    forall|i: int| 0 <= i < s.len() ==> is_digit(s[i])
}

/// The number the digit string denotes, most significant digit first.
pub open spec fn digits_val(s: Seq<char>) -> nat
    decreases s.len(),
{
    if s.len() == 0 {
        0
    } else {
        digits_val(s.drop_last()) * 10 + digit_val(s.last())
    }
}

/// What `str::parse` for an unsigned integer type with maximum `max` returns
/// on `s`: an optional leading `+`, then one or more decimal digits whose
/// value fits; anything else is rejected.
pub open spec fn parse_uint_spec(s: Seq<char>, max: u64) -> Option<u64> {
    let body = if s.len() >= 1 && s[0] == '+' {
        s.drop_first()
    } else {
        s
    };
    if body.len() == 0 || !all_digits(body) || digits_val(body) > max {
        None
    } else {
        Some(digits_val(body) as u64)
    }
}

/// Parses `v[from..to]` as `str::parse` would for an unsigned type whose
/// maximum value is `max`.
pub fn parse_uint(v: &Vec<char>, from: usize, to: usize, max: u64) -> (r: Option<u64>)
    requires
        from <= to <= v@.len(),
        max <= 0xFFFF_FFFF,
    ensures
        r == parse_uint_spec(v@.subrange(from as int, to as int), max),
{
    let ghost s = v@.subrange(from as int, to as int);
    let mut i: usize = from;
    if i < to && v[i] == '+' {
        i = i + 1;
    }
    let ghost body = s.subrange(i - from, s.len() as int);
    proof {
        if s.len() >= 1 && s[0] == '+' {
            assert(body =~= s.drop_first());
        } else {
            assert(body =~= s);
        }
    }
    if i == to {
        return None;
    }
    let ghost b0 = i as int;
    proof {
        assert(body =~= v@.subrange(b0, to as int));
    }
    let mut acc: u64 = 0;
    let mut over: bool = false;
    while i < to
        invariant
            b0 <= i <= to <= v@.len(),
            from <= b0 < to,
            max <= 0xFFFF_FFFF,
            body == v@.subrange(b0, to as int),
            parse_uint_spec(v@.subrange(from as int, to as int), max) == (if body.len() == 0
                || !all_digits(body) || digits_val(body) > max {
                None
            } else {
                Some(digits_val(body) as u64)
            }),
            all_digits(v@.subrange(b0, i as int)),
            over <==> digits_val(v@.subrange(b0, i as int)) > max,
            !over ==> acc == digits_val(v@.subrange(b0, i as int)),
        decreases to - i,
    {
        let c = v[i];
        let u = c as u32;
        if u < 48 || u > 57 {
            proof {
                assert(body[i - b0] == c);
                assert(!all_digits(body));
            }
            return None;
        }
        let d = (u - 48) as u64;
        let ghost p = v@.subrange(b0, i as int);
        let ghost q = v@.subrange(b0, i + 1);
        proof {
            assert(q.drop_last() =~= p);
            assert(q.last() == c);
            assert(digits_val(q) == digits_val(p) * 10 + digit_val(c));
        }
        if over {
            proof {
                assert(digits_val(p) * 10 >= digits_val(p)) by {
                    assert(digits_val(p) * 10 - digits_val(p) == 9 * digits_val(p)) by (nonlinear_arith);
                }
            }
        } else {
            let nv = acc * 10 + d;
            if nv > max {
                over = true;
            } else {
                acc = nv;
            }
        }
        i = i + 1;
    }
    proof {
        assert(v@.subrange(b0, i as int) =~= body);
    }
    if over {
        None
    } else {
        Some(acc)
    }
}

/// The value of one hexadecimal digit, zero for any other character: what
/// `u8::from_str_radix` on a one-character string, with errors defaulted to
/// zero, computes.
pub open spec fn hex_digit_val(c: char) -> nat {
    let u = c as u32;
    if 48 <= u && u <= 57 {
        (u - 48) as nat
    } else if 97 <= u && u <= 102 {
        (u - 87) as nat
    } else if 65 <= u && u <= 70 {
        (u - 55) as nat
    } else {
        0
    }
}

pub fn hex_digit(c: char) -> (r: u8)
    ensures
        r == hex_digit_val(c),
        r <= 15,
{
    let u = c as u32;
    if 48 <= u && u <= 57 {
        (u - 48) as u8
    } else if 97 <= u && u <= 102 {
        (u - 87) as u8
    } else if 65 <= u && u <= 70 {
        (u - 55) as u8
    } else {
        0
    }
}

} // verus!
