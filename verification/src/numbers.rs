//! Integer conversion: a strict decimal parse of the trimmed token in the
//! type's canonical grammar — an optional sign (`-` for signed targets only)
//! followed by at least one digit — rejecting any other character and any
//! value outside the target width.

use vstd::prelude::*;
use crate::chars::{char_cp, str_to_chars, trim_spec, trim_vec};
use crate::convert::{parse_error, Askable, InterviewError};

verus! {

/// An ASCII decimal digit.
pub open spec fn is_digit(c: char) -> bool {
    '0' as int <= c as int && c as int <= '9' as int
}

/// The value of the digit `c`.
pub open spec fn digit_val(c: char) -> int {
    c as int - '0' as int
}

/// Whether every character of `s` is a digit.
pub open spec fn all_digits(s: Seq<char>) -> bool {
    forall|i: int| 0 <= i < s.len() ==> is_digit(s[i])
}

/// The number that the digit string `s` denotes in base ten.
pub open spec fn digits_val(s: Seq<char>) -> int
    decreases s.len(),
{
    if s.len() == 0 {
        0
    } else {
        digits_val(s.drop_last()) * 10 + digit_val(s.last())
    }
}

/// The digit part of an unsigned token: the trimmed token with one leading
/// `+` removed. A `-` is not allowed for unsigned targets.
pub open spec fn unsigned_body(s: Seq<char>) -> Seq<char> {
    let t = trim_spec(s);
    if t.len() > 0 && t[0] == '+' {
        t.drop_first()
    } else {
        t
    }
}

/// Whether `s` parses as an unsigned integer no greater than `max`.
pub open spec fn uint_ok(s: Seq<char>, max: int) -> bool {
    let b = unsigned_body(s);
    b.len() > 0 && all_digits(b) && digits_val(b) <= max
}

/// The value of the unsigned token `s`.
pub open spec fn uint_val(s: Seq<char>) -> int {
    digits_val(unsigned_body(s))
}

/// Whether the trimmed token carries a `-` sign.
pub open spec fn signed_neg(s: Seq<char>) -> bool {
    let t = trim_spec(s);
    t.len() > 0 && t[0] == '-'
}

/// The digit part of a signed token: the trimmed token with one leading `+`
/// or `-` removed.
pub open spec fn signed_body(s: Seq<char>) -> Seq<char> {
    let t = trim_spec(s);
    if t.len() > 0 && (t[0] == '+' || t[0] == '-') {
        t.drop_first()
    } else {
        t
    }
}

/// The value of the signed token `s`.
pub open spec fn int_val(s: Seq<char>) -> int {
    if signed_neg(s) {
        -digits_val(signed_body(s))
    } else {
        digits_val(signed_body(s))
    }
}

/// Whether `s` parses as a signed integer within `[min, max]`.
pub open spec fn int_ok(s: Seq<char>, min: int, max: int) -> bool {
    let b = signed_body(s);
    b.len() > 0 && all_digits(b) && min <= int_val(s) && int_val(s) <= max
}

proof fn lemma_digits_val_nonneg(s: Seq<char>)
    requires
        all_digits(s),
    ensures
        digits_val(s) >= 0,
    decreases s.len(),
{
    if s.len() > 0 {
        assert forall|i: int| 0 <= i < s.drop_last().len() implies is_digit(
            s.drop_last()[i],
        ) by {
            assert(s.drop_last()[i] == s[i]);
        }
        lemma_digits_val_nonneg(s.drop_last());
    }
}

proof fn lemma_digits_val_take_le(s: Seq<char>, k: int)
    requires
        all_digits(s),
        0 <= k <= s.len(),
    ensures
        digits_val(s.take(k)) <= digits_val(s),
    decreases s.len(),
{
    if k < s.len() {
        assert forall|i: int| 0 <= i < s.drop_last().len() implies is_digit(
            s.drop_last()[i],
        ) by {
            assert(s.drop_last()[i] == s[i]);
        }
        assert(s.drop_last().take(k) =~= s.take(k));
        lemma_digits_val_take_le(s.drop_last(), k);
        lemma_digits_val_nonneg(s.drop_last());
    } else {
        assert(s.take(k) =~= s);
    }
}

/// Reads `v[start..]` as a run of decimal digits with value at most `max`:
/// the value, or nothing if the run is empty, holds a non-digit, or denotes
/// a value above `max`.
fn parse_digits_bounded(v: &Vec<char>, start: usize, max: u128) -> (r: Option<u128>)
    requires
        start <= v.len(),
    ensures
        ({
            let d = v@.skip(start as int);
            match r {
                Some(n) => d.len() > 0 && all_digits(d) && digits_val(d) == n as int && n <= max,
                None => !(d.len() > 0 && all_digits(d) && digits_val(d) <= max as int),
            }
        }),
{
    if start == v.len() {
        proof {
            assert(v@.skip(start as int).len() == 0);
        }
        return None;
    }
    let mut acc: u128 = 0;
    let mut i: usize = start;
    proof {
        assert(v@.subrange(start as int, start as int) =~= Seq::<char>::empty());
    }
    while i < v.len()
        invariant
            start <= i <= v.len(),
            all_digits(v@.subrange(start as int, i as int)),
            digits_val(v@.subrange(start as int, i as int)) == acc as int,
            acc <= max,
        decreases v.len() - i,
    {
        let ghost d = v@.skip(start as int);
        let ghost pre = v@.subrange(start as int, i as int);
        let ghost pre1 = v@.subrange(start as int, i + 1);
        proof {
            assert(pre1.drop_last() =~= pre);
            assert(pre1.last() == v@[i as int]);
        }
        let cp = char_cp(v[i]);
        if cp < 48 || cp > 57 {
            proof {
                assert(d[i - start] == v@[i as int]);
                assert(!is_digit(d[i - start]));
            }
            return None;
        }
        let dg = (cp - 48) as u128;
        proof {
            assert(dg as int == digit_val(v@[i as int]));
            assert(digits_val(pre1) == acc * 10 + dg);
            vstd::arithmetic::div_mod::lemma_fundamental_div_mod(max as int, 10);
        }
        if acc > max / 10 || (acc == max / 10 && dg > max % 10) {
            proof {
                assert(acc * 10 + dg > max);
                if d.len() > 0 && all_digits(d) {
                    assert(d.take(i + 1 - start) =~= pre1);
                    lemma_digits_val_take_le(d, i + 1 - start);
                }
            }
            return None;
        }
        proof {
            assert(acc * 10 + dg <= max);
            assert forall|k: int| 0 <= k < pre1.len() implies is_digit(pre1[k]) by {
                if k < pre.len() {
                    assert(pre1[k] == pre[k]);
                }
            }
        }
        acc = acc * 10 + dg;
        i += 1;
    }
    proof {
        assert(v@.subrange(start as int, v@.len() as int) =~= v@.skip(start as int));
    }
    Some(acc)
}

/// Parses the token as an unsigned integer bounded by `max`.
fn convert_uint(s: &str, max: u128) -> (r: Option<u128>)
    ensures
        match r {
            Some(n) => uint_ok(s@, max as int) && n as int == uint_val(s@) && n <= max,
            None => !uint_ok(s@, max as int),
        },
{
    let cs = str_to_chars(s);
    let t = trim_vec(&cs, true, true);
    let start: usize = if t.len() > 0 && t[0] == '+' {
        1
    } else {
        0
    };
    proof {
        if t@.len() > 0 && t@[0] == '+' {
            assert(t@.skip(1) =~= t@.drop_first());
        } else {
            assert(t@.skip(0) =~= t@);
        }
        assert(t@.skip(start as int) == unsigned_body(s@));
    }
    parse_digits_bounded(&t, start, max)
}

/// Parses the token as a signed integer: the sign, and a magnitude bounded by
/// `maxneg` when negative and by `maxpos` otherwise.
fn convert_int(s: &str, maxpos: u128, maxneg: u128) -> (r: Option<(bool, u128)>)
    ensures
        match r {
            Some(p) => {
                &&& int_ok(s@, -(maxneg as int), maxpos as int)
                &&& p.0 == signed_neg(s@)
                &&& (if p.0 {
                    int_val(s@) == -(p.1 as int) && p.1 <= maxneg
                } else {
                    int_val(s@) == p.1 as int && p.1 <= maxpos
                })
            },
            None => !int_ok(s@, -(maxneg as int), maxpos as int),
        },
{
    let cs = str_to_chars(s);
    let t = trim_vec(&cs, true, true);
    let neg = t.len() > 0 && t[0] == '-';
    let start: usize = if t.len() > 0 && (t[0] == '+' || t[0] == '-') {
        1
    } else {
        0
    };
    proof {
        if t@.len() > 0 && (t@[0] == '+' || t@[0] == '-') {
            assert(t@.skip(1) =~= t@.drop_first());
        } else {
            assert(t@.skip(0) =~= t@);
        }
        assert(t@.skip(start as int) == signed_body(s@));
        assert(neg == signed_neg(s@));
    }
    let bound = if neg {
        maxneg
    } else {
        maxpos
    };
    match parse_digits_bounded(&t, start, bound) {
        Some(n) => {
            proof {
                lemma_digits_val_nonneg(signed_body(s@));
            }
            Some((neg, n))
        },
        None => {
            proof {
                let b = signed_body(s@);
                if b.len() > 0 && all_digits(b) {
                    lemma_digits_val_nonneg(b);
                }
            }
            None
        },
    }
}

impl Askable for u8 {
    open spec fn accepts(s: Seq<char>) -> bool {
        uint_ok(s, u8::MAX as int)
    }

    open spec fn converts_to(s: Seq<char>, v: Self) -> bool {
        v as int == uint_val(s)
    }

    open spec fn target_name() -> Seq<char> {
        "u8"@
    }

    fn convert(s: &str) -> (r: Result<Self, InterviewError>) {
        match convert_uint(s, u8::MAX as u128) {
            Some(n) => Ok(n as u8),
            None => Err(parse_error(s, "u8")),
        }
    }
}

impl Askable for u16 {
    open spec fn accepts(s: Seq<char>) -> bool {
        uint_ok(s, u16::MAX as int)
    }

    open spec fn converts_to(s: Seq<char>, v: Self) -> bool {
        v as int == uint_val(s)
    }

    open spec fn target_name() -> Seq<char> {
        "u16"@
    }

    fn convert(s: &str) -> (r: Result<Self, InterviewError>) {
        match convert_uint(s, u16::MAX as u128) {
            Some(n) => Ok(n as u16),
            None => Err(parse_error(s, "u16")),
        }
    }
}

impl Askable for u32 {
    open spec fn accepts(s: Seq<char>) -> bool {
        uint_ok(s, u32::MAX as int)
    }

    open spec fn converts_to(s: Seq<char>, v: Self) -> bool {
        v as int == uint_val(s)
    }

    open spec fn target_name() -> Seq<char> {
        "u32"@
    }

    fn convert(s: &str) -> (r: Result<Self, InterviewError>) {
        match convert_uint(s, u32::MAX as u128) {
            Some(n) => Ok(n as u32),
            None => Err(parse_error(s, "u32")),
        }
    }
}

impl Askable for u64 {
    open spec fn accepts(s: Seq<char>) -> bool {
        uint_ok(s, u64::MAX as int)
    }

    open spec fn converts_to(s: Seq<char>, v: Self) -> bool {
        v as int == uint_val(s)
    }

    open spec fn target_name() -> Seq<char> {
        "u64"@
    }

    fn convert(s: &str) -> (r: Result<Self, InterviewError>) {
        match convert_uint(s, u64::MAX as u128) {
            Some(n) => Ok(n as u64),
            None => Err(parse_error(s, "u64")),
        }
    }
}

impl Askable for u128 {
    open spec fn accepts(s: Seq<char>) -> bool {
        uint_ok(s, u128::MAX as int)
    }

    open spec fn converts_to(s: Seq<char>, v: Self) -> bool {
        v as int == uint_val(s)
    }

    open spec fn target_name() -> Seq<char> {
        "u128"@
    }

    fn convert(s: &str) -> (r: Result<Self, InterviewError>) {
        match convert_uint(s, u128::MAX) {
            Some(n) => Ok(n),
            None => Err(parse_error(s, "u128")),
        }
    }
}

impl Askable for usize {
    open spec fn accepts(s: Seq<char>) -> bool {
        uint_ok(s, usize::MAX as int)
    }

    open spec fn converts_to(s: Seq<char>, v: Self) -> bool {
        v as int == uint_val(s)
    }

    open spec fn target_name() -> Seq<char> {
        "usize"@
    }

    fn convert(s: &str) -> (r: Result<Self, InterviewError>) {
        match convert_uint(s, usize::MAX as u128) {
            Some(n) => Ok(n as usize),
            None => Err(parse_error(s, "usize")),
        }
    }
}

impl Askable for i8 {
    open spec fn accepts(s: Seq<char>) -> bool {
        int_ok(s, i8::MIN as int, i8::MAX as int)
    }

    open spec fn converts_to(s: Seq<char>, v: Self) -> bool {
        v as int == int_val(s)
    }

    open spec fn target_name() -> Seq<char> {
        "i8"@
    }

    fn convert(s: &str) -> (r: Result<Self, InterviewError>) {
        match convert_int(s, i8::MAX as u128, (i8::MAX as u128) + 1) {
            Some(p) => {
                let (neg, n) = p;
                if neg {
                    if n == (i8::MAX as u128) + 1 {
                        Ok(i8::MIN)
                    } else {
                        Ok(-(n as i8))
                    }
                } else {
                    Ok(n as i8)
                }
            },
            None => Err(parse_error(s, "i8")),
        }
    }
}

impl Askable for i16 {
    open spec fn accepts(s: Seq<char>) -> bool {
        int_ok(s, i16::MIN as int, i16::MAX as int)
    }

    open spec fn converts_to(s: Seq<char>, v: Self) -> bool {
        v as int == int_val(s)
    }

    open spec fn target_name() -> Seq<char> {
        "i16"@
    }

    fn convert(s: &str) -> (r: Result<Self, InterviewError>) {
        match convert_int(s, i16::MAX as u128, (i16::MAX as u128) + 1) {
            Some(p) => {
                let (neg, n) = p;
                if neg {
                    if n == (i16::MAX as u128) + 1 {
                        Ok(i16::MIN)
                    } else {
                        Ok(-(n as i16))
                    }
                } else {
                    Ok(n as i16)
                }
            },
            None => Err(parse_error(s, "i16")),
        }
    }
}

impl Askable for i32 {
    open spec fn accepts(s: Seq<char>) -> bool {
        int_ok(s, i32::MIN as int, i32::MAX as int)
    }

    open spec fn converts_to(s: Seq<char>, v: Self) -> bool {
        v as int == int_val(s)
    }

    open spec fn target_name() -> Seq<char> {
        "i32"@
    }

    fn convert(s: &str) -> (r: Result<Self, InterviewError>) {
        match convert_int(s, i32::MAX as u128, (i32::MAX as u128) + 1) {
            Some(p) => {
                let (neg, n) = p;
                if neg {
                    if n == (i32::MAX as u128) + 1 {
                        Ok(i32::MIN)
                    } else {
                        Ok(-(n as i32))
                    }
                } else {
                    Ok(n as i32)
                }
            },
            None => Err(parse_error(s, "i32")),
        }
    }
}

impl Askable for i64 {
    open spec fn accepts(s: Seq<char>) -> bool {
        int_ok(s, i64::MIN as int, i64::MAX as int)
    }

    open spec fn converts_to(s: Seq<char>, v: Self) -> bool {
        v as int == int_val(s)
    }

    open spec fn target_name() -> Seq<char> {
        "i64"@
    }

    fn convert(s: &str) -> (r: Result<Self, InterviewError>) {
        match convert_int(s, i64::MAX as u128, (i64::MAX as u128) + 1) {
            Some(p) => {
                let (neg, n) = p;
                if neg {
                    if n == (i64::MAX as u128) + 1 {
                        Ok(i64::MIN)
                    } else {
                        Ok(-(n as i64))
                    }
                } else {
                    Ok(n as i64)
                }
            },
            None => Err(parse_error(s, "i64")),
        }
    }
}

impl Askable for i128 {
    open spec fn accepts(s: Seq<char>) -> bool {
        int_ok(s, i128::MIN as int, i128::MAX as int)
    }

    open spec fn converts_to(s: Seq<char>, v: Self) -> bool {
        v as int == int_val(s)
    }

    open spec fn target_name() -> Seq<char> {
        "i128"@
    }

    fn convert(s: &str) -> (r: Result<Self, InterviewError>) {
        match convert_int(s, i128::MAX as u128, (i128::MAX as u128) + 1) {
            Some(p) => {
                let (neg, n) = p;
                if neg {
                    if n == (i128::MAX as u128) + 1 {
                        Ok(i128::MIN)
                    } else {
                        Ok(-(n as i128))
                    }
                } else {
                    Ok(n as i128)
                }
            },
            None => Err(parse_error(s, "i128")),
        }
    }
}

impl Askable for isize {
    open spec fn accepts(s: Seq<char>) -> bool {
        int_ok(s, isize::MIN as int, isize::MAX as int)
    }

    open spec fn converts_to(s: Seq<char>, v: Self) -> bool {
        v as int == int_val(s)
    }

    open spec fn target_name() -> Seq<char> {
        "isize"@
    }

    fn convert(s: &str) -> (r: Result<Self, InterviewError>) {
        match convert_int(s, isize::MAX as u128, (isize::MAX as u128) + 1) {
            Some(p) => {
                let (neg, n) = p;
                if neg {
                    if n == (isize::MAX as u128) + 1 {
                        Ok(isize::MIN)
                    } else {
                        Ok(-(n as isize))
                    }
                } else {
                    Ok(n as isize)
                }
            },
            None => Err(parse_error(s, "isize")),
        }
    }
}

} // verus!
