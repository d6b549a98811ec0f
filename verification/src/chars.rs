//! Character-level helpers shared by the tokenizer and the converters:
//! whitespace classification, trimming, and literal matching, all specified
//! over sequences of characters.

use vstd::prelude::*;
use vstd::string::StrSliceExecFns;

verus! {

/// A character with Unicode's `White_Space` property, the class that
/// `char::is_whitespace` reports.
pub open spec fn is_ws_char(c: char) -> bool {
    ||| c as int == 0x09
    ||| c as int == 0x0A
    ||| c as int == 0x0B
    ||| c as int == 0x0C
    ||| c as int == 0x0D
    ||| c as int == 0x20
    ||| c as int == 0x85
    ||| c as int == 0xA0
    ||| c as int == 0x1680
    ||| (0x2000 <= c as int && c as int <= 0x200A)
    ||| c as int == 0x2028
    ||| c as int == 0x2029
    ||| c as int == 0x202F
    ||| c as int == 0x205F
    ||| c as int == 0x3000
}

/// Decides `is_ws_char`.
pub fn is_ws(c: char) -> (b: bool)
    ensures
        b == is_ws_char(c),
{
    let n = c as u32;
    n == 0x09 || n == 0x0A || n == 0x0B || n == 0x0C || n == 0x0D || n == 0x20 || n == 0x85
        || n == 0xA0 || n == 0x1680 || (0x2000 <= n && n <= 0x200A) || n == 0x2028 || n == 0x2029
        || n == 0x202F || n == 0x205F || n == 0x3000
}

/// `s` without its leading whitespace.
pub open spec fn trim_start_spec(s: Seq<char>) -> Seq<char>
    decreases s.len(),
{
    if s.len() == 0 {
        s
    } else if is_ws_char(s[0]) {
        trim_start_spec(s.drop_first())
    } else {
        s
    }
}

/// `s` without its trailing whitespace.
pub open spec fn trim_end_spec(s: Seq<char>) -> Seq<char>
    decreases s.len(),
{
    if s.len() == 0 {
        s
    } else if is_ws_char(s.last()) {
        trim_end_spec(s.drop_last())
    } else {
        s
    }
}

/// `s` trimmed at the chosen ends: both for `st && en`, one end only, or
/// neither (the identity).
pub open spec fn apply_trim(s: Seq<char>, st: bool, en: bool) -> Seq<char> {
    let a = if st {
        trim_start_spec(s)
    } else {
        s
    };
    if en {
        trim_end_spec(a)
    } else {
        a
    }
}

/// `s` trimmed of whitespace on both ends, as `str::trim` trims.
pub open spec fn trim_spec(s: Seq<char>) -> Seq<char> {
    apply_trim(s, true, true)
}

proof fn lemma_trim_start_ws_prefix(s: Seq<char>, a: int)
    requires
        0 <= a <= s.len(),
        forall|k: int| 0 <= k < a ==> is_ws_char(s[k]),
    ensures
        trim_start_spec(s) == trim_start_spec(s.skip(a)),
    decreases a,
{
    if a > 0 {
        assert(s.drop_first() =~= s.skip(1));
        lemma_trim_start_ws_prefix(s.skip(1), a - 1);
        assert(s.skip(1).skip(a - 1) =~= s.skip(a));
    } else {
        assert(s.skip(0) =~= s);
    }
}

proof fn lemma_trim_end_ws_suffix(s: Seq<char>, b: int)
    requires
        0 <= b <= s.len(),
        forall|k: int| b <= k < s.len() ==> is_ws_char(s[k]),
    ensures
        trim_end_spec(s) == trim_end_spec(s.take(b)),
    decreases s.len() - b,
{
    if b < s.len() {
        assert(s.drop_last() =~= s.take(s.len() - 1));
        lemma_trim_end_ws_suffix(s.take(s.len() - 1), b);
        assert(s.take(s.len() - 1).take(b) =~= s.take(b));
    } else {
        assert(s.take(b) =~= s);
    }
}

/// The code point of `c`.
pub fn char_cp(c: char) -> (n: u32)
    ensures
        n as int == c as int,
{
    c as u32
}

/// Copies `v[a..b]` out as a fresh vector.
pub fn subrange_vec(v: &Vec<char>, a: usize, b: usize) -> (r: Vec<char>)
    requires
        a <= b <= v.len(),
    ensures
        r@ == v@.subrange(a as int, b as int),
{
    let mut r: Vec<char> = Vec::new();
    let mut i: usize = a;
    while i < b
        invariant
            a <= i <= b <= v.len(),
            r@ == v@.subrange(a as int, i as int),
        decreases b - i,
    {
        r.push(v[i]);
        proof {
            assert(v@.subrange(a as int, i + 1) =~= v@.subrange(a as int, i as int).push(
                v@[i as int],
            ));
        }
        i += 1;
    }
    r
}

/// Trims `v` of whitespace at the chosen ends, per `apply_trim`.
pub fn trim_vec(v: &Vec<char>, st: bool, en: bool) -> (r: Vec<char>)
    ensures
        r@ == apply_trim(v@, st, en),
{
    let mut a: usize = 0;
    if st {
        while a < v.len() && is_ws(v[a])
            invariant
                a <= v.len(),
                forall|k: int| 0 <= k < a ==> is_ws_char(v@[k]),
            decreases v.len() - a,
        {
            a += 1;
        }
        proof {
            lemma_trim_start_ws_prefix(v@, a as int);
            if a < v.len() {
                assert(trim_start_spec(v@.skip(a as int)) == v@.skip(a as int));
            }
        }
    }
    // from here on, the part of interest is v[a..]; trim_start_spec(v@) == v@.skip(a) if st
    let mut b: usize = v.len();
    if en {
        while b > a && is_ws(v[b - 1])
            invariant
                a <= b <= v.len(),
                forall|k: int| b <= k < v.len() ==> is_ws_char(v@[k]),
            decreases b,
        {
            b -= 1;
        }
        proof {
            let base = v@.skip(a as int);
            assert(forall|k: int|
                b - a <= k < base.len() ==> is_ws_char(#[trigger] base[k]) == is_ws_char(
                    v@[k + a],
                ));
            lemma_trim_end_ws_suffix(base, b - a);
            assert(base.take(b - a) =~= v@.subrange(a as int, b as int));
            if b > a {
                assert(v@.subrange(a as int, b as int).last() == v@[b - 1]);
                assert(trim_end_spec(v@.subrange(a as int, b as int)) == v@.subrange(
                    a as int,
                    b as int,
                ));
            }
        }
    }
    proof {
        assert(v@.skip(0) =~= v@);
        assert(v@.subrange(a as int, b as int) == apply_trim(v@, st, en)) by {
            if !en {
                assert(v@.subrange(a as int, b as int) =~= v@.skip(a as int));
            }
        }
    }
    subrange_vec(v, a, b)
}

/// Whether the literal `p` occurs in `s` starting at position `i`.
pub open spec fn matches_at(s: Seq<char>, p: Seq<char>, i: int) -> bool {
    0 <= i && i + p.len() <= s.len() && s.subrange(i, i + p.len()) == p
}

/// Decides `matches_at` at position `i`.
pub fn starts_with_at(v: &Vec<char>, p: &Vec<char>, i: usize) -> (b: bool)
    requires
        i <= v.len(),
    ensures
        b == matches_at(v@, p@, i as int),
{
    if v.len() - i < p.len() {
        return false;
    }
    let mut j: usize = 0;
    while j < p.len()
        invariant
            j <= p.len(),
            i + p.len() <= v.len(),
            forall|k: int| 0 <= k < j ==> v@[i + k] == p@[k],
        decreases p.len() - j,
    {
        if v[i + j] != p[j] {
            proof {
                assert(v@.subrange(i as int, i + p@.len())[j as int] == v@[i + j]);
            }
            return false;
        }
        j += 1;
    }
    proof {
        assert(v@.subrange(i as int, i + p@.len()) =~= p@);
    }
    true
}

/// Collects the characters of `s`, in order.
pub fn str_to_chars(s: &str) -> (r: Vec<char>)
    ensures
        r@ == s@,
{
    let n = s.unicode_len();
    let mut r: Vec<char> = Vec::new();
    let mut i: usize = 0;
    while i < n
        invariant
            i <= n,
            n == s@.len(),
            r@ == s@.take(i as int),
        decreases n - i,
    {
        let c = s.get_char(i);
        r.push(c);
        proof {
            assert(s@.take(i + 1) =~= s@.take(i as int).push(s@[i as int]));
        }
        i += 1;
    }
    proof {
        assert(s@.take(n as int) =~= s@);
    }
    r
}

/// Relies on `String`'s `FromIterator<char>` implementation (reached through
/// `Iterator::collect`): collecting characters yields the string consisting of
/// exactly those characters, in order.
#[verifier::external_body]
pub(crate) fn chars_to_string(v: &Vec<char>) -> (r: String)
    ensures
        r@ == v@,
{
    v.iter().collect()
}

} // verus!
