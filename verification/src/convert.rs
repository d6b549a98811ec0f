//! Typed conversion of one token: the `Askable` capability, implemented for
//! text, boolean and character values here and for the integer widths in the
//! numbers module. Conversion is pure: a token either converts to a value or
//! yields a `ConversionError`-style failure carrying the original text and
//! the target type's name.

use vstd::prelude::*;
use vstd::string::{StrSliceExecFns, StringExecFns};
use crate::chars::{char_cp, str_to_chars, trim_spec, trim_vec};

verus! {

/// A failed conversion: the original token text and the name of the target
/// type. No partial value is ever carried.
#[derive(Clone, Debug, PartialEq, Eq)]
pub enum InterviewError {
    ParseError { origin: String, target: String },
}

impl InterviewError {
    /// The failure as text: the original token and the target type's name.
    pub fn message(&self) -> (r: String)
        ensures
            match self {
                InterviewError::ParseError { origin, target } => r@ == "Could not parse \""@
                    + origin@ + "\" as "@ + target@,
            },
    {
        match self {
            InterviewError::ParseError { origin, target } => {
                let mut m = String::from_str("Could not parse \"");
                m.append(origin.as_str());
                m.append("\" as ");
                m.append(target.as_str());
                m
            },
        }
    }
}

/// Builds the conversion failure for token `s` and target type name `target`.
pub(crate) fn parse_error(s: &str, target: &str) -> (e: InterviewError)
    ensures
        match e {
            InterviewError::ParseError { origin: o, target: t } => o@ == s@ && t@ == target@,
        },
{
    InterviewError::ParseError { origin: s.to_owned(), target: target.to_owned() }
}

/// A type whose values can be read from one token of input.
///
/// `accepts` says on exactly which token texts conversion succeeds,
/// `converts_to` relates an accepted token to the value it denotes, and
/// `target_name` is the name a failure reports. `convert` succeeds if and only
/// if the token is accepted, and a failure carries the token unchanged.
pub trait Askable: Sized {
    /// Whether conversion of `s` succeeds.
    spec fn accepts(s: Seq<char>) -> bool;

    /// Whether `v` is the value that `s` converts to.
    spec fn converts_to(s: Seq<char>, v: Self) -> bool;

    /// The target type name reported on failure.
    spec fn target_name() -> Seq<char>;

    /// Converts one token to a value of this type, or reports exactly why not.
    fn convert(s: &str) -> (r: Result<Self, InterviewError>)
        ensures
            (r is Ok) == Self::accepts(s@),
            match r {
                Ok(v) => Self::converts_to(s@, v),
                Err(e) => match e {
                    InterviewError::ParseError { origin: o, target: t } => o@ == s@ && t@
                        == Self::target_name(),
                },
            },
    ;
}

impl Askable for String {
    /// Text conversion always succeeds.
    open spec fn accepts(s: Seq<char>) -> bool {
        true
    }

    /// The token is returned unchanged, untrimmed.
    open spec fn converts_to(s: Seq<char>, v: Self) -> bool {
        v@ == s
    }

    open spec fn target_name() -> Seq<char> {
        "String"@
    }

    fn convert(s: &str) -> (r: Result<Self, InterviewError>) {
        Ok(s.to_owned())
    }
}

/// The code point of `c` with an upper-case ASCII letter lowered, every other
/// character unchanged.
pub open spec fn lower_cp(c: char) -> int {
    if 'A' as int <= c as int && c as int <= 'Z' as int {
        c as int + 32
    } else {
        c as int
    }
}

/// Whether `s` equals the keyword `kw` up to ASCII case of `s`'s characters.
pub open spec fn matches_kw(s: Seq<char>, kw: Seq<char>) -> bool {
    s.len() == kw.len() && forall|i: int| 0 <= i < s.len() ==> lower_cp(s[i]) == kw[i] as int
}

/// Decides `matches_kw` against the literal `kw`.
fn kw_match(t: &Vec<char>, kw: &str) -> (b: bool)
    ensures
        b == matches_kw(t@, kw@),
{
    let n = kw.unicode_len();
    if t.len() != n {
        return false;
    }
    let mut i: usize = 0;
    while i < n
        invariant
            i <= n,
            n == kw@.len(),
            t@.len() == n,
            forall|k: int| 0 <= k < i ==> lower_cp(t@[k]) == kw@[k] as int,
        decreases n - i,
    {
        let c = char_cp(t[i]);
        let lc = if 65 <= c && c <= 90 {
            c + 32
        } else {
            c
        };
        if lc != char_cp(kw.get_char(i)) {
            return false;
        }
        i += 1;
    }
    true
}

/// Whether `s` reads as true: `y`, `yes`, `t`, `true` or `1`, ignoring ASCII
/// case.
pub open spec fn truthy(s: Seq<char>) -> bool {
    ||| matches_kw(s, "y"@)
    ||| matches_kw(s, "yes"@)
    ||| matches_kw(s, "t"@)
    ||| matches_kw(s, "true"@)
    ||| matches_kw(s, "1"@)
}

/// Whether `s` reads as false: `n`, `no`, `f`, `false` or `0`, ignoring ASCII
/// case.
pub open spec fn falsy(s: Seq<char>) -> bool {
    ||| matches_kw(s, "n"@)
    ||| matches_kw(s, "no"@)
    ||| matches_kw(s, "f"@)
    ||| matches_kw(s, "false"@)
    ||| matches_kw(s, "0"@)
}

impl Askable for bool {
    /// The trimmed token reads as true or as false.
    open spec fn accepts(s: Seq<char>) -> bool {
        truthy(trim_spec(s)) || falsy(trim_spec(s))
    }

    open spec fn converts_to(s: Seq<char>, v: Self) -> bool {
        if v {
            truthy(trim_spec(s))
        } else {
            falsy(trim_spec(s))
        }
    }

    open spec fn target_name() -> Seq<char> {
        "bool"@
    }

    fn convert(s: &str) -> (r: Result<Self, InterviewError>) {
        let cs = str_to_chars(s);
        let t = trim_vec(&cs, true, true);
        if kw_match(&t, "y") || kw_match(&t, "yes") || kw_match(&t, "t") || kw_match(&t, "true")
            || kw_match(&t, "1") {
            Ok(true)
        } else if kw_match(&t, "n") || kw_match(&t, "no") || kw_match(&t, "f") || kw_match(
            &t,
            "false",
        ) || kw_match(&t, "0") {
            Ok(false)
        } else {
            Err(parse_error(s, "bool"))
        }
    }
}

impl Askable for char {
    /// The trimmed token is exactly one character.
    open spec fn accepts(s: Seq<char>) -> bool {
        trim_spec(s).len() == 1
    }

    open spec fn converts_to(s: Seq<char>, v: Self) -> bool {
        trim_spec(s) == seq![v]
    }

    open spec fn target_name() -> Seq<char> {
        "char"@
    }

    fn convert(s: &str) -> (r: Result<Self, InterviewError>) {
        let cs = str_to_chars(s);
        let t = trim_vec(&cs, true, true);
        if t.len() == 1 {
            proof {
                assert(trim_spec(s@) =~= seq![t@[0]]);
            }
            Ok(t[0])
        } else {
            Err(parse_error(s, "char"))
        }
    }
}

} // verus!
