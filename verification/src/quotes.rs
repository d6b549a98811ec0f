//! The quote preprocessor: with quote handling on, whitespace inside quoted
//! regions of a raw line is replaced by a sentinel literal and the quote
//! characters are removed, so that the tokenizer treats a quoted region as one
//! unsplittable unit; after tokenization each token has the sentinel restored
//! to a single space.
//!
//! The sentinel is an unusual literal rather than an unforgeable marker: a
//! line that itself contains the sentinel text will have it restored to a
//! space as well. This collision risk is accepted by design.

use vstd::prelude::*;
use crate::chars::{is_ws, is_ws_char, matches_at, starts_with_at, trim_spec, trim_vec};

verus! {

/// The sentinel that stands in for one whitespace character inside a quoted
/// region: the text `THIS___IS__A_REPR`.
pub open spec fn sentinel() -> Seq<char> {
    seq!['T', 'H', 'I', 'S', '_', '_', '_', 'I', 'S', '_', '_', 'A', '_', 'R', 'E', 'P', 'R']
}

/// The sentinel as a vector of characters.
pub fn sentinel_chars() -> (r: Vec<char>)
    ensures
        r@ == sentinel(),
{
    let mut r: Vec<char> = Vec::new();
    r.push('T');
    r.push('H');
    r.push('I');
    r.push('S');
    r.push('_');
    r.push('_');
    r.push('_');
    r.push('I');
    r.push('S');
    r.push('_');
    r.push('_');
    r.push('A');
    r.push('_');
    r.push('R');
    r.push('E');
    r.push('P');
    r.push('R');
    proof {
        assert(r@ =~= sentinel());
    }
    r
}

/// One left-to-right pass over `s` with quote-region state `in_q`: a `"`
/// toggles the state and is dropped, whitespace inside an open region becomes
/// the sentinel, and every other character is kept.
pub open spec fn quote_rewrite(s: Seq<char>, in_q: bool) -> Seq<char>
    decreases s.len(),
{
    if s.len() == 0 {
        s
    } else {
        let c = s[0];
        let q2 = if c == '"' {
            !in_q
        } else {
            in_q
        };
        let piece = if c == '"' {
            Seq::<char>::empty()
        } else if q2 && is_ws_char(c) {
            sentinel()
        } else {
            seq![c]
        };
        piece + quote_rewrite(s.drop_first(), q2)
    }
}

/// The whole quote preprocessing of a raw line: the rewrite pass starting
/// outside any quote region, then a trim of the result. An unterminated quote
/// leaves the region open to the end of the line.
pub open spec fn preprocess_spec(s: Seq<char>) -> Seq<char> {
    trim_spec(quote_rewrite(s, false))
}

/// Rewrites a raw line per `preprocess_spec`.
pub fn preprocess(v: &Vec<char>) -> (r: Vec<char>)
    ensures
        r@ == preprocess_spec(v@),
{
    let mut out: Vec<char> = Vec::new();
    let mut in_q = false;
    let mut i: usize = 0;
    proof {
        assert(v@.skip(0) =~= v@);
    }
    while i < v.len()
        invariant
            i <= v.len(),
            quote_rewrite(v@, false) == out@ + quote_rewrite(v@.skip(i as int), in_q),
        decreases v.len() - i,
    {
        proof {
            assert(v@.skip(i as int).drop_first() =~= v@.skip(i + 1));
            assert(v@.skip(i as int)[0] == v@[i as int]);
        }
        let c = v[i];
        if c == '"' {
            in_q = !in_q;
        } else if in_q && is_ws(c) {
            let mut sc = sentinel_chars();
            out.append(&mut sc);
        } else {
            out.push(c);
        }
        proof {
            assert(out@ + quote_rewrite(v@.skip(i + 1), in_q) =~= quote_rewrite(v@, false));
        }
        i += 1;
    }
    proof {
        assert(v@.skip(v@.len() as int) =~= Seq::<char>::empty());
        assert(out@ =~= quote_rewrite(v@, false));
    }
    trim_vec(&out, true, true)
}

/// `s` with every occurrence of the sentinel replaced, left to right, by a
/// single space.
pub open spec fn replace_sentinel(s: Seq<char>) -> Seq<char>
    decreases s.len(),
{
    if s.len() == 0 {
        s
    } else if s.len() >= sentinel().len() && s.take(sentinel().len() as int) == sentinel() {
        seq![' '] + replace_sentinel(s.skip(sentinel().len() as int))
    } else {
        seq![s[0]] + replace_sentinel(s.drop_first())
    }
}

/// Restores each sentinel occurrence in `t` to one space, per
/// `replace_sentinel`.
pub fn restore_ws(t: &Vec<char>) -> (r: Vec<char>)
    ensures
        r@ == replace_sentinel(t@),
{
    let sent = sentinel_chars();
    let mut out: Vec<char> = Vec::new();
    let mut i: usize = 0;
    proof {
        assert(t@.skip(0) =~= t@);
    }
    while i < t.len()
        invariant
            i <= t.len(),
            sent@ == sentinel(),
            replace_sentinel(t@) == out@ + replace_sentinel(t@.skip(i as int)),
        decreases t.len() - i,
    {
        let m = starts_with_at(t, &sent, i);
        proof {
            let rest = t@.skip(i as int);
            if rest.len() >= sentinel().len() {
                assert(rest.take(sentinel().len() as int) =~= t@.subrange(
                    i as int,
                    i + sentinel().len(),
                ));
            }
            assert(m == (rest.len() >= sentinel().len() && rest.take(sentinel().len() as int)
                == sentinel()));
            assert(rest.drop_first() =~= t@.skip(i + 1));
            assert(rest[0] == t@[i as int]);
        }
        if m {
            out.push(' ');
            proof {
                assert(t@.skip(i as int).skip(sentinel().len() as int) =~= t@.skip(
                    i + sentinel().len(),
                ));
                assert(out@ + replace_sentinel(t@.skip(i + sentinel().len())) =~= replace_sentinel(
                    t@,
                ));
            }
            i += sent.len();
        } else {
            out.push(t[i]);
            proof {
                assert(out@ + replace_sentinel(t@.skip(i + 1)) =~= replace_sentinel(t@));
            }
            i += 1;
        }
    }
    proof {
        assert(t@.skip(t@.len() as int) =~= Seq::<char>::empty());
        assert(out@ =~= replace_sentinel(t@));
    }
    out
}

} // verus!
