//! The separator tokenizer: splits a (possibly quote-preprocessed) line into
//! ordered tokens under a chosen separator strategy, trims each token per the
//! strategy, drops a trailing empty token, and restores the quote sentinel in
//! each token.

use vstd::prelude::*;
use crate::chars::{
    apply_trim, is_ws, is_ws_char, matches_at, starts_with_at, str_to_chars, subrange_vec,
    trim_vec, chars_to_string,
};
use crate::quotes::{preprocess, preprocess_spec, replace_sentinel, restore_ws};

verus! {

/// How a line splits into tokens: on runs of whitespace, or on a literal
/// separator string, with the separator variants differing only in how each
/// resulting token is trimmed (not at all, both ends, start only, end only).
#[derive(Copy, Clone, Debug, PartialEq, Eq)]
pub enum Separator<'a> {
    Whitespace,
    Sequence(&'a str),
    SequenceTrim(&'a str),
    SequenceTrimStart(&'a str),
    SequenceTrimEnd(&'a str),
}

/// A well-formed separator: a literal separator string has at least one
/// character.
pub open spec fn sep_wf(sep: Separator<'_>) -> bool {
    match sep {
        Separator::Whitespace => true,
        Separator::Sequence(q) => q@.len() >= 1,
        Separator::SequenceTrim(q) => q@.len() >= 1,
        Separator::SequenceTrimStart(q) => q@.len() >= 1,
        Separator::SequenceTrimEnd(q) => q@.len() >= 1,
    }
}

/// Decides `sep_wf`.
pub fn separator_is_wf(sep: &Separator<'_>) -> (b: bool)
    ensures
        b == sep_wf(*sep),
{
    match sep {
        Separator::Whitespace => true,
        Separator::Sequence(q) => !q.is_empty(),
        Separator::SequenceTrim(q) => !q.is_empty(),
        Separator::SequenceTrimStart(q) => !q.is_empty(),
        Separator::SequenceTrimEnd(q) => !q.is_empty(),
    }
}

/// Left-to-right whitespace splitting with `cur` as the token accumulated so
/// far: a whitespace character closes the current token (if any), every other
/// character extends it. Only non-empty tokens are ever emitted.
pub open spec fn ws_scan(s: Seq<char>, cur: Seq<char>) -> Seq<Seq<char>>
    decreases s.len(),
{
    if s.len() == 0 {
        if cur.len() == 0 {
            Seq::empty()
        } else {
            seq![cur]
        }
    } else if is_ws_char(s[0]) {
        if cur.len() == 0 {
            ws_scan(s.drop_first(), Seq::empty())
        } else {
            seq![cur] + ws_scan(s.drop_first(), Seq::empty())
        }
    } else {
        ws_scan(s.drop_first(), cur.push(s[0]))
    }
}

/// Left-to-right splitting on the literal `p` with `cur` as the token
/// accumulated so far: each non-overlapping occurrence of `p` closes the
/// current token, and the remainder after the last occurrence is the final
/// token. Empty tokens (between adjacent occurrences, or at either end) are
/// kept.
pub open spec fn seq_scan(s: Seq<char>, p: Seq<char>, cur: Seq<char>) -> Seq<Seq<char>>
    decreases s.len(),
{
    if s.len() == 0 {
        seq![cur]
    } else if p.len() >= 1 && s.len() >= p.len() && s.take(p.len() as int) == p {
        seq![cur] + seq_scan(s.skip(p.len() as int), p, Seq::empty())
    } else {
        seq_scan(s.drop_first(), p, cur.push(s[0]))
    }
}

/// The ordered tokens that `sep` produces from `s`, each trimmed per the
/// separator variant.
pub open spec fn sep_tokens(s: Seq<char>, sep: Separator<'_>) -> Seq<Seq<char>> {
    match sep {
        Separator::Whitespace => ws_scan(s, Seq::empty()),
        Separator::Sequence(q) => seq_scan(s, q@, Seq::empty()),
        Separator::SequenceTrim(q) => seq_scan(s, q@, Seq::empty()).map_values(
            |t: Seq<char>| apply_trim(t, true, true),
        ),
        Separator::SequenceTrimStart(q) => seq_scan(s, q@, Seq::empty()).map_values(
            |t: Seq<char>| apply_trim(t, true, false),
        ),
        Separator::SequenceTrimEnd(q) => seq_scan(s, q@, Seq::empty()).map_values(
            |t: Seq<char>| apply_trim(t, false, true),
        ),
    }
}

/// Drops the last token if it is empty: a trailing separator ends the line
/// rather than adding an empty final token. Interior empty tokens stay.
pub open spec fn drop_trailing_empty(ts: Seq<Seq<char>>) -> Seq<Seq<char>> {
    if ts.len() > 0 && ts.last().len() == 0 {
        ts.drop_last()
    } else {
        ts
    }
}

/// Everything tokenization does to one line: quote preprocessing if `quotes`
/// is on, splitting and trimming per `sep`, dropping a trailing empty token,
/// and restoring the quote sentinel in each token.
pub open spec fn line_tokens(line: Seq<char>, sep: Separator<'_>, quotes: bool) -> Seq<Seq<char>> {
    let l = if quotes {
        preprocess_spec(line)
    } else {
        line
    };
    drop_trailing_empty(sep_tokens(l, sep)).map_values(|t: Seq<char>| replace_sentinel(t))
}

/// The views of a sequence of character vectors.
pub open spec fn views_of(ts: Seq<Vec<char>>) -> Seq<Seq<char>> {
    ts.map_values(|t: Vec<char>| t@)
}

/// Splits `v` on maximal runs of whitespace, per `ws_scan`.
fn ws_split(v: &Vec<char>) -> (r: Vec<Vec<char>>)
    ensures
        views_of(r@) == ws_scan(v@, Seq::empty()),
{
    let mut out: Vec<Vec<char>> = Vec::new();
    let mut start: usize = 0;
    let mut i: usize = 0;
    proof {
        assert(v@.skip(0) =~= v@);
        assert(v@.subrange(0, 0) =~= Seq::<char>::empty());
    }
    while i < v.len()
        invariant
            start <= i <= v.len(),
            ws_scan(v@, Seq::empty()) == views_of(out@) + ws_scan(
                v@.skip(i as int),
                v@.subrange(start as int, i as int),
            ),
        decreases v.len() - i,
    {
        proof {
            assert(v@.skip(i as int).drop_first() =~= v@.skip(i + 1));
            assert(v@.skip(i as int)[0] == v@[i as int]);
        }
        let ghost cur = v@.subrange(start as int, i as int);
        if is_ws(v[i]) {
            if start < i {
                let tok = subrange_vec(v, start, i);
                out.push(tok);
                proof {
                    assert(views_of(out@) =~= views_of(out@.drop_last()) + seq![cur]);
                    assert(views_of(out@) + ws_scan(v@.skip(i + 1), Seq::<char>::empty())
                        =~= ws_scan(v@, Seq::empty()));
                }
            } else {
                proof {
                    assert(cur =~= Seq::<char>::empty());
                }
            }
            start = i + 1;
            proof {
                assert(v@.subrange(start as int, start as int) =~= Seq::<char>::empty());
            }
        } else {
            proof {
                assert(cur.push(v@[i as int]) =~= v@.subrange(start as int, i + 1));
            }
        }
        i += 1;
    }
    proof {
        assert(v@.skip(v@.len() as int) =~= Seq::<char>::empty());
    }
    if start < v.len() {
        let tok = subrange_vec(v, start, v.len());
        out.push(tok);
        proof {
            let cur = v@.subrange(start as int, v@.len() as int);
            assert(views_of(out@) =~= views_of(out@.drop_last()) + seq![cur]);
            assert(views_of(out@) =~= ws_scan(v@, Seq::empty()));
        }
    } else {
        proof {
            assert(v@.subrange(start as int, v@.len() as int) =~= Seq::<char>::empty());
            assert(views_of(out@) =~= views_of(out@) + Seq::<Seq<char>>::empty());
            assert(views_of(out@) =~= ws_scan(v@, Seq::empty()));
        }
    }
    out
}

/// Splits `v` on every non-overlapping occurrence of `p`, per `seq_scan`,
/// without trimming.
fn split_on(v: &Vec<char>, p: &Vec<char>) -> (r: Vec<Vec<char>>)
    requires
        p.len() >= 1,
    ensures
        views_of(r@) == seq_scan(v@, p@, Seq::empty()),
{
    let mut out: Vec<Vec<char>> = Vec::new();
    let mut start: usize = 0;
    let mut i: usize = 0;
    proof {
        assert(v@.skip(0) =~= v@);
        assert(v@.subrange(0, 0) =~= Seq::<char>::empty());
    }
    while i < v.len()
        invariant
            start <= i <= v.len(),
            p@.len() >= 1,
            seq_scan(v@, p@, Seq::empty()) == views_of(out@) + seq_scan(
                v@.skip(i as int),
                p@,
                v@.subrange(start as int, i as int),
            ),
        decreases v.len() - i,
    {
        let ghost cur = v@.subrange(start as int, i as int);
        let m = starts_with_at(v, p, i);
        proof {
            let rest = v@.skip(i as int);
            if rest.len() >= p@.len() {
                assert(rest.take(p@.len() as int) =~= v@.subrange(i as int, i + p@.len()));
            }
            assert(m == (rest.len() >= p@.len() && rest.take(p@.len() as int) == p@));
            assert(rest.drop_first() =~= v@.skip(i + 1));
            assert(rest[0] == v@[i as int]);
        }
        if m {
            let tok = subrange_vec(v, start, i);
            out.push(tok);
            proof {
                assert(v@.skip(i as int).skip(p@.len() as int) =~= v@.skip(i + p@.len()));
                assert(views_of(out@) =~= views_of(out@.drop_last()) + seq![cur]);
                assert(views_of(out@) + seq_scan(
                    v@.skip(i + p@.len()),
                    p@,
                    Seq::<char>::empty(),
                ) =~= seq_scan(v@, p@, Seq::empty()));
            }
            i += p.len();
            start = i;
            proof {
                assert(v@.subrange(start as int, start as int) =~= Seq::<char>::empty());
            }
        } else {
            proof {
                assert(cur.push(v@[i as int]) =~= v@.subrange(start as int, i + 1));
            }
            i += 1;
        }
    }
    proof {
        assert(v@.skip(v@.len() as int) =~= Seq::<char>::empty());
    }
    let tok = subrange_vec(v, start, v.len());
    out.push(tok);
    proof {
        let cur = v@.subrange(start as int, v@.len() as int);
        assert(views_of(out@) =~= views_of(out@.drop_last()) + seq![cur]);
        assert(views_of(out@) =~= seq_scan(v@, p@, Seq::empty()));
    }
    out
}

/// Trims each token at the chosen ends.
fn trim_tokens(ts: Vec<Vec<char>>, st: bool, en: bool) -> (r: Vec<Vec<char>>)
    ensures
        views_of(r@) == views_of(ts@).map_values(|t: Seq<char>| apply_trim(t, st, en)),
{
    let mut out: Vec<Vec<char>> = Vec::new();
    let mut i: usize = 0;
    while i < ts.len()
        invariant
            i <= ts.len(),
            out@.len() == i,
            forall|k: int| 0 <= k < i ==> out@[k]@ == apply_trim(ts@[k]@, st, en),
        decreases ts.len() - i,
    {
        out.push(trim_vec(&ts[i], st, en));
        i += 1;
    }
    proof {
        assert(views_of(out@) =~= views_of(ts@).map_values(
            |t: Seq<char>| apply_trim(t, st, en),
        ));
    }
    out
}

/// Tokenizes one line: the separator tokenizer together with the quote
/// preprocessor and the sentinel restoration, exactly `line_tokens`.
pub fn tokenize(line: &str, sep: Separator<'_>, quotes: bool) -> (r: Vec<String>)
    requires
        sep_wf(sep),
    ensures
        r@.len() == line_tokens(line@, sep, quotes).len(),
        forall|k: int|
            0 <= k < r@.len() ==> r@[k]@ == line_tokens(line@, sep, quotes)[k],
{
    let cs0 = str_to_chars(line);
    let cs = if quotes {
        preprocess(&cs0)
    } else {
        cs0
    };
    let ghost l = if quotes {
        preprocess_spec(line@)
    } else {
        line@
    };
    let raw: Vec<Vec<char>> = match sep {
        Separator::Whitespace => ws_split(&cs),
        Separator::Sequence(q) => {
            let pat = str_to_chars(q);
            split_on(&cs, &pat)
        },
        Separator::SequenceTrim(q) => {
            let pat = str_to_chars(q);
            trim_tokens(split_on(&cs, &pat), true, true)
        },
        Separator::SequenceTrimStart(q) => {
            let pat = str_to_chars(q);
            trim_tokens(split_on(&cs, &pat), true, false)
        },
        Separator::SequenceTrimEnd(q) => {
            let pat = str_to_chars(q);
            trim_tokens(split_on(&cs, &pat), false, true)
        },
    };
    proof {
        assert(views_of(raw@) == sep_tokens(l, sep));
    }
    let mut toks = raw;
    if toks.len() > 0 && toks[toks.len() - 1].len() == 0 {
        proof {
            assert(views_of(toks@).last() == toks@.last()@);
        }
        toks.pop();
        proof {
            assert(views_of(toks@) =~= drop_trailing_empty(sep_tokens(l, sep)));
        }
    } else {
        proof {
            if views_of(toks@).len() > 0 {
                assert(views_of(toks@).last() == toks@.last()@);
            }
            assert(views_of(toks@) =~= drop_trailing_empty(sep_tokens(l, sep)));
        }
    }
    let ghost dt = drop_trailing_empty(sep_tokens(l, sep));
    let mut out: Vec<String> = Vec::new();
    let mut i: usize = 0;
    while i < toks.len()
        invariant
            i <= toks.len(),
            out@.len() == i,
            views_of(toks@) == dt,
            dt.map_values(|t: Seq<char>| replace_sentinel(t)) == line_tokens(line@, sep, quotes),
            forall|k: int| 0 <= k < i ==> out@[k]@ == line_tokens(line@, sep, quotes)[k],
        decreases toks.len() - i,
    {
        let rt = restore_ws(&toks[i]);
        let s = chars_to_string(&rt);
        proof {
            assert(dt[i as int] == toks@[i as int]@);
            assert(line_tokens(line@, sep, quotes)[i as int] == replace_sentinel(dt[i as int]));
        }
        out.push(s);
        i += 1;
    }
    out
}

} // verus!
