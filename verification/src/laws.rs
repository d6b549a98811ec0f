//! Properties of tokenization that hold for every input, proved once and for
//! all: whitespace tokenization is exactly one non-empty token per maximal
//! run, and a lone separator-free value tokenizes to itself, trimmed.

use vstd::prelude::*;
use crate::chars::{is_ws_char, matches_at, trim_spec};
use crate::quotes::{preprocess_spec, replace_sentinel, sentinel};
use crate::tokenize::{drop_trailing_empty, line_tokens, sep_tokens, seq_scan, ws_scan, Separator};

verus! {

/// The number of maximal whitespace-delimited runs in `s`, with `in_run`
/// saying whether the character before `s` belongs to a run.
pub open spec fn ws_run_count(s: Seq<char>, in_run: bool) -> nat
    decreases s.len(),
{
    if s.len() == 0 {
        0
    } else if is_ws_char(s[0]) {
        ws_run_count(s.drop_first(), false)
    } else if in_run {
        ws_run_count(s.drop_first(), true)
    } else {
        1 + ws_run_count(s.drop_first(), true)
    }
}

proof fn lemma_ws_scan_shape(s: Seq<char>, cur: Seq<char>)
    ensures
        ws_scan(s, cur).len() == ws_run_count(s, cur.len() > 0) + (if cur.len() > 0 {
            1nat
        } else {
            0nat
        }),
        forall|i: int| 0 <= i < ws_scan(s, cur).len() ==> #[trigger] ws_scan(s, cur)[i].len() > 0,
    decreases s.len(),
{
    if s.len() == 0 {
    } else if is_ws_char(s[0]) {
        lemma_ws_scan_shape(s.drop_first(), Seq::empty());
        if cur.len() > 0 {
            assert forall|i: int| 0 <= i < ws_scan(s, cur).len() implies #[trigger] ws_scan(
                s,
                cur,
            )[i].len() > 0 by {
                if i > 0 {
                    assert(ws_scan(s, cur)[i] == ws_scan(s.drop_first(), Seq::empty())[i - 1]);
                }
            }
        }
    } else {
        lemma_ws_scan_shape(s.drop_first(), cur.push(s[0]));
    }
}

proof fn lemma_replace_sentinel_nonempty(s: Seq<char>)
    requires
        s.len() > 0,
    ensures
        replace_sentinel(s).len() > 0,
{
}

/// Whitespace tokenization never produces an empty token, and the number of
/// tokens equals the number of maximal whitespace-delimited runs of the line
/// being split (the quote-preprocessed line when quote consumption is on).
pub proof fn lemma_whitespace_tokens(line: Seq<char>, quotes: bool)
    ensures
        ({
            let l = if quotes {
                preprocess_spec(line)
            } else {
                line
            };
            let ts = line_tokens(line, Separator::Whitespace, quotes);
            &&& ts.len() == ws_run_count(l, false)
            &&& forall|i: int| 0 <= i < ts.len() ==> #[trigger] ts[i].len() > 0
        }),
{
    let l = if quotes {
        preprocess_spec(line)
    } else {
        line
    };
    let raw = ws_scan(l, Seq::empty());
    lemma_ws_scan_shape(l, Seq::empty());
    assert(sep_tokens(l, Separator::Whitespace) == raw);
    if raw.len() > 0 {
        assert(raw.last().len() > 0);
    }
    assert(drop_trailing_empty(raw) == raw);
    let ts = line_tokens(line, Separator::Whitespace, quotes);
    assert(ts.len() == raw.len());
    assert forall|i: int| 0 <= i < ts.len() implies #[trigger] ts[i].len() > 0 by {
        assert(ts[i] == replace_sentinel(raw[i]));
        lemma_replace_sentinel_nonempty(raw[i]);
    }
}

proof fn lemma_seq_scan_no_match(s: Seq<char>, p: Seq<char>, cur: Seq<char>)
    requires
        p.len() >= 1,
        forall|i: int| !matches_at(s, p, i),
    ensures
        seq_scan(s, p, cur) == seq![cur + s],
    decreases s.len(),
{
    if s.len() == 0 {
        assert(cur + s =~= cur);
    } else {
        assert(!matches_at(s, p, 0));
        if s.len() >= p.len() {
            assert(s.take(p.len() as int) =~= s.subrange(0, p.len() as int));
            assert(s.take(p.len() as int) != p);
        }
        assert forall|i: int| !matches_at(s.drop_first(), p, i) by {
            if 0 <= i && i + p.len() <= s.drop_first().len() {
                assert(s.drop_first().subrange(i, i + p.len()) =~= s.subrange(
                    i + 1,
                    i + 1 + p.len(),
                ));
                assert(!matches_at(s, p, i + 1));
            }
        }
        lemma_seq_scan_no_match(s.drop_first(), p, cur.push(s[0]));
        assert(cur.push(s[0]) + s.drop_first() =~= cur + s);
    }
}

proof fn lemma_replace_sentinel_id(s: Seq<char>)
    requires
        forall|i: int| !matches_at(s, sentinel(), i),
    ensures
        replace_sentinel(s) == s,
    decreases s.len(),
{
    if s.len() > 0 {
        assert(!matches_at(s, sentinel(), 0));
        if s.len() >= sentinel().len() {
            assert(s.take(sentinel().len() as int) =~= s.subrange(0, sentinel().len() as int));
            assert(s.take(sentinel().len() as int) != sentinel());
        }
        assert forall|i: int| !matches_at(s.drop_first(), sentinel(), i) by {
            if 0 <= i && i + sentinel().len() <= s.drop_first().len() {
                assert(s.drop_first().subrange(i, i + sentinel().len()) =~= s.subrange(
                    i + 1,
                    i + 1 + sentinel().len(),
                ));
                assert(!matches_at(s, sentinel(), i + 1));
            }
        }
        lemma_replace_sentinel_id(s.drop_first());
        assert(seq![s[0]] + s.drop_first() =~= s);
    }
}

/// Tokenizing an already-tokenized single value is the identity up to
/// trimming: a line with no occurrence of the separator (and none of the
/// quote sentinel), whose trimmed text is non-empty, yields exactly one
/// token, the trimmed line.
pub proof fn lemma_single_value_roundtrip(line: Seq<char>, sep: Separator<'_>, q: Seq<char>)
    requires
        sep matches Separator::SequenceTrim(q0) && q0@ == q,
        q.len() >= 1,
        forall|i: int| !matches_at(line, q, i),
        forall|i: int| !matches_at(trim_spec(line), sentinel(), i),
        trim_spec(line).len() > 0,
    ensures
        line_tokens(line, sep, false) == seq![trim_spec(line)],
{
    lemma_seq_scan_no_match(line, q, Seq::empty());
    assert(Seq::<char>::empty() + line =~= line);
    let raw = sep_tokens(line, sep);
    assert(raw =~= seq![trim_spec(line)]);
    assert(raw.last() == trim_spec(line));
    assert(drop_trailing_empty(raw) == raw);
    lemma_replace_sentinel_id(trim_spec(line));
    assert(line_tokens(line, sep, false) =~= seq![trim_spec(line)]);
}

} // verus!
