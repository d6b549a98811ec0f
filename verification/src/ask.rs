//! The acquisition policies' decision layer: what each policy does with one
//! acquired line. The embedding program reads lines (and terminates on
//! interrupt); these functions tokenize and convert one line and either
//! return a final outcome or ask for a fresh line, so a retry loop is one
//! call per acquired line. A retry never keeps anything from a rejected
//! line: values come from a single line's tokens only.

use vstd::prelude::*;
use crate::convert::{Askable, InterviewError};
use crate::tokenize::{line_tokens, sep_wf, tokenize, Separator};

verus! {

/// The ambient configuration of multi-value acquisition: whether quoted
/// regions are consumed. Each multi-value call takes the snapshot it is
/// handed; the embedding program may keep one shared `AskConfig` to give the
/// flag process-wide effect.
pub struct AskConfig {
    pub consume_quotes: bool,
}

impl Default for AskConfig {
    /// Quote consumption starts off.
    fn default() -> (c: AskConfig)
        ensures
            !c.consume_quotes,
    {
        AskConfig { consume_quotes: false }
    }
}

/// Turns quote consumption on or off for later multi-value acquisitions.
pub fn set_consumable_quotes(cfg: &mut AskConfig, b: bool)
    ensures
        final(cfg).consume_quotes == b,
{
    cfg.consume_quotes = b;
}

/// What a retrying policy decides after one line: a final outcome, or another
/// prompt for a brand-new line (nothing of the rejected line is kept).
#[derive(Debug, PartialEq, Eq)]
pub enum AskOutcome<T> {
    Done(T),
    Retry,
}

/// Converts every token in order; the first failure aborts with that token's
/// error and no partial result. `toks` is the tokens' mathematical value.
fn convert_all<T: Askable>(tokens: &Vec<String>, Ghost(toks): Ghost<Seq<Seq<char>>>) -> (r: Result<
    Vec<T>,
    InterviewError,
>)
    requires
        tokens@.len() == toks.len(),
        forall|k: int| 0 <= k < toks.len() ==> #[trigger] tokens@[k]@ == toks[k],
    ensures
        match r {
            Ok(v) => v@.len() == toks.len() && (forall|i: int|
                0 <= i < toks.len() ==> T::accepts(#[trigger] toks[i]) && T::converts_to(
                    toks[i],
                    v@[i],
                )),
            Err(e) => exists|i: int|
                0 <= i < toks.len() && !T::accepts(#[trigger] toks[i]) && (forall|j: int|
                    0 <= j < i ==> T::accepts(#[trigger] toks[j])) && (match e {
                    InterviewError::ParseError { origin: o, target: t } => o@ == toks[i] && t@
                        == T::target_name(),
                }),
        },
{
    let mut out: Vec<T> = Vec::new();
    let mut i: usize = 0;
    while i < tokens.len()
        invariant
            i <= toks.len(),
            tokens@.len() == toks.len(),
            forall|k: int| 0 <= k < toks.len() ==> #[trigger] tokens@[k]@ == toks[k],
            out@.len() == i,
            forall|j: int|
                0 <= j < i ==> T::accepts(#[trigger] toks[j]) && T::converts_to(toks[j], out@[j]),
        decreases tokens.len() - i,
    {
        proof {
            assert(tokens@[i as int]@ == toks[i as int]);
        }
        match T::convert(tokens[i].as_str()) {
            Ok(v) => out.push(v),
            Err(e) => {
                proof {
                    assert(0 <= i < toks.len() && !T::accepts(toks[i as int]) && (forall|j: int|
                        0 <= j < i ==> T::accepts(#[trigger] toks[j])));
                }
                return Err(e);
            },
        }
        i += 1;
    }
    Ok(out)
}

/// Single value, strict: one line, one conversion, no retry.
pub fn ask<T: Askable>(line: &str) -> (r: Result<T, InterviewError>)
    ensures
        (r is Ok) == T::accepts(line@),
        match r {
            Ok(v) => T::converts_to(line@, v),
            Err(e) => match e {
                InterviewError::ParseError { origin: o, target: t } => o@ == line@ && t@
                    == T::target_name(),
            },
        },
{
    T::convert(line)
}

/// Single value, retry-until-valid: the value if the line converts, else
/// another prompt. A failed line is discarded without a trace.
pub fn ask_until<T: Askable>(line: &str) -> (r: AskOutcome<T>)
    ensures
        (r is Done) == T::accepts(line@),
        match r {
            AskOutcome::Done(v) => T::converts_to(line@, v),
            AskOutcome::Retry => !T::accepts(line@),
        },
{
    match T::convert(line) {
        Ok(v) => AskOutcome::Done(v),
        Err(_) => AskOutcome::Retry,
    }
}

/// Single value, optional: an empty line short-circuits to no value, a
/// converting line yields its value, anything else asks again.
pub fn ask_opt<T: Askable>(line: &str) -> (r: AskOutcome<Option<T>>)
    ensures
        match r {
            AskOutcome::Done(opt) => match opt {
                None => line@.len() == 0,
                Some(v) => line@.len() > 0 && T::accepts(line@) && T::converts_to(line@, v),
            },
            AskOutcome::Retry => line@.len() > 0 && !T::accepts(line@),
        },
{
    if line.is_empty() {
        return AskOutcome::Done(None);
    }
    match T::convert(line) {
        Ok(v) => AskOutcome::Done(Some(v)),
        Err(_) => AskOutcome::Retry,
    }
}

/// Multiple values, strict: tokenize once, convert every token; the first
/// failing token fails the whole call with its error, with no partial result
/// and no retry.
pub fn ask_many<T: Askable>(line: &str, sep: Separator<'_>, cfg: &AskConfig) -> (r: Result<
    Vec<T>,
    InterviewError,
>)
    requires
        sep_wf(sep),
    ensures
        ({
            let toks = line_tokens(line@, sep, cfg.consume_quotes);
            match r {
                Ok(v) => v@.len() == toks.len() && (forall|i: int|
                    0 <= i < toks.len() ==> T::accepts(#[trigger] toks[i]) && T::converts_to(
                        toks[i],
                        v@[i],
                    )),
                Err(e) => exists|i: int|
                    0 <= i < toks.len() && !T::accepts(#[trigger] toks[i]) && (forall|j: int|
                        0 <= j < i ==> T::accepts(#[trigger] toks[j])) && (match e {
                        InterviewError::ParseError { origin: o, target: t } => o@ == toks[i] && t@
                            == T::target_name(),
                    }),
            }
        }),
{
    let tokens = tokenize(line, sep, cfg.consume_quotes);
    convert_all::<T>(&tokens, Ghost(line_tokens(line@, sep, cfg.consume_quotes)))
}

/// Multiple values, retry-until-all-valid: the values if every token of this
/// line converts, else another prompt. The rejected line's tokens and any
/// partially converted values are discarded whole, so a success never mixes
/// lines.
pub fn ask_many_until<T: Askable>(line: &str, sep: Separator<'_>, cfg: &AskConfig) -> (r:
    AskOutcome<Vec<T>>)
    requires
        sep_wf(sep),
    ensures
        ({
            let toks = line_tokens(line@, sep, cfg.consume_quotes);
            match r {
                AskOutcome::Done(v) => v@.len() == toks.len() && (forall|i: int|
                    0 <= i < toks.len() ==> T::accepts(#[trigger] toks[i]) && T::converts_to(
                        toks[i],
                        v@[i],
                    )),
                AskOutcome::Retry => exists|i: int|
                    0 <= i < toks.len() && !T::accepts(#[trigger] toks[i]),
            }
        }),
{
    let tokens = tokenize(line, sep, cfg.consume_quotes);
    match convert_all::<T>(&tokens, Ghost(line_tokens(line@, sep, cfg.consume_quotes))) {
        Ok(v) => AskOutcome::Done(v),
        Err(_) => AskOutcome::Retry,
    }
}

/// Multiple values, optional: a line with no tokens short-circuits to no
/// value, a line whose tokens all convert yields the values, anything else
/// asks again.
pub fn ask_many_opt<T: Askable>(line: &str, sep: Separator<'_>, cfg: &AskConfig) -> (r: AskOutcome<
    Option<Vec<T>>,
>)
    requires
        sep_wf(sep),
    ensures
        ({
            let toks = line_tokens(line@, sep, cfg.consume_quotes);
            match r {
                AskOutcome::Done(opt) => match opt {
                    None => toks.len() == 0,
                    Some(v) => toks.len() > 0 && v@.len() == toks.len() && (forall|i: int|
                        0 <= i < toks.len() ==> T::accepts(#[trigger] toks[i]) && T::converts_to(
                            toks[i],
                            v@[i],
                        )),
                },
                AskOutcome::Retry => exists|i: int|
                    0 <= i < toks.len() && !T::accepts(#[trigger] toks[i]),
            }
        }),
{
    let tokens = tokenize(line, sep, cfg.consume_quotes);
    if tokens.len() == 0 {
        return AskOutcome::Done(None);
    }
    match convert_all::<T>(&tokens, Ghost(line_tokens(line@, sep, cfg.consume_quotes))) {
        Ok(v) => AskOutcome::Done(Some(v)),
        Err(_) => AskOutcome::Retry,
    }
}

/// Multiple values, lazy: one line, no retry; each token independently
/// becomes its value or an absent marker, one outcome per token in order.
pub fn ask_many_opt_lazy<T: Askable>(line: &str, sep: Separator<'_>, cfg: &AskConfig) -> (r: Vec<
    Option<T>,
>)
    requires
        sep_wf(sep),
    ensures
        r@.len() == line_tokens(line@, sep, cfg.consume_quotes).len(),
        ({
            let toks = line_tokens(line@, sep, cfg.consume_quotes);
            forall|i: int|
                0 <= i < toks.len() ==> match #[trigger] r@[i] {
                    Some(v) => T::accepts(toks[i]) && T::converts_to(toks[i], v),
                    None => !T::accepts(toks[i]),
                }
        }),
{
    let tokens = tokenize(line, sep, cfg.consume_quotes);
    let mut out: Vec<Option<T>> = Vec::new();
    let mut i: usize = 0;
    while i < tokens.len()
        invariant
            i <= tokens@.len(),
            out@.len() == i,
            tokens@.len() == line_tokens(line@, sep, cfg.consume_quotes).len(),
            forall|k: int|
                0 <= k < tokens@.len() ==> #[trigger] tokens@[k]@ == line_tokens(
                    line@,
                    sep,
                    cfg.consume_quotes,
                )[k],
            forall|k: int|
                0 <= k < i ==> match #[trigger] out@[k] {
                    Some(v) => T::accepts(tokens@[k]@) && T::converts_to(tokens@[k]@, v),
                    None => !T::accepts(tokens@[k]@),
                },
        decreases tokens.len() - i,
    {
        match T::convert(tokens[i].as_str()) {
            Ok(v) => out.push(Some(v)),
            Err(_) => out.push(None),
        }
        i += 1;
    }
    out
}

} // verus!
