//! Interactive input parsing: quote-aware tokenization of a line of text under
//! a configurable separator policy, typed conversion of each token, and the
//! per-line decision logic of the retry/short-circuit acquisition policies.
//!
//! The library works on complete lines handed in as plain strings; reading
//! lines from a terminal (and terminating on interrupt) is left to the
//! embedding program.

pub mod ask;
pub mod chars;
pub mod convert;
pub mod laws;
pub mod numbers;
pub mod quotes;
pub mod tokenize;

pub use ask::{
    ask, ask_many, ask_many_opt, ask_many_opt_lazy, ask_many_until, ask_opt, ask_until,
    set_consumable_quotes, AskConfig, AskOutcome,
};
pub use convert::{Askable, InterviewError};
pub use laws::{lemma_single_value_roundtrip, lemma_whitespace_tokens};
pub use tokenize::{Separator, line_tokens, sep_wf, separator_is_wf, tokenize};
