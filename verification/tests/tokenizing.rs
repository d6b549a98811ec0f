use interviewer::{tokenize, Separator};

#[test]
fn sequence_trim_trims_each_token() {
    let toks = tokenize("a, b ,c", Separator::SequenceTrim(","), false);
    assert_eq!(toks, vec!["a", "b", "c"]);
}

#[test]
fn sequence_keeps_surrounding_space() {
    let toks = tokenize("a, b ,c", Separator::Sequence(","), false);
    assert_eq!(toks, vec!["a", " b ", "c"]);
}

#[test]
fn trailing_separator_adds_no_empty_token() {
    let toks = tokenize("a,b,", Separator::SequenceTrim(","), false);
    assert_eq!(toks, vec!["a", "b"]);
    let toks = tokenize("a::b::", Separator::Sequence("::"), false);
    assert_eq!(toks, vec!["a", "b"]);
}

#[test]
fn interior_empty_tokens_are_kept() {
    let toks = tokenize("a,,b", Separator::Sequence(","), false);
    assert_eq!(toks, vec!["a", "", "b"]);
    let toks = tokenize(",a", Separator::Sequence(","), false);
    assert_eq!(toks, vec!["", "a"]);
}

#[test]
fn whitespace_splits_on_maximal_runs() {
    let toks = tokenize("  a \t b\u{a0}c  ", Separator::Whitespace, false);
    assert_eq!(toks, vec!["a", "b", "c"]);
}

#[test]
fn whitespace_of_blank_line_is_empty() {
    assert_eq!(tokenize("   ", Separator::Whitespace, false), Vec::<String>::new());
    assert_eq!(tokenize("", Separator::Whitespace, false), Vec::<String>::new());
}

#[test]
fn empty_line_under_literal_separator() {
    assert_eq!(tokenize("", Separator::Sequence(","), false), Vec::<String>::new());
    assert_eq!(tokenize("", Separator::SequenceTrim(","), false), Vec::<String>::new());
}

#[test]
fn multi_character_separator() {
    let toks = tokenize("x::y::z", Separator::Sequence("::"), false);
    assert_eq!(toks, vec!["x", "y", "z"]);
}

#[test]
fn multi_byte_separator_skips_by_characters() {
    let toks = tokenize("a\u{e9}b\u{e9}c", Separator::SequenceTrim("\u{e9}"), false);
    assert_eq!(toks, vec!["a", "b", "c"]);
    let toks = tokenize("a\u{e9}\u{e9}b", Separator::Sequence("\u{e9}"), false);
    assert_eq!(toks, vec!["a", "", "b"]);
}

#[test]
fn trim_start_and_trim_end_variants() {
    let toks = tokenize(" a , b ,c ", Separator::SequenceTrimStart(","), false);
    assert_eq!(toks, vec!["a ", "b ", "c "]);
    let toks = tokenize(" a , b ,c ", Separator::SequenceTrimEnd(","), false);
    assert_eq!(toks, vec![" a", " b", "c"]);
}

#[test]
fn separator_appearing_nowhere_yields_trimmed_line() {
    let toks = tokenize("  value  ", Separator::SequenceTrim(","), false);
    assert_eq!(toks, vec!["value"]);
}

#[test]
fn quote_mode_on_keeps_quoted_region_together() {
    let toks = tokenize("a \"b c d\" e f", Separator::Whitespace, true);
    assert_eq!(toks, vec!["a", "b c d", "e", "f"]);
}

#[test]
fn quote_mode_off_splits_through_quotes() {
    let toks = tokenize("a \"b c d\" e f", Separator::Whitespace, false);
    assert_eq!(toks, vec!["a", "\"b", "c", "d\"", "e", "f"]);
}

#[test]
fn quote_mode_with_literal_separator() {
    let toks = tokenize("test, \"test test\"", Separator::SequenceTrim(","), true);
    assert_eq!(toks, vec!["test", "test test"]);
}

#[test]
fn unterminated_quote_stays_open_to_line_end() {
    let toks = tokenize("a \"b c", Separator::Whitespace, true);
    assert_eq!(toks, vec!["a", "b c"]);
}

#[test]
fn sentinel_text_in_input_collides_by_design() {
    // The sentinel is an ordinary literal, so input that contains it is
    // restored to a space like a quoted region would be.
    let toks = tokenize("a THIS___IS__A_REPR b", Separator::Whitespace, false);
    assert_eq!(toks, vec!["a", " ", "b"]);
}

#[test]
fn separator_wellformedness_is_observable() {
    assert!(interviewer::separator_is_wf(&Separator::Whitespace));
    assert!(interviewer::separator_is_wf(&Separator::Sequence(",")));
    assert!(!interviewer::separator_is_wf(&Separator::SequenceTrim("")));
}
