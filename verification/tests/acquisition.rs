use interviewer::{
    ask_many, ask_many_opt, ask_many_opt_lazy, ask_many_until, ask_opt, ask_until,
    set_consumable_quotes, AskConfig, AskOutcome, InterviewError, Separator,
};

#[test]
fn quote_consumption_starts_off_and_is_settable() {
    let mut cfg = AskConfig::default();
    assert!(!cfg.consume_quotes);
    set_consumable_quotes(&mut cfg, true);
    assert!(cfg.consume_quotes);
    set_consumable_quotes(&mut cfg, false);
    assert!(!cfg.consume_quotes);
}

#[test]
fn single_until_retries_on_bad_line() {
    assert_eq!(ask_until::<i32>("nope"), AskOutcome::Retry);
    assert_eq!(ask_until::<i32>("12"), AskOutcome::Done(12));
}

#[test]
fn single_opt_short_circuits_on_empty_line() {
    assert_eq!(ask_opt::<i32>(""), AskOutcome::Done(None));
    assert_eq!(ask_opt::<i32>("bad"), AskOutcome::Retry);
    assert_eq!(ask_opt::<i32>("5"), AskOutcome::Done(Some(5)));
}

#[test]
fn many_strict_converts_all_or_fails_with_first_error() {
    let cfg = AskConfig::default();
    let ok = ask_many::<i32>("1 2 3", Separator::Whitespace, &cfg);
    assert_eq!(ok, Ok(vec![1, 2, 3]));
    match ask_many::<i32>("1 x 3", Separator::Whitespace, &cfg) {
        Ok(_) => panic!("a bad token must fail the whole call"),
        Err(InterviewError::ParseError { origin, target }) => {
            assert_eq!(origin, "x");
            assert_eq!(target, "i32");
        },
    }
}

#[test]
fn many_strict_with_trimming_separator() {
    let cfg = AskConfig::default();
    let ok = ask_many::<u8>(" 1 , 2 ,3 ", Separator::SequenceTrim(","), &cfg);
    assert_eq!(ok, Ok(vec![1, 2, 3]));
}

#[test]
fn retry_until_all_valid_uses_second_line_only() {
    let cfg = AskConfig::default();
    // First line: one invalid token. The whole line is rejected; nothing of
    // its valid prefix survives.
    let first = ask_many_until::<i32>("1 x 3", Separator::Whitespace, &cfg);
    assert_eq!(first, AskOutcome::Retry);
    // Second line: all valid. The result is this line's values alone.
    let second = ask_many_until::<i32>("4 5 6", Separator::Whitespace, &cfg);
    assert_eq!(second, AskOutcome::Done(vec![4, 5, 6]));
}

#[test]
fn many_until_accepts_an_empty_line() {
    let cfg = AskConfig::default();
    let r = ask_many_until::<i32>("", Separator::Whitespace, &cfg);
    assert_eq!(r, AskOutcome::Done(Vec::new()));
}

#[test]
fn many_opt_short_circuits_on_zero_tokens() {
    let cfg = AskConfig::default();
    assert_eq!(
        ask_many_opt::<i32>("", Separator::Whitespace, &cfg),
        AskOutcome::Done(None),
    );
    assert_eq!(
        ask_many_opt::<i32>("  ", Separator::Whitespace, &cfg),
        AskOutcome::Done(None),
    );
    assert_eq!(
        ask_many_opt::<i32>("1 bad", Separator::Whitespace, &cfg),
        AskOutcome::Retry,
    );
    assert_eq!(
        ask_many_opt::<i32>("1 2", Separator::Whitespace, &cfg),
        AskOutcome::Done(Some(vec![1, 2])),
    );
}

#[test]
fn lazy_gives_one_outcome_per_token() {
    let cfg = AskConfig::default();
    let r = ask_many_opt_lazy::<i32>("1 x 3", Separator::Whitespace, &cfg);
    assert_eq!(r, vec![Some(1), None, Some(3)]);
    let r = ask_many_opt_lazy::<i32>("", Separator::Whitespace, &cfg);
    assert_eq!(r, Vec::new());
}

#[test]
fn quote_mode_flows_through_acquisition() {
    let mut cfg = AskConfig::default();
    set_consumable_quotes(&mut cfg, true);
    let r = ask_many::<String>("test, \"test test\"", Separator::SequenceTrim(","), &cfg);
    assert_eq!(r, Ok(vec![String::from("test"), String::from("test test")]));
    set_consumable_quotes(&mut cfg, false);
    let r = ask_many::<String>("test, \"test test\"", Separator::SequenceTrim(","), &cfg);
    assert_eq!(
        r,
        Ok(vec![String::from("test"), String::from("\"test test\"")]),
    );
}
