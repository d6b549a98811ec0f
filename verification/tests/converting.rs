use interviewer::{ask, Askable, InterviewError};

fn expect_error<T: Askable>(input: &str, want_target: &str) {
    match ask::<T>(input) {
        Ok(_) => panic!("conversion of {:?} should fail", input),
        Err(InterviewError::ParseError { origin, target }) => {
            assert_eq!(origin, input);
            assert_eq!(target, want_target);
        },
    }
}

#[test]
fn text_is_returned_unchanged() {
    assert_eq!(ask::<String>(" hi there "), Ok(String::from(" hi there ")));
    assert_eq!(ask::<String>(""), Ok(String::new()));
}

#[test]
fn boolean_true_spellings() {
    for s in ["Y", "y", "yes", "YES", "t", "T", "true", "True", "TRUE", "1", " true "] {
        assert_eq!(ask::<bool>(s), Ok(true), "{:?}", s);
    }
}

#[test]
fn boolean_false_spellings() {
    for s in ["n", "N", "no", "No", "f", "F", "false", "FALSE", "0", " no "] {
        assert_eq!(ask::<bool>(s), Ok(false), "{:?}", s);
    }
}

#[test]
fn boolean_rejects_other_text() {
    expect_error::<bool>("maybe", "bool");
    expect_error::<bool>("", "bool");
    expect_error::<bool>("10", "bool");
    expect_error::<bool>("yess", "bool");
}

#[test]
fn character_is_the_trimmed_single_char() {
    assert_eq!(ask::<char>(" x "), Ok('x'));
    assert_eq!(ask::<char>("\u{e9}"), Ok('\u{e9}'));
    expect_error::<char>("ab", "char");
    expect_error::<char>("", "char");
}

#[test]
fn unsigned_parsing_and_bounds() {
    assert_eq!(ask::<u8>("255"), Ok(255));
    assert_eq!(ask::<u8>(" +17 "), Ok(17));
    assert_eq!(ask::<u8>("007"), Ok(7));
    expect_error::<u8>("256", "u8");
    expect_error::<u8>("-0", "u8");
    expect_error::<u8>("", "u8");
    expect_error::<u8>("+", "u8");
    expect_error::<u8>("1 2", "u8");
    assert_eq!(ask::<u16>("65535"), Ok(65535));
    expect_error::<u16>("65536", "u16");
    assert_eq!(ask::<u32>("4294967295"), Ok(4294967295));
    expect_error::<u32>("4294967296", "u32");
    assert_eq!(ask::<u64>("18446744073709551615"), Ok(u64::MAX));
    expect_error::<u64>("18446744073709551616", "u64");
    assert_eq!(
        ask::<u128>("340282366920938463463374607431768211455"),
        Ok(u128::MAX),
    );
    expect_error::<u128>("340282366920938463463374607431768211456", "u128");
    assert_eq!(ask::<usize>("42"), Ok(42));
    expect_error::<usize>("-1", "usize");
}

#[test]
fn signed_parsing_and_bounds() {
    assert_eq!(ask::<i8>("-128"), Ok(i8::MIN));
    assert_eq!(ask::<i8>("127"), Ok(i8::MAX));
    expect_error::<i8>("128", "i8");
    expect_error::<i8>("-129", "i8");
    assert_eq!(ask::<i16>("-32768"), Ok(i16::MIN));
    expect_error::<i16>("32768", "i16");
    assert_eq!(ask::<i32>("2147483647"), Ok(i32::MAX));
    assert_eq!(ask::<i32>("-2147483648"), Ok(i32::MIN));
    assert_eq!(ask::<i32>(" -42 "), Ok(-42));
    assert_eq!(ask::<i32>("+42"), Ok(42));
    expect_error::<i32>("--42", "i32");
    expect_error::<i32>("-", "i32");
    expect_error::<i32>("4x", "i32");
    assert_eq!(ask::<i64>("-9223372036854775808"), Ok(i64::MIN));
    expect_error::<i64>("-9223372036854775809", "i64");
    assert_eq!(
        ask::<i128>("-170141183460469231731687303715884105728"),
        Ok(i128::MIN),
    );
    assert_eq!(
        ask::<i128>("170141183460469231731687303715884105727"),
        Ok(i128::MAX),
    );
    expect_error::<i128>("170141183460469231731687303715884105728", "i128");
    assert_eq!(ask::<isize>("-7"), Ok(-7));
    expect_error::<isize>("seven", "isize");
}

#[test]
fn error_message_names_token_and_type() {
    match ask::<bool>("maybe") {
        Err(e) => assert_eq!(e.message(), "Could not parse \"maybe\" as bool"),
        Ok(_) => panic!("conversion should fail"),
    }
}

#[test]
fn zero_in_every_width() {
    assert_eq!(ask::<u8>("0"), Ok(0));
    assert_eq!(ask::<u16>("0"), Ok(0));
    assert_eq!(ask::<u32>("0"), Ok(0));
    assert_eq!(ask::<u64>("0"), Ok(0));
    assert_eq!(ask::<u128>("0"), Ok(0));
    assert_eq!(ask::<usize>("0"), Ok(0));
    assert_eq!(ask::<i8>("-0"), Ok(0));
    assert_eq!(ask::<i16>("+0"), Ok(0));
    assert_eq!(ask::<i32>("0"), Ok(0));
    assert_eq!(ask::<i64>("0"), Ok(0));
    assert_eq!(ask::<i128>("-0"), Ok(0));
    assert_eq!(ask::<isize>("0"), Ok(0));
}
