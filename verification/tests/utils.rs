use hls_m3u8::utils::{parse_u64, parse_yes_or_no, quote, tag, unquote};
use hls_m3u8::{Cause, Error};

fn invalid(context: &str, cause: Cause) -> Error {
    Error::InvalidInput { context: context.to_string(), cause }
}

#[test]
fn test_parse_yes_or_no() {
    assert!(parse_yes_or_no("YES").unwrap());
    assert!(!parse_yes_or_no("NO").unwrap());
}

#[test]
fn test_parse_u64() {
    assert_eq!(parse_u64("1").unwrap(), 1);
    assert_eq!(parse_u64("25").unwrap(), 25);
}

#[test]
fn test_unquote() {
    assert_eq!(unquote("\"TestValue\""), "TestValue".to_string());
    assert_eq!(unquote("\"TestValue\n\""), "TestValue".to_string());
    assert_eq!(unquote("\"TestValue\n\r\""), "TestValue".to_string());
}

#[test]
fn test_quote() {
    assert_eq!(quote("value"), "\"value\"".to_string());
    assert_eq!(quote("\"value\""), "\"value\"".to_string());
}

#[test]
fn yes_or_no_is_strict() {
    assert_eq!(parse_yes_or_no("YES"), Ok(true));
    assert_eq!(parse_yes_or_no("NO"), Ok(false));
    assert_eq!(parse_yes_or_no("yes"), Err(invalid("yes", Cause::NotYesOrNo)));
    assert_eq!(parse_yes_or_no("maybe"), Err(invalid("maybe", Cause::NotYesOrNo)));
    assert_eq!(parse_yes_or_no(" YES"), Err(invalid(" YES", Cause::NotYesOrNo)));
    assert_eq!(parse_yes_or_no("YES "), Err(invalid("YES ", Cause::NotYesOrNo)));
    assert_eq!(parse_yes_or_no("No"), Err(invalid("No", Cause::NotYesOrNo)));
    assert_eq!(parse_yes_or_no(""), Err(invalid("", Cause::NotYesOrNo)));
    assert_eq!(parse_yes_or_no("YESNO"), Err(invalid("YESNO", Cause::NotYesOrNo)));
}

#[test]
fn u64_boundaries() {
    assert_eq!(parse_u64("18446744073709551615"), Ok(u64::MAX));
    assert_eq!(
        parse_u64("18446744073709551616"),
        Err(invalid("18446744073709551616", Cause::Overflow))
    );
    assert_eq!(parse_u64("-1"), Err(invalid("-1", Cause::NotADigit)));
    assert_eq!(parse_u64("0"), Ok(0));
}

#[test]
fn u64_refuses_what_is_no_digit_sequence() {
    assert_eq!(parse_u64(""), Err(invalid("", Cause::Empty)));
    assert_eq!(parse_u64("+1"), Err(invalid("+1", Cause::NotADigit)));
    assert_eq!(parse_u64(" 1"), Err(invalid(" 1", Cause::NotADigit)));
    assert_eq!(parse_u64("1 "), Err(invalid("1 ", Cause::NotADigit)));
    assert_eq!(parse_u64("1,000"), Err(invalid("1,000", Cause::NotADigit)));
    assert_eq!(parse_u64("12a"), Err(invalid("12a", Cause::NotADigit)));
    assert_eq!(parse_u64("1.5"), Err(invalid("1.5", Cause::NotADigit)));
    assert_eq!(parse_u64("٣"), Err(invalid("٣", Cause::NotADigit)));
}

#[test]
fn u64_a_character_that_is_no_digit_goes_before_the_size() {
    assert_eq!(
        parse_u64("99999999999999999999999999x"),
        Err(invalid("99999999999999999999999999x", Cause::NotADigit))
    );
    assert_eq!(
        parse_u64("99999999999999999999999999"),
        Err(invalid("99999999999999999999999999", Cause::Overflow))
    );
}

#[test]
fn u64_leading_zeros_do_not_count() {
    assert_eq!(parse_u64("007"), Ok(7));
    assert_eq!(parse_u64("000000000000000000000000000018446744073709551615"), Ok(u64::MAX));
}

#[test]
fn unquote_undoes_quote() {
    for s in ["", "value", "a,b=c", "with space", "ünïcödé", "https://example.com/key?id=1,2"] {
        assert_eq!(unquote(&quote(s)), s.to_string());
    }
}

#[test]
fn unquote_of_quote_is_unquote() {
    for s in ["a\"b", "\"\"", "line\nfeed", "carriage\rreturn", "\"a\r\n\"b\""] {
        assert_eq!(unquote(&quote(s)), unquote(s));
    }
}

#[test]
fn quote_has_two_quotes_at_its_ends() {
    for s in ["", "value", "\"value\"", "a\"b\"c", "\"\"\"\"", "\"", "a\"", "\"a"] {
        let q = quote(s);
        let chars: Vec<char> = q.chars().collect();
        assert!(chars.len() >= 2);
        for (i, c) in chars.iter().enumerate() {
            assert_eq!(*c == '"', i == 0 || i == chars.len() - 1);
        }
    }
    assert_eq!(quote("a\"b\"c"), "\"abc\"".to_string());
    assert_eq!(quote(""), "\"\"".to_string());
}

#[test]
fn quote_keeps_line_breaks_and_unquote_removes_them() {
    assert_eq!(quote("a\nb\rc"), "\"a\nb\rc\"".to_string());
    assert_eq!(unquote("a\nb\rc"), "abc".to_string());
    assert_eq!(unquote("plain"), "plain".to_string());
    assert_eq!(unquote(""), "".to_string());
}

#[test]
fn quote_is_idempotent() {
    for s in ["value", "\"value\"", "a\"b", ""] {
        assert_eq!(quote(&quote(s)), quote(s));
    }
}

#[test]
fn tag_returns_what_follows_the_prefix() {
    assert_eq!(tag("#EXT-X-FOO:bar", "#EXT-X-FOO"), Ok(":bar".to_string()));
    assert_eq!(tag("#EXT-X-FOO", "#EXT-X-FOO"), Ok("".to_string()));
    assert_eq!(tag("anything", ""), Ok("anything".to_string()));
}

#[test]
fn tag_names_the_prefix_and_the_line_on_failure() {
    assert_eq!(
        tag("#EXT-X-BAR:1", "#EXT-X-FOO"),
        Err(Error::UnmatchedPrefix {
            expected: "#EXT-X-FOO".to_string(),
            actual: "#EXT-X-BAR:1".to_string(),
        })
    );
    assert_eq!(
        tag("#EXT", "#EXT-X-FOO"),
        Err(Error::UnmatchedPrefix { expected: "#EXT-X-FOO".to_string(), actual: "#EXT".to_string() })
    );
    assert_eq!(
        tag(" #EXT-X-FOO", "#EXT-X-FOO"),
        Err(Error::UnmatchedPrefix {
            expected: "#EXT-X-FOO".to_string(),
            actual: " #EXT-X-FOO".to_string(),
        })
    );
    assert_eq!(
        tag("#ext-x-foo", "#EXT-X-FOO"),
        Err(Error::UnmatchedPrefix {
            expected: "#EXT-X-FOO".to_string(),
            actual: "#ext-x-foo".to_string(),
        })
    );
}
