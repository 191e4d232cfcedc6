use hls_m3u8::{Attribute, AttributeList, Cause, Error};

fn bad(context: &str, cause: Cause) -> Error {
    Error::InvalidInput { context: context.to_string(), cause }
}

fn triple(a: &Attribute) -> (String, String, bool) {
    (a.name().clone(), a.value().clone(), a.is_quoted())
}

fn parsed(text: &str) -> Vec<(String, String, bool)> {
    let list = AttributeList::parse(text).unwrap();
    (0..list.len()).map(|i| triple(list.at(i).unwrap())).collect()
}

fn attr(name: &str, value: &str, quoted: bool) -> (String, String, bool) {
    (name.to_string(), value.to_string(), quoted)
}

#[test]
fn attributes_are_split_at_commas_and_equal_signs() {
    assert_eq!(
        parsed("METHOD=AES-128,URI=\"https://example.com/key\",IV=0x01"),
        vec![
            attr("METHOD", "AES-128", false),
            attr("URI", "https://example.com/key", true),
            attr("IV", "0x01", false),
        ]
    );
    assert_eq!(parsed("A=1"), vec![attr("A", "1", false)]);
}

#[test]
fn empty_text_is_the_empty_list() {
    let list = AttributeList::parse("").unwrap();
    assert_eq!(list.len(), 0);
    assert!(list.at(0).is_none());
    assert_eq!(list.to_string(), "");
    assert!(list.get("A").is_none());
}

#[test]
fn a_comma_inside_quotes_is_part_of_the_value() {
    assert_eq!(
        parsed("CODECS=\"avc1.4d401e,mp4a.40.2\",BANDWIDTH=1280000"),
        vec![
            attr("CODECS", "avc1.4d401e,mp4a.40.2", true),
            attr("BANDWIDTH", "1280000", false),
        ]
    );
    assert_eq!(parsed("A=\",\",B=\",,\""), vec![attr("A", ",", true), attr("B", ",,", true)]);
}

#[test]
fn a_value_is_split_at_its_first_equal_sign_only() {
    assert_eq!(parsed("A=b=c"), vec![attr("A", "b=c", false)]);
    assert_eq!(parsed("URI=\"k?id=1\""), vec![attr("URI", "k?id=1", true)]);
}

#[test]
fn a_value_may_be_empty() {
    assert_eq!(parsed("A=,B=\"\""), vec![attr("A", "", false), attr("B", "", true)]);
}

#[test]
fn only_a_quoted_value_is_unquoted() {
    assert_eq!(parsed("A=\"x\ry\nz\""), vec![attr("A", "xyz", true)]);
    assert_eq!(parsed("A=x\ry\nz"), vec![attr("A", "x\ry\nz", false)]);
}

#[test]
fn names_are_case_sensitive() {
    let list = AttributeList::parse("Name=1,NAME=2").unwrap();
    assert_eq!(triple(list.get("NAME").unwrap()), attr("NAME", "2", false));
    assert_eq!(triple(list.get("Name").unwrap()), attr("Name", "1", false));
    assert!(list.get("name").is_none());
}

#[test]
fn a_segment_without_equal_sign_is_refused() {
    assert_eq!(AttributeList::parse("A"), Err(bad("A", Cause::MissingEquals)));
    assert_eq!(AttributeList::parse("A=1,B"), Err(bad("B", Cause::MissingEquals)));
    assert_eq!(AttributeList::parse("A=1,"), Err(bad("", Cause::MissingEquals)));
    assert_eq!(AttributeList::parse(","), Err(bad("", Cause::MissingEquals)));
    assert_eq!(AttributeList::parse("A=1,,B=2"), Err(bad("", Cause::MissingEquals)));
}

#[test]
fn an_empty_name_is_refused() {
    assert_eq!(AttributeList::parse("=1"), Err(bad("=1", Cause::EmptyKey)));
    assert_eq!(AttributeList::parse("A=1,=2"), Err(bad("=2", Cause::EmptyKey)));
    assert_eq!(AttributeList::parse("="), Err(bad("=", Cause::EmptyKey)));
}

#[test]
fn an_unterminated_quote_is_refused() {
    assert_eq!(AttributeList::parse("A=\"abc"), Err(bad("\"abc", Cause::UnterminatedQuote)));
    assert_eq!(
        AttributeList::parse("A=\"abc,B=2"),
        Err(bad("\"abc,B=2", Cause::UnterminatedQuote))
    );
    assert_eq!(AttributeList::parse("A=\""), Err(bad("\"", Cause::UnterminatedQuote)));
}

#[test]
fn a_misplaced_quote_is_refused() {
    assert_eq!(AttributeList::parse("A=a\"b\""), Err(bad("a\"b\"", Cause::MisplacedQuote)));
    assert_eq!(AttributeList::parse("A=\"a\"b"), Err(bad("\"a\"b", Cause::MisplacedQuote)));
    assert_eq!(AttributeList::parse("A=a\""), Err(bad("a\"", Cause::MisplacedQuote)));
    assert_eq!(AttributeList::parse("\"A\"=1"), Err(bad("\"A\"", Cause::MisplacedQuote)));
    assert_eq!(
        AttributeList::parse("A=\"a\"\"b\""),
        Err(bad("\"a\"\"b\"", Cause::MisplacedQuote))
    );
}

#[test]
fn a_repeated_name_is_refused() {
    assert_eq!(AttributeList::parse("A=1,A=2"), Err(bad("A", Cause::DuplicateAttribute)));
    assert_eq!(AttributeList::parse("A=1,B=2,A=\"3\""), Err(bad("A", Cause::DuplicateAttribute)));
}

#[test]
fn the_first_error_in_the_order_of_writing_decides() {
    assert_eq!(AttributeList::parse("A=1,A=2,B"), Err(bad("A", Cause::DuplicateAttribute)));
    assert_eq!(AttributeList::parse("A=1,B,A=2"), Err(bad("B", Cause::MissingEquals)));
    assert_eq!(AttributeList::parse("=1,A=\"x"), Err(bad("=1", Cause::EmptyKey)));
}

#[test]
fn a_list_is_written_as_it_was_read() {
    for text in [
        "A=1",
        "METHOD=AES-128,URI=\"https://example.com/key\"",
        "CODECS=\"avc1.4d401e,mp4a.40.2\",BANDWIDTH=1280000,NAME=\"a=b\"",
        "A=,B=\"\"",
    ] {
        let list = AttributeList::parse(text).unwrap();
        assert_eq!(list.to_string(), text);
        assert_eq!(AttributeList::parse(&list.to_string()), Ok(list));
    }
}

#[test]
fn typed_values_keep_to_their_form() {
    let bare = Attribute::new("A".to_string(), "token".to_string(), false);
    let quoted = Attribute::new("A".to_string(), "text".to_string(), true);
    let broken = Attribute::new("A".to_string(), "te\"xt".to_string(), true);
    assert_eq!(bare.bare_value(), Ok(&"token".to_string()));
    assert_eq!(bare.quoted_value(), Err(bad("token", Cause::MissingQuotes)));
    assert_eq!(quoted.quoted_value(), Ok(&"text".to_string()));
    assert_eq!(quoted.bare_value(), Err(bad("text", Cause::UnexpectedQuotes)));
    assert_eq!(broken.quoted_value(), Err(bad("te\"xt", Cause::ForbiddenCharacter)));
}

#[test]
fn first_outside_finds_the_first_unknown_name() {
    let list = AttributeList::parse("A=1,B=2,C=3").unwrap();
    let names = |v: &[&str]| -> Vec<Vec<char>> { v.iter().map(|s| s.chars().collect()).collect() };
    assert_eq!(list.first_outside(&names(&["A", "B", "C"])), 3);
    assert_eq!(list.first_outside(&names(&["A", "C"])), 1);
    assert_eq!(list.first_outside(&names(&[])), 0);
    assert_eq!(list.first_outside(&names(&["B", "A"])), 2);
}
