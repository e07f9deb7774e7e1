//! JSON values and their texts.

use pactrail::json::{Json, JsonNumber};

fn nested(depth: usize) -> Json {
    (0..depth).fold(Json::null(), |inner, _| Json::array(vec![inner]))
}

#[test]
fn plain_values_are_read_as_they_were_written() {
    let control: String = (0_u32..0x30).filter_map(char::from_u32).collect();
    for value in [
        Json::null(),
        Json::boolean(true),
        Json::number(u64::MAX),
        Json::numeric(JsonNumber::Signed(i64::MIN)),
        Json::numeric(JsonNumber::Signed(7)),
        Json::string(control),
        Json::text("\u{7f}\u{2028}\"\\/😀"),
        Json::object2("b", Json::array(Vec::new()), "", Json::object1("a", Json::null())),
        nested(127),
    ] {
        let text = value.to_text();
        let read = Json::parse(&text).unwrap_or_else(|error| unreachable!("{text}: {error}"));
        assert_eq!(read.to_text(), text);
    }
    let written = Json::numeric(JsonNumber::Signed(i64::MIN)).to_text();
    assert!(matches!(
        Json::parse(&written),
        Ok(Json::Number(JsonNumber::Signed(i64::MIN)))
    ));
    assert!(matches!(
        Json::parse("18446744073709551615"),
        Ok(Json::Number(JsonNumber::Unsigned(u64::MAX)))
    ));
}

#[test]
fn nesting_beyond_the_limit_is_not_read() {
    assert!(Json::parse(&nested(127).to_text()).is_ok());
    assert!(Json::parse(&nested(128).to_text()).is_err());
}

#[test]
fn members_are_written_in_the_order_of_their_names() {
    let value = Json::object3("b", Json::number(1), "a", Json::number(2), "b", Json::number(3));
    assert_eq!(value.to_text(), r#"{"a":2,"b":3}"#);
    assert_eq!(value.get("b").and_then(Json::as_u64), Some(3));
}

#[test]
fn other_numbers_are_carried_through() {
    let value = Json::parse("0.5").unwrap_or_else(|error| unreachable!("number: {error}"));
    assert!(matches!(value, Json::Number(JsonNumber::Other(_))));
    assert_eq!(value.as_u64(), None);
    assert_eq!(value.clone().to_text(), "0.5");
    assert_eq!(Json::from_value(value.to_value()).to_text(), "0.5");
}

#[test]
fn bytes_are_parsed_like_texts() {
    assert_eq!(
        Json::parse_bytes(b" {\"a\" : [1 , 2]} ").map(|value| value.to_text()),
        Ok("{\"a\":[1,2]}".to_owned())
    );
    assert!(Json::parse_bytes(b"{").is_err());
    assert!(Json::parse_bytes(&[b'"', 0xff, b'"']).is_err());
}
