use ryson::common::{convert_to_u8, u8arr_to_u16arr};
use ryson::{Jerr, Json};

#[test]
fn empty_input_is_unexpected_end() {
    let text = String::from("");
    let jerr = Json::parse(&text).unwrap_err();
    assert_eq!(jerr, Jerr::UnexpectedEnd);
}

#[test]
fn whitespace_only_input_is_unexpected_end() {
    let text = String::from(" \t\n\r  ");
    let jerr = Json::parse(&text).unwrap_err();
    assert_eq!(jerr, Jerr::UnexpectedEnd);
}

#[test]
fn unicode_whitespace_only_input_is_unexpected_end() {
    let text = String::from("\u{000B}\u{000C}\u{0085}\u{2028}\u{3000}");
    let jerr = Json::parse(&text).unwrap_err();
    assert_eq!(jerr, Jerr::UnexpectedEnd);
}

#[test]
fn unicode_whitespace_is_trimmed() {
    let text = String::from("\u{000B} null \u{3000}");
    let json = Json::parse(&text).unwrap();
    assert_eq!(json, Json::Null);
}

#[test]
fn unmatched_openers_are_unexpected_end() {
    assert_eq!(Json::parse(&String::from("[")).unwrap_err(), Jerr::UnexpectedEnd);
    assert_eq!(Json::parse(&String::from("{")).unwrap_err(), Jerr::UnexpectedEnd);
    assert_eq!(Json::parse(&String::from("\"")).unwrap_err(), Jerr::UnexpectedEnd);
}

#[test]
fn trailing_comma_in_array_expects_value() {
    let text = String::from("[1,]");
    let jerr = Json::parse(&text).unwrap_err();
    assert_eq!(jerr, Jerr::ExpectedValue(3));
}

#[test]
fn trailing_comma_in_object_expects_property() {
    let text = String::from("{\"a\":1,}");
    let jerr = Json::parse(&text).unwrap_err();
    assert_eq!(jerr, Jerr::ExpectedProperty(7));
}

#[test]
fn duplicate_keys_keep_the_last_value() {
    let text = String::from("{\"a\":1,\"a\":2}");
    let json = Json::parse(&text).unwrap();
    let map = json.as_object().unwrap();
    assert_eq!(map.len(), 1);
    assert_eq!(map.get(&String::from("a")), Some(&Json::Number(String::from("2"))));
}

#[test]
fn surrounding_whitespace_is_trimmed() {
    let text = String::from("  null \n");
    let json = Json::parse(&text).unwrap();
    assert_eq!(json, Json::Null);
}

#[test]
fn error_positions_refer_to_the_original_input() {
    let text = String::from("   True");
    let jerr = Json::parse(&text).unwrap_err();
    assert_eq!(jerr, Jerr::UnexpectedChar(3));
}

#[test]
fn whitespace_inside_braces_is_an_empty_object() {
    let text = String::from("{ \t\n }");
    let json = Json::parse(&text).unwrap();
    assert_eq!(json, Json::Object(ryson::Jmap::new()));
}

#[test]
fn cloned_values_are_equal() {
    let text = String::from("{\"a\":[1,true,\"x\"],\"b\":null}");
    let json = Json::parse(&text).unwrap();
    let copy = json.clone();
    assert_eq!(copy, json);
}

#[test]
fn lone_surrogate_escape_becomes_replacement_character() {
    let text = String::from("\"\\uD800\"");
    let json = Json::parse(&text).unwrap();
    assert_eq!(json, Json::String(String::from("\u{FFFD}")));
}

#[test]
fn serialize_then_parse_returns_the_value() {
    let text = String::from("[true,null,\"abc\",12,[]]");
    let json = Json::parse(&text).unwrap();
    let rendered = json.to_string();
    assert_eq!(rendered, text);
    let reparsed = Json::parse(&rendered).unwrap();
    assert_eq!(reparsed, json);
}

#[test]
fn rejects_zero_point_five() {
    // The leading-zero validation looks at the whole lexeme, dot included.
    let text = String::from("0.5");
    let jerr = Json::parse(&text).unwrap_err();
    assert_eq!(jerr, Jerr::InvalidToken(String::from("0.5")));
}

#[test]
fn accepts_plain_zero() {
    let text = String::from("0");
    let json = Json::parse(&text).unwrap();
    assert_eq!(json, Json::Number(String::from("0")));
}

#[test]
fn raw_newline_is_literal_string_content() {
    let text = String::from("\"a\nb\"");
    let json = Json::parse(&text).unwrap();
    assert_eq!(json, Json::String(String::from("a\nb")));
}

#[test]
fn hex_digits_decode_to_bytes() {
    assert_eq!(convert_to_u8(&String::from("0041")), Ok(vec![0x00u8, 0x41u8]));
    assert_eq!(
        convert_to_u8(&String::from("00G1")),
        Err(Jerr::InvalidUnicodeSequence(String::from("00G1")))
    );
    assert_eq!(
        convert_to_u8(&String::from("041")),
        Err(Jerr::InvalidUnicodeSequence(String::from("041")))
    );
}

#[test]
fn byte_pairs_join_into_big_endian_units() {
    assert_eq!(
        u8arr_to_u16arr(vec![0x03u8, 0xF4u8, 0x00u8, 0x41u8]),
        vec![0x03F4u16, 0x0041u16]
    );
    assert_eq!(u8arr_to_u16arr(vec![]), Vec::<u16>::new());
}

#[test]
fn accessors_project_each_variant() {
    let text = String::from("{\"n\":1,\"s\":\"x\",\"b\":true,\"z\":null,\"a\":[]}");
    let mut json = Json::parse(&text).unwrap();
    {
        let map = json.as_object().unwrap();
        assert_eq!(map.get(&String::from("n")).unwrap().as_number(), Some(&String::from("1")));
        assert_eq!(map.get(&String::from("s")).unwrap().as_string(), Some(&String::from("x")));
        assert_eq!(map.get(&String::from("b")).unwrap().as_bool(), Some(&true));
        assert_eq!(map.get(&String::from("z")).unwrap().as_null(), Some(()));
        assert_eq!(map.get(&String::from("a")).unwrap().as_array(), Some(&vec![]));
        assert_eq!(map.get(&String::from("n")).unwrap().as_bool(), None);
    }
    assert!(json.as_mut_object().is_some());
    let mut arr = Json::parse(&String::from("[1]")).unwrap();
    arr.as_mut_array().unwrap().push(Json::Null);
    assert_eq!(arr, Json::Array(vec![Json::Number(String::from("1")), Json::Null]));
}
