use cbor_diag::{parse_diag, ByteString, DataItem, ErrorKind, IntegerWidth, TextString};

fn byte_string(data: &[u8]) -> DataItem {
    DataItem::ByteString(ByteString { data: data.to_vec(), bitwidth: IntegerWidth::Unknown })
}

fn text(data: &str) -> TextString {
    TextString { data: data.to_string(), bitwidth: IntegerWidth::Unknown }
}

fn text_string(data: &str) -> DataItem {
    DataItem::TextString(text(data))
}

#[test]
fn base16_literals() {
    assert_eq!(parse_diag("h''").unwrap(), byte_string(b""));
    assert_eq!(parse_diag("h'68656C6c6F'").unwrap(), byte_string(b"hello"));
    assert!(parse_diag("h'686'").is_err());
    assert!(parse_diag("h'6g'").is_err());
    assert!(parse_diag("h '68'").is_err());
}

#[test]
fn base32_literals() {
    assert_eq!(parse_diag("b32'NBSWY3DP'").unwrap(), byte_string(b"hello"));
    assert_eq!(parse_diag("b32'NBUQ===='").unwrap(), byte_string(b"hi"));
    assert_eq!(parse_diag("b32'NBSW Y3DP'").unwrap(), byte_string(b"hello"));
    assert!(parse_diag("b32'NBUQ'").is_err());
    assert!(parse_diag("b32'nbswy3dp'").is_err());
}

#[test]
fn base32hex_literals() {
    assert_eq!(parse_diag("h32'D1IMOR3F'").unwrap(), byte_string(b"hello"));
    assert_eq!(parse_diag("h32'D1KG===='").unwrap(), byte_string(b"hi"));
    assert!(parse_diag("h32'D1KGW==='").is_err());
}

#[test]
fn base64_literals_in_both_alphabets() {
    assert_eq!(parse_diag("b64'aGVsbG8'").unwrap(), byte_string(b"hello"));
    assert_eq!(parse_diag("b64'aGVsbG8='").unwrap(), byte_string(b"hello"));
    assert_eq!(parse_diag("b64'-_-_'").unwrap(), byte_string(&[0xfb, 0xff, 0xbf]));
    assert_eq!(parse_diag("b64'+/+/'").unwrap(), byte_string(&[0xfb, 0xff, 0xbf]));
    assert_eq!(parse_diag("b64'aGVs bG8='").unwrap(), byte_string(b"hello"));
    assert!(parse_diag("b64'aGVsbG8=='").is_err());
    assert!(parse_diag("b64'-/-/'").is_err());
}

#[test]
fn layout_inside_an_encoded_body_is_passed_over() {
    for (spaced, plain) in [
        ("h'48 65 6c 6c 6f'", "h'48656c6c6f'"),
        ("h'4\t8\n6\r5\u{b}6c6c6f '", "h'48656c6c6f'"),
        ("b32' NB SW Y3 DP '", "b32'NBSWY3DP'"),
        ("h32'D1IM OR3F'", "h32'D1IMOR3F'"),
        ("b64'aG Vs bG 8'", "b64'aGVsbG8'"),
        ("b64'aGVs bG8 ='", "b64'aGVsbG8='"),
    ] {
        assert_eq!(parse_diag(spaced).unwrap(), parse_diag(plain).unwrap(), "{}", spaced);
    }
    assert_eq!(parse_diag("h'48 65 6c 6c 6f'").unwrap(), byte_string(b"Hello"));
}

#[test]
fn raw_byte_literals_and_their_escapes() {
    assert_eq!(parse_diag("''").unwrap(), byte_string(b""));
    assert_eq!(parse_diag("'ab'").unwrap(), byte_string(b"ab"));
    assert_eq!(parse_diag("'a\\'b\\\\c'").unwrap(), byte_string(b"a'b\\c"));
    assert_eq!(parse_diag("'\"'").unwrap(), byte_string(b"\""));
    assert_eq!(parse_diag("'\u{e9}'").unwrap(), byte_string("\u{e9}".as_bytes()));
    assert!(parse_diag("'a\\nb'").is_err());
    assert!(parse_diag("'ab").is_err());
    assert!(parse_diag("'ab\\'").is_err());
}

#[test]
fn byte_literals_of_any_form_are_joined() {
    assert_eq!(parse_diag("h'68' 'i' b64'IQ'").unwrap(), byte_string(b"hi!"));
    assert_eq!(parse_diag("'ab''cd'").unwrap(), byte_string(b"abcd"));
}

#[test]
fn text_literals_and_their_escapes() {
    assert_eq!(parse_diag("\"\"").unwrap(), text_string(""));
    assert_eq!(parse_diag("\"abc\"").unwrap(), text_string("abc"));
    assert_eq!(parse_diag("\"a\\\"b\\\\c\"").unwrap(), text_string("a\"b\\c"));
    assert_eq!(parse_diag("\"it's\"").unwrap(), text_string("it's"));
    assert_eq!(
        parse_diag("\"gr\u{fc}\u{df}e \u{1f980}\"").unwrap(),
        text_string("gr\u{fc}\u{df}e \u{1f980}")
    );
    assert!(parse_diag("\"a\\nb\"").is_err());
    assert!(parse_diag("\"ab").is_err());
}

#[test]
fn text_literals_are_joined_with_text_and_bytes() {
    assert_eq!(parse_diag("\"ab\" \"cd\"").unwrap(), text_string("abcd"));
    assert_eq!(parse_diag("\"ab\" h'63' 'd'").unwrap(), text_string("abcd"));
    assert_eq!(parse_diag("\"\" h'c3' h'a9'").unwrap(), text_string("\u{e9}"));
}

#[test]
fn joined_text_must_be_utf8() {
    let error = parse_diag("\"ab\" h'ff'").unwrap_err();
    assert_eq!(error.kind, ErrorKind::Syntax);
    assert_eq!(error.offset, 0);
    assert!(parse_diag("\"\" h'c3'").is_err());
}

#[test]
fn byte_literal_may_not_begin_a_text_string() {
    assert_eq!(parse_diag("h'61' \"b\"").unwrap_err().kind, ErrorKind::TrailingInput);
}

#[test]
fn indefinite_byte_strings() {
    assert_eq!(parse_diag("(_)").unwrap(), DataItem::IndefiniteByteString(vec![]));
    assert_eq!(
        parse_diag("(_ h'61' 'b', 'c' ,)").unwrap(),
        DataItem::IndefiniteByteString(vec![
            ByteString { data: b"ab".to_vec(), bitwidth: IntegerWidth::Unknown },
            ByteString { data: b"c".to_vec(), bitwidth: IntegerWidth::Unknown },
        ])
    );
    assert!(parse_diag("(_ 'a' 'b'").is_err());
    assert!(parse_diag("(_ 'a',, )").is_err());
}

#[test]
fn indefinite_text_strings() {
    assert_eq!(
        parse_diag("(_ \"ab\", \"c\" 'd')").unwrap(),
        DataItem::IndefiniteTextString(vec![text("ab"), text("cd")])
    );
    assert_eq!(
        parse_diag("(_ \"ab\", )").unwrap(),
        DataItem::IndefiniteTextString(vec![text("ab")])
    );
    assert!(parse_diag("(_ \"ab\", 'c')").is_err());
}

#[test]
fn trailing_comma_needs_an_element_before_it() {
    assert!(parse_diag("(_,)").is_err());
    assert!(parse_diag("(_ ,)").is_err());
}

#[test]
fn empty_indefinite_string_takes_no_layout() {
    assert!(parse_diag("(_ )").is_err());
}
