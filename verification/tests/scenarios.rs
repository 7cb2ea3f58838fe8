use cbor_diag::{
    parse_diag, ByteString, DataItem, ErrorKind, IntegerWidth, Label, Tag, TextString,
};

fn bytes(data: &[u8]) -> ByteString {
    ByteString { data: data.to_vec(), bitwidth: IntegerWidth::Unknown }
}

#[test]
fn adjacent_raw_byte_strings_are_joined() {
    assert_eq!(parse_diag("'ab' 'cd'").unwrap(), DataItem::ByteString(bytes(b"abcd")));
}

#[test]
fn indefinite_byte_string_has_one_chunk_per_element() {
    assert_eq!(
        parse_diag("(_ 'ab', 'cd')").unwrap(),
        DataItem::IndefiniteByteString(vec![bytes(b"ab"), bytes(b"cd")])
    );
}

#[test]
fn indefinite_byte_string_takes_a_trailing_comma() {
    assert_eq!(
        parse_diag("(_ 'ab', )").unwrap(),
        DataItem::IndefiniteByteString(vec![bytes(b"ab")])
    );
}

#[test]
fn definite_array_with_trailing_comma() {
    let one = |value: u64| DataItem::Integer { value, bitwidth: IntegerWidth::Zero };
    assert_eq!(
        parse_diag("[1, 2, 3,]").unwrap(),
        DataItem::Array {
            data: vec![one(1), one(2), one(3)],
            bitwidth: Some(IntegerWidth::Unknown)
        }
    );
}

#[test]
fn indefinite_array_has_no_width() {
    let one = |value: u64| DataItem::Integer { value, bitwidth: IntegerWidth::Zero };
    assert_eq!(
        parse_diag("[_ 1, 2]").unwrap(),
        DataItem::Array { data: vec![one(1), one(2)], bitwidth: None }
    );
}

#[test]
fn tagged_text_string() {
    assert_eq!(
        parse_diag("32(\"https://example.com\")").unwrap(),
        DataItem::Tag {
            tag: Tag(32),
            bitwidth: IntegerWidth::Unknown,
            value: Box::new(DataItem::TextString(TextString {
                data: "https://example.com".to_string(),
                bitwidth: IntegerWidth::Unknown,
            })),
        }
    );
}

#[test]
fn trailing_text_is_refused() {
    assert!(parse_diag("1").is_ok());
    let error = parse_diag("1 2").unwrap_err();
    assert_eq!(error.kind, ErrorKind::TrailingInput);
    assert_eq!(error.offset, 2);
    assert!(error.path.is_empty());
}

#[test]
fn no_data_item_is_a_syntax_error() {
    let error = parse_diag("  ?").unwrap_err();
    assert_eq!(error.kind, ErrorKind::Syntax);
    assert_eq!(error.offset, 2);
    assert_eq!(error.path, vec![Label::DataItem, Label::Simple]);
}

#[test]
fn base16_body_may_hold_layout() {
    assert_eq!(parse_diag("h'48 65 6c 6c 6f'").unwrap(), DataItem::ByteString(bytes(b"Hello")));
    assert_eq!(parse_diag("h'48656c6c6f'").unwrap(), parse_diag("h'48 65\t6c\n6c 6f'").unwrap());
}
