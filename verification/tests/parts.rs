use cbor_diag::bytes::{
    concatenated_definite_bytestring, decoded_literal, definite_bytestring, escaped,
};
use cbor_diag::float::{float_value, recognize_float};
use cbor_diag::grammar::data_item;
use cbor_diag::lexical::{byte_at, opt_comma_tag, scan, strip_layout, tag, ws, Class};
use cbor_diag::number::{encoding, integer, number};
use cbor_diag::text::{concatenated_definite_textstring, definite_textstring};
use cbor_diag::{ByteString, DataItem, FloatValue, IntegerWidth, TextString};

#[test]
fn decoded_body_is_placed_behind_its_literal() {
    assert_eq!(decoded_literal(Some(vec![1, 2]), 7), Some((vec![1, 2], 7)));
    assert_eq!(decoded_literal(Some(vec![]), 0), Some((vec![], 0)));
    assert_eq!(decoded_literal(None, 7), None);
}

#[test]
fn runs_of_a_class() {
    assert_eq!(scan(b"  \tx ", 0, Class::Layout), 3);
    assert_eq!(scan(b"  \tx ", 3, Class::Layout), 3);
    assert_eq!(scan(b"123", 1, Class::Digit), 3);
    assert_eq!(scan(b"0fF g", 0, Class::Base16), 4);
    assert_eq!(scan(b"AZ27=a", 0, Class::Base32), 5);
    assert_eq!(scan(b"09AV=W", 0, Class::Base32Hex), 5);
    assert_eq!(scan(b"az-_+", 0, Class::Base64Url), 4);
    assert_eq!(scan(b"az+/=-", 0, Class::Base64), 5);
    assert_eq!(ws(b"\n\r 1", 0), 3);
}

#[test]
fn every_class_by_its_bytes() {
    for b in 0..=255u8 {
        let layout = matches!(b, 9 | 10 | 11 | 13 | 32);
        let digit = b.is_ascii_digit();
        assert_eq!(Class::Layout.contains(b), layout);
        assert_eq!(Class::Digit.contains(b), digit);
        assert_eq!(Class::Base16.contains(b), b.is_ascii_hexdigit() || layout);
        assert_eq!(
            Class::Base32.contains(b),
            b.is_ascii_uppercase() || (b'2'..=b'7').contains(&b) || b == b'=' || layout
        );
        assert_eq!(
            Class::Base32Hex.contains(b),
            digit || (b'A'..=b'V').contains(&b) || b == b'=' || layout
        );
        assert_eq!(
            Class::Base64Url.contains(b),
            b.is_ascii_alphanumeric() || b == b'-' || b == b'_' || layout
        );
        assert_eq!(
            Class::Base64.contains(b),
            b.is_ascii_alphanumeric() || b == b'+' || b == b'/' || b == b'=' || layout
        );
    }
}

#[test]
fn layout_is_taken_out() {
    assert_eq!(strip_layout(b" a\tb\n\rc\x0b "), b"abc".to_vec());
    assert_eq!(strip_layout(b""), Vec::<u8>::new());
    assert_eq!(strip_layout(b"a=b"), b"a=b".to_vec());
}

#[test]
fn words_and_bytes_at_a_position() {
    assert_eq!(tag(b"abc", 1, "bc"), Some(3));
    assert_eq!(tag(b"abc", 1, "bcd"), None);
    assert_eq!(tag(b"abc", 3, ""), Some(3));
    assert!(byte_at(b"abc", 2, b'c'));
    assert!(!byte_at(b"abc", 3, b'c'));
}

#[test]
fn closing_byte_behind_a_list() {
    assert_eq!(opt_comma_tag(b"]", 0, b']', false), Some(1));
    assert_eq!(opt_comma_tag(b", \n]", 0, b']', true), Some(4));
    assert_eq!(opt_comma_tag(b", ]", 0, b']', false), None);
    assert_eq!(opt_comma_tag(b" ]", 0, b']', true), None);
    assert_eq!(opt_comma_tag(b",,]", 0, b']', true), None);
}

#[test]
fn numbers_and_suffixes_at_a_position() {
    assert_eq!(number(b"x123y", 1), Some((123, 4)));
    assert_eq!(number(b"x", 0), None);
    assert_eq!(number(b"18446744073709551616", 0), None);
    assert_eq!(encoding(b"1_2", 1), Some((2, 3)));
    assert_eq!(encoding(b"1_4", 1), None);
    assert_eq!(encoding(b"1_", 1), None);
    assert_eq!(integer(b"5_2,", 0), Some(((5, IntegerWidth::ThirtyTwo), 3)));
    assert_eq!(integer(b"5_9,", 0), Some(((5, IntegerWidth::Unknown), 1)));
}

#[test]
fn float_text_at_a_position() {
    assert_eq!(recognize_float(b"-1.5e+10,", 0), Some(8));
    assert_eq!(recognize_float(b"1.5e+,", 0), Some(3));
    assert_eq!(recognize_float(b"1e5", 0), None);
    assert_eq!(
        float_value(b"[1.25]", 1),
        Some((FloatValue::Decimal("1.25".to_string()), 5))
    );
    assert_eq!(float_value(b"NaN", 0), Some((FloatValue::NaN, 3)));
}

#[test]
fn raw_bodies_at_a_position() {
    assert_eq!(escaped(b"a\\'b' rest", 0, b'\''), Some((b"a'b".to_vec(), 5)));
    assert_eq!(escaped(b"a\\\"b\" rest", 0, b'"'), Some((b"a\"b".to_vec(), 5)));
    assert_eq!(escaped(b"ab", 0, b'\''), None);
    assert_eq!(escaped(b"a\\b'", 0, b'\''), None);
}

#[test]
fn literals_at_a_position() {
    assert_eq!(definite_bytestring(b" h'6162' x", 0), Some((b"ab".to_vec(), 9)));
    assert_eq!(definite_textstring(b" \"ab\" x", 0), Some((b"ab".to_vec(), 6)));
    assert_eq!(
        concatenated_definite_bytestring(b"'a' 'b',", 0),
        Some((ByteString { data: b"ab".to_vec(), bitwidth: IntegerWidth::Unknown }, 7))
    );
    assert_eq!(
        concatenated_definite_textstring(b"\"a\" 'b',", 0),
        Some((TextString { data: "ab".to_string(), bitwidth: IntegerWidth::Unknown }, 7))
    );
}

#[test]
fn data_item_at_a_position() {
    assert_eq!(
        data_item(b"x 7 ,", 1),
        Some((DataItem::Integer { value: 7, bitwidth: IntegerWidth::Zero }, 4))
    );
    assert_eq!(data_item(b"x", 0), None);
}
