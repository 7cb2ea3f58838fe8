use cbor_diag::{parse_diag, DataItem, ErrorKind, IntegerWidth, Label, Simple, Tag};

fn integer(value: u64, bitwidth: IntegerWidth) -> DataItem {
    DataItem::Integer { value, bitwidth }
}

fn negative(value: u64, bitwidth: IntegerWidth) -> DataItem {
    DataItem::Negative { value, bitwidth }
}

#[test]
fn small_integers_are_packed() {
    assert_eq!(parse_diag("0").unwrap(), integer(0, IntegerWidth::Zero));
    assert_eq!(parse_diag("23").unwrap(), integer(23, IntegerWidth::Zero));
    assert_eq!(parse_diag("007").unwrap(), integer(7, IntegerWidth::Zero));
}

#[test]
fn larger_integers_have_unknown_width() {
    assert_eq!(parse_diag("24").unwrap(), integer(24, IntegerWidth::Unknown));
    assert_eq!(
        parse_diag("18446744073709551615").unwrap(),
        integer(u64::MAX, IntegerWidth::Unknown)
    );
}

#[test]
fn integer_beyond_64_bits_is_refused() {
    let error = parse_diag("18446744073709551616").unwrap_err();
    assert_eq!(error.kind, ErrorKind::Syntax);
    assert_eq!(error.offset, 0);
    assert_eq!(error.path, vec![Label::DataItem, Label::Simple]);
}

#[test]
fn suffix_forces_the_width() {
    assert_eq!(parse_diag("1_0").unwrap(), integer(1, IntegerWidth::Eight));
    assert_eq!(parse_diag("1_1").unwrap(), integer(1, IntegerWidth::Sixteen));
    assert_eq!(parse_diag("1_2").unwrap(), integer(1, IntegerWidth::ThirtyTwo));
    assert_eq!(parse_diag("1_3").unwrap(), integer(1, IntegerWidth::SixtyFour));
    assert_eq!(parse_diag("1000000_0").unwrap(), integer(1000000, IntegerWidth::Eight));
    assert_eq!(parse_diag("5_03").unwrap(), integer(5, IntegerWidth::SixtyFour));
}

#[test]
fn suffix_of_four_is_refused() {
    let error = parse_diag("1_4").unwrap_err();
    assert_eq!(error.kind, ErrorKind::TrailingInput);
    assert_eq!(error.offset, 1);
    assert!(parse_diag("[1_4]").is_err());
    assert!(parse_diag("1_").is_err());
}

#[test]
fn negative_integers_are_kept_as_one_less() {
    assert_eq!(parse_diag("-1").unwrap(), negative(0, IntegerWidth::Zero));
    assert_eq!(parse_diag("-24").unwrap(), negative(23, IntegerWidth::Zero));
    assert_eq!(parse_diag("-25").unwrap(), negative(24, IntegerWidth::Unknown));
    assert_eq!(parse_diag("-1_2").unwrap(), negative(0, IntegerWidth::ThirtyTwo));
    assert_eq!(
        parse_diag("-18446744073709551615").unwrap(),
        negative(u64::MAX - 1, IntegerWidth::Unknown)
    );
}

#[test]
fn negative_zero_is_refused() {
    for text in ["-0", "-00", "-0_1", " -0 ", "[-0]", "1(-0)"] {
        assert!(parse_diag(text).is_err(), "{}", text);
    }
    assert_eq!(parse_diag("-0").unwrap_err().kind, ErrorKind::Syntax);
}

#[test]
fn tag_number_is_packed_up_to_23() {
    assert_eq!(
        parse_diag("1(2)").unwrap(),
        DataItem::Tag {
            tag: Tag(1),
            bitwidth: IntegerWidth::Zero,
            value: Box::new(integer(2, IntegerWidth::Zero)),
        }
    );
    assert_eq!(
        parse_diag("24( 0 )").unwrap(),
        DataItem::Tag {
            tag: Tag(24),
            bitwidth: IntegerWidth::Unknown,
            value: Box::new(integer(0, IntegerWidth::Zero)),
        }
    );
    assert_eq!(
        parse_diag("1_1(-1)").unwrap(),
        DataItem::Tag {
            tag: Tag(1),
            bitwidth: IntegerWidth::Sixteen,
            value: Box::new(negative(0, IntegerWidth::Zero)),
        }
    );
}

#[test]
fn tag_takes_no_layout_before_its_parenthesis() {
    let error = parse_diag("1 (2)").unwrap_err();
    assert_eq!(error.kind, ErrorKind::TrailingInput);
    assert_eq!(error.offset, 2);
}

#[test]
fn simple_values_by_word() {
    assert_eq!(parse_diag("false").unwrap(), DataItem::Simple(Simple(20)));
    assert_eq!(parse_diag("true").unwrap(), DataItem::Simple(Simple(21)));
    assert_eq!(parse_diag("null").unwrap(), DataItem::Simple(Simple(22)));
    assert_eq!(parse_diag("undefined").unwrap(), DataItem::Simple(Simple(23)));
}

#[test]
fn simple_values_by_number() {
    assert_eq!(parse_diag("simple(0)").unwrap(), DataItem::Simple(Simple(0)));
    assert_eq!(parse_diag("simple(255)").unwrap(), DataItem::Simple(Simple(255)));
    assert_eq!(parse_diag("simple(256)").unwrap_err().kind, ErrorKind::Syntax);
    assert!(parse_diag("simple( 1 )").is_err());
    assert!(parse_diag("simple()").is_err());
}
