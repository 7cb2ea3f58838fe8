use cbor_diag::{parse_diag, DataItem, ErrorKind, IntegerWidth, TextString};

fn whole(value: u64) -> DataItem {
    DataItem::Integer {
        value,
        bitwidth: if value <= 23 { IntegerWidth::Zero } else { IntegerWidth::Unknown },
    }
}

fn text(data: &str) -> DataItem {
    DataItem::TextString(TextString { data: data.to_string(), bitwidth: IntegerWidth::Unknown })
}

fn array(data: Vec<DataItem>) -> DataItem {
    DataItem::Array { data, bitwidth: Some(IntegerWidth::Unknown) }
}

fn map(data: Vec<(DataItem, DataItem)>) -> DataItem {
    DataItem::Mapping { data, bitwidth: Some(IntegerWidth::Unknown) }
}

#[test]
fn definite_arrays() {
    assert_eq!(parse_diag("[]").unwrap(), array(vec![]));
    assert_eq!(parse_diag(" [ ] ").unwrap(), array(vec![]));
    assert_eq!(parse_diag("[1]").unwrap(), array(vec![whole(1)]));
    assert_eq!(
        parse_diag("[ 1 , 24 , \"a\" ]").unwrap(),
        array(vec![whole(1), whole(24), text("a")])
    );
    assert_eq!(parse_diag("[1, 2, ]").unwrap(), array(vec![whole(1), whole(2)]));
}

#[test]
fn nested_arrays() {
    assert_eq!(
        parse_diag("[[1], [], [_ 2, [3]]]").unwrap(),
        array(vec![
            array(vec![whole(1)]),
            array(vec![]),
            DataItem::Array { data: vec![whole(2), array(vec![whole(3)])], bitwidth: None },
        ])
    );
}

#[test]
fn indefinite_arrays() {
    assert_eq!(parse_diag("[_]").unwrap(), DataItem::Array { data: vec![], bitwidth: None });
    assert_eq!(parse_diag("[_ ]").unwrap(), DataItem::Array { data: vec![], bitwidth: None });
    assert_eq!(
        parse_diag("[_ 1, 2,]").unwrap(),
        DataItem::Array { data: vec![whole(1), whole(2)], bitwidth: None }
    );
}

#[test]
fn broken_arrays() {
    for text in ["[", "[1", "[1 2]", "[1,,2]", "[1,,]", "[,]", "[,1]", "[_,]", "[1}", "]"] {
        assert!(parse_diag(text).is_err(), "{}", text);
    }
}

#[test]
fn definite_maps() {
    assert_eq!(parse_diag("{}").unwrap(), map(vec![]));
    assert_eq!(parse_diag("{ }").unwrap(), map(vec![]));
    assert_eq!(parse_diag("{1: 2}").unwrap(), map(vec![(whole(1), whole(2))]));
    assert_eq!(
        parse_diag("{ \"a\" : [1] , [2] : {3: 4} , }").unwrap(),
        map(vec![
            (text("a"), array(vec![whole(1)])),
            (array(vec![whole(2)]), map(vec![(whole(3), whole(4))])),
        ])
    );
}

#[test]
fn indefinite_maps() {
    assert_eq!(parse_diag("{_}").unwrap(), DataItem::Mapping { data: vec![], bitwidth: None });
    assert_eq!(
        parse_diag("{_ 1: 2, 3: 4}").unwrap(),
        DataItem::Mapping { data: vec![(whole(1), whole(2)), (whole(3), whole(4))], bitwidth: None }
    );
}

#[test]
fn broken_maps() {
    for text in ["{", "{1}", "{1:}", "{1:2", "{1:2,,}", "{,}", "{1:2 3:4}", "{1:2]"] {
        assert!(parse_diag(text).is_err(), "{}", text);
    }
}

#[test]
fn layout_around_a_data_item() {
    assert_eq!(parse_diag(" \t\r\n\u{b}1\u{b} \n").unwrap(), whole(1));
    assert_eq!(
        parse_diag("\u{b}[\u{b}1\u{b},\u{b}2\u{b}]\u{b}").unwrap(),
        array(vec![whole(1), whole(2)])
    );
}

#[test]
fn empty_text_is_a_syntax_error() {
    let error = parse_diag("").unwrap_err();
    assert_eq!(error.kind, ErrorKind::Syntax);
    assert_eq!(error.offset, 0);
    let error = parse_diag(" \n ").unwrap_err();
    assert_eq!(error.kind, ErrorKind::Syntax);
    assert_eq!(error.offset, 3);
}

#[test]
fn trailing_input_is_reported_where_it_begins() {
    let error = parse_diag("[1] x").unwrap_err();
    assert_eq!(error.kind, ErrorKind::TrailingInput);
    assert_eq!(error.offset, 4);
    let error = parse_diag("'ab' h'12").unwrap_err();
    assert_eq!(error.kind, ErrorKind::TrailingInput);
    assert_eq!(error.offset, 5);
}
