use cbor_diag::{parse_diag, DataItem, ErrorKind, FloatValue, FloatWidth};

fn number(item: &DataItem) -> f64 {
    match item {
        DataItem::Float { value: FloatValue::Decimal(text), .. } => text.parse().unwrap(),
        DataItem::Float { value: FloatValue::Infinity, .. } => f64::INFINITY,
        DataItem::Float { value: FloatValue::NegInfinity, .. } => f64::NEG_INFINITY,
        DataItem::Float { value: FloatValue::NaN, .. } => f64::NAN,
        other => panic!("no float: {:?}", other),
    }
}

fn width(item: &DataItem) -> FloatWidth {
    match item {
        DataItem::Float { bitwidth, .. } => *bitwidth,
        other => panic!("no float: {:?}", other),
    }
}

#[test]
fn decimal_floats_keep_their_text() {
    assert_eq!(
        parse_diag("0.5").unwrap(),
        DataItem::Float {
            value: FloatValue::Decimal("0.5".to_string()),
            bitwidth: FloatWidth::Unknown
        }
    );
    assert_eq!(
        parse_diag(" -1.50E+2_3 ").unwrap(),
        DataItem::Float {
            value: FloatValue::Decimal("-1.50E+2".to_string()),
            bitwidth: FloatWidth::SixtyFour
        }
    );
}

#[test]
fn decimal_floats_denote_their_value() {
    assert_eq!(number(&parse_diag("0.0").unwrap()), 0.0);
    assert_eq!(number(&parse_diag("1.0").unwrap()), 1.0);
    assert_eq!(number(&parse_diag("0.5").unwrap()), 0.5);
    assert_eq!(number(&parse_diag("+2.5").unwrap()), 2.5);
    assert_eq!(number(&parse_diag("-0.25").unwrap()), -0.25);
    assert_eq!(number(&parse_diag("1.5e3").unwrap()), 1500.0);
    assert_eq!(number(&parse_diag("1.5E-1").unwrap()), 0.15);
}

#[test]
fn special_floats() {
    assert_eq!(number(&parse_diag("Infinity").unwrap()), f64::INFINITY);
    assert_eq!(number(&parse_diag("-Infinity").unwrap()), f64::NEG_INFINITY);
    assert!(number(&parse_diag("NaN").unwrap()).is_nan());
    assert!(parse_diag("infinity").is_err());
    assert!(parse_diag("nan").is_err());
    assert!(parse_diag("+Infinity").is_err());
}

#[test]
fn float_suffix_sets_the_width() {
    for text in ["0.0", "1.0", "0.5", "Infinity", "-Infinity", "NaN"] {
        assert_eq!(width(&parse_diag(text).unwrap()), FloatWidth::Unknown);
        assert_eq!(width(&parse_diag(&format!("{}_1", text)).unwrap()), FloatWidth::Sixteen);
        assert_eq!(width(&parse_diag(&format!("{}_2", text)).unwrap()), FloatWidth::ThirtyTwo);
        assert_eq!(width(&parse_diag(&format!("{}_3", text)).unwrap()), FloatWidth::SixtyFour);
    }
}

#[test]
fn float_suffix_of_zero_is_refused() {
    for text in ["0.0", "1.0", "0.5", "Infinity", "-Infinity", "NaN"] {
        let error = parse_diag(&format!("{}_0", text)).unwrap_err();
        assert_eq!(error.kind, ErrorKind::TrailingInput);
        assert_eq!(error.offset, text.len());
        assert!(parse_diag(&format!("{}_4", text)).is_err());
    }
}

#[test]
fn float_needs_digits_on_both_sides_of_the_dot() {
    let error = parse_diag("1.").unwrap_err();
    assert_eq!(error.kind, ErrorKind::TrailingInput);
    assert_eq!(error.offset, 1);
    assert!(parse_diag(".5").is_err());
    let error = parse_diag("1.5e").unwrap_err();
    assert_eq!(error.kind, ErrorKind::TrailingInput);
    assert_eq!(error.offset, 3);
}
