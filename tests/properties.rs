use bdf_parser::properties::{Properties, PropertyError, PropertyId, PropertyValue};

fn props(text: &str) -> Properties {
    let (p, end) = Properties::parse(text.as_bytes(), 0).unwrap();
    assert_eq!(end, text.len());
    p
}

#[test]
fn properties_hold_texts_and_integers() {
    let p = props("STARTPROPERTIES 3\nCOPYRIGHT \"free, as in speech\"\nFONT_ASCENT 14\nFONT_DESCENT -2\nENDPROPERTIES\n");
    assert_eq!(p.len(), 3);
    assert_eq!(
        p.try_get(PropertyId::Copyright),
        Ok(&PropertyValue::Text("free, as in speech".to_string()))
    );
    assert_eq!(p.try_get(PropertyId::FontAscent), Ok(&PropertyValue::Int(14)));
    assert_eq!(p.try_get(PropertyId::FontDescent), Ok(&PropertyValue::Int(-2)));
}

#[test]
fn typed_lookups_report_missing_and_mismatched_values() {
    let p = props("STARTPROPERTIES 2\nCOPYRIGHT 5\nFONT_ASCENT \"high\"\nENDPROPERTIES\n");
    assert_eq!(p.try_get(PropertyId::Copyright), Err(PropertyError::TypeMismatch));
    assert_eq!(p.try_get(PropertyId::FontAscent), Err(PropertyError::TypeMismatch));
    assert_eq!(p.try_get(PropertyId::FontDescent), Err(PropertyError::Missing));
}

#[test]
fn unknown_keys_are_kept_for_lookup_by_name() {
    let p = props("STARTPROPERTIES 1\n_VENDOR_THING \"x y\"\nENDPROPERTIES");
    assert_eq!(p.get("_VENDOR_THING"), Some(&PropertyValue::Text("x y".to_string())));
    assert_eq!(p.get("_vendor_thing"), None);
}

#[test]
fn the_declared_count_is_not_checked_and_comments_are_skipped() {
    let p = props("STARTPROPERTIES 9\nCOMMENT none of these\nPIXEL_SIZE 16\n\nCOMMENT\nPOINT_SIZE 120\nENDPROPERTIES\n");
    assert_eq!(p.len(), 2);
    assert_eq!(p.try_get(PropertyId::PointSize), Ok(&PropertyValue::Int(120)));
}

#[test]
fn a_repeated_key_keeps_its_last_value() {
    let p = props("STARTPROPERTIES 2\nFONT_ASCENT 1\nFONT_ASCENT 2\nENDPROPERTIES\n");
    assert_eq!(p.len(), 1);
    assert_eq!(p.try_get(PropertyId::FontAscent), Ok(&PropertyValue::Int(2)));
}

#[test]
fn malformed_properties_are_rejected() {
    let unterminated = "STARTPROPERTIES 1\nCOPYRIGHT \"open\nENDPROPERTIES\n";
    assert_eq!(Properties::parse(unterminated.as_bytes(), 0), None);
    let no_end = "STARTPROPERTIES 1\nFONT_ASCENT 1\n";
    assert_eq!(Properties::parse(no_end.as_bytes(), 0), None);
}

#[test]
fn an_empty_table_has_nothing() {
    let p = Properties::new();
    assert_eq!(p.len(), 0);
    assert_eq!(p.try_get(PropertyId::Foundry), Err(PropertyError::Missing));
}
