//! Value and type tagging: the `(value, tag)` encoding round-trips, and
//! the tags disambiguate same-shape encodings.

use mentat::types::{SQLValue, TypedValue};

fn round_trip(v: TypedValue) {
    let expected = format!("{:?}", v);
    let (sql, tag) = v.to_sql_value_pair();
    let back = TypedValue::from_sql_value_pair(sql, tag).expect("decodes");
    assert_eq!(expected, format!("{:?}", back));
}

#[test]
fn test_sql_value_round_trip() {
    round_trip(TypedValue::Ref(65536));
    round_trip(TypedValue::Boolean(true));
    round_trip(TypedValue::Boolean(false));
    round_trip(TypedValue::Instant(1662017000000));
    round_trip(TypedValue::Long(-42));
    round_trip(TypedValue::String("a string".to_string()));
    round_trip(TypedValue::Uuid(0x0102030405060708090a0b0c0d0e0f10));
    round_trip(TypedValue::Keyword(":foo/bar".to_string()));
}

#[test]
fn test_sql_value_tags_disambiguate() {
    // The same column value decodes differently under different tags.
    let as_bool = TypedValue::from_sql_value_pair(SQLValue::Integer(1), 1).unwrap();
    assert!(matches!(as_bool, TypedValue::Boolean(true)));
    let as_long = TypedValue::from_sql_value_pair(SQLValue::Integer(1), 5).unwrap();
    assert!(matches!(as_long, TypedValue::Long(1)));
    let as_ref = TypedValue::from_sql_value_pair(SQLValue::Integer(1), 0).unwrap();
    assert!(matches!(as_ref, TypedValue::Ref(1)));
    let as_instant = TypedValue::from_sql_value_pair(SQLValue::Integer(1), 4).unwrap();
    assert!(matches!(as_instant, TypedValue::Instant(1)));
    let as_string = TypedValue::from_sql_value_pair(SQLValue::Text("x".to_string()), 10).unwrap();
    assert!(matches!(as_string, TypedValue::String(_)));
    let as_keyword = TypedValue::from_sql_value_pair(SQLValue::Text("x".to_string()), 13).unwrap();
    assert!(matches!(as_keyword, TypedValue::Keyword(_)));

    // Meaningless pairs decode to nothing.
    assert!(TypedValue::from_sql_value_pair(SQLValue::Integer(2), 1).is_none());
    assert!(TypedValue::from_sql_value_pair(SQLValue::Text("x".to_string()), 5).is_none());
    assert!(TypedValue::from_sql_value_pair(SQLValue::Uuid(7), 0).is_none());
}

#[test]
fn test_map_ident_renders_known_refs() {
    let db = mentat::db::bootstrap_db();
    // A reference to an ident-bearing entid renders as its keyword.
    let v = TypedValue::Ref(mentat::types::DB_TYPE_LONG).map_ident(&db.schema);
    assert!(matches!(&v, TypedValue::Keyword(s) if s == ":db.type/long"));
    // A reference to a nameless entid stays numeric.
    let v = TypedValue::Ref(9999999).map_ident(&db.schema);
    assert!(matches!(v, TypedValue::Ref(9999999)));
    // Non-references are untouched.
    let v = TypedValue::Long(5).map_ident(&db.schema);
    assert!(matches!(v, TypedValue::Long(5)));
}
