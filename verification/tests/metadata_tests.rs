//! The metadata mutator on its own: installs, alterations, and their
//! reports.

use mentat::db::bootstrap_db;
use mentat::metadata::{update_schema_map_from_entid_triples, AttributeAlteration};
use mentat::types::{Partition, TypedValue, DB_CARDINALITY, DB_CARDINALITY_MANY,
    DB_CARDINALITY_ONE, DB_TYPE_LONG, DB_VALUE_TYPE};
use mentat::entities::TempId;

#[test]
fn test_install_then_alter_cardinality() {
    let db = bootstrap_db();
    let mut schema_map = db.schema.schema_map.clone();
    let n_before = schema_map.len();

    // Install a fresh attribute of type long, cardinality one.
    let report = update_schema_map_from_entid_triples(
        &mut schema_map,
        &vec![
            (100, DB_VALUE_TYPE, TypedValue::Ref(DB_TYPE_LONG)),
            (100, DB_CARDINALITY, TypedValue::Ref(DB_CARDINALITY_ONE)),
        ],
    ).expect("install");
    assert_eq!(report.attributes_installed, vec![100]);
    assert!(report.attributes_altered.is_empty());
    assert_eq!(schema_map.len(), n_before + 1);

    // Alter its cardinality; the report names the changed flag.
    let report = update_schema_map_from_entid_triples(
        &mut schema_map,
        &vec![(100, DB_CARDINALITY, TypedValue::Ref(DB_CARDINALITY_MANY))],
    ).expect("alter");
    assert!(report.attributes_installed.is_empty());
    assert_eq!(report.attributes_altered.len(), 1);
    assert_eq!(report.attributes_altered[0].0, 100);
    assert_eq!(report.attributes_altered[0].1, vec![AttributeAlteration::Cardinality]);

    // An install without a value type is refused and leaves the map alone.
    let n = schema_map.len();
    let r = update_schema_map_from_entid_triples(
        &mut schema_map,
        &vec![(200, DB_CARDINALITY, TypedValue::Ref(DB_CARDINALITY_ONE))],
    );
    assert!(r.is_err());
    assert_eq!(schema_map.len(), n);

    // An alteration must not re-declare the value type.
    let r = update_schema_map_from_entid_triples(
        &mut schema_map,
        &vec![(100, DB_VALUE_TYPE, TypedValue::Ref(DB_TYPE_LONG))],
    );
    assert!(r.is_err());
}

#[test]
fn test_partition_allocation() {
    let mut p = Partition::new(65536, 65540);
    assert_eq!(p.start, 65536);
    assert_eq!(p.index, 65540);
    let first = p.allocate(3);
    assert_eq!(first, 65540);
    assert_eq!(p.index, 65543);
    p.set_index(65541);
    assert_eq!(p.index, 65541);
}

#[test]
fn test_tempid_into_external() {
    assert_eq!(
        TempId::External("alpha".to_string()).into_external(),
        Some("alpha".to_string()),
    );
    assert_eq!(TempId::Internal(-7).into_external(), None);
}
