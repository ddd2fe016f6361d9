//! The transactor pipeline, end to end: installs, upserts, cardinality,
//! uniqueness, retraction, instants, and the timeline rewind.

use mentat::datoms::{Datom, Datoms};
use mentat::db::{bootstrap_db, DB};
use mentat::entities::{AttributePlace, Entity, EntidOrIdent, EntityPlace, LookupRef, OpType,
    TempId, TxFunction, ValuePlace};
use mentat::errors::ErrorKind;
use mentat::timelines::move_from_main_timeline;
use mentat::tx::transact_entities;
use mentat::types::{TypedValue, DB_TX_INSTANT, TX_PARTITION_START, USER_PARTITION_START};

fn add(e: EntityPlace, a: &str, v: ValuePlace) -> Entity {
    Entity::AddOrRetract {
        op: OpType::Add,
        e,
        a: AttributePlace::Entid(EntidOrIdent::Ident(a.to_string())),
        v,
    }
}

fn retract(e: EntityPlace, a: &str, v: ValuePlace) -> Entity {
    Entity::AddOrRetract {
        op: OpType::Retract,
        e,
        a: AttributePlace::Entid(EntidOrIdent::Ident(a.to_string())),
        v,
    }
}

fn tempid(name: &str) -> EntityPlace {
    EntityPlace::TempId(TempId::External(name.to_string()))
}

fn by_entid(e: i64) -> EntityPlace {
    EntityPlace::Entid(EntidOrIdent::Entid(e))
}

fn ident_value(name: &str) -> ValuePlace {
    ValuePlace::Entid(EntidOrIdent::Ident(name.to_string()))
}

fn keyword(name: &str) -> ValuePlace {
    ValuePlace::Atom(TypedValue::Keyword(name.to_string()))
}

fn string(v: &str) -> ValuePlace {
    ValuePlace::Atom(TypedValue::String(v.to_string()))
}

fn long(v: i64) -> ValuePlace {
    ValuePlace::Atom(TypedValue::Long(v))
}

/// A schema with `:foo/name` (string, one), `:foo/id` (string, one,
/// unique/identity, indexed) and `:foo/ref` (ref, one).
fn foo_schema() -> Vec<Entity> {
    vec![
        add(tempid("n"), ":db/ident", keyword(":foo/name")),
        add(tempid("n"), ":db/valueType", ident_value(":db.type/string")),
        add(tempid("n"), ":db/cardinality", ident_value(":db.cardinality/one")),
        add(tempid("i"), ":db/ident", keyword(":foo/id")),
        add(tempid("i"), ":db/valueType", ident_value(":db.type/string")),
        add(tempid("i"), ":db/cardinality", ident_value(":db.cardinality/one")),
        add(tempid("i"), ":db/unique", ident_value(":db.unique/identity")),
        add(tempid("i"), ":db/index", ValuePlace::Atom(TypedValue::Boolean(true))),
        add(tempid("r"), ":db/ident", keyword(":foo/ref")),
        add(tempid("r"), ":db/valueType", ident_value(":db.type/ref")),
        add(tempid("r"), ":db/cardinality", ident_value(":db.cardinality/one")),
    ]
}

fn entid_of(db: &DB, ident: &str) -> i64 {
    db.schema.get_entid(&ident.to_string()).expect("ident bound")
}

fn tempid_entid(report: &mentat::types::TxReport, name: &str) -> i64 {
    for (s, e) in report.tempids.iter() {
        if s == name {
            return *e;
        }
    }
    panic!("tempid {} not resolved", name);
}

/// The current state as comparable rows, excluding the synthetic
/// transaction-instant datoms.
fn current_state(db: &DB) -> Vec<String> {
    let mut rows: Vec<String> = Vec::new();
    for r in db.eav.iter() {
        if r.a != DB_TX_INSTANT {
            rows.push(format!("{} {} {:?}", r.e, r.a, r.v));
        }
    }
    rows.sort();
    rows
}

#[test]
fn test_install_and_assert() {
    let db = bootstrap_db();
    let user0 = db.partition_map.user.index;
    let db0 = db.partition_map.db.index;
    let mut txx = foo_schema();
    txx.push(add(tempid("e"), ":foo/name", string("Alice")));
    let (db2, report) = transact_entities(&db, txx, 1000).expect("transact");

    // Three schema entids in the bootstrap partition, one user entity.
    assert_eq!(db2.partition_map.db.index, db0 + 3);
    assert_eq!(db2.partition_map.user.index, user0 + 1);
    let name = entid_of(&db2, ":foo/name");
    let e = tempid_entid(&report, "e");
    assert!(e >= USER_PARTITION_START);
    let attr = db2.schema.attribute_for_entid(name).expect("attribute installed");
    assert!(!attr.multival);
    assert!(db2.eav.iter().any(|r| r.e == e && r.a == name && matches!(&r.v,
        TypedValue::String(s) if s == "Alice")));
}

#[test]
fn test_simple_upsert() {
    let db = bootstrap_db();
    let (db1, _) = transact_entities(&db, foo_schema(), 1000).expect("schema");
    let (db2, r2) = transact_entities(
        &db1,
        vec![add(tempid("x"), ":foo/id", string("X"))],
        2000,
    ).expect("seed");
    let e_x = tempid_entid(&r2, "x");

    let user_before = db2.partition_map.user.index;
    let (db3, r3) = transact_entities(
        &db2,
        vec![
            add(tempid("t"), ":foo/id", string("X")),
            add(tempid("t"), ":foo/name", string("Y")),
        ],
        3000,
    ).expect("upsert");
    // The tempid resolved to the existing entity; nothing new was allocated.
    assert_eq!(tempid_entid(&r3, "t"), e_x);
    assert_eq!(db3.partition_map.user.index, user_before);
    let name = entid_of(&db3, ":foo/name");
    assert!(db3.eav.iter().any(|r| r.e == e_x && r.a == name && matches!(&r.v,
        TypedValue::String(s) if s == "Y")));
}

#[test]
fn test_upsert_conflict() {
    let db = bootstrap_db();
    let (db1, _) = transact_entities(&db, foo_schema(), 1000).expect("schema");
    let (db2, _) = transact_entities(
        &db1,
        vec![
            add(tempid("a"), ":foo/id", string("X")),
            add(tempid("b"), ":foo/id", string("Y")),
        ],
        2000,
    ).expect("seed");
    let err = transact_entities(
        &db2,
        vec![
            add(tempid("t"), ":foo/id", string("X")),
            add(tempid("t"), ":foo/id", string("Y")),
        ],
        3000,
    ).err().expect("conflicting upserts");
    assert!(matches!(err, ErrorKind::ConflictingUpserts(_)));
}

#[test]
fn test_cardinality_one_replacement_emits_retract() {
    let db = bootstrap_db();
    let (db1, _) = transact_entities(&db, foo_schema(), 1000).expect("schema");
    let (db2, r2) = transact_entities(
        &db1,
        vec![add(tempid("e"), ":foo/name", string("A"))],
        2000,
    ).expect("seed");
    let e = tempid_entid(&r2, "e");
    let name = entid_of(&db2, ":foo/name");

    let log_before = db2.log.len();
    let (db3, r3) = transact_entities(&db2, vec![add(by_entid(e), ":foo/name", string("B"))], 3000)
        .expect("replace");
    // The same transaction holds the synthetic retract of "A" and the
    // assert of "B".
    let suffix: Vec<_> = db3.log[log_before..].iter().collect();
    assert!(suffix.iter().all(|d| d.tx == r3.tx));
    assert!(suffix.iter().any(|d| !d.added && d.e == e && d.a == name && matches!(&d.v,
        TypedValue::String(s) if s == "A")));
    assert!(suffix.iter().any(|d| d.added && d.e == e && d.a == name && matches!(&d.v,
        TypedValue::String(s) if s == "B")));
    assert!(db3.eav.iter().any(|r| r.e == e && r.a == name && matches!(&r.v,
        TypedValue::String(s) if s == "B")));
    assert!(!db3.eav.iter().any(|r| r.e == e && r.a == name && matches!(&r.v,
        TypedValue::String(s) if s == "A")));
}

#[test]
fn test_unique_violation() {
    let db = bootstrap_db();
    let (db1, _) = transact_entities(&db, foo_schema(), 1000).expect("schema");
    let (db2, r2) = transact_entities(
        &db1,
        vec![
            add(tempid("a"), ":foo/id", string("X")),
            add(tempid("b"), ":foo/name", string("B")),
        ],
        2000,
    ).expect("seed");
    let e_b = tempid_entid(&r2, "b");
    let err = transact_entities(
        &db2,
        vec![add(by_entid(e_b), ":foo/id", string("X"))],
        3000,
    ).err().expect("uniqueness violation");
    assert!(matches!(err, ErrorKind::UniquenessViolation(_, _, _)));
}

#[test]
fn test_retract_nonexistent_is_noop() {
    let db = bootstrap_db();
    let (db1, _) = transact_entities(&db, foo_schema(), 1000).expect("schema");
    let (db2, r2) = transact_entities(
        &db1,
        vec![add(tempid("e"), ":foo/name", string("A"))],
        2000,
    ).expect("seed");
    let e = tempid_entid(&r2, "e");
    let state_before = current_state(&db2);
    let log_before = db2.log.len();
    let (db3, _) = transact_entities(
        &db2,
        vec![retract(by_entid(e), ":foo/name", string("Z"))],
        3000,
    ).expect("noop retract");
    // Only the transaction-instant datom was appended.
    assert_eq!(db3.log.len(), log_before + 1);
    assert_eq!(db3.log[log_before].a, DB_TX_INSTANT);
    assert_eq!(current_state(&db3), state_before);
}

#[test]
fn test_retract_and_assert_same_datom() {
    let db = bootstrap_db();
    let (db1, _) = transact_entities(&db, foo_schema(), 1000).expect("schema");
    let (db2, r2) = transact_entities(
        &db1,
        vec![add(tempid("e"), ":foo/name", string("A"))],
        2000,
    ).expect("seed");
    let e = tempid_entid(&r2, "e");
    let name = entid_of(&db2, ":foo/name");
    let (db3, _) = transact_entities(
        &db2,
        vec![
            retract(by_entid(e), ":foo/name", string("A")),
            add(by_entid(e), ":foo/name", string("A")),
        ],
        3000,
    ).expect("retract plus assert");
    // The add wins: the value is still current.
    assert!(db3.eav.iter().any(|r| r.e == e && r.a == name && matches!(&r.v,
        TypedValue::String(s) if s == "A")));
}

#[test]
fn test_tempid_in_entity_and_value_position() {
    let db = bootstrap_db();
    let (db1, _) = transact_entities(&db, foo_schema(), 1000).expect("schema");
    let (db2, r2) = transact_entities(
        &db1,
        vec![
            add(tempid("t"), ":foo/name", string("Self")),
            add(tempid("t"), ":foo/ref", ValuePlace::TempId(TempId::External("t".to_string()))),
        ],
        2000,
    ).expect("self reference");
    assert_eq!(r2.tempids.len(), 1);
    let e = tempid_entid(&r2, "t");
    let r = entid_of(&db2, ":foo/ref");
    assert!(db2.eav.iter().any(|row| row.e == e && row.a == r && matches!(row.v,
        TypedValue::Ref(x) if x == e)));
}

#[test]
fn test_upsert_needs_two_rounds() {
    let db = bootstrap_db();
    let mut schema_tx = foo_schema();
    schema_tx.push(add(tempid("o"), ":db/ident", keyword(":foo/owner")));
    schema_tx.push(add(tempid("o"), ":db/valueType", ident_value(":db.type/ref")));
    schema_tx.push(add(tempid("o"), ":db/cardinality", ident_value(":db.cardinality/one")));
    schema_tx.push(add(tempid("o"), ":db/unique", ident_value(":db.unique/identity")));
    schema_tx.push(add(tempid("o"), ":db/index", ValuePlace::Atom(TypedValue::Boolean(true))));
    let (db1, _) = transact_entities(&db, schema_tx, 1000).expect("schema");
    let (db2, r2) = transact_entities(
        &db1,
        vec![add(tempid("x"), ":foo/id", string("X"))],
        2000,
    ).expect("seed x");
    let e_x = tempid_entid(&r2, "x");
    let (db3, r3) = transact_entities(
        &db3_owner_seed(&db2, e_x),
        vec![
            // The complex upsert resolves only after the simple upsert
            // below binds "t1" to the owner of the existing entity.
            add(
                tempid("t2"),
                ":foo/owner",
                ValuePlace::TempId(TempId::External("t1".to_string())),
            ),
            add(tempid("t1"), ":foo/id", string("X")),
        ],
        4000,
    ).expect("two-round upsert");
    let user_after = db3.partition_map.user.index;
    assert_eq!(tempid_entid(&r3, "t1"), e_x);
    let owner = entid_of(&db3, ":foo/owner");
    let e_y = tempid_entid(&r3, "t2");
    assert!(db3.eav.iter().any(|row| row.e == e_y && row.a == owner && matches!(row.v,
        TypedValue::Ref(x) if x == e_x)));
    // Nothing was freshly allocated: both tempids upserted.
    assert_eq!(user_after, db3_owner_seed(&db2, e_x).partition_map.user.index);
}

fn db3_owner_seed(db2: &DB, e_x: i64) -> DB {
    let (db3, _) = transact_entities(
        db2,
        vec![
            add(
                tempid("y"),
                ":foo/owner",
                ValuePlace::Entid(EntidOrIdent::Entid(e_x)),
            ),
        ],
        3000,
    ).expect("seed y");
    db3
}

#[test]
fn test_tempids_are_transaction_local() {
    let db = bootstrap_db();
    let (db1, _) = transact_entities(&db, foo_schema(), 1000).expect("schema");
    let (db2, r2) = transact_entities(
        &db1,
        vec![add(tempid("t"), ":foo/name", string("One"))],
        2000,
    ).expect("first");
    let (_db3, r3) = transact_entities(
        &db2,
        vec![add(tempid("t"), ":foo/name", string("Two"))],
        3000,
    ).expect("second");
    // The same tempid string resolves independently in each transaction.
    assert_ne!(tempid_entid(&r2, "t"), tempid_entid(&r3, "t"));
}

#[test]
fn test_transaction_ids_are_monotonic() {
    let db = bootstrap_db();
    let (db1, r1) = transact_entities(&db, foo_schema(), 1000).expect("schema");
    let (db2, r2) = transact_entities(
        &db1,
        vec![add(tempid("e"), ":foo/name", string("A"))],
        2000,
    ).expect("data");
    assert!(r1.tx >= TX_PARTITION_START);
    assert!(r2.tx > r1.tx);
    // The report's transaction is the largest in the log.
    assert_eq!(db2.log.iter().map(|d| d.tx).max().unwrap(), r2.tx);
    assert!(r2.tx_instant > r1.tx_instant);
}

#[test]
fn test_partition_advances_by_allocations() {
    let db = bootstrap_db();
    let (db1, _) = transact_entities(&db, foo_schema(), 1000).expect("schema");
    let user_before = db1.partition_map.user.index;
    let (db2, r2) = transact_entities(
        &db1,
        vec![
            add(tempid("a"), ":foo/name", string("A")),
            add(tempid("b"), ":foo/name", string("B")),
        ],
        2000,
    ).expect("two entities");
    assert_eq!(db2.partition_map.user.index, user_before + 2);
    assert_eq!(r2.tempids.len(), 2);
}

#[test]
fn test_explicit_instant_must_advance() {
    let db = bootstrap_db();
    let (db1, r1) = transact_entities(&db, foo_schema(), 1000).expect("schema");
    // Setting the transaction instant equal to the previous one must fail.
    let err = transact_entities(
        &db1,
        vec![
            Entity::AddOrRetract {
                op: OpType::Add,
                e: EntityPlace::TxFunction(TxFunction { op: "transaction-tx".to_string() }),
                a: AttributePlace::Entid(EntidOrIdent::Ident(":db/txInstant".to_string())),
                v: ValuePlace::Atom(TypedValue::Instant(r1.tx_instant)),
            },
        ],
        2000,
    ).err().expect("instant not monotonic");
    assert!(matches!(err, ErrorKind::TxInstantNotMonotonic(_, _)));

    // A strictly larger explicit instant is accepted and recorded.
    let (_db2, r2) = transact_entities(
        &db1,
        vec![
            Entity::AddOrRetract {
                op: OpType::Add,
                e: EntityPlace::TxFunction(TxFunction { op: "transaction-tx".to_string() }),
                a: AttributePlace::Entid(EntidOrIdent::Ident(":db/txInstant".to_string())),
                v: ValuePlace::Atom(TypedValue::Instant(r1.tx_instant + 7)),
            },
        ],
        2000,
    ).expect("explicit instant");
    assert_eq!(r2.tx_instant, r1.tx_instant + 7);
}

#[test]
fn test_component_retraction_with_cycle_terminates() {
    let db = bootstrap_db();
    let mut schema_tx = foo_schema();
    schema_tx.push(add(tempid("c"), ":db/ident", keyword(":foo/child")));
    schema_tx.push(add(tempid("c"), ":db/valueType", ident_value(":db.type/ref")));
    schema_tx.push(add(tempid("c"), ":db/cardinality", ident_value(":db.cardinality/one")));
    schema_tx.push(add(tempid("c"), ":db/isComponent", ValuePlace::Atom(TypedValue::Boolean(
        true,
    ))));
    let (db1, _) = transact_entities(&db, schema_tx, 1000).expect("schema");
    let (db2, r2) = transact_entities(
        &db1,
        vec![
            add(tempid("a"), ":foo/name", string("A")),
            add(tempid("b"), ":foo/name", string("B")),
            add(tempid("a"), ":foo/child", ValuePlace::TempId(TempId::External("b".to_string()))),
            add(tempid("b"), ":foo/child", ValuePlace::TempId(TempId::External("a".to_string()))),
        ],
        2000,
    ).expect("cycle");
    let e_a = tempid_entid(&r2, "a");
    let (db3, _) = transact_entities(
        &db2,
        vec![Entity::RetractEntity { e: by_entid(e_a) }],
        3000,
    ).expect("component retraction over a cycle terminates");
    // Both entities of the cycle were retracted.
    let name = entid_of(&db3, ":foo/name");
    assert!(!db3.eav.iter().any(|r| r.a == name));
}

#[test]
fn test_lookup_ref_resolution() {
    let db = bootstrap_db();
    let (db1, _) = transact_entities(&db, foo_schema(), 1000).expect("schema");
    let (db2, r2) = transact_entities(
        &db1,
        vec![add(tempid("x"), ":foo/id", string("X"))],
        2000,
    ).expect("seed");
    let e_x = tempid_entid(&r2, "x");
    let lr = LookupRef {
        a: EntidOrIdent::Ident(":foo/id".to_string()),
        v: TypedValue::String("X".to_string()),
    };
    let (db3, _) = transact_entities(
        &db2,
        vec![add(EntityPlace::LookupRef(lr), ":foo/name", string("Named"))],
        3000,
    ).expect("lookup ref");
    let name = entid_of(&db3, ":foo/name");
    assert!(db3.eav.iter().any(|r| r.e == e_x && r.a == name && matches!(&r.v,
        TypedValue::String(s) if s == "Named")));

    // A lookup-ref over a non-unique attribute is refused.
    let bad = LookupRef {
        a: EntidOrIdent::Ident(":foo/name".to_string()),
        v: TypedValue::String("Named".to_string()),
    };
    let err = transact_entities(
        &db3,
        vec![add(EntityPlace::LookupRef(bad), ":foo/name", string("Again"))],
        4000,
    ).err().expect("not unique");
    assert!(matches!(err, ErrorKind::NotUniqueAttribute(_)));

    // A lookup-ref that matches nothing is refused.
    let absent = LookupRef {
        a: EntidOrIdent::Ident(":foo/id".to_string()),
        v: TypedValue::String("ZZZ".to_string()),
    };
    let err = transact_entities(
        &db3,
        vec![add(EntityPlace::LookupRef(absent), ":foo/name", string("Nobody"))],
        4000,
    ).err().expect("unresolved");
    assert!(matches!(err, ErrorKind::UnresolvedLookupRef(_)));
}

#[test]
fn test_schema_errors() {
    let db = bootstrap_db();
    // An install without a value type is refused.
    let err = transact_entities(
        &db,
        vec![
            add(tempid("q"), ":db/ident", keyword(":foo/q")),
            add(tempid("q"), ":db/cardinality", ident_value(":db.cardinality/one")),
        ],
        1000,
    ).err().expect("install without value type");
    assert!(matches!(err, ErrorKind::BadSchemaAssertion(_)));

    // An unknown attribute ident is refused.
    let err = transact_entities(
        &db,
        vec![add(tempid("e"), ":no/such", long(1))],
        1000,
    ).err().expect("unknown ident");
    assert!(matches!(err, ErrorKind::UnrecognizedIdent(_)));

    // A value of the wrong type is refused.
    let (db1, _) = transact_entities(&db, foo_schema(), 1000).expect("schema");
    let err = transact_entities(
        &db1,
        vec![add(tempid("e"), ":foo/name", long(3))],
        2000,
    ).err().expect("type mismatch");
    assert!(matches!(err, ErrorKind::ValueTypeMismatch(_, _)));

    // Intra-transaction cardinality-one conflict.
    let err = transact_entities(
        &db1,
        vec![
            add(tempid("e"), ":foo/name", string("A")),
            add(tempid("e"), ":foo/name", string("B")),
        ],
        2000,
    ).err().expect("cardinality conflict");
    assert!(matches!(err, ErrorKind::CardinalityConflict(_, _)));
}

#[test]
fn test_rewind_round_trip() {
    let db = bootstrap_db();
    let (db0, _) = transact_entities(&db, foo_schema(), 1000).expect("schema");
    let state0 = current_state(&db0);
    let user0 = db0.partition_map.user.index;

    let (db1, r1) = transact_entities(
        &db0,
        vec![add(tempid("a"), ":foo/name", string("A"))],
        2000,
    ).expect("t1");
    let (db2, r2) = transact_entities(
        &db1,
        vec![add(tempid("b"), ":foo/name", string("B"))],
        3000,
    ).expect("t2");
    assert_ne!(current_state(&db2), state0);

    let (db3, _) = move_from_main_timeline(&db2, &vec![r1.tx, r2.tx], 1, 4000).expect("rewind");
    // Current state is as if the block had never been transacted, and the
    // cursors are wound back.
    assert_eq!(current_state(&db3), state0);
    assert_eq!(db3.partition_map.user.index, user0);
    assert_eq!(db3.partition_map.tx.index, r1.tx);
    // The moved transactions still exist, under the new timeline label.
    assert!(db3.log.iter().any(|d| d.tx == r1.tx && d.timeline == 1));
    assert!(db3.log.iter().any(|d| d.tx == r2.tx && d.timeline == 1));
    assert!(!db3.log.iter().any(|d| (d.tx == r1.tx || d.tx == r2.tx) && d.timeline == 0));
}

#[test]
fn test_rewind_non_tail_block_fails() {
    let db = bootstrap_db();
    let (db0, _) = transact_entities(&db, foo_schema(), 1000).expect("schema");
    let (db1, r1) = transact_entities(
        &db0,
        vec![add(tempid("a"), ":foo/name", string("A"))],
        2000,
    ).expect("t1");
    let (db2, r2) = transact_entities(
        &db1,
        vec![add(tempid("b"), ":foo/name", string("B"))],
        3000,
    ).expect("t2");

    // A strict tail block may be moved.
    let tail = move_from_main_timeline(&db2, &vec![r2.tx], 1, 4000);
    assert!(tail.is_ok());

    // A non-tail block may not.
    let err = move_from_main_timeline(&db2, &vec![r1.tx], 1, 4000).err().expect("non-tail");
    assert!(matches!(err, ErrorKind::TimelinesNotOnTail));

    // An empty block may not.
    let err = move_from_main_timeline(&db2, &vec![], 1, 4000).err().expect("empty");
    assert!(matches!(err, ErrorKind::TimelinesNoTransactionsSupplied));
}

#[test]
fn test_canonical_order_is_deterministic() {
    let d1 = Datom {
        e: 70000,
        a: 65536,
        v: TypedValue::String("b".to_string()),
        tx: TX_PARTITION_START,
        added: Some(true),
    };
    let d2 = Datom {
        e: 70000,
        a: 65536,
        v: TypedValue::String("a".to_string()),
        tx: TX_PARTITION_START,
        added: Some(false),
    };
    let d3 = Datom {
        e: 65537,
        a: 65536,
        v: TypedValue::Long(3),
        tx: TX_PARTITION_START,
        added: Some(true),
    };
    let one = Datoms::new(vec![d1.clone(), d2.clone(), d3.clone()]);
    let two = Datoms::new(vec![d3, d2, d1]);
    let render = |ds: &Datoms| -> Vec<String> {
        ds.datoms.iter().map(|d| format!("{} {} {:?} {} {:?}", d.e, d.a, d.v, d.tx, d.added)).collect()
    };
    assert_eq!(render(&one), render(&two));
    // Retractions sort before assertions at the same key.
    assert_eq!(one.datoms[0].e, 65537);
}

#[test]
fn test_store_path_mismatch() {
    let mut stores = mentat::stores::Stores::new();
    let _s = stores.open("db-one", "/a/path").expect("open");
    let err = stores.open("db-one", "/another/path").err().expect("mismatch");
    assert!(matches!(err, ErrorKind::StorePathMismatch(_, _, _)));
}

#[test]
fn test_transactions_after_groups_by_tx() {
    let db = bootstrap_db();
    let (db1, r1) = transact_entities(&db, foo_schema(), 1000).expect("schema");
    let (db2, r2) = transact_entities(
        &db1,
        vec![add(tempid("a"), ":foo/name", string("A"))],
        2000,
    ).expect("t1");
    let (db3, r3) = transact_entities(
        &db2,
        vec![add(tempid("b"), ":foo/name", string("B"))],
        3000,
    ).expect("t2");

    let txs = db3.transactions_after(r1.tx);
    assert_eq!(txs.0.len(), 2);
    assert!(txs.0[0].datoms.iter().all(|d| d.tx == r2.tx));
    assert!(txs.0[1].datoms.iter().all(|d| d.tx == r3.tx));
    // Each transaction includes its instant datom.
    assert!(txs.0[0].datoms.iter().any(|d| d.a == DB_TX_INSTANT));

    // The current-state view excludes instant datoms and is ordered.
    let current = db3.datoms();
    assert!(current.datoms.iter().all(|d| d.a != DB_TX_INSTANT));
    for w in current.datoms.windows(2) {
        assert!(w[0].e <= w[1].e);
    }
}

#[test]
fn test_unallocated_entid_is_refused() {
    let db = bootstrap_db();
    let (db1, _) = transact_entities(&db, foo_schema(), 1000).expect("schema");
    // No entity has been allocated at this entid.
    let err = transact_entities(
        &db1,
        vec![add(by_entid(99999999), ":foo/name", string("Nobody"))],
        2000,
    ).err().expect("unrecognized entid");
    assert!(matches!(err, ErrorKind::UnrecognizedEntid(99999999)));
}

#[test]
fn test_rewind_twice_fails_off_main() {
    let db = bootstrap_db();
    let (db0, _) = transact_entities(&db, foo_schema(), 1000).expect("schema");
    let (db1, r1) = transact_entities(
        &db0,
        vec![add(tempid("a"), ":foo/name", string("A"))],
        2000,
    ).expect("t1");
    let (db2, _) = move_from_main_timeline(&db1, &vec![r1.tx], 1, 3000).expect("first rewind");
    // The block now lives on another timeline; moving it again is refused.
    let err = move_from_main_timeline(&db2, &vec![r1.tx], 2, 4000).err().expect("off main");
    assert!(matches!(err, ErrorKind::TimelinesNotOnMain));
}
