//! The store itself: the current-state index, the datom log, and the
//! metadata a transaction reads and writes.

use crate::keyed::{keyed_distinct, keyed_get, keyed_has};
use crate::schema::{Attribute, Schema};
use crate::types::{Entid, PartitionMap, TypedValue, Val, DB_CARDINALITY, DB_CARDINALITY_MANY,
    DB_CARDINALITY_ONE, DB_DOC, DB_FULLTEXT, DB_IDENT, DB_INDEX, DB_IS_COMPONENT, DB_NO_HISTORY,
    DB_TX_INSTANT, DB_TYPE_BOOLEAN, DB_TYPE_INSTANT, DB_TYPE_KEYWORD, DB_TYPE_LONG, DB_TYPE_REF,
    DB_TYPE_STRING, DB_TYPE_UUID, DB_UNIQUE, DB_UNIQUE_IDENTITY, DB_UNIQUE_VALUE, DB_VALUE_TYPE,
    ValueType};
use vstd::prelude::*;

verus! {

/// One row of the current-state index: the entity `e` presently carries the
/// value `v` for the attribute `a`.
#[derive(Debug)]
pub struct Eav {
    pub e: Entid,
    pub a: Entid,
    pub v: TypedValue,
}

impl Eav {
    /// The mathematical triple of this row.
    pub open spec fn key(self) -> (int, int, Val) {
        (self.e as int, self.a as int, self.v@)
    }
}

impl Clone for Eav {
    fn clone(&self) -> (r: Self)
        ensures
            r.key() == self.key(),
    {
        Eav { e: self.e, a: self.a, v: self.v.clone() }
    }
}

/// Does the index hold the triple `t`?
pub open spec fn rows_have(rows: Seq<Eav>, t: (int, int, Val)) -> bool {
    exists|i: int| 0 <= i < rows.len() && rows[i].key() == t
}

/// No triple occurs twice.
pub open spec fn rows_distinct(rows: Seq<Eav>) -> bool {
    forall|i: int, j: int| 0 <= i < j < rows.len() ==> rows[i].key() != rows[j].key()
}

/// At most one current value per `(e, a)` for a cardinality-one attribute:
/// the store-level form of the cardinality guarantee.
pub open spec fn rows_card_one_ok(rows: Seq<Eav>, schema: Schema) -> bool {
    forall|i: int, j: int|
        0 <= i < rows.len() && 0 <= j < rows.len() && i != j && (#[trigger] rows[i]).e == (
        #[trigger] rows[j]).e && rows[i].a == rows[j].a && keyed_has(schema.schema_map@, rows[i].a)
            ==> keyed_get(schema.schema_map@, rows[i].a).multival
}

/// The `(a, v) → e` relation is injective for unique attributes: the
/// store-level form of the uniqueness guarantee.
pub open spec fn rows_unique_ok(rows: Seq<Eav>, schema: Schema) -> bool {
    forall|i: int, j: int|
        0 <= i < rows.len() && 0 <= j < rows.len() && (#[trigger] rows[i]).a == (
        #[trigger] rows[j]).a && rows[i].v@ == rows[j].v@ && keyed_has(
            schema.schema_map@,
            rows[i].a,
        ) && (keyed_get(schema.schema_map@, rows[i].a).unique_value || keyed_get(
            schema.schema_map@,
            rows[i].a,
        ).unique_identity) ==> rows[i].e == rows[j].e
}

/// Every row speaks of an attribute the schema knows.
pub open spec fn rows_attrs_known(rows: Seq<Eav>, schema: Schema) -> bool {
    forall|i: int| 0 <= i < rows.len() ==> keyed_has(schema.schema_map@, (#[trigger] rows[i]).a)
}

/// One datom of the transaction log.
#[derive(Debug)]
pub struct LogDatom {
    pub e: Entid,
    pub a: Entid,
    pub v: TypedValue,
    pub tx: Entid,
    pub added: bool,
    /// The timeline this transaction currently sits on; the main timeline
    /// is 0.
    pub timeline: Entid,
}

/// The main timeline: the one that defines current state.
pub const MAIN_TIMELINE: Entid = 0;

/// The mathematical shadow of a [`LogDatom`].
pub ghost struct LogView {
    pub e: int,
    pub a: int,
    pub v: Val,
    pub tx: int,
    pub added: bool,
    pub timeline: int,
}

impl View for LogDatom {
    type V = LogView;

    open spec fn view(&self) -> LogView {
        LogView {
            e: self.e as int,
            a: self.a as int,
            v: self.v@,
            tx: self.tx as int,
            added: self.added,
            timeline: self.timeline as int,
        }
    }
}

/// Does the log suffix beginning at `from` hold a datom for the triple `t`
/// with the given polarity?
pub open spec fn log_suffix_has(log: Seq<LogDatom>, from: int, added: bool, t: (int, int, Val)) -> bool {
    exists|i: int|
        from <= i < log.len() && (#[trigger] log[i]).added == added && (log[i].e as int,
        log[i].a as int, log[i].v@) == t
}

impl Clone for LogDatom {
    fn clone(&self) -> (r: Self)
        ensures
            r.e == self.e && r.a == self.a && r.v@ == self.v@ && r.tx == self.tx && r.added
                == self.added && r.timeline == self.timeline,
    {
        LogDatom {
            e: self.e,
            a: self.a,
            v: self.v.clone(),
            tx: self.tx,
            added: self.added,
            timeline: self.timeline,
        }
    }
}

/// Represents the data required to query from, or apply transactions to, a
/// store.
#[derive(Debug, Clone)]
pub struct DB {
    /// The reserved partitions of the entid space.
    pub partition_map: PartitionMap,

    /// The schema of the store.
    pub schema: Schema,

    /// The current-state index: the asserted-and-not-retracted triples of
    /// the main timeline.
    pub eav: Vec<Eav>,

    /// The transaction log: every datom ever committed, in ascending
    /// transaction order.
    pub log: Vec<LogDatom>,

    /// The instant of the latest transaction, used to keep `txInstant`
    /// strictly monotonic.
    pub last_tx_instant: i64,
}

impl DB {
    /// The well-formedness of a store.
    pub open spec fn wf(self) -> bool {
        &&& self.partition_map.wf()
        &&& self.schema.wf()
        &&& rows_distinct(self.eav@)
        &&& rows_card_one_ok(self.eav@, self.schema)
        &&& rows_unique_ok(self.eav@, self.schema)
        &&& rows_attrs_known(self.eav@, self.schema)
        &&& forall|i: int, j: int|
            0 <= i < j < self.log@.len() && (#[trigger] self.log@[i]).timeline == MAIN_TIMELINE
                && (#[trigger] self.log@[j]).timeline == MAIN_TIMELINE ==> self.log@[i].tx
                <= self.log@[j].tx
        &&& forall|i: int|
            0 <= i < self.log@.len() ==> crate::types::TX_PARTITION_START <= (
            #[trigger] self.log@[i]).tx
        &&& forall|i: int|
            0 <= i < self.log@.len() && (#[trigger] self.log@[i]).timeline == MAIN_TIMELINE
                ==> self.log@[i].tx < self.partition_map.tx.index
        &&& 0 <= self.last_tx_instant < i64::MAX
    }

    /// An empty store over the given partitions and schema.
    pub fn new(partition_map: PartitionMap, schema: Schema) -> (db: DB)
        ensures
            db == (DB {
                partition_map,
                schema,
                eav: db.eav,
                log: db.log,
                last_tx_instant: 0,
            }),
            db.eav@.len() == 0,
            db.log@.len() == 0,
            partition_map.wf() && schema.wf() ==> db.wf(),
    {
        DB { partition_map, schema, eav: Vec::new(), log: Vec::new(), last_tx_instant: 0 }
    }

    /// Exact lookup against the unique index: the entity carrying value `v`
    /// for attribute `a`, if there is one.
    pub fn lookup_unique(&self, a: Entid, v: &TypedValue) -> (r: Option<Entid>)
        ensures
            match r {
                Some(e) => rows_have(self.eav@, (e as int, a as int, v@)),
                None => forall|e: int| !rows_have(self.eav@, (e, a as int, v@)),
            },
    {
        let mut i: usize = 0;
        while i < self.eav.len()
            invariant
                i <= self.eav@.len(),
                forall|j: int|
                    0 <= j < i ==> !((#[trigger] self.eav@[j]).a == a && self.eav@[j].v@ == v@),
            decreases self.eav@.len() - i,
        {
            if self.eav[i].a == a && self.eav[i].v.eq(v) {
                return Some(self.eav[i].e);
            }
            i = i + 1;
        }
        proof {
            assert forall|e: int| !rows_have(self.eav@, (e, a as int, v@)) by {
                if rows_have(self.eav@, (e, a as int, v@)) {
                    let j = choose|j: int|
                        0 <= j < self.eav@.len() && self.eav@[j].key() == (e, a as int, v@);
                    assert((self.eav@[j]).a == a && self.eav@[j].v@ == v@);
                }
            }
        }
        None
    }

    /// Does the current state hold the triple `(e, a, v)`?
    pub fn eav_contains(&self, e: Entid, a: Entid, v: &TypedValue) -> (r: bool)
        ensures
            r == rows_have(self.eav@, (e as int, a as int, v@)),
    {
        let mut i: usize = 0;
        while i < self.eav.len()
            invariant
                i <= self.eav@.len(),
                forall|j: int|
                    0 <= j < i ==> (#[trigger] self.eav@[j]).key() != (e as int, a as int, v@),
            decreases self.eav@.len() - i,
        {
            if self.eav[i].e == e && self.eav[i].a == a && self.eav[i].v.eq(v) {
                proof {
                    assert(self.eav@[i as int].key() == (e as int, a as int, v@));
                }
                return true;
            }
            i = i + 1;
        }
        false
    }
}

/// Is `a` one of the reserved attributes the metadata mutator recognizes
/// (the schema-attribute set, not counting `:db/ident`)?
pub open spec fn is_schema_attr(a: Entid) -> bool {
    ||| a == DB_VALUE_TYPE
    ||| a == DB_CARDINALITY
    ||| a == DB_UNIQUE
    ||| a == DB_INDEX
    ||| a == DB_FULLTEXT
    ||| a == DB_IS_COMPONENT
    ||| a == DB_DOC
    ||| a == DB_NO_HISTORY
}

/// Executable form of [`is_schema_attr`].
pub fn check_schema_attr(a: Entid) -> (r: bool)
    ensures
        r == is_schema_attr(a),
{
    a == DB_VALUE_TYPE || a == DB_CARDINALITY || a == DB_UNIQUE || a == DB_INDEX || a == DB_FULLTEXT
        || a == DB_IS_COMPONENT || a == DB_DOC || a == DB_NO_HISTORY
}

/// A bootstrapped store: the reserved idents are bound, the reserved
/// attributes installed, and the partitions primed.
pub fn bootstrap_db() -> (db: DB)
    ensures
        db.wf(),
        db.eav@.len() == 0,
        db.log@.len() == 0,
        db.partition_map.user.index == crate::types::USER_PARTITION_START,
        db.partition_map.tx.index == crate::types::TX_PARTITION_START,
        db.last_tx_instant == 0,
{
    let mut schema = Schema::new();
    let r = schema.bind_ident(DB_TX_INSTANT, String::from_str(":db/txInstant"));
    let r = schema.bind_ident(DB_IDENT, String::from_str(":db/ident"));
    let r = schema.bind_ident(DB_VALUE_TYPE, String::from_str(":db/valueType"));
    let r = schema.bind_ident(DB_CARDINALITY, String::from_str(":db/cardinality"));
    let r = schema.bind_ident(DB_UNIQUE, String::from_str(":db/unique"));
    let r = schema.bind_ident(DB_INDEX, String::from_str(":db/index"));
    let r = schema.bind_ident(DB_FULLTEXT, String::from_str(":db/fulltext"));
    let r = schema.bind_ident(DB_IS_COMPONENT, String::from_str(":db/isComponent"));
    let r = schema.bind_ident(DB_DOC, String::from_str(":db/doc"));
    let r = schema.bind_ident(DB_NO_HISTORY, String::from_str(":db/noHistory"));
    let r = schema.bind_ident(DB_TYPE_REF, String::from_str(":db.type/ref"));
    let r = schema.bind_ident(DB_TYPE_BOOLEAN, String::from_str(":db.type/boolean"));
    let r = schema.bind_ident(DB_TYPE_INSTANT, String::from_str(":db.type/instant"));
    let r = schema.bind_ident(DB_TYPE_LONG, String::from_str(":db.type/long"));
    let r = schema.bind_ident(DB_TYPE_STRING, String::from_str(":db.type/string"));
    let r = schema.bind_ident(DB_TYPE_UUID, String::from_str(":db.type/uuid"));
    let r = schema.bind_ident(DB_TYPE_KEYWORD, String::from_str(":db.type/keyword"));
    let r = schema.bind_ident(DB_CARDINALITY_ONE, String::from_str(":db.cardinality/one"));
    let r = schema.bind_ident(DB_CARDINALITY_MANY, String::from_str(":db.cardinality/many"));
    let r = schema.bind_ident(DB_UNIQUE_VALUE, String::from_str(":db.unique/value"));
    let r = schema.bind_ident(DB_UNIQUE_IDENTITY, String::from_str(":db.unique/identity"));
    let _ = r;

    let ghost em = schema.entid_map@;
    install_bootstrap_attr(
        &mut schema,
        DB_TX_INSTANT,
        Attribute {
            value_type: ValueType::Instant,
            multival: false,
            unique_value: false,
            unique_identity: false,
            index: true,
            fulltext: false,
            component: false,
            no_history: false,
        },
    );
    install_bootstrap_attr(
        &mut schema,
        DB_IDENT,
        Attribute {
            value_type: ValueType::Keyword,
            multival: false,
            unique_value: false,
            unique_identity: true,
            index: true,
            fulltext: false,
            component: false,
            no_history: false,
        },
    );
    install_bootstrap_attr(
        &mut schema,
        DB_VALUE_TYPE,
        Attribute {
            value_type: ValueType::Ref,
            multival: false,
            unique_value: false,
            unique_identity: false,
            index: false,
            fulltext: false,
            component: false,
            no_history: false,
        },
    );
    install_bootstrap_attr(
        &mut schema,
        DB_CARDINALITY,
        Attribute {
            value_type: ValueType::Ref,
            multival: false,
            unique_value: false,
            unique_identity: false,
            index: false,
            fulltext: false,
            component: false,
            no_history: false,
        },
    );
    install_bootstrap_attr(
        &mut schema,
        DB_UNIQUE,
        Attribute {
            value_type: ValueType::Ref,
            multival: false,
            unique_value: false,
            unique_identity: false,
            index: false,
            fulltext: false,
            component: false,
            no_history: false,
        },
    );
    install_bootstrap_attr(
        &mut schema,
        DB_INDEX,
        Attribute {
            value_type: ValueType::Boolean,
            multival: false,
            unique_value: false,
            unique_identity: false,
            index: false,
            fulltext: false,
            component: false,
            no_history: false,
        },
    );
    install_bootstrap_attr(
        &mut schema,
        DB_FULLTEXT,
        Attribute {
            value_type: ValueType::Boolean,
            multival: false,
            unique_value: false,
            unique_identity: false,
            index: false,
            fulltext: false,
            component: false,
            no_history: false,
        },
    );
    install_bootstrap_attr(
        &mut schema,
        DB_IS_COMPONENT,
        Attribute {
            value_type: ValueType::Boolean,
            multival: false,
            unique_value: false,
            unique_identity: false,
            index: false,
            fulltext: false,
            component: false,
            no_history: false,
        },
    );
    install_bootstrap_attr(
        &mut schema,
        DB_DOC,
        Attribute {
            value_type: ValueType::String,
            multival: false,
            unique_value: false,
            unique_identity: false,
            index: false,
            fulltext: false,
            component: false,
            no_history: false,
        },
    );
    install_bootstrap_attr(
        &mut schema,
        DB_NO_HISTORY,
        Attribute {
            value_type: ValueType::Boolean,
            multival: false,
            unique_value: false,
            unique_identity: false,
            index: false,
            fulltext: false,
            component: false,
            no_history: false,
        },
    );

    DB {
        partition_map: PartitionMap::initial(),
        schema,
        eav: Vec::new(),
        log: Vec::new(),
        last_tx_instant: 0,
    }
}

/// Install one bootstrap attribute; the entid must already carry an ident
/// and not yet carry an attribute.
fn install_bootstrap_attr(schema: &mut Schema, e: Entid, attr: Attribute)
    requires
        old(schema).wf(),
        attr.valid(),
    ensures
        final(schema).wf(),
        final(schema).entid_map@ == old(schema).entid_map@,
        final(schema).ident_map@ == old(schema).ident_map@,
        keyed_has(old(schema).entid_map@, e) && !keyed_has(old(schema).schema_map@, e)
            ==> keyed_has(final(schema).schema_map@, e) && keyed_get(final(schema).schema_map@, e)
            == attr,
        forall|k: i64|
            k != e ==> keyed_has(final(schema).schema_map@, k) == keyed_has(
                old(schema).schema_map@,
                k,
            ),
        forall|k: i64|
            k != e && keyed_has(old(schema).schema_map@, k) ==> keyed_get(
                final(schema).schema_map@,
                k,
            ) == keyed_get(old(schema).schema_map@, k),
{
    if schema.has_entid(e) {
        match crate::keyed::find_entid(&schema.schema_map, e) {
            Some(_) => {},
            None => {
                proof {
                    crate::keyed::lemma_keyed_push(schema.schema_map@, (e, attr));
                    assert forall|i: int|
                        0 <= i < schema.schema_map@.push((e, attr)).len() implies keyed_has(
                        schema.entid_map@,
                        #[trigger] schema.schema_map@.push((e, attr))[i].0,
                    ) by {
                        if i < schema.schema_map@.len() {
                            assert(schema.schema_map@.push((e, attr))[i] == schema.schema_map@[i]);
                        }
                    }
                }
                schema.schema_map.push((e, attr));
            },
        }
    }
}

} // verus!

verus! {

/// Every entity mentioned by the index has been allocated by a partition.
pub open spec fn rows_entities_allocated(rows: Seq<Eav>, pm: PartitionMap) -> bool {
    forall|i: int| 0 <= i < rows.len() ==> pm.spec_contains((#[trigger] rows[i]).e as int)
}

} // verus!
