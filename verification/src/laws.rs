//! The store's laws, stated on their own: what a reader should be able to
//! rely on of any well-formed store, spelled out over the same spec
//! functions the operations' contracts use.

use crate::db::{rows_card_one_ok, rows_distinct, rows_have, rows_unique_ok, Eav, DB};
use crate::keyed::{keyed_get, keyed_has};
use crate::schema::Schema;
use crate::types::Val;
use vstd::prelude::*;

verus! {

/// For every cardinality-one attribute `a`, at most one current-state
/// `(e, a, *)` exists for any `e`: two distinct current rows sharing an
/// entity and a known attribute force the attribute to be many-valued.
pub proof fn lemma_cardinality_one_invariant(db: DB)
    requires
        db.wf(),
    ensures
        rows_card_one_ok(db.eav@, db.schema),
        rows_distinct(db.eav@),
{
}

/// For every unique attribute `a`, the current-state map `(a, v) → e` is
/// injective: two current rows sharing a unique attribute and a value name
/// the same entity.
pub proof fn lemma_uniqueness_invariant(db: DB)
    requires
        db.wf(),
    ensures
        rows_unique_ok(db.eav@, db.schema),
{
}

/// The schema's ident↔entid maps are mutually inverse bijections: every
/// entid binding maps back through the ident map, and the other way round.
pub proof fn lemma_ident_bijection(schema: Schema)
    requires
        schema.wf(),
    ensures
        forall|i: int|
            0 <= i < schema.entid_map@.len() ==> keyed_has(
                schema.ident_map@,
                (#[trigger] schema.entid_map@[i]).1@,
            ) && keyed_get(schema.ident_map@, schema.entid_map@[i].1@) == schema.entid_map@[i].0,
        forall|i: int|
            0 <= i < schema.ident_map@.len() ==> keyed_has(
                schema.entid_map@,
                (#[trigger] schema.ident_map@[i]).1,
            ) && keyed_get(schema.entid_map@, schema.ident_map@[i].1)@ == schema.ident_map@[i].0@,
{
}

/// Every attribute in the catalog carries an ident: the schema key-set is
/// contained in the ident-bearing entids.  (The containment is proper in
/// general: idents also name non-attribute entities, such as the reserved
/// type and cardinality values.)
pub proof fn lemma_attributes_named(schema: Schema)
    requires
        schema.wf(),
    ensures
        forall|i: int|
            0 <= i < schema.schema_map@.len() ==> keyed_has(
                schema.entid_map@,
                (#[trigger] schema.schema_map@[i]).0,
            ),
{
}

/// Rewind is an inverse at the current-state level: if a transaction turned
/// the current state `s0` into `s1` by retracting the present triples `r`
/// and adding the fresh triples `a`, then applying the inverse batch —
/// retract `a`, add `r` — to `s1` restores exactly `s0`.
pub proof fn lemma_rewind_inverse(
    s0: Seq<Eav>,
    s1: Seq<Eav>,
    s2: Seq<Eav>,
    adds: Seq<Eav>,
    rets: Seq<Eav>,
)
    requires
        forall|t: (int, int, Val)|
            #[trigger] rows_have(s1, t) == ((rows_have(s0, t) && !rows_have(rets, t)) || rows_have(
                adds,
                t,
            )),
        forall|t: (int, int, Val)| #[trigger] rows_have(adds, t) ==> !rows_have(s0, t),
        forall|t: (int, int, Val)| #[trigger] rows_have(rets, t) ==> rows_have(s0, t),
        forall|t: (int, int, Val)|
            #[trigger] rows_have(s2, t) == ((rows_have(s1, t) && !rows_have(adds, t)) || rows_have(
                rets,
                t,
            )),
    ensures
        forall|t: (int, int, Val)| #[trigger] rows_have(s2, t) == rows_have(s0, t),
{
}

} // verus!
