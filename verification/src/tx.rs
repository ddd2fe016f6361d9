//! The transactor driver: resolves input entities, runs the upsert fixed
//! point, allocates entids, enforces cardinality and uniqueness, applies
//! metadata mutations, and writes the transaction atomically.

use crate::db::{rows_attrs_known, rows_card_one_ok, rows_distinct, rows_have, rows_unique_ok, Eav,
    DB};
use crate::errors::ErrorKind;
use crate::keyed::{keyed_get, keyed_has};
use crate::schema::Schema;
use crate::types::{Entid, TypedValue, Val};
use vstd::prelude::*;

verus! {

/// Pushing a row extends exactly the triples the rows hold.
pub proof fn lemma_rows_push(s: Seq<Eav>, x: Eav)
    ensures
        forall|t: (int, int, Val)|
            #[trigger] rows_have(s.push(x), t) == (rows_have(s, t) || x.key() == t),
{
    assert forall|t: (int, int, Val)| #[trigger] rows_have(s.push(x), t) == (rows_have(s, t)
        || x.key() == t) by {
        if rows_have(s, t) {
            let i = choose|i: int| 0 <= i < s.len() && s[i].key() == t;
            assert(s.push(x)[i].key() == t);
        }
        if x.key() == t {
            assert(s.push(x)[s.len() as int].key() == t);
        }
        if rows_have(s.push(x), t) {
            let i = choose|i: int| 0 <= i < s.push(x).len() && s.push(x)[i].key() == t;
            if i < s.len() {
                assert(s[i].key() == t);
            }
        }
    }
}

/// A prefix one longer holds one more row's triple.
pub proof fn lemma_rows_take_step(s: Seq<Eav>, k: int)
    requires
        0 <= k < s.len(),
    ensures
        forall|t: (int, int, Val)|
            #[trigger] rows_have(s.take(k + 1), t) == (rows_have(s.take(k), t) || s[k].key() == t),
{
    assert(s.take(k + 1) =~= s.take(k).push(s[k]));
    lemma_rows_push(s.take(k), s[k]);
}

/// Does `rows` hold the triple `(e, a, v)`?
pub fn rows_contains(rows: &Vec<Eav>, e: Entid, a: Entid, v: &TypedValue) -> (r: bool)
    ensures
        r == rows_have(rows@, (e as int, a as int, v@)),
{
    let mut i: usize = 0;
    while i < rows.len()
        invariant
            i <= rows@.len(),
            forall|j: int| 0 <= j < i ==> (#[trigger] rows@[j]).key() != (e as int, a as int, v@),
        decreases rows@.len() - i,
    {
        if rows[i].e == e && rows[i].a == a && rows[i].v.eq(v) {
            proof {
                assert(rows@[i as int].key() == (e as int, a as int, v@));
            }
            return true;
        }
        i = i + 1;
    }
    false
}

/// Drop duplicate rows, keeping first occurrences.
pub fn dedup_rows(rows: Vec<Eav>) -> (r: Vec<Eav>)
    ensures
        rows_distinct(r@),
        forall|t: (int, int, Val)| #[trigger] rows_have(r@, t) == rows_have(rows@, t),
        forall|i: int| 0 <= i < r@.len() ==> rows_have(rows@, (#[trigger] r@[i]).key()),
{
    let ghost orig = rows@;
    let mut rows = rows;
    let mut out: Vec<Eav> = Vec::new();
    while rows.len() > 0
        invariant
            rows@.len() <= orig.len(),
            rows@ == orig.skip(orig.len() - rows@.len()),
            rows_distinct(out@),
            forall|t: (int, int, Val)|
                #[trigger] rows_have(out@, t) == rows_have(orig.take(orig.len() - rows@.len()), t),
            forall|i: int|
                0 <= i < out@.len() ==> rows_have(orig, (#[trigger] out@[i]).key()),
        decreases rows@.len(),
    {
        let ghost k = orig.len() - rows@.len();
        proof {
            assert(rows@[0] == orig[k]);
            assert(orig.skip(k).drop_first() =~= orig.skip(k + 1));
            lemma_rows_take_step(orig, k);
        }
        let row = rows.remove(0);
        if !rows_contains(&out, row.e, row.a, &row.v) {
            proof {
                lemma_rows_push(out@, row);
            }
            out.push(row);
        }
    }
    proof {
        assert(orig.take(orig.len() as int) =~= orig);
    }
    out
}

/// No two adds give a cardinality-one `(e, a)` two distinct values.
pub open spec fn no_card_conflict(adds: Seq<Eav>, schema: Schema) -> bool {
    forall|i: int, j: int|
        0 <= i < adds.len() && 0 <= j < adds.len() && (#[trigger] adds[i]).e == (
        #[trigger] adds[j]).e && adds[i].a == adds[j].a && keyed_has(schema.schema_map@, adds[i].a)
            && !keyed_get(schema.schema_map@, adds[i].a).multival ==> adds[i].v@ == adds[j].v@
}

/// No add collides with another add or with the store on a unique
/// attribute's value while naming a different entity.
pub open spec fn no_unique_violation(adds: Seq<Eav>, eav: Seq<Eav>, schema: Schema) -> bool {
    &&& forall|i: int, j: int|
        0 <= i < adds.len() && 0 <= j < adds.len() && (#[trigger] adds[i]).a == (
        #[trigger] adds[j]).a && adds[i].v@ == adds[j].v@ && keyed_has(
            schema.schema_map@,
            adds[i].a,
        ) && (keyed_get(schema.schema_map@, adds[i].a).unique_value || keyed_get(
            schema.schema_map@,
            adds[i].a,
        ).unique_identity) ==> adds[i].e == adds[j].e
    &&& forall|i: int, j: int|
        0 <= i < adds.len() && 0 <= j < eav.len() && (#[trigger] adds[i]).a == (#[trigger] eav[j]).a
            && adds[i].v@ == eav[j].v@ && keyed_has(schema.schema_map@, adds[i].a) && (keyed_get(
            schema.schema_map@,
            adds[i].a,
        ).unique_value || keyed_get(schema.schema_map@, adds[i].a).unique_identity) ==> adds[i].e
            == eav[j].e
}

/// Scan for an intra-batch cardinality-one conflict.
pub fn find_card_conflict(adds: &Vec<Eav>, schema: &Schema) -> (r: Option<(Entid, Entid)>)
    requires
        schema.wf(),
    ensures
        r is None <==> no_card_conflict(adds@, *schema),
{
    let mut i: usize = 0;
    while i < adds.len()
        invariant
            schema.wf(),
            i <= adds@.len(),
            forall|p: int, q: int|
                0 <= p < i && 0 <= q < adds@.len() && (#[trigger] adds@[p]).e == (
                #[trigger] adds@[q]).e && adds@[p].a == adds@[q].a && keyed_has(
                    schema.schema_map@,
                    adds@[p].a,
                ) && !keyed_get(schema.schema_map@, adds@[p].a).multival ==> adds@[p].v@
                    == adds@[q].v@,
        decreases adds@.len() - i,
    {
        let row = &adds[i];
        match schema.attribute_for_entid(row.a) {
            Some(attr) => {
                if !attr.multival {
                    let mut j: usize = 0;
                    while j < adds.len()
                        invariant
                            schema.wf(),
                            i < adds@.len(),
                            j <= adds@.len(),
                            keyed_has(schema.schema_map@, adds@[i as int].a),
                            !keyed_get(schema.schema_map@, adds@[i as int].a).multival,
                            forall|q: int|
                                0 <= q < j && (#[trigger] adds@[q]).e == adds@[i as int].e
                                    && adds@[q].a == adds@[i as int].a ==> adds@[q].v@
                                    == adds@[i as int].v@,
                        decreases adds@.len() - j,
                    {
                        if adds[j].e == adds[i].e && adds[j].a == adds[i].a && !adds[j].v.eq(
                            &adds[i].v,
                        ) {
                            return Some((adds[i].e, adds[i].a));
                        }
                        j = j + 1;
                    }
                }
            },
            None => {},
        }
        i = i + 1;
    }
    proof {
        assert forall|p: int, q: int|
            0 <= p < adds@.len() && 0 <= q < adds@.len() && (#[trigger] adds@[p]).e == (
            #[trigger] adds@[q]).e && adds@[p].a == adds@[q].a && keyed_has(
                schema.schema_map@,
                adds@[p].a,
            ) && !keyed_get(schema.schema_map@, adds@[p].a).multival implies adds@[p].v@ == adds@[q].v@ by {}
    }
    None
}

/// Scan for a uniqueness violation, within the batch or against the store.
pub fn find_unique_violation(adds: &Vec<Eav>, eav: &Vec<Eav>, schema: &Schema) -> (r: Option<
    (Entid, Entid, Entid),
>)
    requires
        schema.wf(),
    ensures
        r is None <==> no_unique_violation(adds@, eav@, *schema),
{
    let mut i: usize = 0;
    while i < adds.len()
        invariant
            schema.wf(),
            i <= adds@.len(),
            forall|p: int, q: int|
                0 <= p < i && 0 <= q < adds@.len() && (#[trigger] adds@[p]).a == (
                #[trigger] adds@[q]).a && adds@[p].v@ == adds@[q].v@ && keyed_has(
                    schema.schema_map@,
                    adds@[p].a,
                ) && (keyed_get(schema.schema_map@, adds@[p].a).unique_value || keyed_get(
                    schema.schema_map@,
                    adds@[p].a,
                ).unique_identity) ==> adds@[p].e == adds@[q].e,
            forall|p: int, q: int|
                0 <= p < i && 0 <= q < eav@.len() && (#[trigger] adds@[p]).a == (
                #[trigger] eav@[q]).a && adds@[p].v@ == eav@[q].v@ && keyed_has(
                    schema.schema_map@,
                    adds@[p].a,
                ) && (keyed_get(schema.schema_map@, adds@[p].a).unique_value || keyed_get(
                    schema.schema_map@,
                    adds@[p].a,
                ).unique_identity) ==> adds@[p].e == eav@[q].e,
        decreases adds@.len() - i,
    {
        let row = &adds[i];
        match schema.attribute_for_entid(row.a) {
            Some(attr) => {
                if attr.unique_value || attr.unique_identity {
                    let mut j: usize = 0;
                    while j < adds.len()
                        invariant
                            schema.wf(),
                            i < adds@.len(),
                            j <= adds@.len(),
                            keyed_has(schema.schema_map@, adds@[i as int].a),
                            keyed_get(schema.schema_map@, adds@[i as int].a).unique_value
                                || keyed_get(schema.schema_map@, adds@[i as int].a).unique_identity,
                            forall|q: int|
                                0 <= q < j && (#[trigger] adds@[q]).a == adds@[i as int].a
                                    && adds@[q].v@ == adds@[i as int].v@ ==> adds@[q].e
                                    == adds@[i as int].e,
                        decreases adds@.len() - j,
                    {
                        if adds[j].a == adds[i].a && adds[j].v.eq(&adds[i].v) && adds[j].e
                            != adds[i].e {
                            return Some((adds[i].a, adds[j].e, adds[i].e));
                        }
                        j = j + 1;
                    }
                    let mut j: usize = 0;
                    while j < eav.len()
                        invariant
                            schema.wf(),
                            i < adds@.len(),
                            j <= eav@.len(),
                            keyed_has(schema.schema_map@, adds@[i as int].a),
                            keyed_get(schema.schema_map@, adds@[i as int].a).unique_value
                                || keyed_get(schema.schema_map@, adds@[i as int].a).unique_identity,
                            forall|q: int|
                                0 <= q < j && (#[trigger] eav@[q]).a == adds@[i as int].a
                                    && eav@[q].v@ == adds@[i as int].v@ ==> eav@[q].e
                                    == adds@[i as int].e,
                        decreases eav@.len() - j,
                    {
                        if eav[j].a == adds[i].a && eav[j].v.eq(&adds[i].v) && eav[j].e
                            != adds[i].e {
                            return Some((adds[i].a, eav[j].e, adds[i].e));
                        }
                        j = j + 1;
                    }
                }
            },
            None => {},
        }
        i = i + 1;
    }
    None
}

} // verus!

verus! {

/// The retracts that actually take effect: those that name a triple the
/// store holds, are not overridden by an add of the same triple, and are
/// stated once.
pub fn effective_retracts(retracts_raw: Vec<Eav>, adds: &Vec<Eav>, eav: &Vec<Eav>) -> (r: Vec<Eav>)
    ensures
        rows_distinct(r@),
        forall|t: (int, int, Val)|
            #[trigger] rows_have(r@, t) == (rows_have(retracts_raw@, t) && rows_have(eav@, t)
                && !rows_have(adds@, t)),
{
    let ghost orig = retracts_raw@;
    let mut pending = retracts_raw;
    let mut out: Vec<Eav> = Vec::new();
    while pending.len() > 0
        invariant
            pending@.len() <= orig.len(),
            pending@ == orig.skip(orig.len() - pending@.len()),
            rows_distinct(out@),
            forall|t: (int, int, Val)|
                #[trigger] rows_have(out@, t) == (rows_have(
                    orig.take(orig.len() - pending@.len()),
                    t,
                ) && rows_have(eav@, t) && !rows_have(adds@, t)),
        decreases pending@.len(),
    {
        let ghost k = orig.len() - pending@.len();
        proof {
            assert(pending@[0] == orig[k]);
            assert(orig.skip(k).drop_first() =~= orig.skip(k + 1));
            lemma_rows_take_step(orig, k);
        }
        let row = pending.remove(0);
        if rows_contains(eav, row.e, row.a, &row.v) && !rows_contains(adds, row.e, row.a, &row.v)
            && !rows_contains(&out, row.e, row.a, &row.v) {
            proof {
                lemma_rows_push(out@, row);
            }
            out.push(row);
        }
    }
    proof {
        assert(orig.take(orig.len() as int) =~= orig);
    }
    out
}

/// Is `t` a triple the cardinality-one replacement rule retracts: a current
/// triple whose `(e, a)` receives a different value in this batch?
pub open spec fn is_replaced(t: (int, int, Val), adds: Seq<Eav>, schema: Schema) -> bool {
    exists|i: int|
        0 <= i < adds.len() && (#[trigger] adds[i]).e == t.0 && adds[i].a == t.1 && keyed_has(
            schema.schema_map@,
            adds[i].a,
        ) && !keyed_get(schema.schema_map@, adds[i].a).multival && adds[i].v@ != t.2
}

/// Does the batch assert a different value for the cardinality-one `(e, a)`?
fn has_replacing_add(adds: &Vec<Eav>, e: Entid, a: Entid, v: &TypedValue, schema: &Schema) -> (r:
    bool)
    requires
        schema.wf(),
    ensures
        r == is_replaced((e as int, a as int, v@), adds@, *schema),
{
    let mut i: usize = 0;
    while i < adds.len()
        invariant
            schema.wf(),
            i <= adds@.len(),
            forall|j: int|
                0 <= j < i ==> !((#[trigger] adds@[j]).e == e && adds@[j].a == a && keyed_has(
                    schema.schema_map@,
                    adds@[j].a,
                ) && !keyed_get(schema.schema_map@, adds@[j].a).multival && adds@[j].v@ != v@),
        decreases adds@.len() - i,
    {
        if adds[i].e == e && adds[i].a == a && !adds[i].v.eq(v) {
            match schema.attribute_for_entid(adds[i].a) {
                Some(attr) => {
                    if !attr.multival {
                        return true;
                    }
                },
                None => {},
            }
        }
        i = i + 1;
    }
    false
}

/// The synthetic retracts of the cardinality-one replacement rule: every
/// current triple whose `(e, a)` is asserted anew with a different value.
pub fn synthetic_retracts(adds: &Vec<Eav>, eav: &Vec<Eav>, schema: &Schema) -> (r: Vec<Eav>)
    requires
        schema.wf(),
        rows_distinct(eav@),
    ensures
        rows_distinct(r@),
        forall|t: (int, int, Val)|
            #[trigger] rows_have(r@, t) == (rows_have(eav@, t) && is_replaced(t, adds@, *schema)),
{
    let mut out: Vec<Eav> = Vec::new();
    let mut i: usize = 0;
    while i < eav.len()
        invariant
            schema.wf(),
            rows_distinct(eav@),
            i <= eav@.len(),
            rows_distinct(out@),
            forall|t: (int, int, Val)|
                #[trigger] rows_have(out@, t) == (rows_have(eav@.take(i as int), t) && is_replaced(
                    t,
                    adds@,
                    *schema,
                )),
        decreases eav@.len() - i,
    {
        proof {
            lemma_rows_take_step(eav@, i as int);
        }
        let row = &eav[i];
        if has_replacing_add(adds, row.e, row.a, &row.v, schema) {
            if !rows_contains(&out, row.e, row.a, &row.v) {
                let rc = row.clone();
                proof {
                    lemma_rows_push(out@, rc);
                    assert(rc.key() == eav@[i as int].key());
                }
                out.push(rc);
            }
        }
        i = i + 1;
    }
    proof {
        assert(eav@.take(eav@.len() as int) =~= eav@);
    }
    out
}

/// The union of two retract lists, stated once each.
pub fn union_rows(a: Vec<Eav>, b: Vec<Eav>) -> (r: Vec<Eav>)
    requires
        rows_distinct(a@),
    ensures
        rows_distinct(r@),
        forall|t: (int, int, Val)|
            #[trigger] rows_have(r@, t) == (rows_have(a@, t) || rows_have(b@, t)),
{
    let ghost av = a@;
    let ghost orig = b@;
    let mut out = a;
    let mut pending = b;
    while pending.len() > 0
        invariant
            pending@.len() <= orig.len(),
            pending@ == orig.skip(orig.len() - pending@.len()),
            rows_distinct(out@),
            forall|t: (int, int, Val)|
                #[trigger] rows_have(out@, t) == (rows_have(av, t) || rows_have(
                    orig.take(orig.len() - pending@.len()),
                    t,
                )),
        decreases pending@.len(),
    {
        let ghost k = orig.len() - pending@.len();
        proof {
            assert(pending@[0] == orig[k]);
            assert(orig.skip(k).drop_first() =~= orig.skip(k + 1));
            lemma_rows_take_step(orig, k);
        }
        let row = pending.remove(0);
        if !rows_contains(&out, row.e, row.a, &row.v) {
            proof {
                lemma_rows_push(out@, row);
            }
            out.push(row);
        }
    }
    proof {
        assert(orig.take(orig.len() as int) =~= orig);
        assert(orig.take(0) =~= Seq::<Eav>::empty());
    }
    out
}

/// Apply effective retracts and adds to the current state.
pub fn apply_rows(eav: &Vec<Eav>, retracts: &Vec<Eav>, adds: &Vec<Eav>) -> (r: Vec<Eav>)
    requires
        rows_distinct(eav@),
        rows_distinct(adds@),
        forall|t: (int, int, Val)| rows_have(adds@, t) ==> !rows_have(eav@, t),
    ensures
        rows_distinct(r@),
        forall|t: (int, int, Val)|
            #[trigger] rows_have(r@, t) == ((rows_have(eav@, t) && !rows_have(retracts@, t))
                || rows_have(adds@, t)),
{
    let mut out: Vec<Eav> = Vec::new();
    let mut i: usize = 0;
    while i < eav.len()
        invariant
            rows_distinct(eav@),
            i <= eav@.len(),
            rows_distinct(out@),
            forall|t: (int, int, Val)|
                #[trigger] rows_have(out@, t) == (rows_have(eav@.take(i as int), t) && !rows_have(
                    retracts@,
                    t,
                )),
        decreases eav@.len() - i,
    {
        proof {
            lemma_rows_take_step(eav@, i as int);
        }
        let row = &eav[i];
        if !rows_contains(retracts, row.e, row.a, &row.v) {
            if !rows_contains(&out, row.e, row.a, &row.v) {
                let rc = row.clone();
                proof {
                    lemma_rows_push(out@, rc);
                    assert(rc.key() == eav@[i as int].key());
                }
                out.push(rc);
            }
        }
        i = i + 1;
    }
    proof {
        assert(eav@.take(eav@.len() as int) =~= eav@);
    }
    let ghost kept = out@;
    let mut i: usize = 0;
    while i < adds.len()
        invariant
            rows_distinct(eav@),
            rows_distinct(adds@),
            forall|t: (int, int, Val)| rows_have(adds@, t) ==> !rows_have(eav@, t),
            forall|t: (int, int, Val)|
                #[trigger] rows_have(kept, t) == (rows_have(eav@, t) && !rows_have(retracts@, t)),
            i <= adds@.len(),
            rows_distinct(out@),
            forall|t: (int, int, Val)|
                #[trigger] rows_have(out@, t) == (rows_have(kept, t) || rows_have(
                    adds@.take(i as int),
                    t,
                )),
        decreases adds@.len() - i,
    {
        proof {
            lemma_rows_take_step(adds@, i as int);
        }
        let row = &adds[i];
        let rc = row.clone();
        proof {
            assert(rc.key() == adds@[i as int].key());
            assert(rows_have(adds@, rc.key())) by {
                assert(adds@[i as int].key() == rc.key());
            }
            assert(!rows_have(out@, rc.key())) by {
                if rows_have(kept, rc.key()) {
                    assert(rows_have(eav@, rc.key()));
                }
                if rows_have(adds@.take(i as int), rc.key()) {
                    let j = choose|j: int|
                        0 <= j < i && adds@.take(i as int)[j].key() == rc.key();
                    assert(adds@[j].key() == adds@[i as int].key());
                }
            }
            lemma_rows_push(out@, rc);
        }
        out.push(rc);
        i = i + 1;
    }
    proof {
        assert(adds@.take(adds@.len() as int) =~= adds@);
    }
    out
}

} // verus!

verus! {

/// The adds that actually take effect: those not already in the store,
/// stated once.
pub fn effective_adds(adds: &Vec<Eav>, eav: &Vec<Eav>) -> (r: Vec<Eav>)
    requires
        rows_distinct(adds@),
    ensures
        rows_distinct(r@),
        forall|t: (int, int, Val)|
            #[trigger] rows_have(r@, t) == (rows_have(adds@, t) && !rows_have(eav@, t)),
{
    let mut out: Vec<Eav> = Vec::new();
    let mut i: usize = 0;
    while i < adds.len()
        invariant
            rows_distinct(adds@),
            i <= adds@.len(),
            rows_distinct(out@),
            forall|t: (int, int, Val)|
                #[trigger] rows_have(out@, t) == (rows_have(adds@.take(i as int), t) && !rows_have(
                    eav@,
                    t,
                )),
        decreases adds@.len() - i,
    {
        proof {
            lemma_rows_take_step(adds@, i as int);
        }
        let row = &adds[i];
        if !rows_contains(eav, row.e, row.a, &row.v) {
            if !rows_contains(&out, row.e, row.a, &row.v) {
                let rc = row.clone();
                proof {
                    lemma_rows_push(out@, rc);
                    assert(rc.key() == adds@[i as int].key());
                }
                out.push(rc);
            }
        }
        i = i + 1;
    }
    proof {
        assert(adds@.take(adds@.len() as int) =~= adds@);
    }
    out
}

/// The intra-batch cardinality property only depends on which triples are
/// present: it transfers to any list holding a subset of the triples.
pub proof fn lemma_card_subset(sub: Seq<Eav>, sup: Seq<Eav>, schema: Schema)
    requires
        forall|t: (int, int, Val)| rows_have(sub, t) ==> rows_have(sup, t),
        no_card_conflict(sup, schema),
    ensures
        no_card_conflict(sub, schema),
{
    assert forall|i: int, j: int|
        0 <= i < sub.len() && 0 <= j < sub.len() && (#[trigger] sub[i]).e == (#[trigger] sub[j]).e
            && sub[i].a == sub[j].a && keyed_has(schema.schema_map@, sub[i].a) && !keyed_get(
            schema.schema_map@,
            sub[i].a,
        ).multival implies sub[i].v@ == sub[j].v@ by {
        assert(rows_have(sub, sub[i].key()));
        assert(rows_have(sub, sub[j].key()));
        let p = choose|p: int| 0 <= p < sup.len() && sup[p].key() == sub[i].key();
        let q = choose|q: int| 0 <= q < sup.len() && sup[q].key() == sub[j].key();
        assert(sup[p].e == sub[i].e && sup[p].a == sub[i].a && sup[p].v@ == sub[i].v@);
        assert(sup[q].e == sub[j].e && sup[q].a == sub[j].a && sup[q].v@ == sub[j].v@);
    }
}

/// The uniqueness property likewise transfers to subsets.
pub proof fn lemma_unique_subset(sub: Seq<Eav>, sup: Seq<Eav>, eav: Seq<Eav>, schema: Schema)
    requires
        forall|t: (int, int, Val)| rows_have(sub, t) ==> rows_have(sup, t),
        no_unique_violation(sup, eav, schema),
    ensures
        no_unique_violation(sub, eav, schema),
{
    assert forall|i: int, j: int|
        0 <= i < sub.len() && 0 <= j < sub.len() && (#[trigger] sub[i]).a == (#[trigger] sub[j]).a
            && sub[i].v@ == sub[j].v@ && keyed_has(schema.schema_map@, sub[i].a) && (keyed_get(
            schema.schema_map@,
            sub[i].a,
        ).unique_value || keyed_get(schema.schema_map@, sub[i].a).unique_identity) implies sub[i].e
        == sub[j].e by {
        assert(rows_have(sub, sub[i].key()));
        assert(rows_have(sub, sub[j].key()));
        let p = choose|p: int| 0 <= p < sup.len() && sup[p].key() == sub[i].key();
        let q = choose|q: int| 0 <= q < sup.len() && sup[q].key() == sub[j].key();
        assert(sup[p].e == sub[i].e && sup[p].a == sub[i].a && sup[p].v@ == sub[i].v@);
        assert(sup[q].e == sub[j].e && sup[q].a == sub[j].a && sup[q].v@ == sub[j].v@);
    }
    assert forall|i: int, j: int|
        0 <= i < sub.len() && 0 <= j < eav.len() && (#[trigger] sub[i]).a == (#[trigger] eav[j]).a
            && sub[i].v@ == eav[j].v@ && keyed_has(schema.schema_map@, sub[i].a) && (keyed_get(
            schema.schema_map@,
            sub[i].a,
        ).unique_value || keyed_get(schema.schema_map@, sub[i].a).unique_identity) implies sub[i].e
        == eav[j].e by {
        assert(rows_have(sub, sub[i].key()));
        let p = choose|p: int| 0 <= p < sup.len() && sup[p].key() == sub[i].key();
        assert(sup[p].e == sub[i].e && sup[p].a == sub[i].a && sup[p].v@ == sub[i].v@);
    }
}

/// Knowing every attribute likewise transfers to subsets.
pub proof fn lemma_attrs_known_subset(sub: Seq<Eav>, sup: Seq<Eav>, schema: Schema)
    requires
        forall|t: (int, int, Val)| rows_have(sub, t) ==> rows_have(sup, t),
        rows_attrs_known(sup, schema),
    ensures
        rows_attrs_known(sub, schema),
{
    assert forall|i: int|
        0 <= i < sub.len() implies keyed_has(schema.schema_map@, (#[trigger] sub[i]).a) by {
        assert(rows_have(sub, sub[i].key()));
        let p = choose|p: int| 0 <= p < sup.len() && sup[p].key() == sub[i].key();
        assert(sup[p].a == sub[i].a);
    }
}

/// Replacement transfers across lists holding the same triples, and to
/// subsets in the forward direction.
pub proof fn lemma_is_replaced_mono(
    t: (int, int, Val),
    sub: Seq<Eav>,
    sup: Seq<Eav>,
    schema: Schema,
)
    requires
        forall|u: (int, int, Val)| rows_have(sub, u) ==> rows_have(sup, u),
        is_replaced(t, sub, schema),
    ensures
        is_replaced(t, sup, schema),
{
    let i = choose|i: int|
        0 <= i < sub.len() && (#[trigger] sub[i]).e == t.0 && sub[i].a == t.1 && keyed_has(
            schema.schema_map@,
            sub[i].a,
        ) && !keyed_get(schema.schema_map@, sub[i].a).multival && sub[i].v@ != t.2;
    assert(rows_have(sub, sub[i].key()));
    let p = choose|p: int| 0 <= p < sup.len() && sup[p].key() == sub[i].key();
    assert(sup[p].e == sub[i].e && sup[p].a == sub[i].a && sup[p].v@ == sub[i].v@);
}

/// Applying a checked batch preserves the store-level cardinality and
/// uniqueness guarantees.
#[verifier::rlimit(60)]
pub proof fn lemma_apply_preserves_invariants(
    eav: Seq<Eav>,
    schema: Schema,
    adds: Seq<Eav>,
    retracts: Seq<Eav>,
    new_eav: Seq<Eav>,
)
    requires
        rows_distinct(eav),
        rows_card_one_ok(eav, schema),
        rows_unique_ok(eav, schema),
        rows_attrs_known(eav, schema),
        rows_distinct(adds),
        rows_attrs_known(adds, schema),
        no_card_conflict(adds, schema),
        no_unique_violation(adds, eav, schema),
        forall|t: (int, int, Val)| rows_have(adds, t) ==> !rows_have(eav, t),
        forall|t: (int, int, Val)|
            rows_have(eav, t) && is_replaced(t, adds, schema) ==> rows_have(retracts, t),
        rows_distinct(new_eav),
        forall|t: (int, int, Val)|
            #[trigger] rows_have(new_eav, t) == ((rows_have(eav, t) && !rows_have(retracts, t))
                || rows_have(adds, t)),
    ensures
        rows_card_one_ok(new_eav, schema),
        rows_unique_ok(new_eav, schema),
        rows_attrs_known(new_eav, schema),
{
    assert forall|i: int|
        0 <= i < new_eav.len() implies keyed_has(schema.schema_map@, (#[trigger] new_eav[i]).a) by {
        let t = new_eav[i].key();
        assert(rows_have(new_eav, t));
        if rows_have(eav, t) && !rows_have(retracts, t) {
            let p = choose|p: int| 0 <= p < eav.len() && eav[p].key() == t;
            assert(eav[p].a == new_eav[i].a);
        } else {
            let p = choose|p: int| 0 <= p < adds.len() && adds[p].key() == t;
            assert(adds[p].a == new_eav[i].a);
        }
    }
    assert forall|i: int, j: int|
        0 <= i < new_eav.len() && 0 <= j < new_eav.len() && i != j && (#[trigger] new_eav[i]).e == (
        #[trigger] new_eav[j]).e && new_eav[i].a == new_eav[j].a && keyed_has(
            schema.schema_map@,
            new_eav[i].a,
        ) implies keyed_get(schema.schema_map@, new_eav[i].a).multival by {
        if !keyed_get(schema.schema_map@, new_eav[i].a).multival {
            let ti = new_eav[i].key();
            let tj = new_eav[j].key();
            assert(ti != tj);
            assert(ti.2 != tj.2);
            assert(rows_have(new_eav, ti));
            assert(rows_have(new_eav, tj));
            let i_from_adds = rows_have(adds, ti);
            let j_from_adds = rows_have(adds, tj);
            if i_from_adds && j_from_adds {
                let p = choose|p: int| 0 <= p < adds.len() && adds[p].key() == ti;
                let q = choose|q: int| 0 <= q < adds.len() && adds[q].key() == tj;
                assert(adds[p].e == adds[q].e && adds[p].a == adds[q].a);
                assert(adds[p].v@ == adds[q].v@);
                assert(false);
            } else if i_from_adds && !j_from_adds {
                assert(rows_have(eav, tj) && !rows_have(retracts, tj));
                let p = choose|p: int| 0 <= p < adds.len() && adds[p].key() == ti;
                assert(is_replaced(tj, adds, schema)) by {
                    assert(adds[p].e == tj.0 && adds[p].a == tj.1);
                    assert(adds[p].v@ != tj.2);
                }
                assert(rows_have(retracts, tj));
                assert(false);
            } else if !i_from_adds && j_from_adds {
                assert(rows_have(eav, ti) && !rows_have(retracts, ti));
                let p = choose|p: int| 0 <= p < adds.len() && adds[p].key() == tj;
                assert(is_replaced(ti, adds, schema)) by {
                    assert(adds[p].e == ti.0 && adds[p].a == ti.1);
                    assert(adds[p].v@ != ti.2);
                }
                assert(rows_have(retracts, ti));
                assert(false);
            } else {
                assert(rows_have(eav, ti) && rows_have(eav, tj));
                let p = choose|p: int| 0 <= p < eav.len() && eav[p].key() == ti;
                let q = choose|q: int| 0 <= q < eav.len() && eav[q].key() == tj;
                assert(p != q);
                assert(eav[p].e == eav[q].e && eav[p].a == eav[q].a);
                assert(keyed_get(schema.schema_map@, eav[p].a).multival);
                assert(false);
            }
        }
    }
    assert forall|i: int, j: int|
        0 <= i < new_eav.len() && 0 <= j < new_eav.len() && (#[trigger] new_eav[i]).a == (
        #[trigger] new_eav[j]).a && new_eav[i].v@ == new_eav[j].v@ && keyed_has(
            schema.schema_map@,
            new_eav[i].a,
        ) && (keyed_get(schema.schema_map@, new_eav[i].a).unique_value || keyed_get(
            schema.schema_map@,
            new_eav[i].a,
        ).unique_identity) implies new_eav[i].e == new_eav[j].e by {
        let ti = new_eav[i].key();
        let tj = new_eav[j].key();
        assert(rows_have(new_eav, ti));
        assert(rows_have(new_eav, tj));
        let i_from_adds = rows_have(adds, ti);
        let j_from_adds = rows_have(adds, tj);
        if i_from_adds && j_from_adds {
            let p = choose|p: int| 0 <= p < adds.len() && adds[p].key() == ti;
            let q = choose|q: int| 0 <= q < adds.len() && adds[q].key() == tj;
            assert(adds[p].a == adds[q].a && adds[p].v@ == adds[q].v@);
            assert(adds[p].e == adds[q].e);
        } else if i_from_adds && !j_from_adds {
            assert(rows_have(eav, tj));
            let p = choose|p: int| 0 <= p < adds.len() && adds[p].key() == ti;
            let q = choose|q: int| 0 <= q < eav.len() && eav[q].key() == tj;
            assert(adds[p].a == eav[q].a && adds[p].v@ == eav[q].v@);
            assert(adds[p].e == eav[q].e);
        } else if !i_from_adds && j_from_adds {
            assert(rows_have(eav, ti));
            let p = choose|p: int| 0 <= p < adds.len() && adds[p].key() == tj;
            let q = choose|q: int| 0 <= q < eav.len() && eav[q].key() == ti;
            assert(adds[p].a == eav[q].a && adds[p].v@ == eav[q].v@);
            assert(adds[p].e == eav[q].e);
        } else {
            assert(rows_have(eav, ti) && rows_have(eav, tj));
            let p = choose|p: int| 0 <= p < eav.len() && eav[p].key() == ti;
            let q = choose|q: int| 0 <= q < eav.len() && eav[q].key() == tj;
            assert(eav[p].a == eav[q].a && eav[p].v@ == eav[q].v@);
            assert(eav[p].e == eav[q].e);
        }
    }
}

} // verus!

verus! {

/// Check a batch of raw adds and retracts against the current state and
/// compute its effect.
///
/// On success returns the new current state, the effective additions (raw
/// adds not already present, stated once) and the effective retractions
/// (raw retracts of present triples that no add overrides, together with
/// the synthetic retracts of the cardinality-one replacement rule).
///
/// Fails with `CardinalityConflict` exactly when two adds give one
/// cardinality-one `(e, a)` two distinct values, and with
/// `UniquenessViolation` exactly when an add claims a unique `(a, v)`
/// already naming a different entity, in the batch or in the store.
#[verifier::rlimit(60)]
pub fn process_batch(
    eav: &Vec<Eav>,
    schema: &Schema,
    adds_raw: Vec<Eav>,
    retracts_raw: Vec<Eav>,
) -> (r: Result<(Vec<Eav>, Vec<Eav>, Vec<Eav>), ErrorKind>)
    requires
        schema.wf(),
        rows_distinct(eav@),
        rows_card_one_ok(eav@, *schema),
        rows_unique_ok(eav@, *schema),
        rows_attrs_known(eav@, *schema),
        rows_attrs_known(adds_raw@, *schema),
    ensures
        r is Ok <==> (no_card_conflict(adds_raw@, *schema) && no_unique_violation(
            adds_raw@,
            eav@,
            *schema,
        )),
        match r {
            Ok(res) => {
                &&& rows_distinct(res.0@)
                &&& rows_card_one_ok(res.0@, *schema)
                &&& rows_unique_ok(res.0@, *schema)
                &&& rows_attrs_known(res.0@, *schema)
                &&& rows_distinct(res.1@)
                &&& rows_distinct(res.2@)
                &&& forall|t: (int, int, Val)|
                    #[trigger] rows_have(res.1@, t) == (rows_have(adds_raw@, t) && !rows_have(
                        eav@,
                        t,
                    ))
                &&& forall|t: (int, int, Val)|
                    #[trigger] rows_have(res.2@, t) == ((rows_have(retracts_raw@, t) && rows_have(
                        eav@,
                        t,
                    ) && !rows_have(adds_raw@, t)) || (rows_have(eav@, t) && is_replaced(
                        t,
                        adds_raw@,
                        *schema,
                    )))
                &&& forall|t: (int, int, Val)|
                    #[trigger] rows_have(res.0@, t) == ((rows_have(eav@, t) && !rows_have(
                        res.2@,
                        t,
                    )) || rows_have(res.1@, t))
            },
            Err(k) => (k is CardinalityConflict && !no_card_conflict(adds_raw@, *schema)) || (
            k is UniquenessViolation && !no_unique_violation(adds_raw@, eav@, *schema)),
        },
{
    let ghost raw = adds_raw@;
    let adds_d = dedup_rows(adds_raw);
    match find_card_conflict(&adds_d, schema) {
        Some((e, a)) => {
            proof {
                if no_card_conflict(raw, *schema) {
                    lemma_card_subset(adds_d@, raw, *schema);
                }
            }
            return Err(ErrorKind::CardinalityConflict(e, a));
        },
        None => {},
    }
    match find_unique_violation(&adds_d, eav, schema) {
        Some((a, e_old, e_new)) => {
            proof {
                if no_unique_violation(raw, eav@, *schema) {
                    lemma_unique_subset(adds_d@, raw, eav@, *schema);
                }
                lemma_card_subset(raw, adds_d@, *schema);
            }
            return Err(ErrorKind::UniquenessViolation(a, e_old, e_new));
        },
        None => {},
    }
    proof {
        lemma_card_subset(raw, adds_d@, *schema);
        lemma_unique_subset(raw, adds_d@, eav@, *schema);
        lemma_attrs_known_subset(adds_d@, raw, *schema);
    }
    let a_eff = effective_adds(&adds_d, eav);
    let syn = synthetic_retracts(&adds_d, eav, schema);
    let r_expl = effective_retracts(retracts_raw, &adds_d, eav);
    let r_eff = union_rows(r_expl, syn);
    let new_eav = apply_rows(eav, &r_eff, &a_eff);
    proof {
        lemma_card_subset(a_eff@, adds_d@, *schema);
        lemma_unique_subset(a_eff@, adds_d@, eav@, *schema);
        lemma_attrs_known_subset(a_eff@, adds_d@, *schema);
        assert forall|t: (int, int, Val)|
            rows_have(eav@, t) && is_replaced(t, a_eff@, *schema) implies rows_have(r_eff@, t) by {
            lemma_is_replaced_mono(t, a_eff@, adds_d@, *schema);
        }
        lemma_apply_preserves_invariants(eav@, *schema, a_eff@, r_eff@, new_eav@);
        assert forall|t: (int, int, Val)| #[trigger]
            rows_have(r_eff@, t) == ((rows_have(retracts_raw@, t) && rows_have(eav@, t)
                && !rows_have(raw, t)) || (rows_have(eav@, t) && is_replaced(
                t,
                raw,
                *schema,
            ))) by {
            if rows_have(eav@, t) && is_replaced(t, raw, *schema) {
                lemma_is_replaced_mono(t, raw, adds_d@, *schema);
            }
            if rows_have(eav@, t) && is_replaced(t, adds_d@, *schema) {
                lemma_is_replaced_mono(t, adds_d@, raw, *schema);
            }
        }
    }
    Ok((new_eav, a_eff, r_eff))
}

} // verus!

verus! {

use crate::db::{check_schema_attr, is_schema_attr, LogDatom, MAIN_TIMELINE};
use crate::entities::{AttributePlace, EntidOrIdent, Entity, EntityPlace, OpType, TempId,
    TxFunction, ValuePlace};
use crate::internal_types::{LookupRefOrTempId, TempIdMap, Term, TermWithTempIds,
    TermWithTempIdsAndLookupRefs, TermWithoutTempIds};
use crate::keyed::keyed_distinct;
use crate::metadata::MetadataReport;
use crate::schema::Attribute;
use crate::types::{PartitionMap, TxReport, DB_IDENT, DB_TX_INSTANT, TX_PARTITION_START,
    USER_PARTITION_START};
use crate::upsert_resolution::Generation;
use crate::types::ValueType;

/// Resolve an entid-or-ident against the schema; a concrete entid stands
/// for itself.
fn resolve_entid_or_ident(schema: &Schema, x: &EntidOrIdent) -> (r: Result<Entid, ErrorKind>)
    requires
        schema.wf(),
    ensures
        x matches EntidOrIdent::Entid(e) ==> r == Ok::<Entid, ErrorKind>(*e),
{
    match x {
        EntidOrIdent::Entid(e) => Ok(*e),
        EntidOrIdent::Ident(s) => {
            match schema.get_entid(s) {
                Some(e) => Ok(e),
                None => Err(ErrorKind::UnrecognizedIdent(s.clone())),
            }
        },
    }
}

/// Resolve a transaction function to its value: only `(transaction-tx)` is
/// known, and it names the current transaction.
fn resolve_tx_function(f: &TxFunction, tx: Entid) -> (r: Result<Entid, ErrorKind>)
    ensures
        r is Ok <==> f.op@ == "transaction-tx"@,
        r is Ok ==> r->Ok_0 == tx,
{
    if f.op.eq(&String::from_str("transaction-tx")) {
        Ok(tx)
    } else {
        Err(ErrorKind::NotYetImplemented(String::from_str("unknown transaction function")))
    }
}

/// Check that every row's attribute is in the schema.
fn check_rows_attrs(rows: &Vec<Eav>, schema: &Schema) -> (r: Result<(), ErrorKind>)
    requires
        schema.wf(),
    ensures
        r is Ok ==> rows_attrs_known(rows@, *schema),
{
    let mut i: usize = 0;
    while i < rows.len()
        invariant
            schema.wf(),
            i <= rows@.len(),
            forall|j: int| 0 <= j < i ==> keyed_has(schema.schema_map@, (#[trigger] rows@[j]).a),
        decreases rows@.len() - i,
    {
        if schema.attribute_for_entid(rows[i].a).is_none() {
            return Err(ErrorKind::UnrecognizedEntid(rows[i].a));
        }
        i = i + 1;
    }
    Ok(())
}

} // verus!

verus! {

use crate::keyed::{find_entid, keyed_idx, lemma_keyed_idx_unique};
use crate::metadata::update_schema_map_from_entid_triples;

/// Copy an ident→entid style map; the copy binds the same keys to the same
/// entids.
fn copy_ident_map(src: &Vec<(String, Entid)>) -> (r: Vec<(String, Entid)>)
    ensures
        r@.len() == src@.len(),
        forall|i: int|
            0 <= i < src@.len() ==> (#[trigger] r@[i]).0@ == src@[i].0@ && r@[i].1 == src@[i].1,
{
    let mut out: Vec<(String, Entid)> = Vec::new();
    let mut i: usize = 0;
    while i < src.len()
        invariant
            i <= src@.len(),
            out@.len() == i,
            forall|j: int|
                0 <= j < i ==> (#[trigger] out@[j]).0@ == src@[j].0@ && out@[j].1 == src@[j].1,
        decreases src@.len() - i,
    {
        out.push((src[i].0.clone(), src[i].1));
        i = i + 1;
    }
    out
}

/// Copy an entid→ident style map.
fn copy_entid_map(src: &Vec<(Entid, String)>) -> (r: Vec<(Entid, String)>)
    ensures
        r@.len() == src@.len(),
        forall|i: int|
            0 <= i < src@.len() ==> (#[trigger] r@[i]).0 == src@[i].0 && r@[i].1@ == src@[i].1@,
{
    let mut out: Vec<(Entid, String)> = Vec::new();
    let mut i: usize = 0;
    while i < src.len()
        invariant
            i <= src@.len(),
            out@.len() == i,
            forall|j: int|
                0 <= j < i ==> (#[trigger] out@[j]).0 == src@[j].0 && out@[j].1@ == src@[j].1@,
        decreases src@.len() - i,
    {
        out.push((src[i].0, src[i].1.clone()));
        i = i + 1;
    }
    out
}

/// Copy the attribute catalog.
fn copy_schema_map(src: &Vec<(Entid, Attribute)>) -> (r: Vec<(Entid, Attribute)>)
    ensures
        r@ == src@,
{
    let mut out: Vec<(Entid, Attribute)> = Vec::new();
    let mut i: usize = 0;
    while i < src.len()
        invariant
            i <= src@.len(),
            out@ == src@.take(i as int),
        decreases src@.len() - i,
    {
        out.push(src[i]);
        proof {
            assert(out@ =~= src@.take(i + 1));
        }
        i = i + 1;
    }
    proof {
        assert(src@.take(src@.len() as int) =~= src@);
    }
    out
}

/// A binding-for-binding copy of a map binds the same keys to values with
/// the same views.
proof fn lemma_map_copy_equiv<K: View, V: View>(s1: Seq<(K, V)>, s2: Seq<(K, V)>)
    requires
        s1.len() == s2.len(),
        forall|i: int|
            0 <= i < s1.len() ==> (#[trigger] s1[i]).0@ == s2[i].0@ && s1[i].1@ == s2[i].1@,
    ensures
        forall|k: <K as View>::V| #[trigger] keyed_has(s1, k) == keyed_has(s2, k),
        forall|k: <K as View>::V|
            keyed_has(s1, k) && keyed_distinct(s1) && keyed_distinct(s2) ==> (#[trigger] keyed_get(
                s1,
                k,
            ))@ == keyed_get(s2, k)@,
        keyed_distinct(s1) == keyed_distinct(s2),
{
    assert forall|k: <K as View>::V| #[trigger] keyed_has(s1, k) == keyed_has(s2, k) by {
        if keyed_has(s1, k) {
            let i = keyed_idx(s1, k);
            assert(s2[i].0@ == k);
        }
        if keyed_has(s2, k) {
            let i = keyed_idx(s2, k);
            assert(s2[i].0@ == k);
            assert(s1[i].0@ == k);
        }
    }
    assert forall|k: <K as View>::V|
        keyed_has(s1, k) && keyed_distinct(s1) && keyed_distinct(s2) implies (#[trigger] keyed_get(
        s1,
        k,
    ))@ == keyed_get(s2, k)@ by {
        let i = keyed_idx(s1, k);
        assert(s2[i].0@ == k);
        lemma_keyed_idx_unique(s1, k, i);
        lemma_keyed_idx_unique(s2, k, i);
    }
    if keyed_distinct(s1) {
        assert forall|i: int, j: int| 0 <= i < j < s2.len() implies s2[i].0@ != s2[j].0@ by {
            assert(s1[i].0@ != s1[j].0@);
        }
    }
    if keyed_distinct(s2) {
        assert forall|i: int, j: int| 0 <= i < j < s1.len() implies s1[i].0@ != s1[j].0@ by {
            assert(s2[i].0@ != s2[j].0@);
        }
    }
}

/// Copy a schema; the copy is well-formed and binds the same idents.
fn copy_schema(src: &Schema) -> (r: Schema)
    requires
        src.wf(),
    ensures
        r.wf(),
        forall|k: Seq<char>| #[trigger] keyed_has(r.ident_map@, k) == keyed_has(src.ident_map@, k),
        forall|k: Seq<char>|
            keyed_has(src.ident_map@, k) ==> #[trigger] keyed_get(r.ident_map@, k) == keyed_get(
                src.ident_map@,
                k,
            ),
        forall|k: Entid| #[trigger] keyed_has(r.entid_map@, k) == keyed_has(src.entid_map@, k),
        r.schema_map@ == src.schema_map@,
{
    let entid_map = copy_entid_map(&src.entid_map);
    let ident_map = copy_ident_map(&src.ident_map);
    let schema_map = copy_schema_map(&src.schema_map);
    let r = Schema { entid_map, ident_map, schema_map };
    proof {
        lemma_map_copy_equiv(r.entid_map@, src.entid_map@);
        lemma_map_copy_equiv(r.ident_map@, src.ident_map@);
        assert(r.wf()) by {
            assert(keyed_distinct(r.entid_map@));
            assert(keyed_distinct(r.ident_map@));
            assert forall|i: int| 0 <= i < r.entid_map@.len() implies keyed_has(
                r.ident_map@,
                #[trigger] r.entid_map@[i].1@,
            ) && keyed_get(r.ident_map@, r.entid_map@[i].1@) == r.entid_map@[i].0 by {
                assert(src.entid_map@[i].1@ == r.entid_map@[i].1@);
                assert(keyed_has(src.ident_map@, src.entid_map@[i].1@));
                assert(keyed_get(src.ident_map@, src.entid_map@[i].1@) == src.entid_map@[i].0);
                assert((keyed_get(r.ident_map@, r.entid_map@[i].1@))@ == keyed_get(
                    src.ident_map@,
                    src.entid_map@[i].1@,
                )@);
            }
            assert forall|i: int| 0 <= i < r.ident_map@.len() implies keyed_has(
                r.entid_map@,
                #[trigger] r.ident_map@[i].1,
            ) && keyed_get(r.entid_map@, r.ident_map@[i].1)@ == r.ident_map@[i].0@ by {
                assert(src.ident_map@[i].1@ == r.ident_map@[i].1@);
                assert(r.ident_map@[i].1 == src.ident_map@[i].1);
                assert(keyed_has(src.entid_map@, src.ident_map@[i].1));
                assert((keyed_get(r.entid_map@, r.ident_map@[i].1))@ == keyed_get(
                    src.entid_map@,
                    src.ident_map@[i].1,
                )@);
            }
            assert forall|i: int| 0 <= i < r.schema_map@.len() implies keyed_has(
                r.entid_map@,
                (#[trigger] r.schema_map@[i]).0,
            ) by {
                assert(keyed_has(src.entid_map@, src.schema_map@[i].0));
            }
        }
        assert forall|k: Seq<char>|
            keyed_has(src.ident_map@, k) implies #[trigger] keyed_get(r.ident_map@, k)
            == keyed_get(src.ident_map@, k) by {
            let i = keyed_idx(src.ident_map@, k);
            lemma_keyed_idx_unique(src.ident_map@, k, i);
            assert(r.ident_map@[i].0@ == k);
            lemma_keyed_idx_unique(r.ident_map@, k, i);
        }
    }
    r
}

} // verus!

verus! {

/// Allocate one fresh entid from the bootstrap (db) partition.
fn allocate_db_entid(pm: &mut PartitionMap) -> (r: Result<Entid, ErrorKind>)
    requires
        old(pm).wf(),
    ensures
        final(pm).wf(),
        final(pm).user == old(pm).user,
        final(pm).tx == old(pm).tx,
        final(pm).db.start == old(pm).db.start,
        match r {
            Ok(e) => e == old(pm).db.index && final(pm).db.index == old(pm).db.index + 1,
            Err(_) => *final(pm) == *old(pm),
        },
{
    if pm.db.index < USER_PARTITION_START {
        let e = pm.db.allocate(1);
        Ok(e)
    } else {
        Err(ErrorKind::NotYetImplemented(String::from_str("bootstrap partition exhausted")))
    }
}

/// Allocate one fresh entid from the user partition.
fn allocate_user_entid(pm: &mut PartitionMap) -> (r: Result<Entid, ErrorKind>)
    requires
        old(pm).wf(),
    ensures
        final(pm).wf(),
        final(pm).db == old(pm).db,
        final(pm).tx == old(pm).tx,
        final(pm).user.start == old(pm).user.start,
        match r {
            Ok(e) => e == old(pm).user.index && final(pm).user.index == old(pm).user.index + 1,
            Err(_) => *final(pm) == *old(pm),
        },
{
    if pm.user.index < TX_PARTITION_START {
        let e = pm.user.allocate(1);
        Ok(e)
    } else {
        Err(ErrorKind::NotYetImplemented(String::from_str("user partition exhausted")))
    }
}

/// An external tempid's name; internal tempids are refused by this
/// transactor (they belong to the text parser, which is outside this core).
fn external_tempid(t: &TempId) -> (r: Result<String, ErrorKind>)
    ensures
        r matches Ok(s) ==> t@ == crate::entities::TempIdView::External(s@),
{
    match t {
        TempId::External(s) => Ok(s.clone()),
        TempId::Internal(_) => Err(
            ErrorKind::NotYetImplemented(String::from_str("internal tempids are parser-internal")),
        ),
    }
}

/// Find any tempid currently bound to the entid `n`.
fn tempid_bound_to(map: &TempIdMap, n: Entid) -> (r: Option<usize>)
    requires
        map.wf(),
    ensures
        match r {
            Some(i) => i < map.entries@.len() && map.entries@[i as int].1 == n,
            None => forall|i: int| 0 <= i < map.entries@.len() ==> (#[trigger] map.entries@[i]).1 != n,
        },
{
    let mut i: usize = 0;
    while i < map.entries.len()
        invariant
            i <= map.entries@.len(),
            forall|j: int| 0 <= j < i ==> (#[trigger] map.entries@[j]).1 != n,
        decreases map.entries@.len() - i,
    {
        if map.entries[i].1 == n {
            return Some(i);
        }
        i = i + 1;
    }
    None
}

/// Bind a tempid to an entid, refusing a second, different resolution for
/// the same tempid and refusing two distinct tempids resolving to the same
/// entid.
fn bind_tempid(map: &mut TempIdMap, t: &TempId, e: Entid) -> (r: Result<(), ErrorKind>)
    requires
        old(map).wf(),
    ensures
        final(map).wf(),
        forall|k: <TempId as View>::V|
            old(map).spec_has(k) ==> final(map).spec_has(k) && final(map).spec_get(k) == old(
                map,
            ).spec_get(k),
        r is Ok ==> final(map).spec_has(t@) && final(map).spec_get(t@) == e,
        r is Err ==> *final(map) == *old(map),
        final(map).entries@.len() <= old(map).entries@.len() + 1,
    {
    match map.get(t) {
        Some(existing) => {
            if existing == e {
                Ok(())
            } else {
                Err(ErrorKind::ConflictingUpserts(String::from_str(
                    "a tempid resolved to two distinct entids",
                )))
            }
        },
        None => {
            match tempid_bound_to(map, e) {
                Some(_) => Err(ErrorKind::ConflictingUpserts(String::from_str(
                    "two distinct tempids resolved to the same entid",
                ))),
                None => {
                    map.insert(t.clone(), e);
                    Ok(())
                },
            }
        },
    }
}

} // verus!

verus! {

/// Resolve the entity place of a schema-level assertion during the
/// pre-pass: a concrete entid, a bound ident, or a tempid that is
/// pre-allocated in the bootstrap partition (or upserts onto an existing
/// ident binding).
fn prepass_entity(
    schema2: &Schema,
    pm: &mut PartitionMap,
    map: &mut TempIdMap,
    e: &EntityPlace,
    upsert_target: Option<Entid>,
) -> (r: Result<Entid, ErrorKind>)
    requires
        schema2.wf(),
        old(pm).wf(),
        old(map).wf(),
    ensures
        final(pm).wf(),
        final(map).wf(),
        final(pm).user == old(pm).user,
        final(pm).tx == old(pm).tx,
        final(pm).db.start == old(pm).db.start,
        final(pm).db.index >= old(pm).db.index,
{
    match e {
        EntityPlace::Entid(x) => resolve_entid_or_ident(schema2, x),
        EntityPlace::TempId(t) => {
            let _name = external_tempid(t)?;
            match map.get(t) {
                Some(e) => Ok(e),
                None => {
                    let e = match upsert_target {
                        Some(existing) => existing,
                        None => allocate_db_entid(pm)?,
                    };
                    bind_tempid(map, t, e)?;
                    Ok(e)
                },
            }
        },
        EntityPlace::LookupRef(_) => Err(
            ErrorKind::NotYetImplemented(
                String::from_str("schema assertions cannot name their entity by lookup-ref"),
            ),
        ),
        EntityPlace::TxFunction(_) => Err(
            ErrorKind::NotYetImplemented(
                String::from_str("schema assertions cannot target the transaction"),
            ),
        ),
    }
}

/// The metadata pre-pass: apply `:db/ident` bindings and schema-attribute
/// assertions to a working copy of the schema, so that attributes installed
/// by this very transaction resolve for the rest of it.
#[verifier::loop_isolation(false)]
fn apply_metadata(
    db: &DB,
    schema2: &mut Schema,
    pm: &mut PartitionMap,
    map: &mut TempIdMap,
    entities: &Vec<Entity>,
) -> (r: Result<MetadataReport, ErrorKind>)
    requires
        old(schema2).wf(),
        old(pm).wf(),
        old(map).wf(),
    ensures
        final(pm).wf(),
        final(map).wf(),
        final(pm).user == old(pm).user,
        final(pm).tx == old(pm).tx,
        final(pm).db.start == old(pm).db.start,
        final(pm).db.index >= old(pm).db.index,
        r is Ok ==> final(schema2).wf(),
{
    // Ident bindings first, so installs can be named.
    let mut i: usize = 0;
    while i < entities.len()
        invariant
            schema2.wf(),
            pm.wf(),
            map.wf(),
            pm.user == old(pm).user,
            pm.tx == old(pm).tx,
            pm.db.start == old(pm).db.start,
            pm.db.index >= old(pm).db.index,
        decreases entities@.len() - i,
    {
        match &entities[i] {
            Entity::AddOrRetract { op, e, a, v } => {
                let a2 = resolve_entid_or_ident(
                    schema2,
                    match a {
                        AttributePlace::Entid(x) => x,
                    },
                )?;
                if a2 == DB_IDENT {
                    if matches!(op, OpType::Retract) {
                        return Err(
                            ErrorKind::BadSchemaAssertion(
                                String::from_str("idents cannot be retracted"),
                            ),
                        );
                    }
                    let s = match v {
                        ValuePlace::Atom(TypedValue::Keyword(s)) => s.clone(),
                        _ => {
                            return Err(
                                ErrorKind::BadSchemaAssertion(
                                    String::from_str("an ident must be a keyword"),
                                ),
                            );
                        },
                    };
                    let upsert_target = schema2.get_entid(&s);
                    let e2 = prepass_entity(schema2, pm, map, e, upsert_target)?;
                    schema2.bind_ident(e2, s)?;
                }
            },
            _ => {},
        }
        i = i + 1;
    }

    // Then the schema-attribute triples.
    let mut triples: Vec<(Entid, Entid, TypedValue)> = Vec::new();
    let mut i: usize = 0;
    while i < entities.len()
        invariant
            schema2.wf(),
            pm.wf(),
            map.wf(),
            pm.user == old(pm).user,
            pm.tx == old(pm).tx,
            pm.db.start == old(pm).db.start,
            pm.db.index >= old(pm).db.index,
        decreases entities@.len() - i,
    {
        match &entities[i] {
            Entity::AddOrRetract { op, e, a, v } => {
                let a2 = resolve_entid_or_ident(
                    schema2,
                    match a {
                        AttributePlace::Entid(x) => x,
                    },
                )?;
                if check_schema_attr(a2) {
                    if matches!(op, OpType::Retract) {
                        return Err(
                            ErrorKind::BadSchemaAssertion(
                                String::from_str("schema attributes cannot be retracted"),
                            ),
                        );
                    }
                    let e2 = prepass_entity(schema2, pm, map, e, None)?;
                    let v2 = match v {
                        ValuePlace::Atom(tv) => tv.clone(),
                        ValuePlace::Entid(x) => TypedValue::Ref(
                            resolve_entid_or_ident(schema2, x)?,
                        ),
                        _ => {
                            return Err(
                                ErrorKind::BadSchemaAssertion(
                                    String::from_str(
                                        "a schema assertion takes a plain value or a reference",
                                    ),
                                ),
                            );
                        },
                    };
                    triples.push((e2, a2, v2));
                }
            },
            _ => {},
        }
        i = i + 1;
    }

    let report = update_schema_map_from_entid_triples(&mut schema2.schema_map, &triples)?;

    // Every attribute must carry an ident; checking every catalog entry also
    // re-establishes the schema invariant tying the catalog to the idents.
    let mut i: usize = 0;
    while i < schema2.schema_map.len()
        invariant
            keyed_distinct(schema2.entid_map@),
            keyed_distinct(schema2.ident_map@),
            forall|j: int| 0 <= j < i ==> keyed_has(
                schema2.entid_map@,
                (#[trigger] schema2.schema_map@[j]).0,
            ),
        decreases schema2.schema_map@.len() - i,
    {
        match find_entid(&schema2.entid_map, schema2.schema_map[i].0) {
            Some(_) => {},
            None => {
                return Err(
                    ErrorKind::BadSchemaAssertion(
                        String::from_str("an attribute must carry an ident"),
                    ),
                );
            },
        }
        i = i + 1;
    }
    proof {
        assert(schema2.wf());
    }
    Ok(report)
}

} // verus!

verus! {

/// Resolve a lookup-ref's attribute: it must be a unique attribute, and
/// its value must fit the attribute's type.
fn build_lookup_ref(
    schema2: &Schema,
    lr: &crate::entities::LookupRef,
) -> (r: Result<crate::types::AVPair, ErrorKind>)
    requires
        schema2.wf(),
{
    let a = resolve_entid_or_ident(schema2, &lr.a)?;
    match schema2.attribute_for_entid(a) {
        Some(attr) => {
            if !attr.is_unique() {
                return Err(ErrorKind::NotUniqueAttribute(a));
            }
            let vt = lr.v.value_type();
            if !(vt == attr.value_type) {
                return Err(ErrorKind::ValueTypeMismatch(attr.value_type, vt));
            }
            Ok((a, lr.v.clone()))
        },
        None => Err(ErrorKind::UnrecognizedEntid(a)),
    }
}

/// Resolve an entity place into an entid or a hole.
fn build_entity_place(
    schema2: &Schema,
    pm: &PartitionMap,
    e: &EntityPlace,
    tx: Entid,
) -> (r: Result<crate::internal_types::EntidOr<LookupRefOrTempId>, ErrorKind>)
    requires
        schema2.wf(),
    ensures
        e matches EntityPlace::Entid(EntidOrIdent::Entid(x)) ==> (r is Ok ==> r->Ok_0
            == Ok::<Entid, LookupRefOrTempId>(*x)),
        e matches EntityPlace::TxFunction(_) ==> (r is Ok ==> r->Ok_0 == Ok::<
            Entid,
            LookupRefOrTempId,
        >(tx)),
{
    match e {
        EntityPlace::Entid(EntidOrIdent::Entid(x)) => {
            if pm.contains(*x) {
                Ok(Ok(*x))
            } else {
                Err(ErrorKind::UnrecognizedEntid(*x))
            }
        },
        EntityPlace::Entid(EntidOrIdent::Ident(s)) => {
            match schema2.get_entid(s) {
                Some(x) => Ok(Ok(x)),
                None => Err(ErrorKind::UnrecognizedIdent(s.clone())),
            }
        },
        EntityPlace::TempId(t) => {
            let _name = external_tempid(t)?;
            Ok(Err(LookupRefOrTempId::TempId(t.clone())))
        },
        EntityPlace::LookupRef(lr) => {
            let av = build_lookup_ref(schema2, lr)?;
            Ok(Err(LookupRefOrTempId::LookupRef(av)))
        },
        EntityPlace::TxFunction(f) => {
            let e = resolve_tx_function(f, tx)?;
            Ok(Ok(e))
        },
    }
}

/// Resolve a value place into a typed value or a hole, against the
/// attribute's declared value type.
fn build_value_place(
    schema2: &Schema,
    pm: &PartitionMap,
    attr: &Attribute,
    v: &ValuePlace,
    tx: Entid,
) -> (r: Result<crate::internal_types::TypedValueOr<LookupRefOrTempId>, ErrorKind>)
    requires
        schema2.wf(),
    ensures
        v matches ValuePlace::Atom(tv) ==> (r is Ok ==> (r->Ok_0 matches Ok(v2) && v2@ == tv@)),
{
    match v {
        ValuePlace::Atom(tv) => {
            let vt = tv.value_type();
            if !(vt == attr.value_type) {
                return Err(ErrorKind::ValueTypeMismatch(attr.value_type, vt));
            }
            Ok(Ok(tv.clone()))
        },
        ValuePlace::Entid(x) => {
            if !(matches!(attr.value_type, ValueType::Ref)) {
                return Err(ErrorKind::ValueTypeMismatch(attr.value_type, ValueType::Ref));
            }
            match x {
                EntidOrIdent::Entid(e) => {
                    if pm.contains(*e) {
                        Ok(Ok(TypedValue::Ref(*e)))
                    } else {
                        Err(ErrorKind::UnrecognizedEntid(*e))
                    }
                },
                EntidOrIdent::Ident(s) => {
                    match schema2.get_entid(s) {
                        Some(e) => Ok(Ok(TypedValue::Ref(e))),
                        None => Err(ErrorKind::UnrecognizedIdent(s.clone())),
                    }
                },
            }
        },
        ValuePlace::TempId(t) => {
            if !(matches!(attr.value_type, ValueType::Ref)) {
                return Err(ErrorKind::ValueTypeMismatch(attr.value_type, ValueType::Ref));
            }
            let _name = external_tempid(t)?;
            Ok(Err(LookupRefOrTempId::TempId(t.clone())))
        },
        ValuePlace::LookupRef(lr) => {
            if !(matches!(attr.value_type, ValueType::Ref)) {
                return Err(ErrorKind::ValueTypeMismatch(attr.value_type, ValueType::Ref));
            }
            let av = build_lookup_ref(schema2, lr)?;
            Ok(Err(LookupRefOrTempId::LookupRef(av)))
        },
        ValuePlace::TxFunction(f) => {
            if !(matches!(attr.value_type, ValueType::Ref)) {
                return Err(ErrorKind::ValueTypeMismatch(attr.value_type, ValueType::Ref));
            }
            let e = resolve_tx_function(f, tx)?;
            Ok(Ok(TypedValue::Ref(e)))
        },
    }
}

/// An input assertion whose places are already concrete: a raw-entid or
/// transaction-function entity, a raw-entid attribute and a plain value.
/// Such an assertion names its triple outright, so the driver's contract
/// can speak of it without resolution.
pub open spec fn plain_entity(ent: Entity, tx: Entid) -> Option<(OpType, Entid, Entid, TypedValue)> {
    match ent {
        Entity::AddOrRetract {
            op,
            e,
            a: AttributePlace::Entid(EntidOrIdent::Entid(a)),
            v: ValuePlace::Atom(v),
        } => {
            match e {
                EntityPlace::Entid(EntidOrIdent::Entid(x)) => Some((op, x, a, v)),
                EntityPlace::TxFunction(_) => Some((op, tx, a, v)),
                _ => None,
            }
        },
        _ => None,
    }
}

/// Is every input assertion plain: concrete entity and attribute places and
/// an atomic value, with no tempid, lookup-ref, ident, whole-entity or
/// whole-attribute retraction among them?  The inverse batch of a timeline
/// rewind has this shape, and for such inputs the transactor's effect on the
/// store is pinned exactly by the input triples.
pub open spec fn all_plain(entities: Seq<Entity>, tx: Entid) -> bool {
    forall|i: int| 0 <= i < entities.len() ==> plain_entity(#[trigger] entities[i], tx) is Some
}

/// Some input assertion is plain, carries the given operation, and speaks
/// exactly the given triple.
pub open spec fn plain_has(entities: Seq<Entity>, tx: Entid, op: OpType, t: (int, int, Val)) -> bool {
    exists|i: int|
        0 <= i < entities.len() && (plain_entity(#[trigger] entities[i], tx) matches Some(p)
            && p.0 == op && (p.1 as int, p.2 as int, p.3@) == t)
}

/// Some plain input assertion adds a value under the given entity and
/// attribute: on a cardinality-one attribute such an addition displaces
/// whatever value was current before.
pub open spec fn plain_replaces(entities: Seq<Entity>, tx: Entid, e: int, a: int) -> bool {
    exists|i: int|
        0 <= i < entities.len() && (plain_entity(#[trigger] entities[i], tx) matches Some(p)
            && p.0 == OpType::Add && p.1 as int == e && p.2 as int == a)
}

/// Lower the input entities into terms: resolve idents and transaction
/// functions, type-check values, and leave tempids and lookup-refs as
/// holes.  An assertion whose places are concrete lowers to exactly its
/// triple.
fn build_terms(
    schema2: &Schema,
    pm: &PartitionMap,
    entities: &Vec<Entity>,
    tx: Entid,
) -> (r: Result<Vec<TermWithTempIdsAndLookupRefs>, ErrorKind>)
    requires
        schema2.wf(),
    ensures
        r matches Ok(out) ==> out@.len() == entities@.len() && forall|i: int|
            0 <= i < entities@.len() ==> match plain_entity(#[trigger] entities@[i], tx) {
                Some(p) => out@[i] matches Term::AddOrRetract(op2, Ok(e2), a2, Ok(v2)) && op2
                    == p.0 && e2 == p.1 && a2 == p.2 && v2@ == p.3@,
                None => true,
            },
{
    let mut terms: Vec<TermWithTempIdsAndLookupRefs> = Vec::new();
    let mut i: usize = 0;
    while i < entities.len()
        invariant
            schema2.wf(),
            i <= entities@.len(),
            terms@.len() == i,
            forall|j: int|
                0 <= j < i ==> match plain_entity(#[trigger] entities@[j], tx) {
                    Some(p) => terms@[j] matches Term::AddOrRetract(op2, Ok(e2), a2, Ok(v2)) && op2
                        == p.0 && e2 == p.1 && a2 == p.2 && v2@ == p.3@,
                    None => true,
                },
        decreases entities@.len() - i,
    {
        match &entities[i] {
            Entity::AddOrRetract { op, e, a, v } => {
                let a2 = resolve_entid_or_ident(
                    schema2,
                    match a {
                        AttributePlace::Entid(x) => x,
                    },
                )?;
                let attr = match schema2.attribute_for_entid(a2) {
                    Some(attr) => attr,
                    None => {
                        return Err(ErrorKind::UnrecognizedEntid(a2));
                    },
                };
                let e2 = build_entity_place(schema2, pm, e, tx)?;
                let v2 = build_value_place(schema2, pm, &attr, v, tx)?;
                terms.push(Term::AddOrRetract(*op, e2, a2, v2));
            },
            Entity::RetractAttribute { e, a } => {
                let a2 = resolve_entid_or_ident(
                    schema2,
                    match a {
                        AttributePlace::Entid(x) => x,
                    },
                )?;
                if schema2.attribute_for_entid(a2).is_none() {
                    return Err(ErrorKind::UnrecognizedEntid(a2));
                }
                let e2 = build_entity_place(schema2, pm, e, tx)?;
                terms.push(Term::RetractAttribute(e2, a2));
            },
            Entity::RetractEntity { e } => {
                let e2 = build_entity_place(schema2, pm, e, tx)?;
                terms.push(Term::RetractEntity(e2));
            },
        }
        i = i + 1;
    }
    Ok(terms)
}

/// Resolve every lookup-ref hole against the store's unique index.  A term
/// with no holes passes through unchanged.
fn resolve_lookup_refs(db: &DB, terms: Vec<TermWithTempIdsAndLookupRefs>) -> (r: Result<
    Vec<TermWithTempIds>,
    ErrorKind,
>)
    ensures
        r matches Ok(out) ==> out@.len() == terms@.len() && forall|i: int|
            0 <= i < terms@.len() ==> match #[trigger] terms@[i] {
                Term::AddOrRetract(op, Ok(e), a, Ok(v)) => out@[i] == Term::AddOrRetract(
                    op,
                    Ok::<Entid, TempId>(e),
                    a,
                    Ok::<TypedValue, TempId>(v),
                ),
                _ => true,
            },
{
    let mut out: Vec<TermWithTempIds> = Vec::new();
    let mut pending = terms;
    let ghost orig = pending@;
    while pending.len() > 0
        invariant
            orig == terms@,
            pending@.len() <= orig.len(),
            pending@ == orig.skip(orig.len() - pending@.len()),
            out@.len() == orig.len() - pending@.len(),
            forall|i: int|
                0 <= i < out@.len() ==> match #[trigger] orig[i] {
                    Term::AddOrRetract(op, Ok(e), a, Ok(v)) => out@[i] == Term::AddOrRetract(
                        op,
                        Ok::<Entid, TempId>(e),
                        a,
                        Ok::<TypedValue, TempId>(v),
                    ),
                    _ => true,
                },
        decreases pending@.len(),
    {
        let ghost k = orig.len() - pending@.len();
        proof {
            assert(pending@[0] == orig[k]);
            assert(orig.skip(k).drop_first() =~= orig.skip(k + 1));
        }
        let term = pending.remove(0);
        let lowered: TermWithTempIds = match term {
            Term::AddOrRetract(op, e_or, a, v_or) => {
                let e2: crate::internal_types::EntidOr<TempId> = match e_or {
                    Ok(e) => Ok(e),
                    Err(LookupRefOrTempId::TempId(t)) => Err(t),
                    Err(LookupRefOrTempId::LookupRef(av)) => {
                        match db.lookup_unique(av.0, &av.1) {
                            Some(e) => Ok(e),
                            None => {
                                return Err(ErrorKind::UnresolvedLookupRef(av.0));
                            },
                        }
                    },
                };
                let v2: crate::internal_types::TypedValueOr<TempId> = match v_or {
                    Ok(v) => Ok(v),
                    Err(LookupRefOrTempId::TempId(t)) => Err(t),
                    Err(LookupRefOrTempId::LookupRef(av)) => {
                        match db.lookup_unique(av.0, &av.1) {
                            Some(e) => Ok(TypedValue::Ref(e)),
                            None => {
                                return Err(ErrorKind::UnresolvedLookupRef(av.0));
                            },
                        }
                    },
                };
                Term::AddOrRetract(op, e2, a, v2)
            },
            Term::RetractAttribute(e_or, a) => {
                let e2: crate::internal_types::EntidOr<TempId> = match e_or {
                    Ok(e) => Ok(e),
                    Err(LookupRefOrTempId::TempId(t)) => Err(t),
                    Err(LookupRefOrTempId::LookupRef(av)) => {
                        match db.lookup_unique(av.0, &av.1) {
                            Some(e) => Ok(e),
                            None => {
                                return Err(ErrorKind::UnresolvedLookupRef(av.0));
                            },
                        }
                    },
                };
                Term::RetractAttribute(e2, a)
            },
            Term::RetractEntity(e_or) => {
                let e2: crate::internal_types::EntidOr<TempId> = match e_or {
                    Ok(e) => Ok(e),
                    Err(LookupRefOrTempId::TempId(t)) => Err(t),
                    Err(LookupRefOrTempId::LookupRef(av)) => {
                        match db.lookup_unique(av.0, &av.1) {
                            Some(e) => Ok(e),
                            None => {
                                return Err(ErrorKind::UnresolvedLookupRef(av.0));
                            },
                        }
                    },
                };
                Term::RetractEntity(e2)
            },
        };
        out.push(lowered);
    }
    Ok(out)
}

} // verus!

verus! {

use crate::upsert_resolution::{tempids_contain, term_covered};

/// Run the upsert fixed point: probe the unique index for the pending
/// simple upserts, record their resolutions, and evolve until no upsert
/// remains.
fn run_upsert_resolution(db: &DB, gen: Generation, map: &mut TempIdMap) -> (r: Result<
    Generation,
    ErrorKind,
>)
    requires
        gen.wf(),
        old(map).wf(),
    ensures
        final(map).wf(),
        forall|k: <TempId as View>::V|
            old(map).spec_has(k) ==> final(map).spec_has(k) && final(map).spec_get(k) == old(
                map,
            ).spec_get(k),
        match r {
            Ok(g) => g.wf() && g.upserts_e@.len() == 0 && g.upserts_ev@.len() == 0 && g.inert@
                == gen.inert@,
            Err(k) => k is ConflictingUpserts,
        },
        (gen.upserts_e@.len() == 0 && gen.upserts_ev@.len() == 0) ==> (r matches Ok(g2) && g2
            == gen),
{
    let mut g = gen;
    loop
        invariant
            g.wf(),
            map.wf(),
            g.inert@ == gen.inert@,
            (gen.upserts_e@.len() == 0 && gen.upserts_ev@.len() == 0) ==> g == gen,
            forall|k: <TempId as View>::V|
                old(map).spec_has(k) ==> map.spec_has(k) && map.spec_get(k) == old(map).spec_get(
                    k,
                ),
        decreases 2 * g.upserts_ev@.len() + g.upserts_e@.len(),
    {
        if g.can_evolve() {
            let avs = g.temp_id_avs();
            let mut k: usize = 0;
            while k < avs.len()
                invariant
                    map.wf(),
                    !(gen.upserts_e@.len() == 0 && gen.upserts_ev@.len() == 0),
                    forall|kk: <TempId as View>::V|
                        old(map).spec_has(kk) ==> map.spec_has(kk) && map.spec_get(kk) == old(
                            map,
                        ).spec_get(kk),
                decreases avs@.len() - k,
            {
                let (t, av) = &avs[k];
                match db.lookup_unique(av.0, &av.1) {
                    Some(n) => {
                        match bind_tempid(map, t, n) {
                            Ok(()) => {},
                            Err(k2) => {
                                return Err(
                                    ErrorKind::ConflictingUpserts(
                                        String::from_str("conflicting upsert resolutions"),
                                    ),
                                );
                            },
                        }
                    },
                    None => {},
                }
                k = k + 1;
            }
            g = g.evolve_one_step(map);
        } else if g.upserts_ev.len() > 0 {
            g = g.evolve_one_step(map);
        } else {
            return Ok(g);
        }
    }
}

/// Allocate a fresh user-partition entid for every tempid still unresolved
/// after the fixed point.
fn allocate_temp_ids(pm: &mut PartitionMap, gen: &Generation, map: &mut TempIdMap) -> (r: Result<
    (),
    ErrorKind,
>)
    requires
        gen.wf(),
        old(pm).wf(),
        old(map).wf(),
    ensures
        final(pm).wf(),
        final(map).wf(),
        final(pm).db == old(pm).db,
        final(pm).tx == old(pm).tx,
        final(pm).user.start == old(pm).user.start,
        final(pm).user.index >= old(pm).user.index,
        forall|k: <TempId as View>::V|
            old(map).spec_has(k) ==> final(map).spec_has(k) && final(map).spec_get(k) == old(
                map,
            ).spec_get(k),
        r is Ok ==> gen.covered(*final(map)),
        final(pm).user.index - old(pm).user.index == final(map).entries@.len() - old(
            map,
        ).entries@.len(),
        forall|i: int|
            old(map).entries@.len() <= i < final(map).entries@.len() ==> old(pm).user.index <= (
            #[trigger] final(map).entries@[i]).1 < final(pm).user.index,
        forall|i: int|
            old(map).entries@.len() <= i < final(map).entries@.len()
                ==> crate::upsert_resolution::gen_has_tempid(
                *gen,
                (#[trigger] final(map).entries@[i]).0@,
            ),
        final(map).entries@.len() >= old(map).entries@.len(),
        forall|i: int|
            0 <= i < old(map).entries@.len() ==> (#[trigger] final(map).entries@[i]) == old(
                map,
            ).entries@[i],
{
    let unresolved = gen.temp_ids_iter();
    let mut i: usize = 0;
    while i < unresolved.len()
        invariant
            pm.wf(),
            map.wf(),
            forall|p: int|
                0 <= p < unresolved@.len() ==> crate::upsert_resolution::gen_has_tempid(
                    *gen,
                    (#[trigger] unresolved@[p])@,
                ),
            pm.db == old(pm).db,
            pm.tx == old(pm).tx,
            pm.user.start == old(pm).user.start,
            pm.user.index >= old(pm).user.index,
            i <= unresolved@.len(),
            forall|k: <TempId as View>::V|
                old(map).spec_has(k) ==> map.spec_has(k) && map.spec_get(k) == old(map).spec_get(
                    k,
                ),
            forall|j: int| 0 <= j < i ==> map.spec_has((#[trigger] unresolved@[j])@),
            pm.user.index - old(pm).user.index == map.entries@.len() - old(map).entries@.len(),
            map.entries@.len() >= old(map).entries@.len(),
            forall|j: int|
                old(map).entries@.len() <= j < map.entries@.len() ==> old(pm).user.index <= (
                #[trigger] map.entries@[j]).1 < pm.user.index,
            forall|j: int|
                old(map).entries@.len() <= j < map.entries@.len()
                    ==> crate::upsert_resolution::gen_has_tempid(
                    *gen,
                    (#[trigger] map.entries@[j]).0@,
                ),
            forall|j: int|
                0 <= j < old(map).entries@.len() ==> (#[trigger] map.entries@[j]) == old(
                    map,
                ).entries@[j],
        decreases unresolved@.len() - i,
    {
        let t = &unresolved[i];
        match map.get(t) {
            Some(_) => {},
            None => {
                let e = allocate_user_entid(pm)?;
                let tc = t.clone();
                map.insert(tc, e);
                proof {
                    assert(map.entries@.last().0@ == unresolved@[i as int]@);
                    assert(crate::upsert_resolution::gen_has_tempid(
                        *gen,
                        map.entries@.last().0@,
                    ));
                }
            },
        }
        i = i + 1;
    }
    proof {
        assert forall|j: int|
            0 <= j < gen.allocations_ev@.len() implies term_covered(
            #[trigger] gen.allocations_ev@[j],
            *map,
        ) by {
            match gen.allocations_ev@[j] {
                Term::AddOrRetract(_, e_or, _, v_or) => {
                    match e_or {
                        Err(t1) => {
                            let p = choose|p: int|
                                0 <= p < unresolved@.len() && unresolved@[p]@ == t1@;
                            assert(map.spec_has(unresolved@[p]@));
                        },
                        _ => {},
                    }
                    match v_or {
                        Err(t2) => {
                            let p = choose|p: int|
                                0 <= p < unresolved@.len() && unresolved@[p]@ == t2@;
                            assert(map.spec_has(unresolved@[p]@));
                        },
                        _ => {},
                    }
                },
                _ => {},
            }
        }
        assert forall|j: int|
            0 <= j < gen.allocations_e@.len() implies term_covered(
            #[trigger] gen.allocations_e@[j],
            *map,
        ) by {
            match gen.allocations_e@[j] {
                Term::AddOrRetract(_, e_or, _, _) => {
                    match e_or {
                        Err(t1) => {
                            let p = choose|p: int|
                                0 <= p < unresolved@.len() && unresolved@[p]@ == t1@;
                            assert(map.spec_has(unresolved@[p]@));
                        },
                        _ => {},
                    }
                },
                _ => {},
            }
        }
        assert forall|j: int|
            0 <= j < gen.allocations_v@.len() implies term_covered(
            #[trigger] gen.allocations_v@[j],
            *map,
        ) by {
            match gen.allocations_v@[j] {
                Term::AddOrRetract(_, _, _, v_or) => {
                    match v_or {
                        Err(t2) => {
                            let p = choose|p: int|
                                0 <= p < unresolved@.len() && unresolved@[p]@ == t2@;
                            assert(map.spec_has(unresolved@[p]@));
                        },
                        _ => {},
                    }
                },
                _ => {},
            }
        }
    }
    Ok(())
}

/// Does the entid list contain `e`?
pub fn entids_contain(v: &Vec<Entid>, e: Entid) -> (r: bool)
    ensures
        r == v@.contains(e),
{
    let mut i: usize = 0;
    while i < v.len()
        invariant
            i <= v@.len(),
            forall|j: int| 0 <= j < i ==> v@[j] != e,
        decreases v@.len() - i,
    {
        if v[i] == e {
            return true;
        }
        i = i + 1;
    }
    proof {
        if v@.contains(e) {
            let j = choose|j: int| 0 <= j < v@.len() && v@[j] == e;
        }
    }
    false
}

/// Does the term list assert the triple `t`?
pub open spec fn terms_add(terms: Seq<TermWithoutTempIds>, t: (int, int, Val)) -> bool {
    exists|i: int|
        0 <= i < terms.len() && match #[trigger] terms[i] {
            Term::AddOrRetract(OpType::Add, e, a, v) => (e as int, a as int, v@) == t,
            _ => false,
        }
}

/// Does the term list retract the triple `t` outright?
pub open spec fn terms_retract(terms: Seq<TermWithoutTempIds>, t: (int, int, Val)) -> bool {
    exists|i: int|
        0 <= i < terms.len() && match #[trigger] terms[i] {
            Term::AddOrRetract(OpType::Retract, e, a, v) => (e as int, a as int, v@) == t,
            _ => false,
        }
}

/// Does the term list hold a whole-entity or whole-attribute retraction?
pub open spec fn terms_expand(terms: Seq<TermWithoutTempIds>) -> bool {
    exists|i: int|
        0 <= i < terms.len() && ((#[trigger] terms[i]) matches Term::RetractAttribute(_, _)
            || terms[i] matches Term::RetractEntity(_))
}

/// Expand whole-entity and whole-attribute retractions against the current
/// state, following component attributes through cycles without looping.
/// Every plain addition lands among the raw adds and every plain retraction
/// among the raw retracts, and conversely every raw add is a term's
/// assertion, every raw retract a term's retraction or part of an
/// expansion.
#[verifier::loop_isolation(false)]
fn expand_terms(db: &DB, schema2: &Schema, terms: Vec<TermWithoutTempIds>) -> (r: (
    Vec<Eav>,
    Vec<Eav>,
))
    requires
        schema2.wf(),
    ensures
        forall|i: int|
            0 <= i < terms@.len() ==> match #[trigger] terms@[i] {
                Term::AddOrRetract(OpType::Add, e, a, v) => rows_have(
                    r.0@,
                    (e as int, a as int, v@),
                ),
                Term::AddOrRetract(OpType::Retract, e, a, v) => rows_have(
                    r.1@,
                    (e as int, a as int, v@),
                ),
                _ => true,
            },
        forall|q: int| 0 <= q < r.0@.len() ==> terms_add(terms@, (#[trigger] r.0@[q]).key()),
        forall|q: int|
            0 <= q < r.1@.len() ==> terms_retract(terms@, (#[trigger] r.1@[q]).key())
                || terms_expand(terms@),
{
    let mut adds: Vec<Eav> = Vec::new();
    let mut retracts: Vec<Eav> = Vec::new();
    let mut pending = terms;
    let ghost orig = pending@;
    while pending.len() > 0
        invariant
            orig == terms@,
            pending@.len() <= orig.len(),
            pending@ == orig.skip(orig.len() - pending@.len()),
            forall|i: int|
                0 <= i < orig.len() - pending@.len() ==> match #[trigger] orig[i] {
                    Term::AddOrRetract(OpType::Add, e, a, v) => rows_have(
                        adds@,
                        (e as int, a as int, v@),
                    ),
                    Term::AddOrRetract(OpType::Retract, e, a, v) => rows_have(
                        retracts@,
                        (e as int, a as int, v@),
                    ),
                    _ => true,
                },
            forall|q: int| 0 <= q < adds@.len() ==> terms_add(orig, (#[trigger] adds@[q]).key()),
            forall|q: int|
                0 <= q < retracts@.len() ==> terms_retract(orig, (#[trigger] retracts@[q]).key())
                    || terms_expand(orig),
        decreases pending@.len(),
    {
        let ghost k = orig.len() - pending@.len();
        let ghost adds0 = adds@;
        let ghost rets0 = retracts@;
        proof {
            assert(pending@[0] == orig[k]);
            assert(orig.skip(k).drop_first() =~= orig.skip(k + 1));
        }
        let term = pending.remove(0);
        match term {
            Term::AddOrRetract(OpType::Add, e, a, v) => {
                proof {
                    lemma_rows_push(adds@, Eav { e, a, v: v });
                }
                let row = Eav { e, a, v };
                proof {
                    assert(row.key() == (e as int, a as int, row.v@));
                }
                adds.push(row);
                proof {
                    assert(adds@.last().key() == match orig[k] {
                        Term::AddOrRetract(_, e2, a2, v2) => (e2 as int, a2 as int, v2@),
                        _ => (0int, 0int, Val::Long(0)),
                    });
                    assert(terms_add(orig, adds@.last().key()));
                    assert forall|q: int| 0 <= q < adds@.len() implies terms_add(
                        orig,
                        (#[trigger] adds@[q]).key(),
                    ) by {
                        if q < adds0.len() {
                            assert(adds@[q] == adds0[q]);
                        } else {
                            assert(adds@[q] == adds@.last());
                        }
                    }
                }
            },
            Term::AddOrRetract(OpType::Retract, e, a, v) => {
                let row = Eav { e, a, v };
                proof {
                    lemma_rows_push(retracts@, row);
                }
                retracts.push(row);
                proof {
                    assert(retracts@.last().key() == match orig[k] {
                        Term::AddOrRetract(_, e2, a2, v2) => (e2 as int, a2 as int, v2@),
                        _ => (0int, 0int, Val::Long(0)),
                    });
                    assert(terms_retract(orig, retracts@.last().key()));
                    assert forall|q: int| 0 <= q < retracts@.len() implies terms_retract(
                        orig,
                        (#[trigger] retracts@[q]).key(),
                    ) || terms_expand(orig) by {
                        if q < rets0.len() {
                            assert(retracts@[q] == rets0[q]);
                        } else {
                            assert(retracts@[q] == retracts@.last());
                        }
                    }
                }
            },
            Term::RetractAttribute(e, a) => {
                let mut j: usize = 0;
                while j < db.eav.len()
                    invariant
                        adds@ == adds0,
                        forall|t: (int, int, Val)|
                            rows_have(rets0, t) ==> rows_have(retracts@, t),
                        orig[k] matches Term::RetractAttribute(_, _),
                        rets0.len() <= retracts@.len(),
                        forall|q: int| 0 <= q < rets0.len() ==> retracts@[q] == rets0[q],
                        forall|q: int|
                            0 <= q < retracts@.len() ==> terms_retract(
                                orig,
                                (#[trigger] retracts@[q]).key(),
                            ) || terms_expand(orig),
                    decreases db.eav@.len() - j,
                {
                    if db.eav[j].e == e && db.eav[j].a == a {
                        let rc = db.eav[j].clone();
                        proof {
                            lemma_rows_push(retracts@, rc);
                        }
                        retracts.push(rc);
                        proof {
                            assert(terms_expand(orig)) by {
                                assert(orig[k] matches Term::RetractAttribute(_, _) || orig[k]
                                    matches Term::RetractEntity(_));
                            }
                        }
                    }
                    j = j + 1;
                }
            },
            Term::RetractEntity(e) => {
                // Compute the component closure of `e`: enough passes over
                // the index to reach a fixed point, visiting each entity at
                // most once.
                let mut reachable: Vec<Entid> = Vec::new();
                reachable.push(e);
                let mut pass: usize = 0;
                let bound = db.eav.len();
                while pass < bound
                    decreases bound - pass,
                {
                    let mut j: usize = 0;
                    while j < db.eav.len()
                        decreases db.eav@.len() - j,
                    {
                        let row = &db.eav[j];
                        if entids_contain(&reachable, row.e) {
                            match &row.v {
                                TypedValue::Ref(c) => {
                                    match schema2.attribute_for_entid(row.a) {
                                        Some(attr) => {
                                            if attr.component && !entids_contain(&reachable, *c) {
                                                reachable.push(*c);
                                            }
                                        },
                                        None => {},
                                    }
                                },
                                _ => {},
                            }
                        }
                        j = j + 1;
                    }
                    pass = pass + 1;
                }
                let mut j: usize = 0;
                while j < db.eav.len()
                    invariant
                        adds@ == adds0,
                        forall|t: (int, int, Val)|
                            rows_have(rets0, t) ==> rows_have(retracts@, t),
                        orig[k] matches Term::RetractEntity(_),
                        rets0.len() <= retracts@.len(),
                        forall|q: int| 0 <= q < rets0.len() ==> retracts@[q] == rets0[q],
                        forall|q: int|
                            0 <= q < retracts@.len() ==> terms_retract(
                                orig,
                                (#[trigger] retracts@[q]).key(),
                            ) || terms_expand(orig),
                    decreases db.eav@.len() - j,
                {
                    if entids_contain(&reachable, db.eav[j].e) {
                        let rc = db.eav[j].clone();
                        proof {
                            lemma_rows_push(retracts@, rc);
                        }
                        retracts.push(rc);
                        proof {
                            assert(terms_expand(orig)) by {
                                assert(orig[k] matches Term::RetractAttribute(_, _) || orig[k]
                                    matches Term::RetractEntity(_));
                            }
                        }
                    }
                    j = j + 1;
                }
            },
        }
        proof {
            assert forall|t: (int, int, Val)| rows_have(adds0, t) implies rows_have(
                adds@,
                t,
            ) by {
                if adds@ != adds0 {
                    assert(rows_have(adds@, t));
                }
            }
        }
    }
    (adds, retracts)
}

} // verus!

verus! {

use crate::datoms::{sort_datoms, Datom, DatomView};
use crate::db::log_suffix_has;

use crate::datoms::lemma_multiset_same_contains;

/// Turn effective adds and retracts into transaction datoms: retracts and
/// asserts carrying the transaction id.
fn batch_datoms(a_eff: &Vec<Eav>, r_eff: &Vec<Eav>, tx: Entid) -> (r: Vec<Datom>)
    ensures
        r@.len() == a_eff@.len() + r_eff@.len(),
        forall|i: int|
            0 <= i < a_eff@.len() ==> (#[trigger] r@[i])@ == (DatomView {
                e: a_eff@[i].e as int,
                a: a_eff@[i].a as int,
                v: a_eff@[i].v@,
                tx: tx as int,
                added: Some(true),
            }),
        forall|i: int|
            0 <= i < r_eff@.len() ==> (#[trigger] r@[a_eff@.len() + i])@ == (DatomView {
                e: r_eff@[i].e as int,
                a: r_eff@[i].a as int,
                v: r_eff@[i].v@,
                tx: tx as int,
                added: Some(false),
            }),
{
    let mut out: Vec<Datom> = Vec::new();
    let mut i: usize = 0;
    while i < a_eff.len()
        invariant
            i <= a_eff@.len(),
            out@.len() == i,
            forall|j: int|
                0 <= j < i ==> (#[trigger] out@[j])@ == (DatomView {
                    e: a_eff@[j].e as int,
                    a: a_eff@[j].a as int,
                    v: a_eff@[j].v@,
                    tx: tx as int,
                    added: Some(true),
                }),
        decreases a_eff@.len() - i,
    {
        out.push(
            Datom {
                e: a_eff[i].e,
                a: a_eff[i].a,
                v: a_eff[i].v.clone(),
                tx,
                added: Some(true),
            },
        );
        i = i + 1;
    }
    let mut i: usize = 0;
    while i < r_eff.len()
        invariant
            i <= r_eff@.len(),
            out@.len() == a_eff@.len() + i,
            forall|j: int|
                0 <= j < a_eff@.len() ==> (#[trigger] out@[j])@ == (DatomView {
                    e: a_eff@[j].e as int,
                    a: a_eff@[j].a as int,
                    v: a_eff@[j].v@,
                    tx: tx as int,
                    added: Some(true),
                }),
            forall|j: int|
                0 <= j < i ==> (#[trigger] out@[a_eff@.len() + j])@ == (DatomView {
                    e: r_eff@[j].e as int,
                    a: r_eff@[j].a as int,
                    v: r_eff@[j].v@,
                    tx: tx as int,
                    added: Some(false),
                }),
        decreases r_eff@.len() - i,
    {
        out.push(
            Datom {
                e: r_eff[i].e,
                a: r_eff[i].a,
                v: r_eff[i].v.clone(),
                tx,
                added: Some(false),
            },
        );
        i = i + 1;
    }
    out
}

/// Does a datom-view sequence hold a datom for `t` with the given polarity
/// and transaction?
pub open spec fn dviews_have(vs: Seq<DatomView>, added: bool, tx: int, t: (int, int, Val)) -> bool {
    vs.contains(DatomView { e: t.0, a: t.1, v: t.2, tx, added: Some(added) })
}

/// Copy the log, preserving every datom.
fn copy_log(src: &Vec<LogDatom>) -> (r: Vec<LogDatom>)
    ensures
        r@.len() == src@.len(),
        forall|i: int| 0 <= i < src@.len() ==> (#[trigger] r@[i])@ == src@[i]@,
{
    let mut out: Vec<LogDatom> = Vec::new();
    let mut i: usize = 0;
    while i < src.len()
        invariant
            i <= src@.len(),
            out@.len() == i,
            forall|j: int| 0 <= j < i ==> (#[trigger] out@[j])@ == src@[j]@,
        decreases src@.len() - i,
    {
        out.push(src[i].clone());
        i = i + 1;
    }
    out
}

/// Copy the current-state index, preserving every triple.
fn copy_eav(src: &Vec<Eav>) -> (r: Vec<Eav>)
    ensures
        r@.len() == src@.len(),
        forall|i: int| 0 <= i < src@.len() ==> (#[trigger] r@[i]).key() == src@[i].key(),
{
    let mut out: Vec<Eav> = Vec::new();
    let mut i: usize = 0;
    while i < src.len()
        invariant
            i <= src@.len(),
            out@.len() == i,
            forall|j: int| 0 <= j < i ==> (#[trigger] out@[j]).key() == src@[j].key(),
        decreases src@.len() - i,
    {
        out.push(src[i].clone());
        i = i + 1;
    }
    out
}

} // verus!

verus! {

use crate::db::rows_entities_allocated;

/// Apply a transaction: resolve the input entities, run the upsert fixed
/// point, allocate entids, enforce cardinality and uniqueness, apply
/// metadata mutations, stamp the transaction instant, and append the datoms.
///
/// On success the returned store extends the given one by exactly one
/// transaction whose id is the transaction partition's cursor; every new
/// assertion is genuinely new and every new retraction names a previously
/// current triple, and the new current state is the old one minus the
/// retractions plus the assertions.  On failure the given store is simply
/// not replaced: no partial application is possible.
#[verifier::rlimit(100)]
#[verifier::spinoff_prover]
#[verifier::loop_isolation(false)]
pub fn transact_entities(db: &DB, entities: Vec<Entity>, now: i64) -> (r: Result<
    (DB, TxReport),
    ErrorKind,
>)
    requires
        db.wf(),
        0 <= now < i64::MAX,
    ensures
        match r {
            Ok(res) => {
                let db2 = res.0;
                let report = res.1;
                let oldn = db.log@.len() as int;
                &&& db2.wf()
                &&& report.tx == db.partition_map.tx.index
                &&& db2.partition_map.tx.index == db.partition_map.tx.index + 1
                &&& db2.partition_map.tx.start == db.partition_map.tx.start
                &&& db2.partition_map.user.start == db.partition_map.user.start
                &&& db2.partition_map.user.index >= db.partition_map.user.index
                &&& db2.partition_map.db.start == db.partition_map.db.start
                &&& db2.partition_map.db.index >= db.partition_map.db.index
                &&& report.tx_instant == db2.last_tx_instant
                &&& db2.last_tx_instant > db.last_tx_instant
                &&& db2.log@.len() >= oldn
                &&& forall|i: int| 0 <= i < oldn ==> (#[trigger] db2.log@[i])@ == db.log@[i]@
                &&& forall|i: int|
                    0 <= i < oldn && (#[trigger] db.log@[i]).timeline == MAIN_TIMELINE
                        ==> db.log@[i].tx < report.tx
                &&& forall|i: int|
                    oldn <= i < db2.log@.len() ==> (#[trigger] db2.log@[i]).tx == report.tx
                        && db2.log@[i].timeline == MAIN_TIMELINE
                &&& forall|t: (int, int, Val)|
                    #[trigger] rows_have(db2.eav@, t) == ((rows_have(db.eav@, t) && !log_suffix_has(
                        db2.log@,
                        oldn,
                        false,
                        t,
                    )) || log_suffix_has(db2.log@, oldn, true, t))
                &&& forall|t: (int, int, Val)|
                    log_suffix_has(db2.log@, oldn, false, t) ==> rows_have(db.eav@, t)
                &&& forall|t: (int, int, Val)|
                    log_suffix_has(db2.log@, oldn, true, t) ==> !rows_have(db.eav@, t)
                &&& (rows_entities_allocated(db.eav@, db.partition_map) ==> db2.log@.len() > oldn)
            },
            Err(_) => true,
        },
        r matches Ok(res) ==> forall|i: int|
            0 <= i < entities@.len() ==> match plain_entity(
                #[trigger] entities@[i],
                db.partition_map.tx.index,
            ) {
                Some(p) => p.0 == OpType::Add ==> rows_have(
                    res.0.eav@,
                    (p.1 as int, p.2 as int, p.3@),
                ),
                None => true,
            },
        forall|i: int|
            0 <= i < entities@.len() && (match plain_entity(
                #[trigger] entities@[i],
                db.partition_map.tx.index,
            ) {
                Some(p) => p.0 == OpType::Add && p.2 == DB_TX_INSTANT && (p.3@ matches Val::Instant(
                    t2,
                ) && t2 <= db.last_tx_instant as int),
                None => false,
            }) ==> r is Err,
        r matches Ok(res) ==> (all_plain(entities@, db.partition_map.tx.index) ==> {
            let oldn = db.log@.len() as int;
            let txi = db.partition_map.tx.index;
            &&& forall|t: (int, int, Val)|
                #[trigger] log_suffix_has(res.0.log@, oldn, true, t) ==> plain_has(
                    entities@,
                    txi,
                    OpType::Add,
                    t,
                ) || t == (txi as int, DB_TX_INSTANT as int, Val::Instant(res.1.tx_instant as int))
            &&& forall|t: (int, int, Val)|
                #[trigger] log_suffix_has(res.0.log@, oldn, false, t) ==> plain_has(
                    entities@,
                    txi,
                    OpType::Retract,
                    t,
                ) || plain_replaces(entities@, txi, t.0, t.1) || (t.0 == txi as int && t.1
                    == DB_TX_INSTANT as int)
            &&& forall|t: (int, int, Val)|
                #[trigger] plain_has(entities@, txi, OpType::Retract, t) && rows_have(db.eav@, t)
                    && !plain_has(entities@, txi, OpType::Add, t) && t.1 != DB_TX_INSTANT as int
                    ==> !rows_have(res.0.eav@, t)
        }),
{
    let tx = db.partition_map.tx.index;
    if tx == i64::MAX {
        return Err(ErrorKind::NotYetImplemented(String::from_str("transaction space exhausted")));
    }
    let mut pm = db.partition_map;
    let mut schema2 = copy_schema(&db.schema);
    let mut map = TempIdMap::new();

    // Metadata first, so attributes installed here resolve for the rest of
    // the transaction.
    let _md_report = apply_metadata(db, &mut schema2, &mut pm, &mut map, &entities)?;

    // Lower the input to terms and resolve lookup-refs.
    let terms0 = build_terms(&schema2, &pm, &entities, tx)?;
    let terms1 = resolve_lookup_refs(db, terms0)?;

    // Upsert fixed point, then allocation of the remaining tempids.
    let gen0 = Generation::from(terms1, &schema2)?;
    let gen1 = run_upsert_resolution(db, gen0, &mut map)?;
    allocate_temp_ids(&mut pm, &gen1, &mut map)?;

    // Report the tempid resolutions before the map is consumed.
    let mut tempids: Vec<(String, Entid)> = Vec::new();
    let mut i: usize = 0;
    while i < map.entries.len()
        decreases map.entries@.len() - i,
    {
        match &map.entries[i].0 {
            TempId::External(s) => {
                tempids.push((s.clone(), map.entries[i].1));
            },
            TempId::Internal(_) => {},
        }
        i = i + 1;
    }

    let ghost map_g = map;
    let lowered = gen1.into_allocated_iter(map);
    let (mut adds_raw, retracts_raw) = expand_terms(db, &schema2, lowered);
    let ghost adds_from_expand = adds_raw@;

    // Stamp the transaction instant: an explicit one must strictly exceed
    // the previous transaction's, else the clock is advanced past it.
    let mut user_instant: Option<i64> = None;
    let mut i: usize = 0;
    while i < adds_raw.len()
        invariant
            adds_raw@ == adds_from_expand,
            user_instant matches Some(t) ==> db.last_tx_instant < t < i64::MAX && rows_have(
                adds_raw@,
                (tx as int, DB_TX_INSTANT as int, Val::Instant(t as int)),
            ),
            forall|j: int|
                0 <= j < i && (#[trigger] adds_raw@[j]).a == DB_TX_INSTANT ==> adds_raw@[j].e == tx
                    && (adds_raw@[j].v@ matches Val::Instant(t2) && t2
                    > db.last_tx_instant as int),
        decreases adds_raw@.len() - i,
    {
        if adds_raw[i].a == DB_TX_INSTANT {
            if adds_raw[i].e != tx {
                return Err(
                    ErrorKind::NotYetImplemented(
                        String::from_str(
                            "a transaction instant can only be asserted on the transaction",
                        ),
                    ),
                );
            }
            match &adds_raw[i].v {
                TypedValue::Instant(t) => {
                    if *t <= db.last_tx_instant || *t == i64::MAX {
                        return Err(ErrorKind::TxInstantNotMonotonic(*t, db.last_tx_instant));
                    }
                    proof {
                        assert(adds_raw@[i as int].key() == (tx as int, DB_TX_INSTANT as int,
                        Val::Instant(*t as int)));
                    }
                    user_instant = Some(*t);
                },
                _ => {
                    return Err(
                        ErrorKind::ValueTypeMismatch(
                            ValueType::Instant,
                            adds_raw[i].v.value_type(),
                        ),
                    );
                },
            }
        }
        i = i + 1;
    }
    let instant: i64 = match user_instant {
        Some(t) => t,
        None => {
            let t = if now > db.last_tx_instant {
                now
            } else {
                db.last_tx_instant + 1
            };
            if t == i64::MAX {
                return Err(ErrorKind::TxInstantNotMonotonic(t, db.last_tx_instant));
            }
            let row = Eav { e: tx, a: DB_TX_INSTANT, v: TypedValue::Instant(t) };
            proof {
                lemma_rows_push(adds_raw@, row);
            }
            adds_raw.push(row);
            proof {
                assert(adds_raw@.last().key() == (tx as int, DB_TX_INSTANT as int, Val::Instant(
                    t as int,
                )));
            }
            t
        },
    };
    let ghost adds_final = adds_raw@;
    proof {
        assert forall|t2: (int, int, Val)| rows_have(adds_from_expand, t2) implies rows_have(
            adds_final,
            t2,
        ) by {}
    }
    proof {
        assert(rows_have(
            adds_raw@,
            (tx as int, DB_TX_INSTANT as int, Val::Instant(instant as int)),
        ));
    }

    // The catalog may have changed: hold the new attributes and the current
    // state to the store guarantees before applying anything.
    check_rows_attrs(&adds_raw, &schema2)?;
    check_rows_attrs(&db.eav, &schema2)?;
    match find_card_conflict(&db.eav, &schema2) {
        Some((e, a)) => {
            return Err(ErrorKind::CardinalityConflict(e, a));
        },
        None => {},
    }
    match find_unique_violation(&db.eav, &db.eav, &schema2) {
        Some((a, e1, e2)) => {
            return Err(ErrorKind::UniquenessViolation(a, e1, e2));
        },
        None => {},
    }
    proof {
        assert(rows_card_one_ok(db.eav@, schema2)) by {
            assert forall|i: int, j: int|
                0 <= i < db.eav@.len() && 0 <= j < db.eav@.len() && i != j && (
                #[trigger] db.eav@[i]).e == (#[trigger] db.eav@[j]).e && db.eav@[i].a
                == db.eav@[j].a && keyed_has(schema2.schema_map@, db.eav@[i].a) implies keyed_get(
                schema2.schema_map@,
                db.eav@[i].a,
            ).multival by {
                if !keyed_get(schema2.schema_map@, db.eav@[i].a).multival {
                    assert(db.eav@[i].v@ == db.eav@[j].v@);
                    assert(db.eav@[i].key() == db.eav@[j].key());
                }
            }
        }
    }

    let (new_eav, a_eff, r_eff) = process_batch(&db.eav, &schema2, adds_raw, retracts_raw)?;

    // Write: the transaction's datoms in canonical order, then commit the
    // new state.
    let batch = batch_datoms(&a_eff, &r_eff, tx);
    let ghost batch_views = crate::datoms::dviews(batch@);
    let sorted = sort_datoms(batch);
    let ghost sorted_views = crate::datoms::dviews(sorted@);
    proof {
        lemma_multiset_same_contains(sorted_views, batch_views);
        assert forall|added: bool, t: (int, int, Val)|
            #[trigger] dviews_have(batch_views, added, tx as int, t) == (if added {
                rows_have(a_eff@, t)
            } else {
                rows_have(r_eff@, t)
            }) by {
            let dv = DatomView { e: t.0, a: t.1, v: t.2, tx: tx as int, added: Some(added) };
            if batch_views.contains(dv) {
                let i = choose|i: int| 0 <= i < batch_views.len() && batch_views[i] == dv;
                assert(batch_views[i] == batch@[i]@);
                if i < a_eff@.len() {
                    assert(a_eff@[i].key() == t && added);
                } else {
                    let j = i - a_eff@.len();
                    assert(batch@[a_eff@.len() + j]@ == dv);
                    assert(r_eff@[j].key() == t && !added);
                }
            }
            if added && rows_have(a_eff@, t) {
                let i = choose|i: int| 0 <= i < a_eff@.len() && a_eff@[i].key() == t;
                assert(batch_views[i] == dv);
            }
            if !added && rows_have(r_eff@, t) {
                let i = choose|i: int| 0 <= i < r_eff@.len() && r_eff@[i].key() == t;
                assert(batch_views[a_eff@.len() + i] == dv);
            }
        }
    }
    proof {
        assert forall|k: int| 0 <= k < sorted_views.len() implies (#[trigger] sorted_views[k]).tx
            == tx as int && sorted_views[k].added is Some by {
            assert(sorted_views.contains(sorted_views[k]));
            assert(batch_views.contains(sorted_views[k]));
            let p = choose|p: int| 0 <= p < batch_views.len() && batch_views[p] == sorted_views[k];
            assert(batch_views[p] == batch@[p]@);
            if p >= a_eff@.len() {
                let q = p - a_eff@.len();
                assert(batch@[a_eff@.len() + q]@ == batch_views[p]);
            }
        }
    }
    let mut new_log = copy_log(&db.log);
    let ghost oldn = db.log@.len() as int;
    let mut i: usize = 0;
    while i < sorted.len()
        invariant
            new_log@.len() == oldn + i,
            i <= sorted@.len(),
            forall|j: int| 0 <= j < oldn ==> (#[trigger] new_log@[j])@ == db.log@[j]@,
            forall|j: int|
                0 <= j < i ==> (#[trigger] new_log@[oldn + j]).e == sorted@[j].e && new_log@[oldn
                    + j].a == sorted@[j].a && new_log@[oldn + j].v@ == sorted@[j].v@ && new_log@[
                oldn + j].tx == tx && new_log@[oldn + j].added == (sorted@[j].added == Some(true))
                    && new_log@[oldn + j].timeline == MAIN_TIMELINE,
            forall|j: int| 0 <= j < i ==> (#[trigger] sorted@[j]).added is Some,
        decreases sorted@.len() - i,
    {
        proof {
            assert(sorted_views[i as int] == sorted@[i as int]@);
            assert(sorted@[i as int]@.added is Some && sorted@[i as int]@.tx == tx as int);
        }
        let d = &sorted[i];
        let added = matches!(d.added, Some(true));
        new_log.push(
            LogDatom { e: d.e, a: d.a, v: d.v.clone(), tx, added, timeline: MAIN_TIMELINE },
        );
        i = i + 1;
    }

    let mut pm2 = pm;
    let _ = pm2.tx.allocate(1);

    let db2 = DB {
        partition_map: pm2,
        schema: schema2,
        eav: new_eav,
        log: new_log,
        last_tx_instant: instant,
    };
    let report = TxReport { tx, tx_instant: instant, tempids };

    proof {
        let oldn2 = db.log@.len() as int;
        // The suffix of the log corresponds exactly to the effective batch.
        assert forall|added: bool, t: (int, int, Val)|
            #[trigger] log_suffix_has(db2.log@, oldn2, added, t) == (if added {
                rows_have(a_eff@, t)
            } else {
                rows_have(r_eff@, t)
            }) by {
            if log_suffix_has(db2.log@, oldn2, added, t) {
                let i = choose|i: int|
                    oldn2 <= i < db2.log@.len() && (#[trigger] db2.log@[i]).added == added && (
                    db2.log@[i].e as int, db2.log@[i].a as int, db2.log@[i].v@) == t;
                let j = i - oldn2;
                assert(db2.log@[oldn2 + j] == db2.log@[i]);
                assert(db2.log@[oldn2 + j].e == sorted@[j].e && db2.log@[oldn2 + j].a
                    == sorted@[j].a && db2.log@[oldn2 + j].v@ == sorted@[j].v@ && db2.log@[oldn2
                    + j].added == (sorted@[j].added == Some(true)));
                assert(sorted_views[j] == sorted@[j]@);
                assert(sorted_views[j].tx == tx as int && sorted_views[j].added is Some);
                let b = sorted@[j].added->0;
                assert(sorted@[j].added == Some(b));
                assert(b == added);
                assert(sorted_views[j] == (DatomView {
                    e: t.0,
                    a: t.1,
                    v: t.2,
                    tx: tx as int,
                    added: Some(added),
                }));
                assert(sorted_views.contains(sorted_views[j]));
                assert(dviews_have(batch_views, added, tx as int, t));
            }
            if (if added {
                rows_have(a_eff@, t)
            } else {
                rows_have(r_eff@, t)
            }) {
                assert(dviews_have(batch_views, added, tx as int, t));
                let dv = DatomView { e: t.0, a: t.1, v: t.2, tx: tx as int, added: Some(added) };
                assert(sorted_views.contains(dv));
                let j = choose|j: int| 0 <= j < sorted_views.len() && sorted_views[j] == dv;
                assert(sorted@[j]@ == dv);
                assert((db2.log@[oldn2 + j].e as int, db2.log@[oldn2 + j].a as int, db2.log@[oldn2
                    + j].v@) == t && db2.log@[oldn2 + j].added == added);
            }
        }
        // Well-formedness of the new store.
        assert(db2.partition_map.wf());
        assert(db2.schema.wf());
        assert(rows_distinct(db2.eav@));
        assert(rows_card_one_ok(db2.eav@, db2.schema));
        assert(rows_unique_ok(db2.eav@, db2.schema));
        assert(rows_attrs_known(db2.eav@, db2.schema));
        assert(0 <= db2.last_tx_instant < i64::MAX);
        assert(db2.wf()) by {
            assert(db2.partition_map.wf());
            assert forall|i: int, j: int|
                0 <= i < j < db2.log@.len() && (#[trigger] db2.log@[i]).timeline == MAIN_TIMELINE
                    && (#[trigger] db2.log@[j]).timeline == MAIN_TIMELINE implies db2.log@[i].tx
                <= db2.log@[j].tx by {
                if j < oldn2 {
                    assert(db2.log@[i]@ == db.log@[i]@);
                    assert(db2.log@[j]@ == db.log@[j]@);
                    assert(db.log@[i].timeline == MAIN_TIMELINE);
                    assert(db.log@[j].timeline == MAIN_TIMELINE);
                    assert(db.log@[i].tx <= db.log@[j].tx);
                } else if i < oldn2 {
                    assert(db2.log@[i]@ == db.log@[i]@);
                    assert(db.log@[i].timeline == MAIN_TIMELINE);
                    assert(db.log@[i].tx < db.partition_map.tx.index);
                    assert(db2.log@[oldn2 + (j - oldn2)].tx == tx);
                } else {
                    assert(db2.log@[oldn2 + (i - oldn2)].tx == tx);
                    assert(db2.log@[oldn2 + (j - oldn2)].tx == tx);
                }
            }
            assert forall|i: int| 0 <= i < db2.log@.len() implies TX_PARTITION_START <= (
            #[trigger] db2.log@[i]).tx by {
                if i < oldn2 {
                    assert(db2.log@[i]@ == db.log@[i]@);
                    assert(TX_PARTITION_START <= db.log@[i].tx);
                } else {
                    assert(db2.log@[oldn2 + (i - oldn2)].tx == tx);
                }
            }
            assert forall|i: int|
                0 <= i < db2.log@.len() && (#[trigger] db2.log@[i]).timeline == MAIN_TIMELINE
                    implies db2.log@[i].tx < db2.partition_map.tx.index by {
                if i < oldn2 {
                    assert(db2.log@[i]@ == db.log@[i]@);
                    assert(db.log@[i].timeline == MAIN_TIMELINE);
                    assert(db.log@[i].tx < db.partition_map.tx.index);
                } else {
                    assert(db2.log@[oldn2 + (i - oldn2)].tx == tx);
                }
            }
        }
        // The old main-timeline log precedes the new transaction.
        assert forall|i: int|
            0 <= i < oldn2 && (#[trigger] db.log@[i]).timeline == MAIN_TIMELINE
            implies db.log@[i].tx < tx by {}
        assert forall|i: int| oldn2 <= i < db2.log@.len() implies (#[trigger] db2.log@[i]).tx == tx
            && db2.log@[i].timeline == MAIN_TIMELINE by {
            assert(db2.log@[oldn2 + (i - oldn2)].tx == tx && db2.log@[oldn2 + (i
                - oldn2)].timeline == MAIN_TIMELINE);
        }
        // A transaction always writes its instant datom, provided the store
        // speaks only of allocated entities.
        if rows_entities_allocated(db.eav@, db.partition_map) {
            assert(!rows_have(db.eav@, (tx as int, DB_TX_INSTANT as int, Val::Instant(
                instant as int,
            )))) by {
                if rows_have(db.eav@, (tx as int, DB_TX_INSTANT as int, Val::Instant(
                    instant as int,
                ))) {
                    let i = choose|i: int|
                        0 <= i < db.eav@.len() && db.eav@[i].key() == (tx as int,
                        DB_TX_INSTANT as int, Val::Instant(instant as int));
                    assert(db.partition_map.spec_contains(db.eav@[i].e as int));
                }
            }
            assert(rows_have(a_eff@, (tx as int, DB_TX_INSTANT as int, Val::Instant(
                instant as int,
            ))));
            assert(db2.log@.len() > oldn2) by {
                assert(log_suffix_has(db2.log@, oldn2, true, (tx as int, DB_TX_INSTANT as int,
                Val::Instant(instant as int))));
            }
        }
        // Every input assertion whose places were already concrete reaches
        // the new state: a plain addition's triple is current afterwards,
        // and an explicit transaction instant that does not advance the
        // clock can never have come this far.
        assert forall|i: int|
            0 <= i < entities@.len() && plain_entity(
                #[trigger] entities@[i],
                db.partition_map.tx.index,
            ) is Some implies {
            let p = plain_entity(entities@[i], db.partition_map.tx.index)->0;
            (terms1@[i] matches Term::AddOrRetract(op2, Ok(e2), a2, Ok(v2)) && op2 == p.0 && e2
                == p.1 && a2 == p.2 && v2@ == p.3@)
        } by {
            let p = plain_entity(entities@[i], db.partition_map.tx.index)->0;
            assert(terms0@[i] matches Term::AddOrRetract(op2, Ok(e2), a2, Ok(v2)) && op2 == p.0
                && e2 == p.1 && a2 == p.2 && v2@ == p.3@);
        }
        assert forall|i: int|
            0 <= i < entities@.len() && plain_entity(
                #[trigger] entities@[i],
                db.partition_map.tx.index,
            ) is Some implies {
            let p = plain_entity(entities@[i], db.partition_map.tx.index)->0;
            exists|idx: int|
                0 <= idx < lowered@.len() && ((#[trigger] lowered@[idx])
                    matches Term::AddOrRetract(op2, e2, a2, v2) && op2 == p.0 && e2 == p.1 && a2
                    == p.2 && v2@ == p.3@)
        } by {
            let p = plain_entity(entities@[i], db.partition_map.tx.index)->0;
            let lterm = terms1@[i];
            assert(crate::upsert_resolution::shape_inert(lterm));
            let j = choose|j: int| 0 <= j < gen0.inert@.len() && gen0.inert@[j] == lterm;
            assert(gen1.inert@[j] == lterm);
            crate::upsert_resolution::lemma_lower_all(gen1.allocations_ev@, map_g);
            crate::upsert_resolution::lemma_lower_all(gen1.allocations_e@, map_g);
            crate::upsert_resolution::lemma_lower_all(gen1.allocations_v@, map_g);
            crate::upsert_resolution::lemma_lower_all(gen1.upserted@, map_g);
            crate::upsert_resolution::lemma_lower_all(gen1.resolved@, map_g);
            crate::upsert_resolution::lemma_lower_all(gen1.inert@, map_g);
            let base = gen1.allocations_ev@.len() + gen1.allocations_e@.len()
                + gen1.allocations_v@.len() + gen1.upserted@.len() + gen1.resolved@.len();
            assert(lowered@[base + j] == crate::upsert_resolution::spec_lower(lterm, map_g));
        }
        assert forall|i: int|
            0 <= i < entities@.len() && plain_entity(
                #[trigger] entities@[i],
                db.partition_map.tx.index,
            ) is Some implies {
            let p = plain_entity(entities@[i], db.partition_map.tx.index)->0;
            p.0 == OpType::Add ==> rows_have(adds_from_expand, (p.1 as int, p.2 as int, p.3@))
        } by {
            let p = plain_entity(entities@[i], db.partition_map.tx.index)->0;
            if p.0 == OpType::Add {
                let idx = choose|idx: int|
                    0 <= idx < lowered@.len() && ((#[trigger] lowered@[idx])
                        matches Term::AddOrRetract(op2, e2, a2, v2) && op2 == p.0 && e2 == p.1
                        && a2 == p.2 && v2@ == p.3@);
                assert(rows_have(adds_from_expand, (p.1 as int, p.2 as int, p.3@)));
            }
        }
        assert forall|i: int|
            0 <= i < entities@.len() && plain_entity(
                #[trigger] entities@[i],
                db.partition_map.tx.index,
            ) is Some implies {
            let p = plain_entity(entities@[i], db.partition_map.tx.index)->0;
            !(p.0 == OpType::Add && p.2 == DB_TX_INSTANT && (p.3@ matches Val::Instant(t2) && t2
                <= db.last_tx_instant as int))
        } by {
            let p = plain_entity(entities@[i], db.partition_map.tx.index)->0;
            if p.0 == OpType::Add && p.2 == DB_TX_INSTANT {
                let t = (p.1 as int, p.2 as int, p.3@);
                assert(rows_have(adds_from_expand, t));
                let q = choose|q: int|
                    0 <= q < adds_from_expand.len() && (#[trigger] adds_from_expand[q]).key() == t;
                assert(adds_from_expand[q].a == DB_TX_INSTANT);
                assert(adds_from_expand[q].v@ == p.3@);
            }
        }
        assert forall|i: int|
            0 <= i < entities@.len() && plain_entity(
                #[trigger] entities@[i],
                db.partition_map.tx.index,
            ) is Some implies {
            let p = plain_entity(entities@[i], db.partition_map.tx.index)->0;
            p.0 == OpType::Add ==> rows_have(db2.eav@, (p.1 as int, p.2 as int, p.3@))
        } by {
            let p = plain_entity(entities@[i], db.partition_map.tx.index)->0;
            if p.0 == OpType::Add {
                let t = (p.1 as int, p.2 as int, p.3@);
                assert(rows_have(adds_final, t));
                if rows_have(db.eav@, t) {
                    if rows_have(r_eff@, t) {
                        if is_replaced(t, adds_final, schema2) {
                            let q = choose|q: int|
                                0 <= q < adds_final.len() && (#[trigger] adds_final[q]).e == t.0
                                    && adds_final[q].a == t.1 && keyed_has(
                                    schema2.schema_map@,
                                    adds_final[q].a,
                                ) && !keyed_get(schema2.schema_map@, adds_final[q].a).multival
                                    && adds_final[q].v@ != t.2;
                            let pth = choose|pth: int|
                                0 <= pth < adds_final.len() && adds_final[pth].key() == t;
                            assert(adds_final[pth].e == adds_final[q].e);
                            assert(adds_final[pth].a == adds_final[q].a);
                            assert(adds_final[pth].v@ == adds_final[q].v@);
                            assert(false);
                        }
                        assert(false);
                    }
                    assert(rows_have(new_eav@, t));
                } else {
                    assert(rows_have(a_eff@, t));
                    assert(log_suffix_has(db2.log@, oldn2, true, t));
                }
                assert(rows_have(db2.eav@, t));
            }
        }
        // For an all-plain input the transaction's effect is exactly the
        // input triples: every written datom derives from a plain
        // assertion, a cardinality-one replacement of one, or the
        // transaction instant; and every plain retraction of a current
        // triple takes effect.
        if all_plain(entities@, db.partition_map.tx.index) {
            assert(adds_final == adds_from_expand || adds_final == adds_from_expand.push(
                Eav { e: tx, a: DB_TX_INSTANT, v: TypedValue::Instant(instant) },
            ));
            // Every input term is inert, so the generation degenerates to
            // its inert population and lowering is the identity on it.
            assert forall|i: int| 0 <= i < terms1@.len() implies
                crate::upsert_resolution::shape_inert(#[trigger] terms1@[i]) by {
                assert(plain_entity(entities@[i], db.partition_map.tx.index) is Some);
            }
            assert(gen0.upserts_e@.len() == 0 && gen0.upserts_ev@.len() == 0);
            assert(gen1 == gen0);
            crate::upsert_resolution::lemma_lower_all(gen1.allocations_ev@, map_g);
            crate::upsert_resolution::lemma_lower_all(gen1.allocations_e@, map_g);
            crate::upsert_resolution::lemma_lower_all(gen1.allocations_v@, map_g);
            crate::upsert_resolution::lemma_lower_all(gen1.upserted@, map_g);
            crate::upsert_resolution::lemma_lower_all(gen1.resolved@, map_g);
            crate::upsert_resolution::lemma_lower_all(gen1.inert@, map_g);
            assert(lowered@ =~= crate::upsert_resolution::lower_all(gen1.inert@, map_g));
            // Soundness of the lowered batch: each lowered term is the
            // image of a plain input assertion with the same operation and
            // triple, and no whole-entity or whole-attribute retraction
            // survives the lowering.
            assert forall|t: (int, int, Val)| terms_add(lowered@, t) implies plain_has(
                entities@,
                db.partition_map.tx.index,
                OpType::Add,
                t,
            ) by {
                let idx = choose|idx: int|
                    0 <= idx < lowered@.len() && match #[trigger] lowered@[idx] {
                        Term::AddOrRetract(OpType::Add, e, a, v) => (e as int, a as int, v@) == t,
                        _ => false,
                    };
                assert(lowered@[idx] == crate::upsert_resolution::spec_lower(
                    gen1.inert@[idx],
                    map_g,
                ));
                let i = choose|i: int|
                    0 <= i < terms1@.len() && gen1.inert@[idx] == terms1@[i];
                assert(plain_entity(entities@[i], db.partition_map.tx.index) matches Some(p)
                    && p.0 == OpType::Add && (p.1 as int, p.2 as int, p.3@) == t);
            }
            assert forall|t: (int, int, Val)| terms_retract(lowered@, t) implies plain_has(
                entities@,
                db.partition_map.tx.index,
                OpType::Retract,
                t,
            ) by {
                let idx = choose|idx: int|
                    0 <= idx < lowered@.len() && match #[trigger] lowered@[idx] {
                        Term::AddOrRetract(OpType::Retract, e, a, v) => (e as int, a as int, v@)
                            == t,
                        _ => false,
                    };
                assert(lowered@[idx] == crate::upsert_resolution::spec_lower(
                    gen1.inert@[idx],
                    map_g,
                ));
                let i = choose|i: int|
                    0 <= i < terms1@.len() && gen1.inert@[idx] == terms1@[i];
                assert(plain_entity(entities@[i], db.partition_map.tx.index) matches Some(p)
                    && p.0 == OpType::Retract && (p.1 as int, p.2 as int, p.3@) == t);
            }
            assert(!terms_expand(lowered@)) by {
                if terms_expand(lowered@) {
                    let idx = choose|idx: int|
                        0 <= idx < lowered@.len() && ((#[trigger] lowered@[idx])
                            matches Term::RetractAttribute(_, _) || lowered@[idx]
                            matches Term::RetractEntity(_));
                    assert(lowered@[idx] == crate::upsert_resolution::spec_lower(
                        gen1.inert@[idx],
                        map_g,
                    ));
                    let i = choose|i: int|
                        0 <= i < terms1@.len() && gen1.inert@[idx] == terms1@[i];
                    assert(plain_entity(entities@[i], db.partition_map.tx.index) is Some);
                    assert(false);
                }
            }
            // Every added datom of the suffix is a plain addition or the
            // transaction instant.
            assert forall|t: (int, int, Val)| #[trigger] log_suffix_has(db2.log@, oldn2, true, t)
                implies plain_has(entities@, db.partition_map.tx.index, OpType::Add, t) || t == (
                tx as int,
                DB_TX_INSTANT as int,
                Val::Instant(instant as int),
            ) by {
                assert(rows_have(a_eff@, t));
                assert(rows_have(adds_final, t));
                let q = choose|q: int|
                    0 <= q < adds_final.len() && (#[trigger] adds_final[q]).key() == t;
                if q < adds_from_expand.len() {
                    assert(adds_final[q] == adds_from_expand[q]);
                    assert(terms_add(lowered@, t));
                } else {
                    assert(adds_final[q] == (Eav {
                        e: tx,
                        a: DB_TX_INSTANT,
                        v: TypedValue::Instant(instant),
                    }));
                }
            }
            // Every retracted datom of the suffix is a plain retraction, a
            // cardinality-one replacement by a plain addition, or speaks of
            // the transaction instant.
            assert forall|t: (int, int, Val)| #[trigger] log_suffix_has(db2.log@, oldn2, false, t)
                implies plain_has(entities@, db.partition_map.tx.index, OpType::Retract, t)
                || plain_replaces(entities@, db.partition_map.tx.index, t.0, t.1) || (t.0
                == tx as int && t.1 == DB_TX_INSTANT as int) by {
                assert(rows_have(r_eff@, t));
                if rows_have(retracts_raw@, t) && rows_have(db.eav@, t) && !rows_have(
                    adds_final,
                    t,
                ) {
                    let q = choose|q: int|
                        0 <= q < retracts_raw@.len() && (#[trigger] retracts_raw@[q]).key() == t;
                    assert(terms_retract(lowered@, t) || terms_expand(lowered@));
                    assert(terms_retract(lowered@, t));
                } else {
                    assert(rows_have(db.eav@, t) && is_replaced(t, adds_final, schema2));
                    let q = choose|q: int|
                        0 <= q < adds_final.len() && (#[trigger] adds_final[q]).e == t.0
                            && adds_final[q].a == t.1 && keyed_has(
                            schema2.schema_map@,
                            adds_final[q].a,
                        ) && !keyed_get(schema2.schema_map@, adds_final[q].a).multival
                            && adds_final[q].v@ != t.2;
                    if q < adds_from_expand.len() {
                        assert(adds_final[q] == adds_from_expand[q]);
                        assert(terms_add(lowered@, adds_from_expand[q].key()));
                        assert(plain_has(
                            entities@,
                            db.partition_map.tx.index,
                            OpType::Add,
                            (t.0, t.1, adds_from_expand[q].v@),
                        ));
                        let i = choose|i: int|
                            0 <= i < entities@.len() && (plain_entity(
                                #[trigger] entities@[i],
                                db.partition_map.tx.index,
                            ) matches Some(p) && p.0 == OpType::Add && (p.1 as int, p.2 as int,
                            p.3@) == (t.0, t.1, adds_from_expand[q].v@));
                        assert(plain_replaces(entities@, db.partition_map.tx.index, t.0, t.1));
                    } else {
                        assert(adds_final[q].a == DB_TX_INSTANT && adds_final[q].e == tx);
                    }
                }
            }
            // A plain retraction of a current triple takes effect unless a
            // plain addition restates the same triple.
            assert forall|t: (int, int, Val)| #[trigger] plain_has(
                entities@,
                db.partition_map.tx.index,
                OpType::Retract,
                t,
            ) && rows_have(db.eav@, t) && !plain_has(
                entities@,
                db.partition_map.tx.index,
                OpType::Add,
                t,
            ) && t.1 != DB_TX_INSTANT as int implies !rows_have(db2.eav@, t) by {
                let i = choose|i: int|
                    0 <= i < entities@.len() && (plain_entity(
                        #[trigger] entities@[i],
                        db.partition_map.tx.index,
                    ) matches Some(p) && p.0 == OpType::Retract && (p.1 as int, p.2 as int, p.3@)
                        == t);
                let p = plain_entity(entities@[i], db.partition_map.tx.index)->0;
                let idx = choose|idx: int|
                    0 <= idx < lowered@.len() && ((#[trigger] lowered@[idx])
                        matches Term::AddOrRetract(op2, e2, a2, v2) && op2 == p.0 && e2 == p.1
                        && a2 == p.2 && v2@ == p.3@);
                assert(rows_have(retracts_raw@, t));
                assert(!rows_have(adds_final, t)) by {
                    if rows_have(adds_final, t) {
                        let q = choose|q: int|
                            0 <= q < adds_final.len() && (#[trigger] adds_final[q]).key() == t;
                        if q < adds_from_expand.len() {
                            assert(adds_final[q] == adds_from_expand[q]);
                            assert(terms_add(lowered@, t));
                            assert(plain_has(
                                entities@,
                                db.partition_map.tx.index,
                                OpType::Add,
                                t,
                            ));
                        } else {
                            assert(adds_final[q].a == DB_TX_INSTANT);
                        }
                        assert(false);
                    }
                }
                assert(rows_have(r_eff@, t));
                assert(!rows_have(a_eff@, t));
                assert(!rows_have(new_eav@, t));
            }
        }
    }

    Ok((db2, report))
}

} // verus!
