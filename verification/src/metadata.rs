//! The metadata mutator: recognizes schema assertions, validates them, and
//! applies them to the attribute catalog as installs or alterations.

use crate::errors::ErrorKind;
use crate::keyed::{find_entid, keyed_distinct, keyed_get, keyed_has, keyed_idx,
    lemma_keyed_idx_unique, lemma_keyed_push, lemma_keyed_take_distinct};
use crate::schema::{Attribute, AttributeBuilder, SchemaMap};
use crate::types::{Entid, TypedValue, Val, ValueType, DB_CARDINALITY, DB_CARDINALITY_MANY,
    DB_CARDINALITY_ONE, DB_DOC, DB_FULLTEXT, DB_INDEX, DB_IS_COMPONENT, DB_NO_HISTORY, DB_TYPE_BOOLEAN,
    DB_TYPE_INSTANT, DB_TYPE_KEYWORD, DB_TYPE_LONG, DB_TYPE_REF, DB_TYPE_STRING, DB_TYPE_UUID,
    DB_UNIQUE, DB_UNIQUE_IDENTITY, DB_UNIQUE_VALUE, DB_VALUE_TYPE};
use vstd::prelude::*;

verus! {

/// An alteration to an attribute.
#[derive(Clone, Copy, Debug, PartialEq, Eq, Structural)]
pub enum AttributeAlteration {
    /// An index was added or removed.
    Index,
    /// A `:db.unique/value` constraint was added or removed.
    UniqueValue,
    /// A `:db.unique/identity` constraint was added or removed.
    UniqueIdentity,
    /// The cardinality changed.
    Cardinality,
    /// Whether history is retained changed.
    NoHistory,
    /// Whether the attribute is treated as a component changed.
    IsComponent,
}

/// An alteration to an ident.
#[derive(Clone, Debug)]
pub enum IdentAlteration {
    Ident(String),
}

/// Summarizes changes that a transaction applied to the metadata.
#[derive(Clone, Debug)]
pub struct MetadataReport {
    /// Entids that were not present in the `SchemaMap` that was mutated.
    pub attributes_installed: Vec<Entid>,

    /// Entids that were present in the `SchemaMap` that was mutated, with
    /// the mutations that were applied to each.
    pub attributes_altered: Vec<(Entid, Vec<AttributeAlteration>)>,

    /// Idents that were installed.
    pub idents_altered: Vec<(Entid, IdentAlteration)>,
}

/// Is `(a, v)` a recognized, well-shaped schema assertion?
pub open spec fn assertion_ok(a: Entid, v: Val) -> bool {
    ||| (a == DB_DOC && v is String)
    ||| (a == DB_VALUE_TYPE && match v {
        Val::Ref(t) => t == DB_TYPE_REF as int || t == DB_TYPE_BOOLEAN as int || t
            == DB_TYPE_INSTANT as int || t == DB_TYPE_LONG as int || t == DB_TYPE_STRING as int || t
            == DB_TYPE_UUID as int || t == DB_TYPE_KEYWORD as int,
        _ => false,
    })
    ||| (a == DB_CARDINALITY && match v {
        Val::Ref(c) => c == DB_CARDINALITY_ONE as int || c == DB_CARDINALITY_MANY as int,
        _ => false,
    })
    ||| (a == DB_UNIQUE && match v {
        Val::Ref(u) => u == DB_UNIQUE_VALUE as int || u == DB_UNIQUE_IDENTITY as int,
        _ => false,
    })
    ||| ((a == DB_INDEX || a == DB_FULLTEXT || a == DB_IS_COMPONENT || a == DB_NO_HISTORY)
        && v is Boolean)
}

/// The builder update a single well-shaped schema assertion performs.
pub open spec fn apply_assertion(b: AttributeBuilder, a: Entid, v: Val) -> AttributeBuilder {
    if a == DB_VALUE_TYPE {
        AttributeBuilder {
            value_type: Some(
                match v {
                    Val::Ref(t) => {
                        if t == DB_TYPE_REF as int {
                            ValueType::Ref
                        } else if t == DB_TYPE_BOOLEAN as int {
                            ValueType::Boolean
                        } else if t == DB_TYPE_INSTANT as int {
                            ValueType::Instant
                        } else if t == DB_TYPE_LONG as int {
                            ValueType::Long
                        } else if t == DB_TYPE_STRING as int {
                            ValueType::String
                        } else if t == DB_TYPE_UUID as int {
                            ValueType::Uuid
                        } else {
                            ValueType::Keyword
                        }
                    },
                    _ => ValueType::Ref,
                },
            ),
            ..b
        }
    } else if a == DB_CARDINALITY {
        AttributeBuilder { multival: Some(v == Val::Ref(DB_CARDINALITY_MANY as int)), ..b }
    } else if a == DB_UNIQUE {
        if v == Val::Ref(DB_UNIQUE_VALUE as int) {
            AttributeBuilder { unique_value: Some(true), ..b }
        } else {
            AttributeBuilder { unique_identity: Some(true), ..b }
        }
    } else if a == DB_INDEX {
        AttributeBuilder { index: Some(v == Val::Boolean(true)), ..b }
    } else if a == DB_FULLTEXT {
        AttributeBuilder { fulltext: Some(v == Val::Boolean(true)), ..b }
    } else if a == DB_IS_COMPONENT {
        AttributeBuilder { component: Some(v == Val::Boolean(true)), ..b }
    } else if a == DB_NO_HISTORY {
        AttributeBuilder { no_history: Some(v == Val::Boolean(true)), ..b }
    } else {
        // `:db/doc` is recognized but carries no attribute flag.
        b
    }
}

/// The builders that a prefix of the assertion list accumulates, grouped by
/// impacted entid, keyed in first-occurrence order.
pub open spec fn spec_builders(s: Seq<(Entid, Entid, TypedValue)>) -> Seq<(Entid, AttributeBuilder)>
    decreases s.len(),
{
    if s.len() == 0 {
        Seq::empty()
    } else {
        let prev = spec_builders(s.drop_last());
        let (e, a, v) = s.last();
        if keyed_has(prev, e) {
            prev.update(
                keyed_idx(prev, e),
                (e, apply_assertion(keyed_get(prev, e), a, v@)),
            )
        } else {
            prev.push((e, apply_assertion(AttributeBuilder::empty_spec(), a, v@)))
        }
    }
}

/// The builders stay keyed by distinct entids.
pub proof fn lemma_spec_builders_distinct(s: Seq<(Entid, Entid, TypedValue)>)
    ensures
        keyed_distinct(spec_builders(s)),
    decreases s.len(),
{
    if s.len() > 0 {
        lemma_spec_builders_distinct(s.drop_last());
        let prev = spec_builders(s.drop_last());
        let (e, a, v) = s.last();
        if keyed_has(prev, e) {
            let t = spec_builders(s);
            assert forall|i: int, j: int| 0 <= i < j < t.len() implies t[i].0@ != t[j].0@ by {
                assert(prev[i].0 == t[i].0);
                assert(prev[j].0 == t[j].0);
            }
        } else {
            lemma_keyed_push(prev, (e, apply_assertion(AttributeBuilder::empty_spec(), a, v@)));
        }
    }
}

/// The keys of `bs` that are not yet in the catalog, in order.
pub open spec fn installed_of(
    bs: Seq<(Entid, AttributeBuilder)>,
    old_map: Seq<(Entid, Attribute)>,
) -> Seq<Entid>
    decreases bs.len(),
{
    if bs.len() == 0 {
        Seq::empty()
    } else {
        let prev = installed_of(bs.drop_last(), old_map);
        if !keyed_has(old_map, bs.last().0) {
            prev.push(bs.last().0)
        } else {
            prev
        }
    }
}

/// The entids the triples install: the impacted entids that are not yet in
/// the catalog, in first-occurrence order.
pub open spec fn spec_installed(
    assertions: Seq<(Entid, Entid, TypedValue)>,
    old_map: Seq<(Entid, Attribute)>,
) -> Seq<Entid> {
    installed_of(spec_builders(assertions), old_map)
}

/// For each catalog entry whose key is in `bs`, in catalog order, the flags
/// its builder changes.
pub open spec fn altered_of(
    old_map: Seq<(Entid, Attribute)>,
    bs: Seq<(Entid, AttributeBuilder)>,
) -> Seq<(Entid, Seq<AttributeAlteration>)>
    decreases old_map.len(),
{
    if old_map.len() == 0 {
        Seq::empty()
    } else {
        let prev = altered_of(old_map.drop_last(), bs);
        let p = old_map.last();
        if keyed_has(bs, p.0) {
            prev.push((p.0, keyed_get(bs, p.0).spec_alterations(p.1)))
        } else {
            prev
        }
    }
}

/// The alterations the triples apply: for each catalog entry that is
/// impacted, in catalog order, the flags that changed.
pub open spec fn spec_altered(
    assertions: Seq<(Entid, Entid, TypedValue)>,
    old_map: Seq<(Entid, Attribute)>,
) -> Seq<(Entid, Seq<AttributeAlteration>)> {
    altered_of(old_map, spec_builders(assertions))
}

/// How [`installed_of`] grows as the builder list grows.
pub proof fn lemma_installed_push(
    bs: Seq<(Entid, AttributeBuilder)>,
    old_map: Seq<(Entid, Attribute)>,
    x: (Entid, AttributeBuilder),
)
    ensures
        installed_of(bs.push(x), old_map) == if !keyed_has(old_map, x.0) {
            installed_of(bs, old_map).push(x.0)
        } else {
            installed_of(bs, old_map)
        },
{
    assert(bs.push(x).drop_last() =~= bs);
    assert(bs.push(x).last() == x);
}

/// How [`altered_of`] grows as the catalog prefix grows.
pub proof fn lemma_altered_push(
    old_map: Seq<(Entid, Attribute)>,
    bs: Seq<(Entid, AttributeBuilder)>,
    x: (Entid, Attribute),
)
    ensures
        altered_of(old_map.push(x), bs) == if keyed_has(bs, x.0) {
            altered_of(old_map, bs).push((x.0, keyed_get(bs, x.0).spec_alterations(x.1)))
        } else {
            altered_of(old_map, bs)
        },
{
    assert(old_map.push(x).drop_last() =~= old_map);
    assert(old_map.push(x).last() == x);
}

/// Executable form of [`assertion_ok`].
fn check_assertion(a: Entid, v: &TypedValue) -> (r: bool)
    ensures
        r == assertion_ok(a, v@),
{
    if a == DB_DOC {
        matches!(v, TypedValue::String(_))
    } else if a == DB_VALUE_TYPE {
        match v {
            TypedValue::Ref(t) => *t == DB_TYPE_REF || *t == DB_TYPE_BOOLEAN || *t
                == DB_TYPE_INSTANT || *t == DB_TYPE_LONG || *t == DB_TYPE_STRING || *t
                == DB_TYPE_UUID || *t == DB_TYPE_KEYWORD,
            _ => false,
        }
    } else if a == DB_CARDINALITY {
        match v {
            TypedValue::Ref(c) => *c == DB_CARDINALITY_ONE || *c == DB_CARDINALITY_MANY,
            _ => false,
        }
    } else if a == DB_UNIQUE {
        match v {
            TypedValue::Ref(u) => *u == DB_UNIQUE_VALUE || *u == DB_UNIQUE_IDENTITY,
            _ => false,
        }
    } else if a == DB_INDEX || a == DB_FULLTEXT || a == DB_IS_COMPONENT || a == DB_NO_HISTORY {
        matches!(v, TypedValue::Boolean(_))
    } else {
        false
    }
}

/// Executable form of [`apply_assertion`].
fn run_assertion(b: AttributeBuilder, a: Entid, v: &TypedValue) -> (r: AttributeBuilder)
    requires
        assertion_ok(a, v@),
    ensures
        r == apply_assertion(b, a, v@),
{
    let mut b = b;
    if a == DB_VALUE_TYPE {
        match v {
            TypedValue::Ref(t) => {
                let vt = if *t == DB_TYPE_REF {
                    ValueType::Ref
                } else if *t == DB_TYPE_BOOLEAN {
                    ValueType::Boolean
                } else if *t == DB_TYPE_INSTANT {
                    ValueType::Instant
                } else if *t == DB_TYPE_LONG {
                    ValueType::Long
                } else if *t == DB_TYPE_STRING {
                    ValueType::String
                } else if *t == DB_TYPE_UUID {
                    ValueType::Uuid
                } else {
                    ValueType::Keyword
                };
                b.value_type(vt);
            },
            _ => {},
        }
    } else if a == DB_CARDINALITY {
        match v {
            TypedValue::Ref(c) => { b.multival(*c == DB_CARDINALITY_MANY) },
            _ => {},
        }
    } else if a == DB_UNIQUE {
        match v {
            TypedValue::Ref(u) => {
                if *u == DB_UNIQUE_VALUE {
                    b.unique_value(true);
                } else {
                    b.unique_identity(true);
                }
            },
            _ => {},
        }
    } else if a == DB_INDEX {
        match v {
            TypedValue::Boolean(x) => { b.index(*x) },
            _ => {},
        }
    } else if a == DB_FULLTEXT {
        match v {
            TypedValue::Boolean(x) => { b.fulltext(*x) },
            _ => {},
        }
    } else if a == DB_IS_COMPONENT {
        match v {
            TypedValue::Boolean(x) => { b.component(*x) },
            _ => {},
        }
    } else if a == DB_NO_HISTORY {
        match v {
            TypedValue::Boolean(x) => { b.no_history(*x) },
            _ => {},
        }
    }
    b
}

/// May the builder accumulated for `e` be applied against the catalog
/// `old_map`?  A fresh entid is an install and must declare a value type; a
/// known entid is an alteration and must not; either way the resulting
/// attribute must meet its invariants.
pub open spec fn builder_admissible(
    old_map: Seq<(Entid, Attribute)>,
    e: Entid,
    b: AttributeBuilder,
) -> bool {
    if keyed_has(old_map, e) {
        b.value_type is None && b.fulltext is None && b.spec_mutate(keyed_get(old_map, e)).valid()
    } else {
        b.value_type is Some && b.spec_build().valid()
    }
}

/// Are the given `[e a v]` triples a valid set of schema mutations against
/// the catalog `old_map`?  This is exactly the success condition of
/// [`update_schema_map_from_entid_triples`].
pub open spec fn triples_admissible(
    assertions: Seq<(Entid, Entid, TypedValue)>,
    old_map: Seq<(Entid, Attribute)>,
) -> bool {
    &&& forall|i: int|
        0 <= i < assertions.len() ==> assertion_ok(assertions[i].1, (#[trigger] assertions[i]).2@)
    &&& forall|j: int|
        0 <= j < spec_builders(assertions).len() ==> builder_admissible(
            old_map,
            (#[trigger] spec_builders(assertions)[j]).0,
            spec_builders(assertions)[j].1,
        )
}

/// Update a `SchemaMap` in place from the given `[e a typed_value]` triples.
///
/// Mutations are grouped by impacted entid.  An entid absent from the map is
/// an install and must declare `:db/valueType`; a present entid is an
/// alteration and must not.  On any failure the map is left unchanged.
///
/// Returns a report summarizing the mutations that were applied.
#[verifier::rlimit(100)]
#[verifier::spinoff_prover]
#[verifier::loop_isolation(false)]
pub fn update_schema_map_from_entid_triples(
    schema_map: &mut SchemaMap,
    assertions: &Vec<(Entid, Entid, TypedValue)>,
) -> (r: Result<MetadataReport, ErrorKind>)
    requires
        keyed_distinct(old(schema_map)@),
        forall|i: int|
            0 <= i < old(schema_map)@.len() ==> (#[trigger] old(schema_map)@[i].1).valid(),
    ensures
        r is Ok <==> triples_admissible(assertions@, old(schema_map)@),
        r is Err ==> *final(schema_map) == *old(schema_map),
        match r {
            Ok(report) => {
                let bs = spec_builders(assertions@);
                let oldm = old(schema_map)@;
                let newm = final(schema_map)@;
                &&& keyed_distinct(newm)
                &&& forall|i: int| 0 <= i < newm.len() ==> (#[trigger] newm[i].1).valid()
                &&& forall|k: Entid|
                    #[trigger] keyed_has(newm, k) == (keyed_has(oldm, k) || keyed_has(bs, k))
                &&& forall|k: Entid|
                    keyed_has(oldm, k) && keyed_has(bs, k) ==> #[trigger] keyed_get(newm, k)
                        == keyed_get(bs, k).spec_mutate(keyed_get(oldm, k))
                &&& forall|k: Entid|
                    keyed_has(oldm, k) && !keyed_has(bs, k) ==> #[trigger] keyed_get(newm, k)
                        == keyed_get(oldm, k)
                &&& forall|k: Entid|
                    !keyed_has(oldm, k) && keyed_has(bs, k) ==> #[trigger] keyed_get(newm, k)
                        == keyed_get(bs, k).spec_build()
                &&& report.attributes_installed@ == spec_installed(assertions@, oldm)
                &&& report.attributes_altered@.map_values(
                    |p: (Entid, Vec<AttributeAlteration>)| (p.0, p.1@),
                ) == spec_altered(assertions@, oldm)
                &&& report.idents_altered@.len() == 0
            },
            Err(e) => e is BadSchemaAssertion,
        },
{
    let ghost oldm = schema_map@;

    // Group mutations by impacted entid.
    let mut builders: Vec<(Entid, AttributeBuilder)> = Vec::new();
    let mut i: usize = 0;
    while i < assertions.len()
        invariant
            i <= assertions.len(),
            forall|j: int|
                0 <= j < i ==> assertion_ok(assertions@[j].1, (#[trigger] assertions@[j]).2@),
            builders@ == spec_builders(assertions@.take(i as int)),
            keyed_distinct(builders@),
        decreases assertions.len() - i,
    {
        let (e, a, v) = &assertions[i];
        proof {
            assert(assertions@.take(i + 1).drop_last() =~= assertions@.take(i as int));
            assert(assertions@.take(i + 1).last() == assertions@[i as int]);
            lemma_spec_builders_distinct(assertions@.take(i + 1));
        }
        if !check_assertion(*a, v) {
            proof {
                assert(!assertion_ok(assertions@[i as int].1, assertions@[i as int].2@));
                assert(!triples_admissible(assertions@, oldm));
            }
            return Err(
                ErrorKind::BadSchemaAssertion(
                    String::from_str("unrecognized or ill-shaped schema assertion"),
                ),
            );
        }
        match find_entid(&builders, *e) {
            Some(j) => {
                let b = run_assertion(builders[j].1, *a, v);
                builders[j] = (*e, b);
            },
            None => {
                let b = run_assertion(AttributeBuilder::default(), *a, v);
                builders.push((*e, b));
            },
        }
        i = i + 1;
    }
    proof {
        assert(assertions@.take(assertions@.len() as int) =~= assertions@);
    }
    let ghost bs = spec_builders(assertions@);

    // Apply alterations while copying the catalog.
    let mut new_map: SchemaMap = Vec::new();
    let mut altered: Vec<(Entid, Vec<AttributeAlteration>)> = Vec::new();
    let mut idx: usize = 0;
    while idx < schema_map.len()
        invariant
            idx <= schema_map.len(),
            schema_map@ == oldm,
            keyed_distinct(oldm),
            forall|i: int| 0 <= i < oldm.len() ==> (#[trigger] oldm[i].1).valid(),
            builders@ == bs,
            keyed_distinct(bs),
            new_map@.len() == idx,
            forall|p: int| 0 <= p < idx ==> (#[trigger] new_map@[p]).0 == oldm[p].0,
            forall|p: int|
                0 <= p < idx ==> (#[trigger] new_map@[p]).1 == (if keyed_has(bs, oldm[p].0) {
                    keyed_get(bs, oldm[p].0).spec_mutate(oldm[p].1)
                } else {
                    oldm[p].1
                }),
            forall|p: int| 0 <= p < idx ==> (#[trigger] new_map@[p]).1.valid(),
            forall|p: int|
                0 <= p < idx && keyed_has(bs, (#[trigger] oldm[p]).0) ==> builder_admissible(
                    oldm,
                    oldm[p].0,
                    keyed_get(bs, oldm[p].0),
                ),
            altered@.map_values(|pr: (Entid, Vec<AttributeAlteration>)| (pr.0, pr.1@))
                == altered_of(oldm.take(idx as int), bs),
        decreases schema_map.len() - idx,
    {
        let (e, attr) = schema_map[idx];
        let mut attr = attr;
        proof {
            assert(oldm.take(idx + 1) =~= oldm.take(idx as int).push(oldm[idx as int]));
            lemma_altered_push(oldm.take(idx as int), bs, oldm[idx as int]);
            lemma_keyed_idx_unique(oldm, e, idx as int);
        }
        match find_entid(&builders, e) {
            Some(j) => {
                let b = builders[j].1;
                if !b.is_valid_alter_attribute() {
                    proof {
                        assert(bs[j as int] == (e, b));
                        assert(!builder_admissible(oldm, bs[j as int].0, bs[j as int].1));
                        assert(!triples_admissible(assertions@, oldm));
                    }
                    return Err(
                        ErrorKind::BadSchemaAssertion(
                            String::from_str(
                                "an altered attribute must not re-declare its value type",
                            ),
                        ),
                    );
                }
                let muts = b.mutate(&mut attr);
                if !attr.check_valid() {
                    proof {
                        assert(bs[j as int] == (e, b));
                        assert(keyed_get(oldm, e) == oldm[idx as int].1);
                        assert(!builder_admissible(oldm, bs[j as int].0, bs[j as int].1));
                        assert(!triples_admissible(assertions@, oldm));
                    }
                    return Err(
                        ErrorKind::BadSchemaAssertion(
                            String::from_str("alteration breaks an attribute invariant"),
                        ),
                    );
                }
                new_map.push((e, attr));
                altered.push((e, muts));
                proof {
                    assert(bs[j as int] == (e, b));
                    assert(keyed_get(bs, e) == b);
                    assert(builder_admissible(oldm, e, b));
                    assert(altered@.map_values(
                        |pr: (Entid, Vec<AttributeAlteration>)| (pr.0, pr.1@),
                    ) =~= altered_of(oldm.take(idx + 1), bs));
                }
            },
            None => {
                new_map.push((e, attr));
                proof {
                    assert(!keyed_has(bs, e));
                    assert(altered_of(oldm.take(idx + 1), bs) == altered_of(
                        oldm.take(idx as int),
                        bs,
                    ));
                }
            },
        }
        idx = idx + 1;
    }
    proof {
        assert(oldm.take(oldm.len() as int) =~= oldm);
    }

    // Bridge from the positional facts about the copied catalog to
    // key-indexed facts.
    proof {
        let nm = new_map@;
        assert forall|k: Entid| #[trigger] keyed_has(nm, k) == keyed_has(oldm, k) by {
            if keyed_has(nm, k) {
                let p = keyed_idx(nm, k);
                assert(nm[p].0@ == k);
                assert(oldm[p].0@ == k);
            }
            if keyed_has(oldm, k) {
                let p = keyed_idx(oldm, k);
                assert(oldm[p].0@ == k);
                assert(nm[p].0@ == k);
            }
        }
        assert forall|a: int, b2: int| 0 <= a < b2 < nm.len() implies nm[a].0@ != nm[b2].0@ by {
            assert(nm[a].0 == oldm[a].0);
            assert(nm[b2].0 == oldm[b2].0);
        }
        assert forall|k: Entid| keyed_has(oldm, k) && keyed_has(bs, k) implies #[trigger] keyed_get(
            nm,
            k,
        ) == keyed_get(bs, k).spec_mutate(keyed_get(oldm, k)) && builder_admissible(
            oldm,
            k,
            keyed_get(bs, k),
        ) by {
            let p = keyed_idx(oldm, k);
            assert(oldm[p].0@ == k);
            assert(nm[p].0@ == k);
            lemma_keyed_idx_unique(nm, k, p);
            lemma_keyed_idx_unique(oldm, k, p);
        }
        assert forall|k: Entid| keyed_has(oldm, k) && !keyed_has(bs, k) implies #[trigger] keyed_get(
            nm,
            k,
        ) == keyed_get(oldm, k) by {
            let p = keyed_idx(oldm, k);
            assert(oldm[p].0@ == k);
            assert(nm[p].0@ == k);
            lemma_keyed_idx_unique(nm, k, p);
            lemma_keyed_idx_unique(oldm, k, p);
        }
        assert(bs.take(0) =~= Seq::<(Entid, AttributeBuilder)>::empty());
        assert(installed_of(bs.take(0), oldm) =~= Seq::<Entid>::empty());
    }

    // Apply installs.
    let mut installed: Vec<Entid> = Vec::new();
    let mut j: usize = 0;
    while j < builders.len()
        invariant
            j <= builders.len(),
            schema_map@ == oldm,
            keyed_distinct(oldm),
            builders@ == bs,
            keyed_distinct(bs),
            keyed_distinct(new_map@),
            forall|i: int| 0 <= i < new_map@.len() ==> (#[trigger] new_map@[i].1).valid(),
            forall|k: Entid|
                #[trigger] keyed_has(new_map@, k) == (keyed_has(oldm, k) || keyed_has(
                    bs.take(j as int),
                    k,
                )),
            forall|k: Entid|
                keyed_has(oldm, k) && keyed_has(bs, k) ==> #[trigger] keyed_get(new_map@, k)
                    == keyed_get(bs, k).spec_mutate(keyed_get(oldm, k)),
            forall|k: Entid|
                keyed_has(oldm, k) && !keyed_has(bs, k) ==> #[trigger] keyed_get(new_map@, k)
                    == keyed_get(oldm, k),
            forall|k: Entid|
                !keyed_has(oldm, k) && keyed_has(bs.take(j as int), k) ==> #[trigger] keyed_get(
                    new_map@,
                    k,
                ) == keyed_get(bs, k).spec_build(),
            forall|k: Entid|
                keyed_has(oldm, k) && keyed_has(bs, k) ==> builder_admissible(
                    oldm,
                    k,
                    keyed_get(bs, k),
                ),
            forall|k: Entid|
                !keyed_has(oldm, k) && keyed_has(bs.take(j as int), k) ==> builder_admissible(
                    oldm,
                    k,
                    keyed_get(bs, k),
                ),
            installed@ == installed_of(bs.take(j as int), oldm),
            altered@.map_values(|pr: (Entid, Vec<AttributeAlteration>)| (pr.0, pr.1@))
                == altered_of(oldm, bs),
        decreases builders.len() - j,
    {
        let (e, b) = builders[j];
        proof {
            lemma_keyed_take_distinct(bs, j as int);
            lemma_keyed_idx_unique(bs, e, j as int);
            assert(bs.take(j + 1) =~= bs.take(j as int).push(bs[j as int]));
            lemma_keyed_push(bs.take(j as int), bs[j as int]);
            lemma_installed_push(bs.take(j as int), oldm, bs[j as int]);
            assert(keyed_get(bs, e) == b);
        }
        match find_entid(schema_map, e) {
            Some(_) => {
                proof {
                    assert(keyed_has(oldm, e));
                    assert forall|k: Entid| #[trigger] keyed_has(new_map@, k) == (keyed_has(
                        oldm,
                        k,
                    ) || keyed_has(bs.take(j + 1), k)) by {
                        if k == e {
                            assert(keyed_has(oldm, k));
                        } else {
                            assert(keyed_has(bs.take(j + 1), k) == keyed_has(
                                bs.take(j as int),
                                k,
                            ));
                        }
                    }
                    assert forall|k: Entid|
                        !keyed_has(oldm, k) && keyed_has(bs.take(j + 1), k) implies {
                        &&& #[trigger] keyed_get(new_map@, k) == keyed_get(bs, k).spec_build()
                        &&& builder_admissible(oldm, k, keyed_get(bs, k))
                    } by {
                        assert(k != e);
                        assert(keyed_has(bs.take(j + 1), k) == keyed_has(bs.take(j as int), k));
                    }
                }
            },
            None => {
                if !b.is_valid_install_attribute() {
                    proof {
                        assert(!builder_admissible(oldm, bs[j as int].0, bs[j as int].1));
                        assert(!triples_admissible(assertions@, oldm));
                    }
                    return Err(
                        ErrorKind::BadSchemaAssertion(
                            String::from_str("an installed attribute must declare a value type"),
                        ),
                    );
                }
                let attr = b.build();
                if !attr.check_valid() {
                    proof {
                        assert(!builder_admissible(oldm, bs[j as int].0, bs[j as int].1));
                        assert(!triples_admissible(assertions@, oldm));
                    }
                    return Err(
                        ErrorKind::BadSchemaAssertion(
                            String::from_str("installed attribute breaks an attribute invariant"),
                        ),
                    );
                }
                let ghost nm_before = new_map@;
                proof {
                    assert(!keyed_has(bs.take(j as int), e));
                    assert(!keyed_has(nm_before, e));
                    lemma_keyed_push(nm_before, (e, attr));
                }
                new_map.push((e, attr));
                installed.push(e);
                proof {
                    assert(new_map@ == nm_before.push((e, attr)));
                    assert forall|k: Entid| #[trigger] keyed_has(new_map@, k) == (keyed_has(
                        oldm,
                        k,
                    ) || keyed_has(bs.take(j + 1), k)) by {
                        if k == e {
                            assert(keyed_has(new_map@, e));
                            assert(keyed_has(bs.take(j + 1), e));
                        } else {
                            assert(keyed_has(new_map@, k) == keyed_has(nm_before, k));
                            assert(keyed_has(bs.take(j + 1), k) == keyed_has(
                                bs.take(j as int),
                                k,
                            ));
                        }
                    }
                    assert forall|k: Entid| keyed_has(oldm, k) && keyed_has(bs, k) implies
                        #[trigger] keyed_get(new_map@, k) == keyed_get(bs, k).spec_mutate(
                        keyed_get(oldm, k),
                    ) by {
                        assert(k != e);
                        assert(keyed_has(nm_before, k));
                        assert(keyed_get(new_map@, k) == keyed_get(nm_before, k));
                    }
                    assert forall|k: Entid| keyed_has(oldm, k) && !keyed_has(bs, k) implies
                        #[trigger] keyed_get(new_map@, k) == keyed_get(oldm, k) by {
                        assert(k != e);
                        assert(keyed_has(nm_before, k));
                        assert(keyed_get(new_map@, k) == keyed_get(nm_before, k));
                    }
                    assert forall|k: Entid|
                        !keyed_has(oldm, k) && keyed_has(bs.take(j + 1), k) implies {
                        &&& #[trigger] keyed_get(new_map@, k) == keyed_get(bs, k).spec_build()
                        &&& builder_admissible(oldm, k, keyed_get(bs, k))
                    } by {
                        if k == e {
                            assert(keyed_get(new_map@, e) == attr);
                        } else {
                            assert(keyed_has(bs.take(j + 1), k) == keyed_has(
                                bs.take(j as int),
                                k,
                            ));
                            assert(keyed_has(nm_before, k));
                            assert(keyed_get(new_map@, k) == keyed_get(nm_before, k));
                        }
                    }
                }
            },
        }
        j = j + 1;
    }
    proof {
        assert(bs.take(bs.len() as int) =~= bs);
        assert forall|jj: int| 0 <= jj < bs.len() implies builder_admissible(
            oldm,
            (#[trigger] bs[jj]).0,
            bs[jj].1,
        ) by {
            lemma_keyed_idx_unique(bs, bs[jj].0, jj);
        }
        assert(triples_admissible(assertions@, oldm));
    }

    *schema_map = new_map;
    Ok(
        MetadataReport {
            attributes_installed: installed,
            attributes_altered: altered,
            idents_altered: Vec::new(),
        },
    )
}

} // verus!
