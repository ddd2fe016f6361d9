//! The upsert resolution algorithm: terms with tempids are partitioned into
//! populations, evolved against probe results until a fixed point, and
//! finally lowered to fully resolved terms.

use crate::entities::{OpType, TempId};
use crate::errors::ErrorKind;
use crate::internal_types::{TempIdMap, Term, TermWithTempIds, TermWithoutTempIds};
use crate::keyed::keyed_has;
use crate::schema::Schema;
use crate::types::{AVPair, Entid, TypedValue};
use vstd::prelude::*;

verus! {

/// The population a term with tempids belongs to.
#[derive(Clone, Copy, Debug, PartialEq, Eq, Structural)]
pub enum PopulationType {
    /// Simple upserts `[:db/add TEMPID a v]` with `a` unique-identity.
    UpsertsE,
    /// Complex upserts `[:db/add TEMPID a OTHERID]` with `a`
    /// unique-identity.
    UpsertsEV,
    /// `[op TEMPID b OTHERID]` where `b` is not unique-identity.
    AllocationsEV,
    /// `[op TEMPID b v]` where `b` is not unique-identity.
    AllocationsE,
    /// `[op e b OTHERID]`.
    AllocationsV,
    /// Terms that do not reference tempids.
    Inert,
}

/// Shape predicates over terms with tempids.
pub open spec fn shape_ee_vv(t: TermWithTempIds) -> bool {
    t matches Term::AddOrRetract(_, Err(_), _, Err(_))
}

pub open spec fn shape_ee_ok(t: TermWithTempIds) -> bool {
    t matches Term::AddOrRetract(_, Err(_), _, Ok(_))
}

pub open spec fn shape_ok_vv(t: TermWithTempIds) -> bool {
    t matches Term::AddOrRetract(_, Ok(_), _, Err(_))
}

/// A term that references no tempid at all.
pub open spec fn shape_inert(t: TermWithTempIds) -> bool {
    ||| t matches Term::AddOrRetract(_, Ok(_), _, Ok(_))
    ||| t matches Term::RetractAttribute(Ok(_), _)
    ||| t matches Term::RetractEntity(Ok(_))
}

/// A term is an add whose entity is a tempid.
pub open spec fn shape_add(t: TermWithTempIds) -> bool {
    t matches Term::AddOrRetract(OpType::Add, _, _, _)
}

/// A whole-entity or whole-attribute retraction whose entity is still a
/// tempid.  The pipeline refuses these: a retraction can only speak of an
/// entity that already exists.
pub open spec fn shape_retract_tempid(t: TermWithTempIds) -> bool {
    ||| t matches Term::RetractAttribute(Err(_), _)
    ||| t matches Term::RetractEntity(Err(_))
}

/// The attribute of an add-or-retract term.
pub open spec fn term_attr(t: TermWithTempIds) -> Entid {
    match t {
        Term::AddOrRetract(_, _, a, _) => a,
        Term::RetractAttribute(_, a) => a,
        Term::RetractEntity(_) => 0,
    }
}

/// The population a term falls into, given the attribute catalog.
pub open spec fn spec_population(t: TermWithTempIds, schema: Schema) -> PopulationType {
    let unique = keyed_has(schema.schema_map@, term_attr(t)) && crate::keyed::keyed_get(
        schema.schema_map@,
        term_attr(t),
    ).unique_identity;
    if shape_ee_vv(t) {
        if shape_add(t) && unique {
            PopulationType::UpsertsEV
        } else {
            PopulationType::AllocationsEV
        }
    } else if shape_ee_ok(t) {
        if shape_add(t) && unique {
            PopulationType::UpsertsE
        } else {
            PopulationType::AllocationsE
        }
    } else if shape_ok_vv(t) {
        PopulationType::AllocationsV
    } else {
        PopulationType::Inert
    }
}

impl TermWithTempIds {
    /// Which population does this term belong to?  Terms whose entity
    /// position is a tempid must reference a known attribute.
    pub fn population_type(&self, schema: &Schema) -> (r: Result<PopulationType, ErrorKind>)
        requires
            schema.wf(),
        ensures
            match r {
                Ok(p) => p == spec_population(*self, *schema) && !shape_retract_tempid(*self) && ((
                shape_ee_vv(*self) || shape_ee_ok(*self)) ==> keyed_has(
                    schema.schema_map@,
                    term_attr(*self),
                )),
                Err(k) => ((shape_ee_vv(*self) || shape_ee_ok(*self)) && !keyed_has(
                    schema.schema_map@,
                    term_attr(*self),
                ) && k is UnrecognizedEntid) || (shape_retract_tempid(*self)
                    && k is NotYetImplemented),
            },
    {
        match self {
            Term::RetractAttribute(Err(_), _) => Err(
                ErrorKind::NotYetImplemented(
                    String::from_str("a retraction cannot name its entity by tempid"),
                ),
            ),
            Term::RetractEntity(Err(_)) => Err(
                ErrorKind::NotYetImplemented(
                    String::from_str("a retraction cannot name its entity by tempid"),
                ),
            ),
            Term::AddOrRetract(op, Err(_), a, Err(_)) => {
                match schema.attribute_for_entid(*a) {
                    Some(attribute) => {
                        if matches!(op, OpType::Add) && attribute.unique_identity {
                            Ok(PopulationType::UpsertsEV)
                        } else {
                            Ok(PopulationType::AllocationsEV)
                        }
                    },
                    None => Err(ErrorKind::UnrecognizedEntid(*a)),
                }
            },
            Term::AddOrRetract(op, Err(_), a, Ok(_)) => {
                match schema.attribute_for_entid(*a) {
                    Some(attribute) => {
                        if matches!(op, OpType::Add) && attribute.unique_identity {
                            Ok(PopulationType::UpsertsE)
                        } else {
                            Ok(PopulationType::AllocationsE)
                        }
                    },
                    None => Err(ErrorKind::UnrecognizedEntid(*a)),
                }
            },
            Term::AddOrRetract(_, Ok(_), _, Err(_)) => Ok(PopulationType::AllocationsV),
            _ => Ok(PopulationType::Inert),
        }
    }
}

/// The populations of terms as the upsert algorithm evolves them.
#[derive(Debug)]
pub struct Generation {
    /// Simple upserts `[:db/add TEMPID a v]` with `a` unique-identity.
    pub upserts_e: Vec<TermWithTempIds>,

    /// Complex upserts `[:db/add TEMPID a OTHERID]` with `a`
    /// unique-identity.
    pub upserts_ev: Vec<TermWithTempIds>,

    /// `[op TEMPID b OTHERID]` where `b` is not unique-identity.
    pub allocations_ev: Vec<TermWithTempIds>,

    /// `[op TEMPID b v]` where `b` is not unique-identity.
    pub allocations_e: Vec<TermWithTempIds>,

    /// `[op e b OTHERID]`.
    pub allocations_v: Vec<TermWithTempIds>,

    /// Upserts that upserted: these assertions are in the store.
    pub upserted: Vec<TermWithTempIds>,

    /// Allocations that resolved due to other upserts.
    pub resolved: Vec<TermWithTempIds>,

    /// Terms that do not reference tempids.
    pub inert: Vec<TermWithTempIds>,
}

impl Generation {
    /// The shape discipline of the populations: every term sits in a
    /// population matching its holes.
    pub open spec fn wf(self) -> bool {
        &&& forall|i: int|
            0 <= i < self.upserts_e@.len() ==> shape_ee_ok(#[trigger] self.upserts_e@[i])
                && shape_add(self.upserts_e@[i])
        &&& forall|i: int|
            0 <= i < self.upserts_ev@.len() ==> shape_ee_vv(#[trigger] self.upserts_ev@[i])
                && shape_add(self.upserts_ev@[i])
        &&& forall|i: int|
            0 <= i < self.allocations_ev@.len() ==> shape_ee_vv(#[trigger] self.allocations_ev@[i])
        &&& forall|i: int|
            0 <= i < self.allocations_e@.len() ==> shape_ee_ok(#[trigger] self.allocations_e@[i])
        &&& forall|i: int|
            0 <= i < self.allocations_v@.len() ==> shape_ok_vv(#[trigger] self.allocations_v@[i])
        &&& forall|i: int| 0 <= i < self.upserted@.len() ==> shape_inert(#[trigger] self.upserted@[i])
        &&& forall|i: int| 0 <= i < self.resolved@.len() ==> shape_inert(#[trigger] self.resolved@[i])
        &&& forall|i: int| 0 <= i < self.inert@.len() ==> shape_inert(#[trigger] self.inert@[i])
    }

    /// The number of terms held across all populations.
    pub open spec fn count(self) -> int {
        self.upserts_e@.len() + self.upserts_ev@.len() + self.allocations_ev@.len()
            + self.allocations_e@.len() + self.allocations_v@.len() + self.upserted@.len()
            + self.resolved@.len() + self.inert@.len() as int
    }

    /// An empty generation.
    pub fn new() -> (g: Generation)
        ensures
            g.wf(),
            g.count() == 0,
            g.upserts_e@.len() == 0,
            g.upserts_ev@.len() == 0,
            g.allocations_ev@.len() == 0,
            g.allocations_e@.len() == 0,
            g.allocations_v@.len() == 0,
            g.upserted@.len() == 0,
            g.resolved@.len() == 0,
            g.inert@.len() == 0,
    {
        Generation {
            upserts_e: Vec::new(),
            upserts_ev: Vec::new(),
            allocations_ev: Vec::new(),
            allocations_e: Vec::new(),
            allocations_v: Vec::new(),
            upserted: Vec::new(),
            resolved: Vec::new(),
            inert: Vec::new(),
        }
    }

    /// Does every term classify against the schema: no retraction names its
    /// entity by tempid, and every term whose entity is a tempid references
    /// a known attribute?  This is exactly the success condition of
    /// [`Generation::from`].
    pub open spec fn classifiable(terms: Seq<TermWithTempIds>, schema: Schema) -> bool {
        forall|i: int|
            0 <= i < terms.len() ==> !shape_retract_tempid(#[trigger] terms[i]) && ((shape_ee_vv(
                terms[i],
            ) || shape_ee_ok(terms[i])) ==> keyed_has(schema.schema_map@, term_attr(terms[i])))
    }

    /// Partition terms into populations, classifying each against the
    /// schema.  Succeeds exactly when every term classifies; a term that
    /// does not reference a tempid is passed through into the inert
    /// population.
    pub fn from(terms: Vec<TermWithTempIds>, schema: &Schema) -> (r: Result<Generation, ErrorKind>)
        requires
            schema.wf(),
        ensures
            r is Ok <==> Generation::classifiable(terms@, *schema),
            match r {
                Ok(g) => {
                    &&& g.wf()
                    &&& g.count() == terms@.len()
                    &&& g.upserted@.len() == 0
                    &&& g.resolved@.len() == 0
                    &&& forall|i: int|
                        0 <= i < terms@.len() && shape_inert(#[trigger] terms@[i])
                            ==> exists|j: int| 0 <= j < g.inert@.len() && g.inert@[j] == terms@[i]
                    &&& forall|j: int|
                        0 <= j < g.inert@.len() ==> exists|i: int|
                            0 <= i < terms@.len() && #[trigger] g.inert@[j] == terms@[i]
                    &&& ((forall|i: int| 0 <= i < terms@.len() ==> shape_inert(
                        #[trigger] terms@[i],
                    )) ==> g.upserts_e@.len() == 0 && g.upserts_ev@.len() == 0
                        && g.allocations_ev@.len() == 0 && g.allocations_e@.len() == 0
                        && g.allocations_v@.len() == 0)
                },
                Err(k) => k is UnrecognizedEntid || k is NotYetImplemented,
            },
    {
        let mut generation = Generation::new();
        let mut pending = terms;
        let ghost orig = pending@;
        let ghost n = pending@.len();
        while pending.len() > 0
            invariant
                orig == terms@,
                schema.wf(),
                generation.wf(),
                generation.count() + pending@.len() == n,
                generation.upserted@.len() == 0,
                generation.resolved@.len() == 0,
                pending@.len() <= orig.len(),
                pending@ == orig.skip(orig.len() - pending@.len()),
                forall|i: int|
                    0 <= i < orig.len() - pending@.len() ==> !shape_retract_tempid(
                        #[trigger] orig[i],
                    ) && ((shape_ee_vv(orig[i]) || shape_ee_ok(orig[i])) ==> keyed_has(
                        schema.schema_map@,
                        term_attr(orig[i]),
                    )),
                forall|i: int|
                    0 <= i < orig.len() - pending@.len() && shape_inert(#[trigger] orig[i])
                        ==> exists|j: int|
                        0 <= j < generation.inert@.len() && generation.inert@[j] == orig[i],
                forall|j: int|
                    0 <= j < generation.inert@.len() ==> exists|i: int|
                        0 <= i < orig.len() && #[trigger] generation.inert@[j] == orig[i],
                (forall|i: int|
                    0 <= i < orig.len() - pending@.len() ==> shape_inert(#[trigger] orig[i]))
                    ==> generation.upserts_e@.len() == 0 && generation.upserts_ev@.len() == 0
                    && generation.allocations_ev@.len() == 0 && generation.allocations_e@.len()
                    == 0 && generation.allocations_v@.len() == 0,
            decreases pending@.len(),
        {
            let ghost k = orig.len() - pending@.len();
            proof {
                assert(pending@[0] == orig[k]);
                assert(orig.skip(k).drop_first() =~= orig.skip(k + 1));
            }
            let term = pending.remove(0);
            match term.population_type(schema) {
                Ok(PopulationType::UpsertsEV) => {
                    proof {
                        assert(shape_ee_vv(term) && shape_add(term));
                    }
                    generation.upserts_ev.push(term);
                },
                Ok(PopulationType::UpsertsE) => {
                    proof {
                        assert(shape_ee_ok(term) && shape_add(term));
                    }
                    generation.upserts_e.push(term);
                },
                Ok(PopulationType::AllocationsEV) => {
                    proof {
                        assert(shape_ee_vv(term));
                    }
                    generation.allocations_ev.push(term);
                },
                Ok(PopulationType::AllocationsE) => {
                    proof {
                        assert(shape_ee_ok(term));
                    }
                    generation.allocations_e.push(term);
                },
                Ok(PopulationType::AllocationsV) => {
                    proof {
                        assert(shape_ok_vv(term));
                    }
                    generation.allocations_v.push(term);
                },
                Ok(PopulationType::Inert) => {
                    proof {
                        assert(shape_inert(term));
                    }
                    let ghost before = generation.inert@;
                    generation.inert.push(term);
                    proof {
                        assert(generation.inert@ == before.push(term));
                        assert(generation.inert@.last() == orig[k]);
                        assert forall|i: int|
                            0 <= i <= k && shape_inert(#[trigger] orig[i]) implies exists|j: int|
                            0 <= j < generation.inert@.len() && generation.inert@[j]
                                == orig[i] by {
                            if i == k {
                                assert(generation.inert@[before.len() as int] == term);
                            } else {
                                let j = choose|j: int|
                                    0 <= j < before.len() && before[j] == orig[i];
                                assert(generation.inert@[j] == orig[i]);
                            }
                        }
                    }
                },
                Err(k2) => {
                    proof {
                        assert(orig[k] == term);
                        assert(shape_retract_tempid(orig[k]) || ((shape_ee_vv(orig[k])
                            || shape_ee_ok(orig[k])) && !keyed_has(
                            schema.schema_map@,
                            term_attr(orig[k]),
                        )));
                        assert(!Generation::classifiable(orig, *schema));
                    }
                    return Err(k2);
                },
            }

        }
        proof {
            assert(orig.skip(0) =~= orig);
            assert(Generation::classifiable(orig, *schema));
        }
        Ok(generation)
    }

    /// Can this generation evolve further?
    pub fn can_evolve(&self) -> (r: bool)
        ensures
            r == (self.upserts_e@.len() > 0),
    {
        !self.upserts_e.is_empty()
    }

    /// Evolve one step: dispatch every pending upsert against the tempid
    /// resolutions probed so far.  Simple upserts either upserted or demote
    /// to allocations; complex upserts resolve, promote to simple upserts,
    /// or demote to allocations.
    /// Where the dispatch of one pending simple upsert lands, given the
    /// resolutions probed so far: resolved tempids upserted, the rest demote
    /// to allocations.
    pub open spec fn upsert_e_dispatched(
        t: TermWithTempIds,
        m: TempIdMap,
        next: Generation,
    ) -> bool {
        match t {
            Term::AddOrRetract(op, Err(t1), a, Ok(v)) => {
                if m.spec_has(t1@) {
                    exists|j: int|
                        0 <= j < next.upserted@.len() && #[trigger] next.upserted@[j]
                            == Term::AddOrRetract(op, Ok::<Entid, TempId>(m.spec_get(t1@)), a, Ok::<TypedValue, TempId>(v))
                } else {
                    exists|j: int|
                        0 <= j < next.allocations_e@.len() && #[trigger] next.allocations_e@[j]
                            == Term::AddOrRetract(op, Err::<Entid, TempId>(t1), a, Ok::<TypedValue, TempId>(v))
                }
            },
            _ => true,
        }
    }

    /// Where the dispatch of one pending complex upsert lands: both ends
    /// resolved is resolved outright, a resolved value promotes the term to
    /// a simple upsert (forcing another fixed-point round), and the rest
    /// demote to allocations.
    pub open spec fn upsert_ev_dispatched(
        t: TermWithTempIds,
        m: TempIdMap,
        next: Generation,
    ) -> bool {
        match t {
            Term::AddOrRetract(op, Err(t1), a, Err(t2)) => {
                if m.spec_has(t1@) && m.spec_has(t2@) {
                    exists|j: int|
                        0 <= j < next.resolved@.len() && #[trigger] next.resolved@[j]
                            == Term::AddOrRetract(
                            op,
                            Ok::<Entid, TempId>(m.spec_get(t1@)),
                            a,
                            Ok::<TypedValue, TempId>(TypedValue::Ref(m.spec_get(t2@))),
                        )
                } else if !m.spec_has(t1@) && m.spec_has(t2@) {
                    exists|j: int|
                        0 <= j < next.upserts_e@.len() && #[trigger] next.upserts_e@[j]
                            == Term::AddOrRetract(
                            op,
                            Err::<Entid, TempId>(t1),
                            a,
                            Ok::<TypedValue, TempId>(TypedValue::Ref(m.spec_get(t2@))),
                        )
                } else if m.spec_has(t1@) && !m.spec_has(t2@) {
                    exists|j: int|
                        0 <= j < next.allocations_v@.len() && #[trigger] next.allocations_v@[j]
                            == Term::AddOrRetract(op, Ok::<Entid, TempId>(m.spec_get(t1@)), a, Err::<TypedValue, TempId>(t2))
                } else {
                    exists|j: int|
                        0 <= j < next.allocations_ev@.len() && #[trigger] next.allocations_ev@[j]
                            == Term::AddOrRetract(op, Err::<Entid, TempId>(t1), a, Err::<TypedValue, TempId>(t2))
                }
            },
            _ => true,
        }
    }

    /// Evolve one step: dispatch every pending upsert against the tempid
    /// resolutions probed so far.  Simple upserts either upserted or demote
    /// to allocations; complex upserts resolve, promote to simple upserts,
    /// or demote to allocations.
    #[verifier::rlimit(100)]
    #[verifier::spinoff_prover]
    #[verifier::loop_isolation(false)]
    pub fn evolve_one_step(self, temp_id_map: &TempIdMap) -> (next: Generation)
        requires
            self.wf(),
            temp_id_map.wf(),
        ensures
            next.wf(),
            next.count() == self.count(),
            next.upserts_ev@.len() == 0,
            next.upserts_e@.len() <= self.upserts_ev@.len(),
            next.inert@ == self.inert@,
            self.upserts_e@.len() > 0 ==> 2 * next.upserts_ev@.len() + next.upserts_e@.len() < 2
                * self.upserts_ev@.len() + self.upserts_e@.len(),
            (self.upserts_e@.len() == 0 && self.upserts_ev@.len() == 0) ==> (
            next.allocations_ev@ == self.allocations_ev@ && next.allocations_e@
                == self.allocations_e@ && next.allocations_v@ == self.allocations_v@
                && next.upserted@ == self.upserted@ && next.resolved@ == self.resolved@),
            forall|k: int|
                0 <= k < self.upserts_e@.len() ==> Generation::upsert_e_dispatched(
                    #[trigger] self.upserts_e@[k],
                    *temp_id_map,
                    next,
                ),
            forall|k: int|
                0 <= k < self.upserts_ev@.len() ==> Generation::upsert_ev_dispatched(
                    #[trigger] self.upserts_ev@[k],
                    *temp_id_map,
                    next,
                ),
    {
        let Generation {
            upserts_e,
            upserts_ev,
            allocations_ev,
            allocations_e,
            allocations_v,
            upserted,
            resolved,
            inert,
        } = self;
        let ghost c = self.count();
        let ghost orig_e = self.upserts_e@;
        let ghost orig_ev = self.upserts_ev@;
        let mut next = Generation {
            upserts_e: Vec::new(),
            upserts_ev: Vec::new(),
            allocations_ev,
            allocations_e,
            allocations_v,
            upserted,
            resolved,
            inert,
        };

        let mut upserts_e = upserts_e;
        while upserts_e.len() > 0
            invariant
                upserts_e@.len() <= orig_e.len(),
                upserts_e@ == orig_e.skip(orig_e.len() - upserts_e@.len()),
                next.count() + upserts_e@.len() + upserts_ev@.len() == c,
                next.upserts_e@.len() == 0,
                next.upserts_ev@.len() == 0,
                next.wf(),
                next.inert@ == self.inert@,
                (orig_e.len() == 0 && orig_ev.len() == 0) ==> (next.allocations_ev@
                    == self.allocations_ev@ && next.allocations_e@ == self.allocations_e@
                    && next.allocations_v@ == self.allocations_v@ && next.upserted@
                    == self.upserted@ && next.resolved@ == self.resolved@),
                forall|k: int|
                    0 <= k < orig_e.len() - upserts_e@.len()
                        ==> Generation::upsert_e_dispatched(
                        #[trigger] orig_e[k],
                        *temp_id_map,
                        next,
                    ),
            decreases upserts_e@.len(),
        {
            let ghost k = orig_e.len() - upserts_e@.len();
            proof {
                assert(upserts_e@[0] == orig_e[k]);
                assert(orig_e.skip(k).drop_first() =~= orig_e.skip(k + 1));
            }
            let ghost before = next;
            let term = upserts_e.remove(0);
            match term {
                Term::AddOrRetract(op, Err(t), a, Ok(v)) => {
                    match temp_id_map.get(&t) {
                        Some(n) => next.upserted.push(Term::AddOrRetract(op, Ok(n), a, Ok(v))),
                        None => next.allocations_e.push(Term::AddOrRetract(op, Err(t), a, Ok(v))),
                    }
                },
                _ => {
                    proof {
                        assert(false);
                    }
                },
            }
            proof {
                assert forall|k2: int| 0 <= k2 <= k implies Generation::upsert_e_dispatched(
                    #[trigger] orig_e[k2],
                    *temp_id_map,
                    next,
                ) by {
                    if k2 < k {
                        assert(Generation::upsert_e_dispatched(orig_e[k2], *temp_id_map, before));
                        match orig_e[k2] {
                            Term::AddOrRetract(op2, Err(t1), a2, Ok(v2)) => {
                                if temp_id_map.spec_has(t1@) {
                                    let j = choose|j: int|
                                        0 <= j < before.upserted@.len()
                                            && #[trigger] before.upserted@[j]
                                            == Term::AddOrRetract(
                                            op2,
                                            Ok::<Entid, TempId>(temp_id_map.spec_get(t1@)),
                                            a2,
                                            Ok::<TypedValue, TempId>(v2),
                                        );
                                    assert(next.upserted@[j] == before.upserted@[j]);
                                } else {
                                    let j = choose|j: int|
                                        0 <= j < before.allocations_e@.len()
                                            && #[trigger] before.allocations_e@[j]
                                            == Term::AddOrRetract(op2, Err::<Entid, TempId>(t1), a2, Ok::<TypedValue, TempId>(v2));
                                    assert(next.allocations_e@[j] == before.allocations_e@[j]);
                                }
                            },
                            _ => {},
                        }
                    } else {
                        match orig_e[k] {
                            Term::AddOrRetract(op2, Err(t1), a2, Ok(v2)) => {
                                if temp_id_map.spec_has(t1@) {
                                    assert(next.upserted@.last() == Term::AddOrRetract(
                                        op2,
                                        Ok::<Entid, TempId>(temp_id_map.spec_get(t1@)),
                                        a2,
                                        Ok::<TypedValue, TempId>(v2),
                                    ));
                                } else {
                                    assert(next.allocations_e@.last() == Term::AddOrRetract(
                                        op2,
                                        Err::<Entid, TempId>(t1),
                                        a2,
                                        Ok::<TypedValue, TempId>(v2),
                                    ));
                                }
                            },
                            _ => {},
                        }
                    }
                }
            }
        }

        let mut upserts_ev = upserts_ev;
        while upserts_ev.len() > 0
            invariant
                upserts_ev@.len() <= orig_ev.len(),
                upserts_ev@ == orig_ev.skip(orig_ev.len() - upserts_ev@.len()),
                next.count() + upserts_ev@.len() == c,
                next.upserts_ev@.len() == 0,
                next.wf(),
                next.inert@ == self.inert@,
                (orig_e.len() == 0 && orig_ev.len() == 0) ==> (next.allocations_ev@
                    == self.allocations_ev@ && next.allocations_e@ == self.allocations_e@
                    && next.allocations_v@ == self.allocations_v@ && next.upserted@
                    == self.upserted@ && next.resolved@ == self.resolved@),
                next.upserts_e@.len() + upserts_ev@.len() <= self.upserts_ev@.len(),
                forall|k: int|
                    0 <= k < orig_e.len() ==> Generation::upsert_e_dispatched(
                        #[trigger] orig_e[k],
                        *temp_id_map,
                        next,
                    ),
                forall|k: int|
                    0 <= k < orig_ev.len() - upserts_ev@.len()
                        ==> Generation::upsert_ev_dispatched(
                        #[trigger] orig_ev[k],
                        *temp_id_map,
                        next,
                    ),
            decreases upserts_ev@.len(),
        {
            let ghost k = orig_ev.len() - upserts_ev@.len();
            proof {
                assert(upserts_ev@[0] == orig_ev[k]);
                assert(orig_ev.skip(k).drop_first() =~= orig_ev.skip(k + 1));
            }
            let ghost before = next;
            let term = upserts_ev.remove(0);
            match term {
                Term::AddOrRetract(op, Err(t1), a, Err(t2)) => {
                    match (temp_id_map.get(&t1), temp_id_map.get(&t2)) {
                        (Some(n1), Some(n2)) => next.resolved.push(
                            Term::AddOrRetract(op, Ok(n1), a, Ok(TypedValue::Ref(n2))),
                        ),
                        (None, Some(n2)) => next.upserts_e.push(
                            Term::AddOrRetract(op, Err(t1), a, Ok(TypedValue::Ref(n2))),
                        ),
                        (Some(n1), None) => next.allocations_v.push(
                            Term::AddOrRetract(op, Ok(n1), a, Err(t2)),
                        ),
                        (None, None) => next.allocations_ev.push(
                            Term::AddOrRetract(op, Err(t1), a, Err(t2)),
                        ),
                    }
                },
                _ => {
                    proof {
                        assert(false);
                    }
                },
            }
            proof {
                assert forall|k2: int| 0 <= k2 < orig_e.len() implies
                    Generation::upsert_e_dispatched(
                    #[trigger] orig_e[k2],
                    *temp_id_map,
                    next,
                ) by {
                    assert(Generation::upsert_e_dispatched(orig_e[k2], *temp_id_map, before));
                    match orig_e[k2] {
                        Term::AddOrRetract(op2, Err(tt), a2, Ok(v2)) => {
                            if temp_id_map.spec_has(tt@) {
                                let j = choose|j: int|
                                    0 <= j < before.upserted@.len()
                                        && #[trigger] before.upserted@[j] == Term::AddOrRetract(
                                        op2,
                                        Ok::<Entid, TempId>(temp_id_map.spec_get(tt@)),
                                        a2,
                                        Ok::<TypedValue, TempId>(v2),
                                    );
                                assert(next.upserted@[j] == before.upserted@[j]);
                            } else {
                                let j = choose|j: int|
                                    0 <= j < before.allocations_e@.len()
                                        && #[trigger] before.allocations_e@[j]
                                        == Term::AddOrRetract(op2, Err::<Entid, TempId>(tt), a2, Ok::<TypedValue, TempId>(v2));
                                assert(next.allocations_e@[j] == before.allocations_e@[j]);
                            }
                        },
                        _ => {},
                    }
                }
                assert forall|k2: int| 0 <= k2 <= k implies Generation::upsert_ev_dispatched(
                    #[trigger] orig_ev[k2],
                    *temp_id_map,
                    next,
                ) by {
                    if k2 < k {
                        assert(Generation::upsert_ev_dispatched(
                            orig_ev[k2],
                            *temp_id_map,
                            before,
                        ));
                        match orig_ev[k2] {
                            Term::AddOrRetract(op2, Err::<Entid, TempId>(t1b), a2, Err(t2b)) => {
                                if temp_id_map.spec_has(t1b@) && temp_id_map.spec_has(t2b@) {
                                    let j = choose|j: int|
                                        0 <= j < before.resolved@.len()
                                            && #[trigger] before.resolved@[j]
                                            == Term::AddOrRetract(
                                            op2,
                                            Ok::<Entid, TempId>(temp_id_map.spec_get(t1b@)),
                                            a2,
                                            Ok::<TypedValue, TempId>(TypedValue::Ref(temp_id_map.spec_get(t2b@))),
                                        );
                                    assert(next.resolved@[j] == before.resolved@[j]);
                                } else if !temp_id_map.spec_has(t1b@) && temp_id_map.spec_has(
                                    t2b@,
                                ) {
                                    let j = choose|j: int|
                                        0 <= j < before.upserts_e@.len()
                                            && #[trigger] before.upserts_e@[j]
                                            == Term::AddOrRetract(
                                            op2,
                                            Err::<Entid, TempId>(t1b),
                                            a2,
                                            Ok::<TypedValue, TempId>(TypedValue::Ref(temp_id_map.spec_get(t2b@))),
                                        );
                                    assert(next.upserts_e@[j] == before.upserts_e@[j]);
                                } else if temp_id_map.spec_has(t1b@) && !temp_id_map.spec_has(
                                    t2b@,
                                ) {
                                    let j = choose|j: int|
                                        0 <= j < before.allocations_v@.len()
                                            && #[trigger] before.allocations_v@[j]
                                            == Term::AddOrRetract(
                                            op2,
                                            Ok::<Entid, TempId>(temp_id_map.spec_get(t1b@)),
                                            a2,
                                            Err::<TypedValue, TempId>(t2b),
                                        );
                                    assert(next.allocations_v@[j] == before.allocations_v@[j]);
                                } else {
                                    let j = choose|j: int|
                                        0 <= j < before.allocations_ev@.len()
                                            && #[trigger] before.allocations_ev@[j]
                                            == Term::AddOrRetract(op2, Err::<Entid, TempId>(t1b), a2, Err::<TypedValue, TempId>(t2b));
                                    assert(next.allocations_ev@[j] == before.allocations_ev@[j]);
                                }
                            },
                            _ => {},
                        }
                    } else {
                        match orig_ev[k] {
                            Term::AddOrRetract(op2, Err::<Entid, TempId>(t1b), a2, Err(t2b)) => {
                                if temp_id_map.spec_has(t1b@) && temp_id_map.spec_has(t2b@) {
                                    assert(next.resolved@.last() == Term::AddOrRetract(
                                        op2,
                                        Ok::<Entid, TempId>(temp_id_map.spec_get(t1b@)),
                                        a2,
                                        Ok::<TypedValue, TempId>(TypedValue::Ref(temp_id_map.spec_get(t2b@))),
                                    ));
                                } else if !temp_id_map.spec_has(t1b@) && temp_id_map.spec_has(
                                    t2b@,
                                ) {
                                    assert(next.upserts_e@.last() == Term::AddOrRetract(
                                        op2,
                                        Err::<Entid, TempId>(t1b),
                                        a2,
                                        Ok::<TypedValue, TempId>(TypedValue::Ref(temp_id_map.spec_get(t2b@))),
                                    ));
                                } else if temp_id_map.spec_has(t1b@) && !temp_id_map.spec_has(
                                    t2b@,
                                ) {
                                    assert(next.allocations_v@.last() == Term::AddOrRetract(
                                        op2,
                                        Ok::<Entid, TempId>(temp_id_map.spec_get(t1b@)),
                                        a2,
                                        Err::<TypedValue, TempId>(t2b),
                                    ));
                                } else {
                                    assert(next.allocations_ev@.last() == Term::AddOrRetract(
                                        op2,
                                        Err::<Entid, TempId>(t1b),
                                        a2,
                                        Err::<TypedValue, TempId>(t2b),
                                    ));
                                }
                            },
                            _ => {},
                        }
                    }
                }
            }
        }

        proof {
            assert(orig_e.skip(0) =~= orig_e);
            assert(orig_ev.skip(0) =~= orig_ev);
        }
        next
    }

    /// Collect the `tempid → [a v]` pairs the store should probe to resolve
    /// the pending simple upserts.
    pub fn temp_id_avs(&self) -> (r: Vec<(TempId, AVPair)>)
        requires
            self.wf(),
        ensures
            r@.len() == self.upserts_e@.len(),
            forall|i: int|
                0 <= i < r@.len() ==> match self.upserts_e@[i] {
                    Term::AddOrRetract(_, Err(t), a, Ok(v)) => (#[trigger] r@[i]).0@ == t@
                        && r@[i].1.0 == a && r@[i].1.1@ == v@,
                    _ => false,
                },
    {
        let mut temp_id_avs: Vec<(TempId, AVPair)> = Vec::new();
        let mut i: usize = 0;
        while i < self.upserts_e.len()
            invariant
                self.wf(),
                i <= self.upserts_e@.len(),
                temp_id_avs@.len() == i,
                forall|j: int|
                    0 <= j < i ==> match self.upserts_e@[j] {
                        Term::AddOrRetract(_, Err(t), a, Ok(v)) => (#[trigger] temp_id_avs@[j]).0@
                            == t@ && temp_id_avs@[j].1.0 == a && temp_id_avs@[j].1.1@ == v@,
                        _ => false,
                    },
            decreases self.upserts_e@.len() - i,
        {
            match &self.upserts_e[i] {
                Term::AddOrRetract(_, Err(t), a, Ok(v)) => {
                    temp_id_avs.push((t.clone(), (*a, v.clone())));
                },
                _ => {
                    proof {
                        assert(false);
                    }
                },
            }
            i = i + 1;
        }
        temp_id_avs
    }
}

} // verus!

verus! {

/// Does the tempid list contain a tempid with view `k`?
pub open spec fn tempids_contain(s: Seq<TempId>, k: <TempId as View>::V) -> bool {
    exists|i: int| 0 <= i < s.len() && s[i]@ == k
}

/// Pushing keeps everything contained, and adds the pushed tempid.
proof fn lemma_tempids_contain_push(s: Seq<TempId>, x: TempId)
    ensures
        forall|k: <TempId as View>::V| tempids_contain(s, k) ==> tempids_contain(s.push(x), k),
        tempids_contain(s.push(x), x@),
{
    assert(s.push(x)[s.len() as int]@ == x@);
    assert forall|k: <TempId as View>::V| tempids_contain(s, k) implies tempids_contain(
        s.push(x),
        k,
    ) by {
        let i = choose|i: int| 0 <= i < s.len() && s[i]@ == k;
        assert(s.push(x)[i]@ == k);
    }
}

/// The entity position of a lowered term.
pub open spec fn lower_entity(e_or: crate::internal_types::EntidOr<TempId>, m: TempIdMap) -> Entid {
    match e_or {
        Ok(e) => e,
        Err(t) => m.spec_get(t@),
    }
}

/// The value position of a lowered term: a tempid hole becomes a `Ref` to
/// the entid it resolved to.
pub open spec fn lower_value(
    v_or: crate::internal_types::TypedValueOr<TempId>,
    m: TempIdMap,
) -> TypedValue {
    match v_or {
        Ok(v) => v,
        Err(t) => TypedValue::Ref(m.spec_get(t@)),
    }
}

/// The fully resolved form of a term, under the tempid resolutions `m`.
pub open spec fn spec_lower(t: TermWithTempIds, m: TempIdMap) -> TermWithoutTempIds {
    match t {
        Term::AddOrRetract(op, e_or, a, v_or) => Term::AddOrRetract(
            op,
            lower_entity(e_or, m),
            a,
            lower_value(v_or, m),
        ),
        Term::RetractAttribute(e_or, a) => Term::RetractAttribute(lower_entity(e_or, m), a),
        Term::RetractEntity(e_or) => Term::RetractEntity(lower_entity(e_or, m)),
    }
}

/// Does `m` resolve every tempid hole of the term?
pub open spec fn term_covered(t: TermWithTempIds, m: TempIdMap) -> bool {
    &&& (t matches Term::AddOrRetract(_, Err(t1), _, _) ==> m.spec_has(t1@))
    &&& (t matches Term::AddOrRetract(_, _, _, Err(t2)) ==> m.spec_has(t2@))
    &&& (t matches Term::RetractAttribute(Err(t1), _) ==> m.spec_has(t1@))
    &&& (t matches Term::RetractEntity(Err(t1)) ==> m.spec_has(t1@))
}

/// Does the generation still hold a tempid with view `k` in a position that
/// requires resolution or allocation?
pub open spec fn gen_has_tempid(g: Generation, k: <TempId as View>::V) -> bool {
    ||| exists|i: int|
        0 <= i < g.upserts_e@.len() && match #[trigger] g.upserts_e@[i] {
            Term::AddOrRetract(_, Err(t), _, _) => t@ == k,
            _ => false,
        }
    ||| exists|i: int|
        0 <= i < g.allocations_e@.len() && match #[trigger] g.allocations_e@[i] {
            Term::AddOrRetract(_, Err(t), _, _) => t@ == k,
            _ => false,
        }
    ||| exists|i: int|
        0 <= i < g.upserts_ev@.len() && match #[trigger] g.upserts_ev@[i] {
            Term::AddOrRetract(_, Err(t1), _, Err(t2)) => t1@ == k || t2@ == k,
            _ => false,
        }
    ||| exists|i: int|
        0 <= i < g.allocations_ev@.len() && match #[trigger] g.allocations_ev@[i] {
            Term::AddOrRetract(_, Err(t1), _, Err(t2)) => t1@ == k || t2@ == k,
            _ => false,
        }
    ||| exists|i: int|
        0 <= i < g.allocations_v@.len() && match #[trigger] g.allocations_v@[i] {
            Term::AddOrRetract(_, _, _, Err(t)) => t@ == k,
            _ => false,
        }
}

impl Generation {
    /// Every temporary ID mentioned in populations still requiring
    /// allocation, in a fixed order, possibly with repetitions: the result
    /// enumerates exactly the unresolved tempids, nothing else.
    pub fn temp_ids_iter(&self) -> (r: Vec<TempId>)
        requires
            self.wf(),
        ensures
            forall|i: int| 0 <= i < r@.len() ==> gen_has_tempid(*self, (#[trigger] r@[i])@),
            forall|j: int|
                0 <= j < self.upserts_e@.len() ==> match #[trigger] self.upserts_e@[j] {
                    Term::AddOrRetract(_, Err(t), _, _) => tempids_contain(r@, t@),
                    _ => true,
                },
            forall|j: int|
                0 <= j < self.allocations_e@.len() ==> match #[trigger] self.allocations_e@[j] {
                    Term::AddOrRetract(_, Err(t), _, _) => tempids_contain(r@, t@),
                    _ => true,
                },
            forall|j: int|
                0 <= j < self.upserts_ev@.len() ==> match #[trigger] self.upserts_ev@[j] {
                    Term::AddOrRetract(_, Err(t1), _, Err(t2)) => tempids_contain(r@, t1@)
                        && tempids_contain(r@, t2@),
                    _ => true,
                },
            forall|j: int|
                0 <= j < self.allocations_ev@.len() ==> match #[trigger] self.allocations_ev@[j] {
                    Term::AddOrRetract(_, Err(t1), _, Err(t2)) => tempids_contain(r@, t1@)
                        && tempids_contain(r@, t2@),
                    _ => true,
                },
            forall|j: int|
                0 <= j < self.allocations_v@.len() ==> match #[trigger] self.allocations_v@[j] {
                    Term::AddOrRetract(_, _, _, Err(t)) => tempids_contain(r@, t@),
                    _ => true,
                },
    {
        let mut r: Vec<TempId> = Vec::new();
        let mut i: usize = 0;
        while i < self.upserts_e.len()
            invariant
                self.wf(),
                forall|p: int| 0 <= p < r@.len() ==> gen_has_tempid(*self, (#[trigger] r@[p])@),
                i <= self.upserts_e@.len(),
                forall|j: int|
                    0 <= j < i ==> match #[trigger] self.upserts_e@[j] {
                        Term::AddOrRetract(_, Err(t), _, _) => tempids_contain(r@, t@),
                        _ => true,
                    },
            decreases self.upserts_e@.len() - i,
        {
            match &self.upserts_e[i] {
                Term::AddOrRetract(_, Err(t), _, _) => {
                    let tc = t.clone();
                    proof {
                        lemma_tempids_contain_push(r@, tc);
                    }
                    r.push(tc);
                },
                _ => {},
            }
            i = i + 1;
        }
        let mut i: usize = 0;
        while i < self.allocations_e.len()
            invariant
                self.wf(),
                forall|p: int| 0 <= p < r@.len() ==> gen_has_tempid(*self, (#[trigger] r@[p])@),
                i <= self.allocations_e@.len(),
                forall|j: int|
                    0 <= j < self.upserts_e@.len() ==> match #[trigger] self.upserts_e@[j] {
                        Term::AddOrRetract(_, Err(t), _, _) => tempids_contain(r@, t@),
                        _ => true,
                    },
                forall|j: int|
                    0 <= j < i ==> match #[trigger] self.allocations_e@[j] {
                        Term::AddOrRetract(_, Err(t), _, _) => tempids_contain(r@, t@),
                        _ => true,
                    },
            decreases self.allocations_e@.len() - i,
        {
            match &self.allocations_e[i] {
                Term::AddOrRetract(_, Err(t), _, _) => {
                    let tc = t.clone();
                    proof {
                        lemma_tempids_contain_push(r@, tc);
                    }
                    r.push(tc);
                },
                _ => {},
            }
            i = i + 1;
        }
        let mut i: usize = 0;
        while i < self.upserts_ev.len()
            invariant
                self.wf(),
                forall|p: int| 0 <= p < r@.len() ==> gen_has_tempid(*self, (#[trigger] r@[p])@),
                i <= self.upserts_ev@.len(),
                forall|j: int|
                    0 <= j < self.upserts_e@.len() ==> match #[trigger] self.upserts_e@[j] {
                        Term::AddOrRetract(_, Err(t), _, _) => tempids_contain(r@, t@),
                        _ => true,
                    },
                forall|j: int|
                    0 <= j < self.allocations_e@.len() ==> match #[trigger] self.allocations_e@[j] {
                        Term::AddOrRetract(_, Err(t), _, _) => tempids_contain(r@, t@),
                        _ => true,
                    },
                forall|j: int|
                    0 <= j < i ==> match #[trigger] self.upserts_ev@[j] {
                        Term::AddOrRetract(_, Err(t1), _, Err(t2)) => tempids_contain(r@, t1@)
                            && tempids_contain(r@, t2@),
                        _ => true,
                    },
            decreases self.upserts_ev@.len() - i,
        {
            match &self.upserts_ev[i] {
                Term::AddOrRetract(_, Err(t1), _, Err(t2)) => {
                    let tc1 = t1.clone();
                    proof {
                        lemma_tempids_contain_push(r@, tc1);
                    }
                    r.push(tc1);
                    let tc2 = t2.clone();
                    proof {
                        lemma_tempids_contain_push(r@, tc2);
                    }
                    r.push(tc2);
                },
                _ => {},
            }
            i = i + 1;
        }
        let mut i: usize = 0;
        while i < self.allocations_ev.len()
            invariant
                self.wf(),
                forall|p: int| 0 <= p < r@.len() ==> gen_has_tempid(*self, (#[trigger] r@[p])@),
                i <= self.allocations_ev@.len(),
                forall|j: int|
                    0 <= j < self.upserts_e@.len() ==> match #[trigger] self.upserts_e@[j] {
                        Term::AddOrRetract(_, Err(t), _, _) => tempids_contain(r@, t@),
                        _ => true,
                    },
                forall|j: int|
                    0 <= j < self.allocations_e@.len() ==> match #[trigger] self.allocations_e@[j] {
                        Term::AddOrRetract(_, Err(t), _, _) => tempids_contain(r@, t@),
                        _ => true,
                    },
                forall|j: int|
                    0 <= j < self.upserts_ev@.len() ==> match #[trigger] self.upserts_ev@[j] {
                        Term::AddOrRetract(_, Err(t1), _, Err(t2)) => tempids_contain(r@, t1@)
                            && tempids_contain(r@, t2@),
                        _ => true,
                    },
                forall|j: int|
                    0 <= j < i ==> match #[trigger] self.allocations_ev@[j] {
                        Term::AddOrRetract(_, Err(t1), _, Err(t2)) => tempids_contain(r@, t1@)
                            && tempids_contain(r@, t2@),
                        _ => true,
                    },
            decreases self.allocations_ev@.len() - i,
        {
            match &self.allocations_ev[i] {
                Term::AddOrRetract(_, Err(t1), _, Err(t2)) => {
                    let tc1 = t1.clone();
                    proof {
                        lemma_tempids_contain_push(r@, tc1);
                    }
                    r.push(tc1);
                    let tc2 = t2.clone();
                    proof {
                        lemma_tempids_contain_push(r@, tc2);
                    }
                    r.push(tc2);
                },
                _ => {},
            }
            i = i + 1;
        }
        let mut i: usize = 0;
        while i < self.allocations_v.len()
            invariant
                self.wf(),
                forall|p: int| 0 <= p < r@.len() ==> gen_has_tempid(*self, (#[trigger] r@[p])@),
                i <= self.allocations_v@.len(),
                forall|j: int|
                    0 <= j < self.upserts_e@.len() ==> match #[trigger] self.upserts_e@[j] {
                        Term::AddOrRetract(_, Err(t), _, _) => tempids_contain(r@, t@),
                        _ => true,
                    },
                forall|j: int|
                    0 <= j < self.allocations_e@.len() ==> match #[trigger] self.allocations_e@[j] {
                        Term::AddOrRetract(_, Err(t), _, _) => tempids_contain(r@, t@),
                        _ => true,
                    },
                forall|j: int|
                    0 <= j < self.upserts_ev@.len() ==> match #[trigger] self.upserts_ev@[j] {
                        Term::AddOrRetract(_, Err(t1), _, Err(t2)) => tempids_contain(r@, t1@)
                            && tempids_contain(r@, t2@),
                        _ => true,
                    },
                forall|j: int|
                    0 <= j < self.allocations_ev@.len() ==> match #[trigger] self.allocations_ev@[j] {
                        Term::AddOrRetract(_, Err(t1), _, Err(t2)) => tempids_contain(r@, t1@)
                            && tempids_contain(r@, t2@),
                        _ => true,
                    },
                forall|j: int|
                    0 <= j < i ==> match #[trigger] self.allocations_v@[j] {
                        Term::AddOrRetract(_, _, _, Err(t)) => tempids_contain(r@, t@),
                        _ => true,
                    },
            decreases self.allocations_v@.len() - i,
        {
            match &self.allocations_v[i] {
                Term::AddOrRetract(_, _, _, Err(t)) => {
                    let tc = t.clone();
                    proof {
                        lemma_tempids_contain_push(r@, tc);
                    }
                    r.push(tc);
                },
                _ => {},
            }
            i = i + 1;
        }
        r
    }
}

} // verus!

verus! {

/// Lower one term, resolving its tempid holes through the map.
fn lower_term(term: TermWithTempIds, temp_id_map: &TempIdMap) -> (r: TermWithoutTempIds)
    requires
        temp_id_map.wf(),
        term_covered(term, *temp_id_map),
    ensures
        r == spec_lower(term, *temp_id_map),
{
    match term {
        Term::AddOrRetract(op, e_or, a, v_or) => {
            let e = match e_or {
                Ok(e) => e,
                Err(t) => {
                    match temp_id_map.get(&t) {
                        Some(n) => n,
                        None => {
                            proof {
                                assert(false);
                            }
                            0
                        },
                    }
                },
            };
            let v = match v_or {
                Ok(v) => v,
                Err(t) => {
                    match temp_id_map.get(&t) {
                        Some(n) => TypedValue::Ref(n),
                        None => {
                            proof {
                                assert(false);
                            }
                            TypedValue::Ref(0)
                        },
                    }
                },
            };
            Term::AddOrRetract(op, e, a, v)
        },
        Term::RetractAttribute(e_or, a) => {
            let e = match e_or {
                Ok(e) => e,
                Err(t) => {
                    match temp_id_map.get(&t) {
                        Some(n) => n,
                        None => {
                            proof {
                                assert(false);
                            }
                            0
                        },
                    }
                },
            };
            Term::RetractAttribute(e, a)
        },
        Term::RetractEntity(e_or) => {
            let e = match e_or {
                Ok(e) => e,
                Err(t) => {
                    match temp_id_map.get(&t) {
                        Some(n) => n,
                        None => {
                            proof {
                                assert(false);
                            }
                            0
                        },
                    }
                },
            };
            Term::RetractEntity(e)
        },
    }
}

/// The sequence of lowered terms.
pub open spec fn lower_all(s: Seq<TermWithTempIds>, m: TempIdMap) -> Seq<TermWithoutTempIds>
    decreases s.len(),
{
    if s.len() == 0 {
        Seq::empty()
    } else {
        lower_all(s.drop_last(), m).push(spec_lower(s.last(), m))
    }
}

/// Lowering maps the sequence pointwise.
pub proof fn lemma_lower_all(s: Seq<TermWithTempIds>, m: TempIdMap)
    ensures
        lower_all(s, m).len() == s.len(),
        forall|i: int| 0 <= i < s.len() ==> lower_all(s, m)[i] == spec_lower(#[trigger] s[i], m),
    decreases s.len(),
{
    if s.len() > 0 {
        lemma_lower_all(s.drop_last(), m);
        assert forall|i: int| 0 <= i < s.len() implies lower_all(s, m)[i] == spec_lower(
            #[trigger] s[i],
            m,
        ) by {
            if i < s.len() - 1 {
                assert(s.drop_last()[i] == s[i]);
            }
        }
    }
}

impl Generation {
    /// Does the map resolve every tempid hole of this generation's
    /// allocation populations?
    pub open spec fn covered(self, m: TempIdMap) -> bool {
        &&& forall|i: int|
            0 <= i < self.allocations_ev@.len() ==> term_covered(
                #[trigger] self.allocations_ev@[i],
                m,
            )
        &&& forall|i: int|
            0 <= i < self.allocations_e@.len() ==> term_covered(
                #[trigger] self.allocations_e@[i],
                m,
            )
        &&& forall|i: int|
            0 <= i < self.allocations_v@.len() ==> term_covered(
                #[trigger] self.allocations_v@[i],
                m,
            )
    }

    /// After the fixed point has been reached and every remaining tempid has
    /// been allocated an entid, lower every term to its fully resolved form:
    /// first the allocations, then the resolved and inert terms.
    pub fn into_allocated_iter(self, temp_id_map: TempIdMap) -> (r: Vec<TermWithoutTempIds>)
        requires
            self.wf(),
            temp_id_map.wf(),
            self.upserts_e@.len() == 0,
            self.upserts_ev@.len() == 0,
            self.covered(temp_id_map),
        ensures
            r@.len() == self.count(),
            r@ == lower_all(self.allocations_ev@, temp_id_map) + lower_all(
                self.allocations_e@,
                temp_id_map,
            ) + lower_all(self.allocations_v@, temp_id_map) + lower_all(
                self.upserted@,
                temp_id_map,
            ) + lower_all(self.resolved@, temp_id_map) + lower_all(self.inert@, temp_id_map),
    {
        let ghost g = self;
        let Generation {
            upserts_e: _,
            upserts_ev: _,
            allocations_ev,
            allocations_e,
            allocations_v,
            upserted,
            resolved,
            inert,
        } = self;
        let mut r: Vec<TermWithoutTempIds> = Vec::new();

        let ghost orig0 = g.allocations_ev@;
        let ghost done = r@;
        let mut pending = allocations_ev;
        proof {
            assert(orig0.take(0) =~= Seq::<TermWithTempIds>::empty());
            assert(r@ =~= done + lower_all(orig0.take(0), temp_id_map));
        }
        while pending.len() > 0
            invariant
                temp_id_map.wf(),
                pending@.len() <= orig0.len(),
                pending@ == orig0.skip(orig0.len() - pending@.len()),
                forall|j: int|
                    0 <= j < orig0.len() ==> term_covered(#[trigger] orig0[j], temp_id_map),
                r@ == done + lower_all(
                    orig0.take(orig0.len() - pending@.len()),
                    temp_id_map,
                ),
            decreases pending@.len(),
        {
            let ghost k = orig0.len() - pending@.len();
            proof {
                assert(pending@[0] == orig0[k]);
                assert(orig0.skip(k).drop_first() =~= orig0.skip(k + 1));
                assert(orig0.take(k + 1).drop_last() =~= orig0.take(k));
                assert(orig0.take(k + 1).last() == orig0[k]);
                lemma_lower_all(orig0.take(k), temp_id_map);
            }
            let term = pending.remove(0);
            r.push(lower_term(term, &temp_id_map));
            proof {
                assert(r@ =~= done + lower_all(orig0.take(k + 1), temp_id_map));
            }
        }
        proof {
            assert(orig0.take(orig0.len() as int) =~= orig0);
        }

        let ghost orig1 = g.allocations_e@;
        let ghost done = r@;
        let mut pending = allocations_e;
        proof {
            assert(orig1.take(0) =~= Seq::<TermWithTempIds>::empty());
            assert(r@ =~= done + lower_all(orig1.take(0), temp_id_map));
        }
        while pending.len() > 0
            invariant
                temp_id_map.wf(),
                pending@.len() <= orig1.len(),
                pending@ == orig1.skip(orig1.len() - pending@.len()),
                forall|j: int|
                    0 <= j < orig1.len() ==> term_covered(#[trigger] orig1[j], temp_id_map),
                r@ == done + lower_all(
                    orig1.take(orig1.len() - pending@.len()),
                    temp_id_map,
                ),
            decreases pending@.len(),
        {
            let ghost k = orig1.len() - pending@.len();
            proof {
                assert(pending@[0] == orig1[k]);
                assert(orig1.skip(k).drop_first() =~= orig1.skip(k + 1));
                assert(orig1.take(k + 1).drop_last() =~= orig1.take(k));
                assert(orig1.take(k + 1).last() == orig1[k]);
                lemma_lower_all(orig1.take(k), temp_id_map);
            }
            let term = pending.remove(0);
            r.push(lower_term(term, &temp_id_map));
            proof {
                assert(r@ =~= done + lower_all(orig1.take(k + 1), temp_id_map));
            }
        }
        proof {
            assert(orig1.take(orig1.len() as int) =~= orig1);
        }

        let ghost orig2 = g.allocations_v@;
        let ghost done = r@;
        let mut pending = allocations_v;
        proof {
            assert(orig2.take(0) =~= Seq::<TermWithTempIds>::empty());
            assert(r@ =~= done + lower_all(orig2.take(0), temp_id_map));
        }
        while pending.len() > 0
            invariant
                temp_id_map.wf(),
                pending@.len() <= orig2.len(),
                pending@ == orig2.skip(orig2.len() - pending@.len()),
                forall|j: int|
                    0 <= j < orig2.len() ==> term_covered(#[trigger] orig2[j], temp_id_map),
                r@ == done + lower_all(
                    orig2.take(orig2.len() - pending@.len()),
                    temp_id_map,
                ),
            decreases pending@.len(),
        {
            let ghost k = orig2.len() - pending@.len();
            proof {
                assert(pending@[0] == orig2[k]);
                assert(orig2.skip(k).drop_first() =~= orig2.skip(k + 1));
                assert(orig2.take(k + 1).drop_last() =~= orig2.take(k));
                assert(orig2.take(k + 1).last() == orig2[k]);
                lemma_lower_all(orig2.take(k), temp_id_map);
            }
            let term = pending.remove(0);
            r.push(lower_term(term, &temp_id_map));
            proof {
                assert(r@ =~= done + lower_all(orig2.take(k + 1), temp_id_map));
            }
        }
        proof {
            assert(orig2.take(orig2.len() as int) =~= orig2);
        }

        let ghost orig3 = g.upserted@;
        let ghost done = r@;
        let mut pending = upserted;
        proof {
            assert(orig3.take(0) =~= Seq::<TermWithTempIds>::empty());
            assert(r@ =~= done + lower_all(orig3.take(0), temp_id_map));
        }
        while pending.len() > 0
            invariant
                temp_id_map.wf(),
                pending@.len() <= orig3.len(),
                pending@ == orig3.skip(orig3.len() - pending@.len()),
                forall|j: int| 0 <= j < orig3.len() ==> shape_inert(#[trigger] orig3[j]),
                r@ == done + lower_all(
                    orig3.take(orig3.len() - pending@.len()),
                    temp_id_map,
                ),
            decreases pending@.len(),
        {
            let ghost k = orig3.len() - pending@.len();
            proof {
                assert(pending@[0] == orig3[k]);
                assert(orig3.skip(k).drop_first() =~= orig3.skip(k + 1));
                assert(orig3.take(k + 1).drop_last() =~= orig3.take(k));
                assert(orig3.take(k + 1).last() == orig3[k]);
                lemma_lower_all(orig3.take(k), temp_id_map);
            }
            let term = pending.remove(0);
            r.push(lower_term(term, &temp_id_map));
            proof {
                assert(r@ =~= done + lower_all(orig3.take(k + 1), temp_id_map));
            }
        }
        proof {
            assert(orig3.take(orig3.len() as int) =~= orig3);
        }

        let ghost orig4 = g.resolved@;
        let ghost done = r@;
        let mut pending = resolved;
        proof {
            assert(orig4.take(0) =~= Seq::<TermWithTempIds>::empty());
            assert(r@ =~= done + lower_all(orig4.take(0), temp_id_map));
        }
        while pending.len() > 0
            invariant
                temp_id_map.wf(),
                pending@.len() <= orig4.len(),
                pending@ == orig4.skip(orig4.len() - pending@.len()),
                forall|j: int| 0 <= j < orig4.len() ==> shape_inert(#[trigger] orig4[j]),
                r@ == done + lower_all(
                    orig4.take(orig4.len() - pending@.len()),
                    temp_id_map,
                ),
            decreases pending@.len(),
        {
            let ghost k = orig4.len() - pending@.len();
            proof {
                assert(pending@[0] == orig4[k]);
                assert(orig4.skip(k).drop_first() =~= orig4.skip(k + 1));
                assert(orig4.take(k + 1).drop_last() =~= orig4.take(k));
                assert(orig4.take(k + 1).last() == orig4[k]);
                lemma_lower_all(orig4.take(k), temp_id_map);
            }
            let term = pending.remove(0);
            r.push(lower_term(term, &temp_id_map));
            proof {
                assert(r@ =~= done + lower_all(orig4.take(k + 1), temp_id_map));
            }
        }
        proof {
            assert(orig4.take(orig4.len() as int) =~= orig4);
        }

        let ghost orig5 = g.inert@;
        let ghost done = r@;
        let mut pending = inert;
        proof {
            assert(orig5.take(0) =~= Seq::<TermWithTempIds>::empty());
            assert(r@ =~= done + lower_all(orig5.take(0), temp_id_map));
        }
        while pending.len() > 0
            invariant
                temp_id_map.wf(),
                pending@.len() <= orig5.len(),
                pending@ == orig5.skip(orig5.len() - pending@.len()),
                forall|j: int| 0 <= j < orig5.len() ==> shape_inert(#[trigger] orig5[j]),
                r@ == done + lower_all(
                    orig5.take(orig5.len() - pending@.len()),
                    temp_id_map,
                ),
            decreases pending@.len(),
        {
            let ghost k = orig5.len() - pending@.len();
            proof {
                assert(pending@[0] == orig5[k]);
                assert(orig5.skip(k).drop_first() =~= orig5.skip(k + 1));
                assert(orig5.take(k + 1).drop_last() =~= orig5.take(k));
                assert(orig5.take(k + 1).last() == orig5[k]);
                lemma_lower_all(orig5.take(k), temp_id_map);
            }
            let term = pending.remove(0);
            r.push(lower_term(term, &temp_id_map));
            proof {
                assert(r@ =~= done + lower_all(orig5.take(k + 1), temp_id_map));
            }
        }
        proof {
            assert(orig5.take(orig5.len() as int) =~= orig5);
            lemma_lower_all(orig0, temp_id_map);
            lemma_lower_all(orig1, temp_id_map);
            lemma_lower_all(orig2, temp_id_map);
            lemma_lower_all(orig3, temp_id_map);
            lemma_lower_all(orig4, temp_id_map);
            lemma_lower_all(orig5, temp_id_map);
            assert(r@ =~= lower_all(orig0, temp_id_map) + lower_all(orig1, temp_id_map)
                + lower_all(orig2, temp_id_map) + lower_all(orig3, temp_id_map) + lower_all(
                orig4,
                temp_id_map,
            ) + lower_all(orig5, temp_id_map));
        }

        r
    }
}

} // verus!