//! Internal representation of assertions on their way through the pipeline.
//!
//! The pipeline progressively refines terms through three stages: first with
//! tempids and lookup-refs, then with tempids only, and finally fully
//! resolved.

use crate::entities::{OpType, TempId};
use crate::keyed::{find_key_tempid, keyed_distinct, keyed_get, keyed_has, keyed_idx,
    lemma_keyed_idx_unique, lemma_keyed_push};
use crate::types::{AVPair, Entid, TypedValue};
use vstd::prelude::*;

verus! {

/// An assertion with holes of type `E` in entity position and `V` in value
/// position.
#[derive(Debug)]
pub enum Term<E, V> {
    AddOrRetract(OpType, E, Entid, V),
    RetractAttribute(E, Entid),
    RetractEntity(E),
}

/// Either a resolved entid or a hole of type `T` in entity position.
pub type EntidOr<T> = Result<Entid, T>;

/// Either a resolved value or a hole of type `T` in value position.
pub type TypedValueOr<T> = Result<TypedValue, T>;

/// An entity-position or value-position hole before lookup-ref resolution:
/// a lookup-ref `[a v]` still to be probed, or a tempid.
#[derive(Debug)]
pub enum LookupRefOrTempId {
    LookupRef(AVPair),
    TempId(TempId),
}

impl Clone for LookupRefOrTempId {
    fn clone(&self) -> (r: Self)
        ensures
            match (self, r) {
                (LookupRefOrTempId::LookupRef(p), LookupRefOrTempId::LookupRef(q)) => p.0 == q.0
                    && p.1@ == q.1@,
                (LookupRefOrTempId::TempId(t), LookupRefOrTempId::TempId(u)) => t@ == u@,
                _ => false,
            },
    {
        match self {
            LookupRefOrTempId::LookupRef(p) => LookupRefOrTempId::LookupRef((p.0, p.1.clone())),
            LookupRefOrTempId::TempId(t) => LookupRefOrTempId::TempId(t.clone()),
        }
    }
}

pub type TermWithTempIdsAndLookupRefs = Term<
    EntidOr<LookupRefOrTempId>,
    TypedValueOr<LookupRefOrTempId>,
>;

pub type TermWithTempIds = Term<EntidOr<TempId>, TypedValueOr<TempId>>;

pub type TermWithoutTempIds = Term<Entid, TypedValue>;

pub type Population = Vec<TermWithTempIds>;

/// A map from tempid to the entid it resolves to, keyed by the tempid's
/// view, with distinct keys.
#[derive(Debug)]
pub struct TempIdMap {
    pub entries: Vec<(TempId, Entid)>,
}

impl TempIdMap {
    pub open spec fn wf(self) -> bool {
        keyed_distinct(self.entries@)
    }

    pub open spec fn spec_has(self, k: <TempId as View>::V) -> bool {
        keyed_has(self.entries@, k)
    }

    pub open spec fn spec_get(self, k: <TempId as View>::V) -> Entid {
        keyed_get(self.entries@, k)
    }

    pub fn new() -> (m: TempIdMap)
        ensures
            m.wf(),
            m.entries@.len() == 0,
    {
        TempIdMap { entries: Vec::new() }
    }

    /// The entid `t` resolves to, if it is known.
    pub fn get(&self, t: &TempId) -> (r: Option<Entid>)
        requires
            self.wf(),
        ensures
            match r {
                Some(e) => self.spec_has(t@) && e == self.spec_get(t@),
                None => !self.spec_has(t@),
            },
    {
        match find_key_tempid(&self.entries, t) {
            Some(i) => Some(self.entries[i].1),
            None => None,
        }
    }

    /// Bind `t` to `e`.  An existing binding to the same entid is left in
    /// place; the caller must rule out contradictory bindings beforehand.
    pub fn insert(&mut self, t: TempId, e: Entid)
        requires
            old(self).wf(),
            old(self).spec_has(t@) ==> old(self).spec_get(t@) == e,
        ensures
            final(self).wf(),
            final(self).spec_has(t@),
            final(self).spec_get(t@) == e,
            forall|k: <TempId as View>::V|
                k != t@ ==> final(self).spec_has(k) == old(self).spec_has(k),
            forall|k: <TempId as View>::V|
                k != t@ && old(self).spec_has(k) ==> final(self).spec_get(k) == old(self).spec_get(
                    k,
                ),
            final(self).entries@.len() == old(self).entries@.len() + (if old(self).spec_has(t@) {
                0int
            } else {
                1int
            }),
            old(self).spec_has(t@) ==> final(self).entries@ == old(self).entries@,
            !old(self).spec_has(t@) ==> final(self).entries@ == old(self).entries@.push((t, e)),
    {
        match find_key_tempid(&self.entries, &t) {
            Some(_) => {},
            None => {
                proof {
                    lemma_keyed_push(self.entries@, (t, e));
                }
                self.entries.push((t, e));
            },
        }
    }

    /// The number of bindings.
    pub fn len(&self) -> (n: usize)
        ensures
            n == self.entries@.len(),
    {
        self.entries.len()
    }
}

} // verus!
