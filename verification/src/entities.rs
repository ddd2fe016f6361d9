//! The input representation of the transaction processor: places that may
//! still hold temporary IDs, lookup references, or transaction functions.

use crate::types::{Entid, TypedValue};
use vstd::prelude::*;

verus! {

/// A tempid: either an external tempid given in a transaction, or an
/// internal tempid allocated by the store itself.
#[derive(Debug)]
pub enum TempId {
    External(String),
    Internal(i64),
}

/// The mathematical shadow of a [`TempId`].
pub ghost enum TempIdView {
    External(Seq<char>),
    Internal(int),
}

impl View for TempId {
    type V = TempIdView;

    open spec fn view(&self) -> TempIdView {
        match self {
            TempId::External(s) => TempIdView::External(s@),
            TempId::Internal(x) => TempIdView::Internal(*x as int),
        }
    }
}

impl TempId {
    /// The external name of this tempid, if it has one.
    pub fn into_external(self) -> (r: Option<String>)
        ensures
            match r {
                Some(s) => self@ == TempIdView::External(s@),
                None => self@ is Internal,
            },
    {
        match self {
            TempId::External(s) => Some(s),
            TempId::Internal(_) => None,
        }
    }
}

impl Clone for TempId {
    fn clone(&self) -> (r: Self)
        ensures
            r@ == self@,
    {
        match self {
            TempId::External(s) => TempId::External(s.clone()),
            TempId::Internal(x) => TempId::Internal(*x),
        }
    }
}

impl PartialEq for TempId {
    fn eq(&self, other: &Self) -> (r: bool) {
        match (self, other) {
            (TempId::External(a), TempId::External(b)) => *a == *b,
            (TempId::Internal(a), TempId::Internal(b)) => a == b,
            _ => false,
        }
    }
}

impl Eq for TempId {}

impl vstd::std_specs::cmp::PartialEqSpecImpl for TempId {
    open spec fn obeys_eq_spec() -> bool {
        true
    }

    open spec fn eq_spec(&self, other: &Self) -> bool {
        self@ == other@
    }
}

/// The operation of an assertion: add (assert) or retract.
#[derive(Clone, Copy, Debug, PartialEq, Eq, Structural, Hash)]
pub enum OpType {
    Add,
    Retract,
}

/// An entity reference as written in an input entity: either a concrete
/// entid or a string ident to be resolved through the schema.
#[derive(Debug)]
pub enum EntidOrIdent {
    Entid(Entid),
    Ident(String),
}

impl Clone for EntidOrIdent {
    fn clone(&self) -> (r: Self)
        ensures
            r == self,
    {
        match self {
            EntidOrIdent::Entid(e) => EntidOrIdent::Entid(*e),
            EntidOrIdent::Ident(s) => {
                let r = EntidOrIdent::Ident(s.clone());
                proof {
                    assert(r == self);
                }
                r
            },
        }
    }
}

/// An `[a v]` pair naming the entity that carries value `v` for the unique
/// attribute `a`.
#[derive(Clone, Debug)]
pub struct LookupRef {
    pub a: EntidOrIdent,
    pub v: TypedValue,
}

/// A transaction function: a value determined by the transaction itself.
/// The only one this store knows is `(transaction-tx)`.
#[derive(Clone, Debug)]
pub struct TxFunction {
    pub op: String,
}

/// The entity position of an assertion.
#[derive(Clone, Debug)]
pub enum EntityPlace {
    Entid(EntidOrIdent),
    TempId(TempId),
    LookupRef(LookupRef),
    TxFunction(TxFunction),
}

/// The attribute position of an assertion.
#[derive(Clone, Debug)]
pub enum AttributePlace {
    Entid(EntidOrIdent),
}

/// The value position of an assertion.
#[derive(Clone, Debug)]
pub enum ValuePlace {
    Entid(EntidOrIdent),
    TempId(TempId),
    LookupRef(LookupRef),
    TxFunction(TxFunction),
    Atom(TypedValue),
}

/// One input entity: an addition or retraction, or a whole-entity or
/// whole-attribute retraction.
#[derive(Clone, Debug)]
pub enum Entity {
    /// Like `[:db/add|:db/retract e a v]`.
    AddOrRetract { op: OpType, e: EntityPlace, a: AttributePlace, v: ValuePlace },
    /// Like `[:db/retractAttribute e a]`: retract every current `(e, a, *)`.
    RetractAttribute { e: EntityPlace, a: AttributePlace },
    /// Like `[:db/retractEntity e]`: retract every current `(e, *, *)`.
    RetractEntity { e: EntityPlace },
}

} // verus!
