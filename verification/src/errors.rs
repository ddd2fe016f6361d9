//! The error surface of the store.
//!
//! Every failure inside the transaction pipeline aborts the transaction
//! entirely: no partial application is visible.

use crate::types::{Entid, ValueType};
use vstd::prelude::*;

verus! {

/// The kinds of error the store reports.
#[derive(Debug)]
pub enum ErrorKind {
    /// A schema-attribute assertion has the wrong value shape, or an
    /// install/alter requirement is not met.
    BadSchemaAssertion(String),
    /// A lookup-ref names an attribute that is not declared unique.
    NotUniqueAttribute(Entid),
    /// A lookup-ref `[a v]` matched no entity in the store.
    UnresolvedLookupRef(Entid),
    /// Two upsert paths give incompatible results for a temporary ID.
    ConflictingUpserts(String),
    /// Two distinct values asserted on a cardinality-one `(e, a)`.
    CardinalityConflict(Entid, Entid),
    /// Adding `(e, a, v)` would collide with an existing `(e', a, v)` for a
    /// unique attribute `a`; carries `(a, e', e)`.
    UniquenessViolation(Entid, Entid, Entid),
    /// An explicitly supplied transaction instant does not exceed the
    /// previous transaction's instant; carries `(supplied, previous)`.
    TxInstantNotMonotonic(i64, i64),
    /// A rewind was asked for transactions that are not the tail block of
    /// the main timeline.
    TimelinesNotOnTail,
    /// A rewind was asked for transactions on several timelines.
    TimelinesMixed,
    /// A rewind was asked for transactions that are not on the main
    /// timeline.
    TimelinesNotOnMain,
    /// A rewind was asked for an empty set of transactions.
    TimelinesNoTransactionsSupplied,
    /// A rewind named transaction ids that do not exist.
    TimelinesInvalidTransactionIds,
    /// A reference to a never-allocated entid.
    UnrecognizedEntid(Entid),
    /// A reference to an ident with no entid bound to it.
    UnrecognizedIdent(String),
    /// A value whose type does not match the attribute's declared value
    /// type; carries `(expected, got)`.
    ValueTypeMismatch(ValueType, ValueType),
    /// A feature the store reserves but does not implement.
    NotYetImplemented(String),
    /// A store was opened under a name already bound to a different path;
    /// carries `(name, requested path, bound path)`.
    StorePathMismatch(String, String, String),
    /// No open store is registered under the given name.
    StoreNotFound(String),
    /// A store cannot be closed while other connections to it are live.
    StoreConnectionStillActive(String),
}

} // verus!
