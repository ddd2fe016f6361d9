//! Core data model: entids, typed values, partitions, and transaction reports.

use vstd::prelude::*;

verus! {

/// An entity id: a 64-bit signed integer drawn from a partition.
pub type Entid = i64;

/// The closed set of value types an attribute may declare.
///
/// Each type has a distinct stable tag integer used at the storage layer to
/// disambiguate same-shape encodings; see [`ValueType::value_type_tag`].
#[derive(Clone, Copy, Debug, PartialEq, Eq, Structural)]
pub enum ValueType {
    Ref,
    Boolean,
    Instant,
    Long,
    String,
    Uuid,
    Keyword,
}

impl ValueType {
    /// The stable storage-layer tag for this value type.
    pub fn value_type_tag(self) -> (tag: i32)
        ensures
            tag == self.spec_value_type_tag(),
    {
        match self {
            ValueType::Ref => 0,
            ValueType::Boolean => 1,
            ValueType::Instant => 4,
            ValueType::Long => 5,
            ValueType::String => 10,
            ValueType::Uuid => 11,
            ValueType::Keyword => 13,
        }
    }

    pub open spec fn spec_value_type_tag(self) -> int {
        match self {
            ValueType::Ref => 0,
            ValueType::Boolean => 1,
            ValueType::Instant => 4,
            ValueType::Long => 5,
            ValueType::String => 10,
            ValueType::Uuid => 11,
            ValueType::Keyword => 13,
        }
    }
}

/// A typed scalar value: the payload of a datom.
///
/// `Ref` values are entids.  `Instant` carries milliseconds after the Unix
/// epoch.  `Uuid` carries the 128-bit value directly.
#[derive(Debug)]
pub enum TypedValue {
    Ref(Entid),
    Boolean(bool),
    Instant(i64),
    Long(i64),
    String(String),
    Uuid(u128),
    Keyword(String),
}

/// The mathematical shadow of a [`TypedValue`]: strings as character
/// sequences, integers unbounded.  Contracts speak of this form.
pub ghost enum Val {
    Ref(int),
    Boolean(bool),
    Instant(int),
    Long(int),
    String(Seq<char>),
    Uuid(int),
    Keyword(Seq<char>),
}

impl View for TypedValue {
    type V = Val;

    open spec fn view(&self) -> Val {
        match self {
            TypedValue::Ref(e) => Val::Ref(*e as int),
            TypedValue::Boolean(b) => Val::Boolean(*b),
            TypedValue::Instant(m) => Val::Instant(*m as int),
            TypedValue::Long(x) => Val::Long(*x as int),
            TypedValue::String(s) => Val::String(s@),
            TypedValue::Uuid(u) => Val::Uuid(*u as int),
            TypedValue::Keyword(s) => Val::Keyword(s@),
        }
    }
}

impl TypedValue {
    /// The value type this value inhabits.
    pub fn value_type(&self) -> (t: ValueType)
        ensures
            t == self.spec_value_type(),
    {
        match self {
            TypedValue::Ref(_) => ValueType::Ref,
            TypedValue::Boolean(_) => ValueType::Boolean,
            TypedValue::Instant(_) => ValueType::Instant,
            TypedValue::Long(_) => ValueType::Long,
            TypedValue::String(_) => ValueType::String,
            TypedValue::Uuid(_) => ValueType::Uuid,
            TypedValue::Keyword(_) => ValueType::Keyword,
        }
    }

    pub open spec fn spec_value_type(&self) -> ValueType {
        match self {
            TypedValue::Ref(_) => ValueType::Ref,
            TypedValue::Boolean(_) => ValueType::Boolean,
            TypedValue::Instant(_) => ValueType::Instant,
            TypedValue::Long(_) => ValueType::Long,
            TypedValue::String(_) => ValueType::String,
            TypedValue::Uuid(_) => ValueType::Uuid,
            TypedValue::Keyword(_) => ValueType::Keyword,
        }
    }
}

impl Clone for TypedValue {
    fn clone(&self) -> (r: Self)
        ensures
            r@ == self@,
    {
        match self {
            TypedValue::Ref(e) => TypedValue::Ref(*e),
            TypedValue::Boolean(b) => TypedValue::Boolean(*b),
            TypedValue::Instant(m) => TypedValue::Instant(*m),
            TypedValue::Long(x) => TypedValue::Long(*x),
            TypedValue::String(s) => TypedValue::String(s.clone()),
            TypedValue::Uuid(u) => TypedValue::Uuid(*u),
            TypedValue::Keyword(s) => TypedValue::Keyword(s.clone()),
        }
    }
}

impl PartialEq for TypedValue {
    fn eq(&self, other: &Self) -> (r: bool) {
        match (self, other) {
            (TypedValue::Ref(a), TypedValue::Ref(b)) => a == b,
            (TypedValue::Boolean(a), TypedValue::Boolean(b)) => a == b,
            (TypedValue::Instant(a), TypedValue::Instant(b)) => a == b,
            (TypedValue::Long(a), TypedValue::Long(b)) => a == b,
            (TypedValue::String(a), TypedValue::String(b)) => *a == *b,
            (TypedValue::Uuid(a), TypedValue::Uuid(b)) => a == b,
            (TypedValue::Keyword(a), TypedValue::Keyword(b)) => *a == *b,
            _ => false,
        }
    }
}

impl Eq for TypedValue {}

impl vstd::std_specs::cmp::PartialEqSpecImpl for TypedValue {
    open spec fn obeys_eq_spec() -> bool {
        true
    }

    open spec fn eq_spec(&self, other: &Self) -> bool {
        self@ == other@
    }
}

} // verus!


verus! {

// Reserved entids.  Entids below `USER_PARTITION_START` are reserved for
// bootstrap; entid 0 is the root transaction sentinel.  The synthetic
// transaction-instant attribute has the reserved id 1.
pub const DB_TX_INSTANT: i64 = 1;
pub const DB_IDENT: i64 = 2;
pub const DB_VALUE_TYPE: i64 = 3;
pub const DB_CARDINALITY: i64 = 4;
pub const DB_UNIQUE: i64 = 5;
pub const DB_INDEX: i64 = 6;
pub const DB_FULLTEXT: i64 = 7;
pub const DB_IS_COMPONENT: i64 = 8;
pub const DB_DOC: i64 = 9;
pub const DB_NO_HISTORY: i64 = 10;
pub const DB_TYPE_REF: i64 = 11;
pub const DB_TYPE_BOOLEAN: i64 = 12;
pub const DB_TYPE_INSTANT: i64 = 13;
pub const DB_TYPE_LONG: i64 = 14;
pub const DB_TYPE_STRING: i64 = 15;
pub const DB_TYPE_UUID: i64 = 16;
pub const DB_TYPE_KEYWORD: i64 = 17;
pub const DB_CARDINALITY_ONE: i64 = 18;
pub const DB_CARDINALITY_MANY: i64 = 19;
pub const DB_UNIQUE_VALUE: i64 = 20;
pub const DB_UNIQUE_IDENTITY: i64 = 21;

/// The first entid of the bootstrap (schema) partition.
pub const DB_PARTITION_START: i64 = 0;
/// The first entid that is not reserved for bootstrap: start of the user
/// partition.
pub const USER_PARTITION_START: i64 = 65536;
/// The first transaction entid: start of the transaction partition.
pub const TX_PARTITION_START: i64 = 268435456;

/// Represents one partition of the entid space.
///
/// Successive allocations return `index` and then advance it; `index` never
/// moves backwards except through a timeline rewind.
#[derive(Clone, Copy, Debug, PartialEq, Eq, Structural)]
pub struct Partition {
    /// The first entid in the partition.
    pub start: i64,
    /// The next entid to be allocated in the partition.
    pub index: i64,
}

impl Partition {
    /// A partition represents a monotonically increasing sequence of entids,
    /// so `start` must not exceed `next`.
    pub fn new(start: i64, next: i64) -> (p: Partition)
        requires
            start <= next,
        ensures
            p == (Partition { start, index: next }),
    {
        Partition { start, index: next }
    }

    pub open spec fn wf(self) -> bool {
        self.start <= self.index
    }

    /// Reserve `n` consecutive entids: returns the first of the range
    /// `[index, index + n)` and advances `index` by `n`.
    pub fn allocate(&mut self, n: i64) -> (first: i64)
        requires
            0 <= n,
            old(self).index + n <= i64::MAX,
        ensures
            first == old(self).index,
            final(self).index == old(self).index + n,
            final(self).start == old(self).start,
    {
        let first = self.index;
        self.index = self.index + n;
        first
    }

    /// Move the allocation cursor back; reserved for the timeline rewind.
    pub fn set_index(&mut self, value: i64)
        requires
            old(self).start <= value,
        ensures
            *final(self) == (Partition { start: old(self).start, index: value }),
    {
        self.index = value;
    }
}

/// The partition map: the reserved partitions of the entid space.
///
/// `db` holds schema (ident-bearing) entities, `user` holds ordinary
/// entities, and `tx` holds transactions.
#[derive(Clone, Copy, Debug, PartialEq, Eq, Structural)]
pub struct PartitionMap {
    pub db: Partition,
    pub user: Partition,
    pub tx: Partition,
}

impl PartitionMap {
    pub open spec fn wf(self) -> bool {
        &&& self.db.wf()
        &&& self.user.wf()
        &&& self.tx.wf()
        &&& 0 <= self.db.start
        &&& self.db.index <= USER_PARTITION_START
        &&& self.user.start == USER_PARTITION_START
        &&& self.user.index <= TX_PARTITION_START
        &&& self.tx.start == TX_PARTITION_START
    }

    /// The partition map of a freshly bootstrapped store: the bootstrap
    /// entids are allocated in the db partition, nothing else.
    pub fn initial() -> (pm: PartitionMap)
        ensures
            pm.wf(),
            pm.user.index == USER_PARTITION_START,
            pm.tx.index == TX_PARTITION_START,
    {
        PartitionMap {
            db: Partition { start: DB_PARTITION_START, index: DB_UNIQUE_IDENTITY + 1 },
            user: Partition { start: USER_PARTITION_START, index: USER_PARTITION_START },
            tx: Partition { start: TX_PARTITION_START, index: TX_PARTITION_START },
        }
    }

    /// Does some partition cover `e`, i.e. has `e` been allocated (or
    /// reserved by bootstrap)?
    pub fn contains(&self, e: i64) -> (r: bool)
        ensures
            r == self.spec_contains(e as int),
    {
        (self.db.start <= e && e < self.db.index) || (self.user.start <= e && e < self.user.index)
            || (self.tx.start <= e && e < self.tx.index)
    }

    pub open spec fn spec_contains(self, e: int) -> bool {
        ||| self.db.start <= e < self.db.index
        ||| self.user.start <= e < self.user.index
        ||| self.tx.start <= e < self.tx.index
    }
}

/// A transaction report summarizes an applied transaction.
#[derive(Debug)]
pub struct TxReport {
    /// The transaction ID of the transaction.
    pub tx: Entid,

    /// The timestamp when the transaction was committed, in milliseconds
    /// after the Unix epoch according to the transactor's clock.
    pub tx_instant: i64,

    /// The mapping from external temporary ID to the entid it resolved to or
    /// was allocated at, in first-occurrence order, without duplicates.
    pub tempids: Vec<(String, Entid)>,
}

/// Represents a temporary ID on its way to being resolved: an id literal
/// bound to the partition its entid will be allocated in.
#[derive(Clone, Debug)]
pub struct TempIdX {
    /// The partition the entid this ID literal is resolved to will be
    /// allocated in.
    partition: String,

    /// A negative integer identifying this id literal uniquely in the scope
    /// of a single transaction.
    idx: i64,
}

/// A pair `[a v]` in the store, used to represent lookup-refs and upserts as
/// they are resolved.
pub type AVPair = (Entid, TypedValue);

} // verus!

verus! {

/// The storage-layer rendering of a typed value: the scalar column value,
/// which together with a [`ValueType`] tag encodes a [`TypedValue`]
/// losslessly.
#[derive(Debug)]
pub enum SQLValue {
    Integer(i64),
    Text(String),
    Uuid(u128),
}

/// The mathematical shadow of a [`SQLValue`].
pub ghost enum SqlVal {
    Integer(int),
    Text(Seq<char>),
    Uuid(int),
}

impl View for SQLValue {
    type V = SqlVal;

    open spec fn view(&self) -> SqlVal {
        match self {
            SQLValue::Integer(x) => SqlVal::Integer(*x as int),
            SQLValue::Text(s) => SqlVal::Text(s@),
            SQLValue::Uuid(u) => SqlVal::Uuid(*u as int),
        }
    }
}

/// The canonical `(value, tag)` encoding of a value.
pub open spec fn spec_encode(v: Val) -> (SqlVal, int) {
    match v {
        Val::Ref(e) => (SqlVal::Integer(e), 0),
        Val::Boolean(b) => (
            SqlVal::Integer(
                if b {
                    1
                } else {
                    0
                },
            ),
            1,
        ),
        Val::Instant(m) => (SqlVal::Integer(m), 4),
        Val::Long(x) => (SqlVal::Integer(x), 5),
        Val::String(s) => (SqlVal::Text(s), 10),
        Val::Uuid(u) => (SqlVal::Uuid(u), 11),
        Val::Keyword(s) => (SqlVal::Text(s), 13),
    }
}

/// The decoding of a `(value, tag)` pair, where it is meaningful.
pub open spec fn spec_decode(v: SqlVal, tag: int) -> Option<Val> {
    match v {
        SqlVal::Integer(x) => {
            if tag == 0 {
                Some(Val::Ref(x))
            } else if tag == 1 && x == 0 {
                Some(Val::Boolean(false))
            } else if tag == 1 && x == 1 {
                Some(Val::Boolean(true))
            } else if tag == 4 {
                Some(Val::Instant(x))
            } else if tag == 5 {
                Some(Val::Long(x))
            } else {
                None
            }
        },
        SqlVal::Text(s) => {
            if tag == 10 {
                Some(Val::String(s))
            } else if tag == 13 {
                Some(Val::Keyword(s))
            } else {
                None
            }
        },
        SqlVal::Uuid(u) => {
            if tag == 11 {
                Some(Val::Uuid(u))
            } else {
                None
            }
        },
    }
}

/// The encoding round-trips: decoding an encoded value, under its own tag,
/// gives the value back.
pub proof fn lemma_sql_round_trip(v: Val)
    ensures
        spec_decode(spec_encode(v).0, spec_encode(v).1) == Some(v),
{
}

impl TypedValue {
    /// Render this value as its storage `(value, tag)` pair.
    pub fn to_sql_value_pair(&self) -> (r: (SQLValue, i32))
        ensures
            r.0@ == spec_encode(self@).0,
            r.1 as int == spec_encode(self@).1,
            r.1 as int == self.spec_value_type().spec_value_type_tag(),
    {
        match self {
            TypedValue::Ref(e) => (SQLValue::Integer(*e), 0),
            TypedValue::Boolean(b) => (
                SQLValue::Integer(
                    if *b {
                        1
                    } else {
                        0
                    },
                ),
                1,
            ),
            TypedValue::Instant(m) => (SQLValue::Integer(*m), 4),
            TypedValue::Long(x) => (SQLValue::Integer(*x), 5),
            TypedValue::String(s) => (SQLValue::Text(s.clone()), 10),
            TypedValue::Uuid(u) => (SQLValue::Uuid(*u), 11),
            TypedValue::Keyword(s) => (SQLValue::Text(s.clone()), 13),
        }
    }

    /// Read a value back from its storage `(value, tag)` pair; meaningless
    /// pairs decode to nothing.
    pub fn from_sql_value_pair(v: SQLValue, tag: i32) -> (r: Option<TypedValue>)
        ensures
            match r {
                Some(tv) => spec_decode(v@, tag as int) == Some(tv@),
                None => spec_decode(v@, tag as int) is None,
            },
    {
        match v {
            SQLValue::Integer(x) => {
                if tag == 0 {
                    Some(TypedValue::Ref(x))
                } else if tag == 1 && x == 0 {
                    Some(TypedValue::Boolean(false))
                } else if tag == 1 && x == 1 {
                    Some(TypedValue::Boolean(true))
                } else if tag == 4 {
                    Some(TypedValue::Instant(x))
                } else if tag == 5 {
                    Some(TypedValue::Long(x))
                } else {
                    None
                }
            },
            SQLValue::Text(s) => {
                if tag == 10 {
                    Some(TypedValue::String(s))
                } else if tag == 13 {
                    Some(TypedValue::Keyword(s))
                } else {
                    None
                }
            },
            SQLValue::Uuid(u) => {
                if tag == 11 {
                    Some(TypedValue::Uuid(u))
                } else {
                    None
                }
            },
        }
    }
}

} // verus!
