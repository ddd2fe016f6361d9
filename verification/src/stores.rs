//! The store registry: a process may hold at most one open handle per
//! location, enforced by a registry of weak references.  Do not open stores
//! around it.

use crate::db::{bootstrap_db, rows_distinct, DB};
use crate::entities::Entity;
use crate::errors::ErrorKind;
use crate::keyed::{find_str, keyed_distinct, keyed_get, keyed_has, lemma_keyed_idx_unique,
    lemma_keyed_push};
use crate::types::TxReport;
use std::sync::Arc;
use vstd::prelude::*;

verus! {

/// A shared, mutable handle to the data of one store.  The cell is the
/// stand-in for the backing medium: it outlives any one connection.
#[verifier::external_body]
pub struct DbHandle {
    cell: Arc<std::sync::Mutex<DB>>,
}

impl DbHandle {
    /// Relies on `Arc::new` and `Mutex::new`: a fresh cell holding `db`.
    #[verifier::external_body]
    fn new(db: DB) -> (r: DbHandle) {
        DbHandle { cell: Arc::new(std::sync::Mutex::new(db)) }
    }

    /// Relies on `Arc::clone`: another handle to the same cell.
    #[verifier::external_body]
    fn fork(&self) -> (r: DbHandle) {
        DbHandle { cell: Arc::clone(&self.cell) }
    }

    /// Relies on `Mutex::lock` and a deep clone: a snapshot of the data
    /// currently in the cell.  What is read depends on earlier writes
    /// through any handle to the cell, so nothing is promised of the value.
    #[verifier::external_body]
    fn read(&self) -> (r: DB) {
        match self.cell.lock() {
            Ok(guard) => guard.clone(),
            Err(poisoned) => poisoned.into_inner().clone(),
        }
    }

    /// Relies on `Mutex::lock`: replace the data in the cell.
    #[verifier::external_body]
    fn write(&self, db: DB) {
        match self.cell.lock() {
            Ok(mut guard) => {
                *guard = db;
            },
            Err(poisoned) => {
                *poisoned.into_inner() = db;
            },
        }
    }
}

/// A connection to a store: what the registry hands out weak references to.
pub struct Conn {
    handle: DbHandle,
}

/// A weak reference to a [`Conn`], as the registry holds it: it keeps no
/// store alive.
#[verifier::external_body]
pub struct WeakConn {
    w: std::sync::Weak<Conn>,
}

/// Relies on `Arc::downgrade`: a weak reference to the same connection.
#[verifier::external_body]
fn conn_downgrade(c: &Arc<Conn>) -> (r: WeakConn) {
    WeakConn { w: Arc::downgrade(c) }
}

/// Relies on `Weak::upgrade`: the connection, if it is still alive.  Whether
/// it is depends on what the process has dropped, so nothing is promised of
/// the outcome.
#[verifier::external_body]
fn conn_upgrade(w: &WeakConn) -> (r: Option<Arc<Conn>>) {
    w.w.upgrade()
}

/// Relies on `Arc::strong_count`: how many strong handles share this
/// connection.  The count depends on runtime aliasing, so nothing is
/// promised of it.
#[verifier::external_body]
fn conn_strong_count(c: &Arc<Conn>) -> (r: usize) {
    Arc::strong_count(c)
}

/// Relies on `&*` on `Arc`: a borrow of the shared connection.
#[verifier::external_body]
fn conn_deref(c: &Arc<Conn>) -> (r: &Conn) {
    &**c
}

/// A store handle: a strong reference to a connection.
pub struct Store {
    conn: Arc<Conn>,
}

/// An open transaction: a snapshot of the store's data that can be
/// transacted against and finally committed.
pub struct InProgress {
    db: DB,
    conn: Arc<Conn>,
}

impl InProgress {
    /// The in-progress snapshot, as contracts speak of it.
    pub closed spec fn snapshot(self) -> DB {
        self.db
    }
}

impl Store {
    /// Open a completely fresh store.
    fn open_fresh() -> (s: Store) {
        let db = bootstrap_db();
        let conn = Conn { handle: DbHandle::new(db) };
        Store { conn: Arc::new(conn) }
    }

    /// The shared connection of this store.
    pub fn conn(&self) -> (r: &Arc<Conn>) {
        &self.conn
    }

    /// Begin a transaction: snapshot the store's data.  The snapshot is read
    /// from the shared cell, so nothing is known of it statically; the
    /// transactor checks what it needs and refuses a snapshot it cannot
    /// serve.
    pub fn begin_transaction(&mut self) -> (r: InProgress) {
        let c = conn_deref(&self.conn);
        let db = c.handle.read();
        InProgress { db, conn: Arc::clone(&self.conn) }
    }
}

impl InProgress {
    /// Transact the given entities against the in-progress snapshot.
    ///
    /// The snapshot read from the shared cell is checked before any work: a
    /// snapshot that does not satisfy the store invariants is refused, so
    /// the transactor's guarantees hold of every commit.  On success the
    /// snapshot advances by exactly one transaction, with the guarantees of
    /// [`crate::tx::transact_entities`]; on failure it is untouched.
    pub fn transact(&mut self, entities: Vec<Entity>, now: i64) -> (r: Result<
        TxReport,
        ErrorKind,
    >)
        ensures
            r is Err ==> *final(self) == *old(self),
            match r {
                Ok(report) => {
                    let db0 = old(self).snapshot();
                    let db2 = final(self).snapshot();
                    let oldn = db0.log@.len() as int;
                    &&& db0.wf()
                    &&& db2.wf()
                    &&& report.tx == db0.partition_map.tx.index
                    &&& db2.partition_map.tx.index == report.tx + 1
                    &&& report.tx_instant == db2.last_tx_instant
                    &&& db2.last_tx_instant > db0.last_tx_instant
                    &&& db2.log@.len() >= oldn
                    &&& forall|i: int| 0 <= i < oldn ==> (#[trigger] db2.log@[i])@ == db0.log@[i]@
                    &&& forall|i: int|
                        0 <= i < oldn && (#[trigger] db0.log@[i]).timeline
                            == crate::db::MAIN_TIMELINE ==> db0.log@[i].tx < report.tx
                    &&& forall|i: int|
                        oldn <= i < db2.log@.len() ==> (#[trigger] db2.log@[i]).tx == report.tx
                            && db2.log@[i].timeline == crate::db::MAIN_TIMELINE
                    &&& forall|t: (int, int, crate::types::Val)|
                        #[trigger] crate::db::rows_have(db2.eav@, t) == ((crate::db::rows_have(
                            db0.eav@,
                            t,
                        ) && !crate::db::log_suffix_has(db2.log@, oldn, false, t))
                            || crate::db::log_suffix_has(db2.log@, oldn, true, t))
                    &&& forall|t: (int, int, crate::types::Val)|
                        crate::db::log_suffix_has(db2.log@, oldn, false, t)
                            ==> crate::db::rows_have(db0.eav@, t)
                    &&& forall|t: (int, int, crate::types::Val)|
                        crate::db::log_suffix_has(db2.log@, oldn, true, t)
                            ==> !crate::db::rows_have(db0.eav@, t)
                    &&& forall|i: int|
                        0 <= i < entities@.len() ==> match crate::tx::plain_entity(
                            #[trigger] entities@[i],
                            db0.partition_map.tx.index,
                        ) {
                            Some(p) => p.0 == crate::entities::OpType::Add
                                ==> crate::db::rows_have(
                                db2.eav@,
                                (p.1 as int, p.2 as int, p.3@),
                            ),
                            None => true,
                        }
                },
                Err(_) => true,
            },
    {
        if !(0 <= now && now < i64::MAX) {
            return Err(
                ErrorKind::NotYetImplemented(String::from_str("clock out of range")),
            );
        }
        if !check_db_wf(&self.db) {
            return Err(
                ErrorKind::NotYetImplemented(String::from_str("store data is not well-formed")),
            );
        }
        let (db2, report) = crate::tx::transact_entities(&self.db, entities, now)?;
        self.db = db2;
        Ok(report)
    }

    /// A snapshot of the in-progress data, for reading.
    pub fn db(&self) -> (r: &DB)
        ensures
            *r == self.snapshot(),
    {
        &self.db
    }

    /// Commit: publish the in-progress data through the shared connection.
    pub fn commit(self) {
        let c = conn_deref(&self.conn);
        c.handle.write(self.db);
    }
}

/// Executable check of the store invariants, so that data read back from a
/// shared cell can be trusted no further than it is checked.
#[verifier::loop_isolation(false)]
pub fn check_db_wf(db: &DB) -> (r: bool)
    ensures
        r == db.wf(),
{
    let pm_ok = db.partition_map.db.start <= db.partition_map.db.index
        && db.partition_map.user.start <= db.partition_map.user.index
        && db.partition_map.tx.start <= db.partition_map.tx.index && 0 <= db.partition_map.db.start
        && db.partition_map.db.index <= crate::types::USER_PARTITION_START
        && db.partition_map.user.start == crate::types::USER_PARTITION_START
        && db.partition_map.user.index <= crate::types::TX_PARTITION_START
        && db.partition_map.tx.start == crate::types::TX_PARTITION_START;
    if !pm_ok {
        proof {
            assert(!db.partition_map.wf());
        }
        return false;
    }
    if !check_schema_wf(&db.schema) {
        return false;
    }
    if !(0 <= db.last_tx_instant && db.last_tx_instant < i64::MAX) {
        return false;
    }
    // Current-state invariants.
    let mut i: usize = 0;
    while i < db.eav.len()
        invariant
            i <= db.eav@.len(),
            db.schema.wf(),
            forall|p: int, q: int|
                0 <= p < i && 0 <= q < db.eav@.len() && p != q ==> (#[trigger] db.eav@[p]).key() != (
                #[trigger] db.eav@[q]).key(),
            forall|p: int, q: int|
                0 <= p < i && 0 <= q < db.eav@.len() && p != q && (#[trigger] db.eav@[p]).e == (
                #[trigger] db.eav@[q]).e && db.eav@[p].a == db.eav@[q].a && keyed_has(
                    db.schema.schema_map@,
                    db.eav@[p].a,
                ) ==> keyed_get(db.schema.schema_map@, db.eav@[p].a).multival,
            forall|p: int, q: int|
                0 <= p < i && 0 <= q < db.eav@.len() && (#[trigger] db.eav@[p]).a == (
                #[trigger] db.eav@[q]).a && db.eav@[p].v@ == db.eav@[q].v@ && keyed_has(
                    db.schema.schema_map@,
                    db.eav@[p].a,
                ) && (keyed_get(db.schema.schema_map@, db.eav@[p].a).unique_value || keyed_get(
                    db.schema.schema_map@,
                    db.eav@[p].a,
                ).unique_identity) ==> db.eav@[p].e == db.eav@[q].e,
            forall|p: int|
                0 <= p < i ==> keyed_has(db.schema.schema_map@, (#[trigger] db.eav@[p]).a),
        decreases db.eav@.len() - i,
    {
        let row = &db.eav[i];
        let attr = match db.schema.attribute_for_entid(row.a) {
            Some(a) => a,
            None => {
                proof {
                    assert(!crate::db::rows_attrs_known(db.eav@, db.schema));
                }
                return false;
            },
        };
        let mut j: usize = 0;
        while j < db.eav.len()
            invariant
                i < db.eav@.len(),
                j <= db.eav@.len(),
                db.schema.wf(),
                keyed_has(db.schema.schema_map@, db.eav@[i as int].a),
                attr == keyed_get(db.schema.schema_map@, db.eav@[i as int].a),
                forall|q: int|
                    0 <= q < j && q != i ==> (#[trigger] db.eav@[q]).key()
                        != db.eav@[i as int].key(),
                forall|q: int|
                    0 <= q < j && q != i && (#[trigger] db.eav@[q]).e == db.eav@[i as int].e
                        && db.eav@[q].a == db.eav@[i as int].a && !attr.multival ==> false,
                forall|q: int|
                    0 <= q < j && (#[trigger] db.eav@[q]).a == db.eav@[i as int].a && db.eav@[q].v@
                        == db.eav@[i as int].v@ && (attr.unique_value || attr.unique_identity)
                        ==> db.eav@[q].e == db.eav@[i as int].e,
            decreases db.eav@.len() - j,
        {
            if j != i {
                let other = &db.eav[j];
                if other.e == row.e && other.a == row.a && other.v.eq(&row.v) {
                    proof {
                        assert(db.eav@[i as int].key() == db.eav@[j as int].key());
                        assert(!rows_distinct(db.eav@)) by {
                            if i < j {
                                assert(db.eav@[i as int].key() == db.eav@[j as int].key());
                            } else {
                                assert(db.eav@[j as int].key() == db.eav@[i as int].key());
                            }
                        }
                    }
                    return false;
                }
                if !attr.multival && other.e == row.e && other.a == row.a {
                    proof {
                        assert(!crate::db::rows_card_one_ok(db.eav@, db.schema));
                    }
                    return false;
                }
                if (attr.unique_value || attr.unique_identity) && other.a == row.a && other.v.eq(
                    &row.v,
                ) && other.e != row.e {
                    proof {
                        assert(!crate::db::rows_unique_ok(db.eav@, db.schema));
                    }
                    return false;
                }
            }
            j = j + 1;
        }
        i = i + 1;
    }
    // Log discipline.
    let mut i: usize = 0;
    while i < db.log.len()
        invariant
            i <= db.log@.len(),
            forall|p: int, q: int|
                0 <= p < q < i && (#[trigger] db.log@[p]).timeline == crate::db::MAIN_TIMELINE && (
                #[trigger] db.log@[q]).timeline == crate::db::MAIN_TIMELINE ==> db.log@[p].tx
                    <= db.log@[q].tx,
            forall|p: int|
                0 <= p < i ==> crate::types::TX_PARTITION_START <= (#[trigger] db.log@[p]).tx,
            forall|p: int|
                0 <= p < i && (#[trigger] db.log@[p]).timeline == crate::db::MAIN_TIMELINE
                    ==> db.log@[p].tx < db.partition_map.tx.index,
        decreases db.log@.len() - i,
    {
        if !(crate::types::TX_PARTITION_START <= db.log[i].tx) {
            return false;
        }
        if db.log[i].timeline == crate::db::MAIN_TIMELINE && !(db.log[i].tx
            < db.partition_map.tx.index) {
            return false;
        }
        let ghost outer = i as int;
        if db.log[i].timeline == crate::db::MAIN_TIMELINE {
            let mut j: usize = 0;
            while j < i
                invariant
                    i < db.log@.len(),
                    j <= i,
                    db.log@[i as int].timeline == crate::db::MAIN_TIMELINE,
                    forall|p: int|
                        0 <= p < j && (#[trigger] db.log@[p]).timeline
                            == crate::db::MAIN_TIMELINE ==> db.log@[p].tx <= db.log@[i as int].tx,
                decreases i - j,
            {
                if db.log[j].timeline == crate::db::MAIN_TIMELINE && db.log[j].tx > db.log[i].tx {
                    proof {
                        assert(db.log@[j as int].tx > db.log@[outer].tx);
                    }
                    return false;
                }
                j = j + 1;
            }
        }
        i = i + 1;
    }
    proof {
        assert(db.wf());
    }
    true
}

/// Executable check of the schema invariants.
#[verifier::loop_isolation(false)]
pub fn check_schema_wf(schema: &crate::schema::Schema) -> (r: bool)
    ensures
        r == schema.wf(),
{
    let mut i: usize = 0;
    while i < schema.entid_map.len()
        invariant
            i <= schema.entid_map@.len(),
            forall|p: int, q: int|
                0 <= p < i && 0 <= q < schema.entid_map@.len() && p != q ==> (
                #[trigger] schema.entid_map@[p]).0 != (#[trigger] schema.entid_map@[q]).0,
            forall|p: int|
                0 <= p < i ==> keyed_has(
                    schema.ident_map@,
                    (#[trigger] schema.entid_map@[p]).1@,
                ) && (keyed_distinct(schema.ident_map@) ==> keyed_get(
                    schema.ident_map@,
                    schema.entid_map@[p].1@,
                ) == schema.entid_map@[p].0),
        decreases schema.entid_map@.len() - i,
    {
        let mut j: usize = 0;
        while j < schema.entid_map.len()
            invariant
                i < schema.entid_map@.len(),
                j <= schema.entid_map@.len(),
                forall|q: int|
                    0 <= q < j && q != i ==> (#[trigger] schema.entid_map@[q]).0
                        != schema.entid_map@[i as int].0,
            decreases schema.entid_map@.len() - j,
        {
            if j != i && schema.entid_map[j].0 == schema.entid_map[i].0 {
                proof {
                    assert(!keyed_distinct(schema.entid_map@)) by {
                        if i < j {
                            assert(schema.entid_map@[i as int].0@ == schema.entid_map@[j as int].0@);
                        } else {
                            assert(schema.entid_map@[j as int].0@ == schema.entid_map@[i as int].0@);
                        }
                    }
                }
                return false;
            }
            j = j + 1;
        }
        // The bound ident must map back to this entid.
        let mut j: usize = 0;
        let mut found: bool = false;
        while j < schema.ident_map.len()
            invariant
                i < schema.entid_map@.len(),
                j <= schema.ident_map@.len(),
                found ==> keyed_has(schema.ident_map@, schema.entid_map@[i as int].1@),
                found ==> (keyed_distinct(schema.ident_map@) ==> keyed_get(
                    schema.ident_map@,
                    schema.entid_map@[i as int].1@,
                ) == schema.entid_map@[i as int].0),
                !found ==> forall|q: int|
                    0 <= q < j ==> (#[trigger] schema.ident_map@[q]).0@
                        != schema.entid_map@[i as int].1@,
            decreases schema.ident_map@.len() - j,
        {
            if !found && schema.ident_map[j].0.eq(&schema.entid_map[i].1) {
                if schema.ident_map[j].1 == schema.entid_map[i].0 {
                    proof {
                        if keyed_distinct(schema.ident_map@) {
                            lemma_keyed_idx_unique(
                                schema.ident_map@,
                                schema.entid_map@[i as int].1@,
                                j as int,
                            );
                        }
                    }
                    found = true;
                } else {
                    proof {
                        assert(!schema.wf()) by {
                            if keyed_distinct(schema.ident_map@) {
                                lemma_keyed_idx_unique(
                                    schema.ident_map@,
                                    schema.entid_map@[i as int].1@,
                                    j as int,
                                );
                                assert(keyed_get(schema.ident_map@, schema.entid_map@[i as int].1@) != schema.entid_map@[i as int].0);
                            }
                        }
                    }
                    return false;
                }
            }
            j = j + 1;
        }
        if !found {
            proof {
                assert(!keyed_has(schema.ident_map@, schema.entid_map@[i as int].1@));
                assert(!schema.wf());
            }
            return false;
        }
        i = i + 1;
    }
    let mut i: usize = 0;
    while i < schema.ident_map.len()
        invariant
            i <= schema.ident_map@.len(),
            forall|p: int, q: int|
                0 <= p < i && 0 <= q < schema.ident_map@.len() && p != q ==> (
                #[trigger] schema.ident_map@[p]).0@ != (#[trigger] schema.ident_map@[q]).0@,
            forall|p: int|
                0 <= p < i ==> keyed_has(
                    schema.entid_map@,
                    (#[trigger] schema.ident_map@[p]).1,
                ) && (keyed_distinct(schema.entid_map@) ==> keyed_get(
                    schema.entid_map@,
                    schema.ident_map@[p].1,
                )@ == schema.ident_map@[p].0@),
        decreases schema.ident_map@.len() - i,
    {
        let mut j: usize = 0;
        while j < schema.ident_map.len()
            invariant
                i < schema.ident_map@.len(),
                j <= schema.ident_map@.len(),
                forall|q: int|
                    0 <= q < j && q != i ==> (#[trigger] schema.ident_map@[q]).0@
                        != schema.ident_map@[i as int].0@,
            decreases schema.ident_map@.len() - j,
        {
            if j != i && schema.ident_map[j].0.eq(&schema.ident_map[i].0) {
                proof {
                    assert(!keyed_distinct(schema.ident_map@)) by {
                        if i < j {
                            assert(schema.ident_map@[i as int].0@ == schema.ident_map@[j as int].0@);
                        } else {
                            assert(schema.ident_map@[j as int].0@ == schema.ident_map@[i as int].0@);
                        }
                    }
                }
                return false;
            }
            j = j + 1;
        }
        let mut j: usize = 0;
        let mut found: bool = false;
        while j < schema.entid_map.len()
            invariant
                i < schema.ident_map@.len(),
                j <= schema.entid_map@.len(),
                found ==> keyed_has(schema.entid_map@, schema.ident_map@[i as int].1),
                found ==> (keyed_distinct(schema.entid_map@) ==> keyed_get(
                    schema.entid_map@,
                    schema.ident_map@[i as int].1,
                )@ == schema.ident_map@[i as int].0@),
                !found ==> forall|q: int|
                    0 <= q < j ==> (#[trigger] schema.entid_map@[q]).0
                        != schema.ident_map@[i as int].1,
            decreases schema.entid_map@.len() - j,
        {
            if !found && schema.entid_map[j].0 == schema.ident_map[i].1 {
                if schema.entid_map[j].1.eq(&schema.ident_map[i].0) {
                    proof {
                        if keyed_distinct(schema.entid_map@) {
                            lemma_keyed_idx_unique(
                                schema.entid_map@,
                                schema.ident_map@[i as int].1,
                                j as int,
                            );
                        }
                    }
                    found = true;
                } else {
                    proof {
                        assert(!schema.wf()) by {
                            if keyed_distinct(schema.entid_map@) {
                                lemma_keyed_idx_unique(
                                    schema.entid_map@,
                                    schema.ident_map@[i as int].1,
                                    j as int,
                                );
                                assert(keyed_get(schema.entid_map@, schema.ident_map@[i as int].1)@ != schema.ident_map@[i as int].0@);
                            }
                        }
                    }
                    return false;
                }
            }
            j = j + 1;
        }
        if !found {
            proof {
                assert(!keyed_has(schema.entid_map@, schema.ident_map@[i as int].1));
                assert(!schema.wf());
            }
            return false;
        }
        i = i + 1;
    }
    proof {
        assert(keyed_distinct(schema.entid_map@));
        assert(keyed_distinct(schema.ident_map@));
    }
    let mut i: usize = 0;
    while i < schema.schema_map.len()
        invariant
            i <= schema.schema_map@.len(),
            forall|p: int, q: int|
                0 <= p < i && 0 <= q < schema.schema_map@.len() && p != q ==> (
                #[trigger] schema.schema_map@[p]).0 != (#[trigger] schema.schema_map@[q]).0,
            forall|p: int|
                0 <= p < i ==> keyed_has(
                    schema.entid_map@,
                    (#[trigger] schema.schema_map@[p]).0,
                ) && schema.schema_map@[p].1.valid(),
        decreases schema.schema_map@.len() - i,
    {
        let mut j: usize = 0;
        while j < schema.schema_map.len()
            invariant
                i < schema.schema_map@.len(),
                j <= schema.schema_map@.len(),
                forall|q: int|
                    0 <= q < j && q != i ==> (#[trigger] schema.schema_map@[q]).0
                        != schema.schema_map@[i as int].0,
            decreases schema.schema_map@.len() - j,
        {
            if j != i && schema.schema_map[j].0 == schema.schema_map[i].0 {
                proof {
                    assert(!keyed_distinct(schema.schema_map@)) by {
                        if i < j {
                            assert(schema.schema_map@[i as int].0@ == schema.schema_map@[j as int].0@);
                        } else {
                            assert(schema.schema_map@[j as int].0@ == schema.schema_map@[i as int].0@);
                        }
                    }
                }
                return false;
            }
            j = j + 1;
        }
        if crate::keyed::find_entid(&schema.entid_map, schema.schema_map[i].0).is_none() {
            proof {
                assert(!keyed_has(schema.entid_map@, schema.schema_map@[i as int].0));
                assert(!schema.wf());
            }
            return false;
        }
        if !schema.schema_map[i].1.check_valid() {
            proof {
                assert(!schema.schema_map@[i as int].1.valid());
                assert(!schema.wf());
            }
            return false;
        }
        i = i + 1;
    }
    proof {
        assert(schema.wf());
    }
    true
}

} // verus!

verus! {

/// A registered connection: the weak handle, the path it was opened at, and
/// the backing data (which outlives any one connection, as a file would).
pub struct StoreConnection {
    conn: WeakConn,
    path: String,
    data: DbHandle,
}

impl StoreConnection {
    fn new(conn: &Arc<Conn>, path: String, data: DbHandle) -> (r: StoreConnection)
        ensures
            r.path@ == path@,
    {
        StoreConnection { conn: conn_downgrade(conn), path, data }
    }
}

/// Stores keeps, for every open store, a weak reference to its connection
/// together with the path to the store and the name that identifies it, so
/// that two stores at different paths cannot be opened with the same name.
pub struct Stores {
    connections: Vec<(String, StoreConnection)>,
}

impl Stores {
    pub closed spec fn wf(self) -> bool {
        keyed_distinct(self.connections@)
    }

    /// Is a store registered under `name`?
    pub closed spec fn spec_open(self, name: Seq<char>) -> bool {
        keyed_has(self.connections@, name)
    }

    /// The path the store registered under `name` was opened at.
    pub closed spec fn spec_path(self, name: Seq<char>) -> Seq<char> {
        keyed_get(self.connections@, name).path@
    }

    /// An empty registry.
    pub fn new() -> (r: Stores)
        ensures
            r.wf(),
            forall|k: Seq<char>| !r.spec_open(k),
    {
        Stores { connections: Vec::new() }
    }

    /// Returns true if there exists an entry for the provided name.  This
    /// does not guarantee that the weak reference we hold is still valid.
    pub fn is_open(&self, name: &str) -> (r: bool)
        requires
            self.wf(),
        ensures
            r == self.spec_open(name@),
    {
        let key = String::from_str(name);
        find_str(&self.connections, &key).is_some()
    }

    /// Fetch the connection registered under `name`, reviving it from the
    /// backing data if every strong reference to it has been dropped.
    fn conn(&mut self, name: &str) -> (r: Option<(String, Arc<Conn>)>)
        requires
            old(self).wf(),
        ensures
            final(self).wf(),
            final(self).connections@.len() == old(self).connections@.len(),
            forall|k: Seq<char>|
                #[trigger] final(self).spec_open(k) == old(self).spec_open(k),
            forall|k: Seq<char>|
                old(self).spec_open(k) ==> #[trigger] final(self).spec_path(k) == old(
                    self,
                ).spec_path(k),
            match r {
                Some(pc) => old(self).spec_open(name@) && pc.0@ == old(self).spec_path(name@),
                None => !old(self).spec_open(name@),
            },
    {
        let key = String::from_str(name);
        match find_str(&self.connections, &key) {
            Some(i) => {
                let path = self.connections[i].1.path.clone();
                match conn_upgrade(&self.connections[i].1.conn) {
                    Some(c) => Some((path, c)),
                    None => {
                        // The connection died; revive it over the same data.
                        let data = self.connections[i].1.data.fork();
                        let c = Arc::new(Conn { handle: data });
                        let w = conn_downgrade(&c);
                        let ghost before = self.connections@;
                        let entry = StoreConnection {
                            conn: w,
                            path: self.connections[i].1.path.clone(),
                            data: self.connections[i].1.data.fork(),
                        };
                        let name_owned = self.connections[i].0.clone();
                        self.connections[i] = (name_owned, entry);
                        proof {
                            assert forall|p: int, q: int|
                                0 <= p < q < self.connections@.len() implies (
                            #[trigger] self.connections@[p]).0@ != (
                            #[trigger] self.connections@[q]).0@ by {
                                assert(self.connections@[p].0@ == before[p].0@);
                                assert(self.connections@[q].0@ == before[q].0@);
                            }
                            assert forall|k: Seq<char>|
                                #[trigger] keyed_has(self.connections@, k) == keyed_has(
                                before,
                                k,
                            ) by {
                                if keyed_has(before, k) {
                                    let p = crate::keyed::keyed_idx(before, k);
                                    assert(self.connections@[p].0@ == k);
                                }
                                if keyed_has(self.connections@, k) {
                                    let p = crate::keyed::keyed_idx(self.connections@, k);
                                    assert(before[p].0@ == k);
                                }
                            }
                            assert forall|k: Seq<char>| keyed_has(before, k) implies #[trigger] keyed_get(
                                self.connections@,
                                k,
                            ).path@ == keyed_get(before, k).path@ by {
                                let p = crate::keyed::keyed_idx(before, k);
                                lemma_keyed_idx_unique(before, k, p);
                                assert(self.connections@[p].0@ == k);
                                lemma_keyed_idx_unique(self.connections@, k, p);
                            }
                        }
                        Some((path, c))
                    },
                }
            },
            None => None,
        }
    }

    /// Open a store with an existing connection if available, or create a
    /// new one if not.  The name of a store is bound to one path for the
    /// life of the registry entry.
    pub fn open(&mut self, name: &str, path: &str) -> (r: Result<Store, ErrorKind>)
        requires
            old(self).wf(),
        ensures
            final(self).wf(),
            r is Err <==> (old(self).spec_open(name@) && old(self).spec_path(name@) != path@),
            r is Err ==> r->Err_0 is StorePathMismatch,
            r is Err ==> forall|k: Seq<char>|
                #[trigger] final(self).spec_open(k) == old(self).spec_open(k),
            r is Err ==> forall|k: Seq<char>|
                old(self).spec_open(k) ==> #[trigger] final(self).spec_path(k) == old(
                    self,
                ).spec_path(k),
            r is Ok ==> final(self).spec_open(name@) && final(self).spec_path(name@) == path@,
            forall|k: Seq<char>|
                k != name@ ==> #[trigger] final(self).spec_open(k) == old(self).spec_open(k),
            forall|k: Seq<char>|
                k != name@ && old(self).spec_open(k) ==> #[trigger] final(self).spec_path(k) == old(
                    self,
                ).spec_path(k),
    {
        let store_conn = self.conn(name);
        match store_conn {
            Some((store_path, c)) => {
                if !store_path.eq(&String::from_str(path)) {
                    return Err(
                        ErrorKind::StorePathMismatch(
                            String::from_str(name),
                            String::from_str(path),
                            store_path,
                        ),
                    );
                }
                Ok(Store { conn: c })
            },
            None => {
                let store = Store::open_fresh();
                let c = conn_deref(&store.conn);
                let data = c.handle.fork();
                let entry = StoreConnection::new(&store.conn, String::from_str(path), data);
                let key = String::from_str(name);
                let ghost mid = *self;
                proof {
                    assert(!self.spec_open(name@));
                    assert(!keyed_has(self.connections@, key@));
                    lemma_keyed_push(self.connections@, (key, entry));
                }
                self.connections.push((key, entry));
                proof {
                    assert(self.spec_open(name@));
                    assert(keyed_get(self.connections@, name@).path@ == path@);
                    assert forall|k: Seq<char>| k != name@ implies #[trigger] self.spec_open(k)
                        == old(self).spec_open(k) by {
                        assert(keyed_has(self.connections@, k) == keyed_has(mid.connections@, k));
                        assert(mid.spec_open(k) == old(self).spec_open(k));
                    }
                    assert forall|k: Seq<char>|
                        k != name@ && old(self).spec_open(k) implies #[trigger] self.spec_path(k)
                        == old(self).spec_path(k) by {
                        assert(mid.spec_open(k) == old(self).spec_open(k));
                        assert(keyed_has(mid.connections@, k));
                        assert(keyed_get(self.connections@, k) == keyed_get(mid.connections@, k));
                        assert(mid.spec_path(k) == old(self).spec_path(k));
                    }
                }
                Ok(store)
            },
        }
    }

    /// Returns a store with an existing connection to `name`, if one has
    /// been opened and not closed, or `None` otherwise.
    pub fn get(&mut self, name: &str) -> (r: Result<Option<Store>, ErrorKind>)
        requires
            old(self).wf(),
        ensures
            final(self).wf(),
            r is Ok,
            (r->Ok_0 is Some) == old(self).spec_open(name@),
            forall|k: Seq<char>|
                #[trigger] final(self).spec_open(k) == old(self).spec_open(k),
            forall|k: Seq<char>|
                old(self).spec_open(k) ==> #[trigger] final(self).spec_path(k) == old(
                    self,
                ).spec_path(k),
    {
        match self.conn(name) {
            Some((_path, c)) => Ok(Some(Store { conn: c })),
            None => Ok(None),
        }
    }

    /// Fork a new store over the existing connection registered under
    /// `name`; fails exactly when no store is registered under `name`.
    pub fn connect(&mut self, name: &str) -> (r: Result<Store, ErrorKind>)
        requires
            old(self).wf(),
        ensures
            final(self).wf(),
            r is Err <==> !old(self).spec_open(name@),
            r is Err ==> r->Err_0 is StoreNotFound,
            forall|k: Seq<char>|
                #[trigger] final(self).spec_open(k) == old(self).spec_open(k),
            forall|k: Seq<char>|
                old(self).spec_open(k) ==> #[trigger] final(self).spec_path(k) == old(
                    self,
                ).spec_path(k),
    {
        match self.conn(name) {
            Some((_path, c)) => Ok(Store { conn: c }),
            None => Err(ErrorKind::StoreNotFound(String::from_str(name))),
        }
    }

    /// Drop the registry entry for `name`, provided no more than a single
    /// store still references its connection; fails with `StoreNotFound`
    /// exactly when no store is registered under `name`.
    pub fn close(&mut self, name: &str) -> (r: Result<(), ErrorKind>)
        requires
            old(self).wf(),
        ensures
            final(self).wf(),
            r matches Err(k) && k is StoreNotFound <==> !old(self).spec_open(name@),
            r matches Err(k) ==> (k is StoreNotFound || k is StoreConnectionStillActive),
            r matches Err(k) && k is StoreConnectionStillActive ==> old(self).spec_open(name@),
            r is Ok ==> !final(self).spec_open(name@) && forall|k: Seq<char>|
                k != name@ ==> #[trigger] final(self).spec_open(k) == old(self).spec_open(k),
            r is Err ==> *final(self) == *old(self),
    {
        let key = String::from_str(name);
        match find_str(&self.connections, &key) {
            Some(i) => {
                match conn_upgrade(&self.connections[i].1.conn) {
                    Some(c) => {
                        // A count above two means a live store besides the
                        // strong reference taken for this very test.
                        if conn_strong_count(&c) > 2 {
                            return Err(
                                ErrorKind::StoreConnectionStillActive(String::from_str(name)),
                            );
                        }
                    },
                    None => {},
                }
                proof {
                    crate::keyed::lemma_keyed_remove(self.connections@, i as int);
                }
                let _ = self.connections.remove(i);
                Ok(())
            },
            None => Err(ErrorKind::StoreNotFound(String::from_str(name))),
        }
    }

    /// Open a store at a path; the path, already canonical, is also the
    /// registry name.
    pub fn open_store(&mut self, path: &str) -> (r: Result<Store, ErrorKind>)
        requires
            old(self).wf(),
        ensures
            final(self).wf(),
            r is Err <==> (old(self).spec_open(path@) && old(self).spec_path(path@) != path@),
            r is Err ==> r->Err_0 is StorePathMismatch,
            r is Ok ==> final(self).spec_open(path@) && final(self).spec_path(path@) == path@,
            forall|k: Seq<char>|
                k != path@ ==> #[trigger] final(self).spec_open(k) == old(self).spec_open(k),
            forall|k: Seq<char>|
                k != path@ && old(self).spec_open(k) ==> #[trigger] final(self).spec_path(k) == old(
                    self,
                ).spec_path(k),
    {
        self.open(path, path)
    }

    /// Open an in-memory store under a name; the empty path denotes an
    /// in-memory store.
    pub fn open_named_in_memory_store(&mut self, name: &str) -> (r: Result<Store, ErrorKind>)
        requires
            old(self).wf(),
        ensures
            final(self).wf(),
            r is Err <==> (old(self).spec_open(name@) && old(self).spec_path(name@)
                != Seq::<char>::empty()),
            r is Err ==> r->Err_0 is StorePathMismatch,
            r is Ok ==> final(self).spec_open(name@) && final(self).spec_path(name@)
                == Seq::<char>::empty(),
            forall|k: Seq<char>|
                k != name@ ==> #[trigger] final(self).spec_open(k) == old(self).spec_open(k),
            forall|k: Seq<char>|
                k != name@ && old(self).spec_open(k) ==> #[trigger] final(self).spec_path(k) == old(
                    self,
                ).spec_path(k),
    {
        let r = self.open(name, "");
        proof {
            reveal_strlit("");
            assert(""@ =~= Seq::<char>::empty());
        }
        r
    }

    /// Fetch the store at a path, if it is open.
    pub fn get_store(&mut self, path: &str) -> (r: Result<Option<Store>, ErrorKind>)
        requires
            old(self).wf(),
        ensures
            final(self).wf(),
            r is Ok,
            (r->Ok_0 is Some) == old(self).spec_open(path@),
            forall|k: Seq<char>|
                #[trigger] final(self).spec_open(k) == old(self).spec_open(k),
            forall|k: Seq<char>|
                old(self).spec_open(k) ==> #[trigger] final(self).spec_path(k) == old(
                    self,
                ).spec_path(k),
    {
        self.get(path)
    }

    /// Fetch the in-memory store under a name, if it is open.
    pub fn get_named_in_memory_store(&mut self, name: &str) -> (r: Result<Option<Store>, ErrorKind>)
        requires
            old(self).wf(),
        ensures
            final(self).wf(),
            r is Ok,
            (r->Ok_0 is Some) == old(self).spec_open(name@),
            forall|k: Seq<char>|
                #[trigger] final(self).spec_open(k) == old(self).spec_open(k),
            forall|k: Seq<char>|
                old(self).spec_open(k) ==> #[trigger] final(self).spec_path(k) == old(
                    self,
                ).spec_path(k),
    {
        self.get(name)
    }

    /// Fork a store over the connection at a path.
    pub fn connect_store(&mut self, path: &str) -> (r: Result<Store, ErrorKind>)
        requires
            old(self).wf(),
        ensures
            final(self).wf(),
            r is Err <==> !old(self).spec_open(path@),
            r is Err ==> r->Err_0 is StoreNotFound,
            forall|k: Seq<char>|
                #[trigger] final(self).spec_open(k) == old(self).spec_open(k),
            forall|k: Seq<char>|
                old(self).spec_open(k) ==> #[trigger] final(self).spec_path(k) == old(
                    self,
                ).spec_path(k),
    {
        self.connect(path)
    }

    /// Fork a store over the in-memory connection under a name.
    pub fn connect_named_in_memory_store(&mut self, name: &str) -> (r: Result<Store, ErrorKind>)
        requires
            old(self).wf(),
        ensures
            final(self).wf(),
            r is Err <==> !old(self).spec_open(name@),
            r is Err ==> r->Err_0 is StoreNotFound,
            forall|k: Seq<char>|
                #[trigger] final(self).spec_open(k) == old(self).spec_open(k),
            forall|k: Seq<char>|
                old(self).spec_open(k) ==> #[trigger] final(self).spec_path(k) == old(
                    self,
                ).spec_path(k),
    {
        self.connect(name)
    }

    /// Close the store at a path.
    pub fn close_store(&mut self, path: &str) -> (r: Result<(), ErrorKind>)
        requires
            old(self).wf(),
        ensures
            final(self).wf(),
            r matches Err(k) && k is StoreNotFound <==> !old(self).spec_open(path@),
            r matches Err(k) ==> (k is StoreNotFound || k is StoreConnectionStillActive),
            r matches Err(k) && k is StoreConnectionStillActive ==> old(self).spec_open(path@),
            r is Ok ==> !final(self).spec_open(path@) && forall|k: Seq<char>|
                k != path@ ==> #[trigger] final(self).spec_open(k) == old(self).spec_open(k),
            r is Err ==> *final(self) == *old(self),
    {
        self.close(path)
    }

    /// Close the in-memory store under a name.
    pub fn close_named_in_memory_store(&mut self, name: &str) -> (r: Result<(), ErrorKind>)
        requires
            old(self).wf(),
        ensures
            final(self).wf(),
            r matches Err(k) && k is StoreNotFound <==> !old(self).spec_open(name@),
            r matches Err(k) ==> (k is StoreNotFound || k is StoreConnectionStillActive),
            r matches Err(k) && k is StoreConnectionStillActive ==> old(self).spec_open(name@),
            r is Ok ==> !final(self).spec_open(name@) && forall|k: Seq<char>|
                k != name@ ==> #[trigger] final(self).spec_open(k) == old(self).spec_open(k),
            r is Err ==> *final(self) == *old(self),
    {
        self.close(name)
    }
}

} // verus!
