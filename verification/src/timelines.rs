//! The timeline manager: moves a tail-aligned block of transactions off the
//! main timeline, transacting inverse datoms so that current state reads as
//! if the block had never been transacted, and restoring the partition
//! cursors.

use crate::db::{rows_have, LogDatom, DB, MAIN_TIMELINE};
use crate::entities::{AttributePlace, Entity, EntityPlace, EntidOrIdent, OpType, ValuePlace};
use crate::errors::ErrorKind;
use crate::types::{Entid, TxReport, Val, DB_TX_INSTANT, TX_PARTITION_START};
use vstd::prelude::*;

verus! {

/// Find the timeline shared by every transaction at or after `smallest_tx`,
/// checking that those transactions are exactly (a subset of) the supplied
/// ids: the supplied block must be the tail of the timeline.
#[verifier::loop_isolation(false)]
fn current_timeline(db: &DB, smallest_tx: Entid, tx_ids: &Vec<Entid>) -> (r: Result<
    Entid,
    ErrorKind,
>)
    ensures
        match r {
            Ok(timeline) => (forall|i: int|
                0 <= i < db.log@.len() && (#[trigger] db.log@[i]).tx >= smallest_tx
                    ==> tx_ids@.contains(db.log@[i].tx) && db.log@[i].timeline == timeline)
                && exists|i: int|
                0 <= i < db.log@.len() && (#[trigger] db.log@[i]).tx >= smallest_tx
                    && db.log@[i].timeline == timeline,
            Err(k) => {
                &&& (k is TimelinesNotOnTail || k is TimelinesMixed
                    || k is TimelinesInvalidTransactionIds)
                &&& (k is TimelinesNotOnTail ==> exists|i: int|
                    0 <= i < db.log@.len() && (#[trigger] db.log@[i]).tx >= smallest_tx
                        && !tx_ids@.contains(db.log@[i].tx))
                &&& (k is TimelinesMixed ==> exists|i: int, j: int|
                    0 <= i < db.log@.len() && 0 <= j < db.log@.len() && (
                    #[trigger] db.log@[i]).tx >= smallest_tx && (#[trigger] db.log@[j]).tx
                        >= smallest_tx && db.log@[i].timeline != db.log@[j].timeline)
                &&& (k is TimelinesInvalidTransactionIds ==> forall|i: int|
                    0 <= i < db.log@.len() ==> (#[trigger] db.log@[i]).tx < smallest_tx)
            },
        },
        ((exists|i: int|
            0 <= i < db.log@.len() && (#[trigger] db.log@[i]).tx >= smallest_tx
                && !tx_ids@.contains(db.log@[i].tx)) && (forall|i: int|
            0 <= i < db.log@.len() && (#[trigger] db.log@[i]).tx >= smallest_tx ==> db.log@[
            i].timeline == MAIN_TIMELINE)) ==> (r matches Err(k) && k is TimelinesNotOnTail),
        ((forall|i: int|
            0 <= i < db.log@.len() && (#[trigger] db.log@[i]).tx >= smallest_tx
                ==> tx_ids@.contains(db.log@[i].tx)) && (exists|i: int, j: int|
            0 <= i < db.log@.len() && 0 <= j < db.log@.len() && (#[trigger] db.log@[i]).tx
                >= smallest_tx && (#[trigger] db.log@[j]).tx >= smallest_tx && db.log@[i].timeline
                != db.log@[j].timeline)) ==> (r matches Err(k) && k is TimelinesMixed),
        ((forall|i: int|
            0 <= i < db.log@.len() && (#[trigger] db.log@[i]).tx >= smallest_tx
                ==> tx_ids@.contains(db.log@[i].tx)) && (forall|i: int, j: int|
            0 <= i < db.log@.len() && 0 <= j < db.log@.len() && (#[trigger] db.log@[i]).tx
                >= smallest_tx && (#[trigger] db.log@[j]).tx >= smallest_tx ==> db.log@[i].timeline
                == db.log@[j].timeline) && (exists|i: int|
            0 <= i < db.log@.len() && (#[trigger] db.log@[i]).tx >= smallest_tx)) ==> r is Ok,
{
    let mut timeline: Option<Entid> = None;
    let mut i: usize = 0;
    while i < db.log.len()
        invariant
            i <= db.log@.len(),
            forall|j: int|
                0 <= j < i && (#[trigger] db.log@[j]).tx >= smallest_tx ==> tx_ids@.contains(
                    db.log@[j].tx,
                ),
            match timeline {
                Some(t) => (forall|j: int|
                    0 <= j < i && (#[trigger] db.log@[j]).tx >= smallest_tx ==> db.log@[j].timeline
                        == t) && exists|j: int|
                    0 <= j < i && (#[trigger] db.log@[j]).tx >= smallest_tx && db.log@[j].timeline
                        == t,
                None => forall|j: int|
                    0 <= j < i ==> (#[trigger] db.log@[j]).tx < smallest_tx,
            },
        decreases db.log@.len() - i,
    {
        if db.log[i].tx >= smallest_tx {
            if !crate::tx::entids_contain(tx_ids, db.log[i].tx) {
                return Err(ErrorKind::TimelinesNotOnTail);
            }
            match timeline {
                Some(t) => {
                    if db.log[i].timeline != t {
                        proof {
                            let j = choose|j: int|
                                0 <= j < i && (#[trigger] db.log@[j]).tx >= smallest_tx
                                    && db.log@[j].timeline == t;
                            assert(db.log@[i as int].tx >= smallest_tx && db.log@[j].tx
                                >= smallest_tx && db.log@[i as int].timeline
                                != db.log@[j].timeline);
                        }
                        return Err(ErrorKind::TimelinesMixed);
                    }
                },
                None => {
                    timeline = Some(db.log[i].timeline);
                },
            }
        }
        i = i + 1;
    }
    match timeline {
        Some(t) => Ok(t),
        None => Err(ErrorKind::TimelinesInvalidTransactionIds),
    }
}

/// Is `e` the entity of some main-timeline datom after `bound` that is not
/// a transaction-instant datom — that is, of some datom of the block a
/// rewind of everything after `bound` inverts?
pub open spec fn block_entity(db: DB, bound: int, e: int) -> bool {
    exists|j: int|
        0 <= j < db.log@.len() && {
            let l = #[trigger] db.log@[j];
            &&& l.timeline == MAIN_TIMELINE
            &&& l.tx as int > bound
            &&& l.a != DB_TX_INSTANT
            &&& l.e as int == e
        }
}

/// Does the block that a rewind of everything after `bound` inverts hold a
/// datom of the given polarity speaking the given triple?
pub open spec fn block_datom(db: DB, bound: int, added: bool, t: (int, int, Val)) -> bool {
    exists|j: int|
        0 <= j < db.log@.len() && {
            let l = #[trigger] db.log@[j];
            &&& l.timeline == MAIN_TIMELINE
            &&& l.tx as int > bound
            &&& l.a != DB_TX_INSTANT
            &&& l.added == added
            &&& (l.e as int, l.a as int, l.v@) == t
        }
}

/// Does that block speak of the given entity under the given attribute at
/// all?  A triple it never touches is left exactly as it stands by the
/// rewind.
pub open spec fn block_touches(db: DB, bound: int, e: int, a: int) -> bool {
    exists|j: int|
        0 <= j < db.log@.len() && {
            let l = #[trigger] db.log@[j];
            &&& l.timeline == MAIN_TIMELINE
            &&& l.tx as int > bound
            &&& l.a != DB_TX_INSTANT
            &&& l.e as int == e
            &&& l.a as int == a
        }
}

/// Collect the inverse batch: every main-timeline datom with `tx > tx_bound`
/// in descending transaction order, with its polarity flipped, excluding the
/// synthetic transaction-instant datoms.  Also reports the smallest entity
/// observed in the batch, if the batch is not empty.
#[verifier::loop_isolation(false)]
fn reversed_terms_after(db: &DB, tx_bound: Entid) -> (r: (Vec<Entity>, Option<Entid>))
    ensures
        match r.1 {
            Some(m) => block_entity(*db, tx_bound as int, m as int) && forall|e: int|
                #[trigger] block_entity(*db, tx_bound as int, e) ==> m as int <= e,
            None => forall|e: int| !(#[trigger] block_entity(*db, tx_bound as int, e)),
        },
        forall|p: int|
            0 <= p < r.0@.len() ==> match #[trigger] r.0@[p] {
                Entity::AddOrRetract { op, e, a, v } => {
                    exists|j: int|
                        0 <= j < db.log@.len() && {
                            let l = #[trigger] db.log@[j];
                            &&& l.timeline == MAIN_TIMELINE
                            &&& l.tx > tx_bound
                            &&& l.a != DB_TX_INSTANT
                            &&& e == EntityPlace::Entid(EntidOrIdent::Entid(l.e))
                            &&& a == AttributePlace::Entid(EntidOrIdent::Entid(l.a))
                            &&& (v matches ValuePlace::Atom(tv) && tv@ == l.v@)
                            &&& op == (if l.added {
                                OpType::Retract
                            } else {
                                OpType::Add
                            })
                        }
                },
                _ => false,
            },
        forall|j: int|
            0 <= j < db.log@.len() && (#[trigger] db.log@[j]).timeline == MAIN_TIMELINE
                && db.log@[j].tx > tx_bound && db.log@[j].a != DB_TX_INSTANT ==> exists|p: int|
                0 <= p < r.0@.len() && match #[trigger] r.0@[p] {
                    Entity::AddOrRetract { op, e, a, v } => {
                        &&& e == EntityPlace::Entid(EntidOrIdent::Entid(db.log@[j].e))
                        &&& a == AttributePlace::Entid(EntidOrIdent::Entid(db.log@[j].a))
                        &&& (v matches ValuePlace::Atom(tv) && tv@ == db.log@[j].v@)
                        &&& op == (if db.log@[j].added {
                            OpType::Retract
                        } else {
                            OpType::Add
                        })
                    },
                    _ => false,
                },
{
    let mut entities: Vec<Entity> = Vec::new();
    let mut lowest_e: Option<Entid> = None;
    let mut i: usize = db.log.len();
    while i > 0
        invariant
            i <= db.log@.len(),
            match lowest_e {
                Some(m) => block_entity(*db, tx_bound as int, m as int) && forall|j: int|
                    i <= j < db.log@.len() && (#[trigger] db.log@[j]).timeline == MAIN_TIMELINE
                        && db.log@[j].tx > tx_bound && db.log@[j].a != DB_TX_INSTANT ==> m
                        <= db.log@[j].e,
                None => forall|j: int|
                    i <= j < db.log@.len() ==> !((#[trigger] db.log@[j]).timeline == MAIN_TIMELINE
                        && db.log@[j].tx > tx_bound && db.log@[j].a != DB_TX_INSTANT),
            },
            forall|p: int|
                0 <= p < entities@.len() ==> match #[trigger] entities@[p] {
                    Entity::AddOrRetract { op, e, a, v } => {
                        exists|j: int|
                            0 <= j < db.log@.len() && {
                                let l = #[trigger] db.log@[j];
                                &&& l.timeline == MAIN_TIMELINE
                                &&& l.tx > tx_bound
                                &&& l.a != DB_TX_INSTANT
                                &&& e == EntityPlace::Entid(EntidOrIdent::Entid(l.e))
                                &&& a == AttributePlace::Entid(EntidOrIdent::Entid(l.a))
                                &&& (v matches ValuePlace::Atom(tv) && tv@ == l.v@)
                                &&& op == (if l.added {
                                    OpType::Retract
                                } else {
                                    OpType::Add
                                })
                            }
                    },
                    _ => false,
                },
            forall|j: int|
                i <= j < db.log@.len() && (#[trigger] db.log@[j]).timeline == MAIN_TIMELINE
                    && db.log@[j].tx > tx_bound && db.log@[j].a != DB_TX_INSTANT ==> exists|p: int|
                    0 <= p < entities@.len() && match #[trigger] entities@[p] {
                        Entity::AddOrRetract { op, e, a, v } => {
                            &&& e == EntityPlace::Entid(EntidOrIdent::Entid(db.log@[j].e))
                            &&& a == AttributePlace::Entid(EntidOrIdent::Entid(db.log@[j].a))
                            &&& (v matches ValuePlace::Atom(tv) && tv@ == db.log@[j].v@)
                            &&& op == (if db.log@[j].added {
                                OpType::Retract
                            } else {
                                OpType::Add
                            })
                        },
                        _ => false,
                    },
        decreases i,
    {
        i = i - 1;
        let d = &db.log[i];
        if d.timeline == MAIN_TIMELINE && d.tx > tx_bound && d.a != DB_TX_INSTANT {
            let op = if d.added {
                OpType::Retract
            } else {
                OpType::Add
            };
            let ghost before = entities@;
            entities.push(
                Entity::AddOrRetract {
                    op,
                    e: EntityPlace::Entid(EntidOrIdent::Entid(d.e)),
                    a: AttributePlace::Entid(EntidOrIdent::Entid(d.a)),
                    v: ValuePlace::Atom(d.v.clone()),
                },
            );
            proof {
                assert(entities@ == before.push(entities@.last()));
                assert forall|j: int|
                    i <= j < db.log@.len() && (#[trigger] db.log@[j]).timeline == MAIN_TIMELINE
                        && db.log@[j].tx > tx_bound && db.log@[j].a != DB_TX_INSTANT implies exists|
                    p: int,
                |
                    0 <= p < entities@.len() && match #[trigger] entities@[p] {
                        Entity::AddOrRetract { op, e, a, v } => {
                            &&& e == EntityPlace::Entid(EntidOrIdent::Entid(db.log@[j].e))
                            &&& a == AttributePlace::Entid(EntidOrIdent::Entid(db.log@[j].a))
                            &&& (v matches ValuePlace::Atom(tv) && tv@ == db.log@[j].v@)
                            &&& op == (if db.log@[j].added {
                                OpType::Retract
                            } else {
                                OpType::Add
                            })
                        },
                        _ => false,
                    } by {
                    if j == i {
                        assert(entities@[before.len() as int] == entities@.last());
                    } else {
                        let p = choose|p: int|
                            0 <= p < before.len() && match #[trigger] before[p] {
                                Entity::AddOrRetract { op, e, a, v } => {
                                    &&& e == EntityPlace::Entid(EntidOrIdent::Entid(db.log@[j].e))
                                    &&& a == AttributePlace::Entid(
                                        EntidOrIdent::Entid(db.log@[j].a),
                                    )
                                    &&& (v matches ValuePlace::Atom(tv) && tv@ == db.log@[j].v@)
                                    &&& op == (if db.log@[j].added {
                                        OpType::Retract
                                    } else {
                                        OpType::Add
                                    })
                                },
                                _ => false,
                            };
                        assert(entities@[p] == before[p]);
                    }
                }
            }
            lowest_e = match lowest_e {
                Some(e) => {
                    if d.e < e {
                        Some(d.e)
                    } else {
                        Some(e)
                    }
                },
                None => Some(d.e),
            };
        }
    }
    (entities, lowest_e)
}

/// Relabel the given transactions onto a new timeline.
#[verifier::loop_isolation(false)]
fn move_transactions_to(log: Vec<LogDatom>, tx_ids: &Vec<Entid>, new_timeline: Entid) -> (r: Vec<
    LogDatom,
>)
    requires
        new_timeline != MAIN_TIMELINE,
    ensures
        r@.len() == log@.len(),
        forall|i: int|
            0 <= i < log@.len() ==> {
                let d = #[trigger] r@[i];
                &&& d.e == log@[i].e
                &&& d.a == log@[i].a
                &&& d.v@ == log@[i].v@
                &&& d.tx == log@[i].tx
                &&& d.added == log@[i].added
                &&& d.timeline == (if tx_ids@.contains(log@[i].tx) {
                    new_timeline
                } else {
                    log@[i].timeline
                })
            },
{
    let mut out: Vec<LogDatom> = Vec::new();
    let mut pending = log;
    let ghost orig = pending@;
    while pending.len() > 0
        invariant
            pending@.len() <= orig.len(),
            pending@ == orig.skip(orig.len() - pending@.len()),
            out@.len() == orig.len() - pending@.len(),
            forall|i: int|
                0 <= i < out@.len() ==> {
                    let d = #[trigger] out@[i];
                    &&& d.e == orig[i].e
                    &&& d.a == orig[i].a
                    &&& d.v@ == orig[i].v@
                    &&& d.tx == orig[i].tx
                    &&& d.added == orig[i].added
                    &&& d.timeline == (if tx_ids@.contains(orig[i].tx) {
                        new_timeline
                    } else {
                        orig[i].timeline
                    })
                },
        decreases pending@.len(),
    {
        let ghost k = orig.len() - pending@.len();
        proof {
            assert(pending@[0] == orig[k]);
            assert(orig.skip(k).drop_first() =~= orig.skip(k + 1));
        }
        let mut d = pending.remove(0);
        if crate::tx::entids_contain(tx_ids, d.tx) {
            d.timeline = new_timeline;
        }
        out.push(d);
    }
    out
}

/// Is `d` one of the datoms of `log`?
pub open spec fn datom_from(log: Seq<LogDatom>, d: LogDatom) -> bool {
    exists|j: int| 0 <= j < log.len() && d@ == log[j]@
}

/// Does `log` hold `d` unchanged but for the relabelling rule of a move:
/// same assertion, same transaction, and the timeline rewritten to
/// `new_timeline` exactly when the transaction is one of the moved ids?
pub open spec fn datom_moved(
    d: LogDatom,
    log: Seq<LogDatom>,
    tx_ids: Seq<Entid>,
    new_timeline: Entid,
) -> bool {
    exists|p: int|
        0 <= p < log.len() && {
            let l = #[trigger] log[p];
            &&& l.e == d.e
            &&& l.a == d.a
            &&& l.v@ == d.v@
            &&& l.tx == d.tx
            &&& l.added == d.added
            &&& l.timeline == (if tx_ids.contains(d.tx) {
                new_timeline
            } else {
                d.timeline
            })
        }
}

/// Does some supplied transaction id lie at or below this datom's
/// transaction — that is, does the datom sit at or after the smallest
/// supplied id?
pub open spec fn past_smallest(d: LogDatom, tx_ids: Seq<Entid>) -> bool {
    exists|j: int| 0 <= j < tx_ids.len() && #[trigger] tx_ids[j] <= d.tx
}

/// Delete every datom of the given transaction from the log; used only by
/// the rewind, to drop the bookkeeping transaction it created.
#[verifier::loop_isolation(false)]
fn eradicate_transaction(log: Vec<LogDatom>, tx: Entid) -> (r: Vec<LogDatom>)
    requires
        forall|i: int, j: int|
            0 <= i < j < log@.len() && (#[trigger] log@[i]).timeline == MAIN_TIMELINE && (
            #[trigger] log@[j]).timeline == MAIN_TIMELINE ==> log@[i].tx <= log@[j].tx,
    ensures
        forall|i: int| 0 <= i < r@.len() ==> (#[trigger] r@[i]).tx != tx,
        forall|i: int| 0 <= i < r@.len() ==> datom_from(log@, #[trigger] r@[i]),
        forall|i: int|
            0 <= i < log@.len() && (#[trigger] log@[i]).tx != tx ==> datom_from(r@, log@[i]),
        forall|i: int, j: int|
            0 <= i < j < r@.len() && (#[trigger] r@[i]).timeline == MAIN_TIMELINE && (
            #[trigger] r@[j]).timeline == MAIN_TIMELINE ==> r@[i].tx <= r@[j].tx,
{
    let mut out: Vec<LogDatom> = Vec::new();
    let mut pending = log;
    let ghost orig = pending@;
    while pending.len() > 0
        invariant
            pending@.len() <= orig.len(),
            pending@ == orig.skip(orig.len() - pending@.len()),
            forall|i: int| 0 <= i < out@.len() ==> (#[trigger] out@[i]).tx != tx,
            forall|i: int| 0 <= i < out@.len() ==> datom_from(orig, #[trigger] out@[i]),
            forall|i: int|
                0 <= i < orig.len() - pending@.len() && (#[trigger] orig[i]).tx != tx
                    ==> datom_from(out@, orig[i]),
            forall|i: int, j: int|
                0 <= i < j < out@.len() && (#[trigger] out@[i]).timeline == MAIN_TIMELINE && (
                #[trigger] out@[j]).timeline == MAIN_TIMELINE ==> out@[i].tx <= out@[j].tx,
            forall|i: int, q: int|
                0 <= i < out@.len() && (#[trigger] out@[i]).timeline == MAIN_TIMELINE && orig.len()
                    - pending@.len() <= q < orig.len() && (#[trigger] orig[q]).timeline
                    == MAIN_TIMELINE ==> out@[i].tx <= orig[q].tx,
        decreases pending@.len(),
    {
        let ghost k = orig.len() - pending@.len();
        proof {
            assert(pending@[0] == orig[k]);
            assert(orig.skip(k).drop_first() =~= orig.skip(k + 1));
        }
        let d = pending.remove(0);
        let ghost before = out@;
        if d.tx != tx {
            proof {
                assert(d == orig[k]);
                assert forall|i: int|
                    0 <= i < out@.len() && (#[trigger] out@[i]).timeline == MAIN_TIMELINE
                        && d.timeline == MAIN_TIMELINE implies out@[i].tx <= d.tx by {
                    assert(orig[k].timeline == MAIN_TIMELINE);
                }
            }
            out.push(d);
            proof {
                assert(out@.last()@ == orig[k]@);
                assert(datom_from(orig, out@.last()));
            }
        }
        proof {
            assert forall|i2: int| 0 <= i2 <= k && (#[trigger] orig[i2]).tx != tx implies
                datom_from(out@, orig[i2]) by {
                if i2 < k {
                    assert(datom_from(before, orig[i2]));
                    let p = choose|p: int| 0 <= p < before.len() && orig[i2]@ == before[p]@;
                    assert(out@[p]@ == before[p]@);
                } else {
                    assert(out@.last()@ == orig[k]@);
                }
            }
        }
    }
    proof {
        assert(orig == log@);
    }
    out
}


/// Every assertion of an inverse batch is plain and mirrors, with opposite
/// polarity, a datom of the block being inverted.
proof fn lemma_inverse_batch_sound(db: DB, tx_bound: Entid, entities: Seq<Entity>, txi: Entid)
    requires
        forall|p: int|
            0 <= p < entities.len() ==> match #[trigger] entities[p] {
                Entity::AddOrRetract { op, e, a, v } => {
                    exists|j: int|
                        0 <= j < db.log@.len() && {
                            let l = #[trigger] db.log@[j];
                            &&& l.timeline == MAIN_TIMELINE
                            &&& l.tx > tx_bound
                            &&& l.a != DB_TX_INSTANT
                            &&& e == EntityPlace::Entid(EntidOrIdent::Entid(l.e))
                            &&& a == AttributePlace::Entid(EntidOrIdent::Entid(l.a))
                            &&& (v matches ValuePlace::Atom(tv) && tv@ == l.v@)
                            &&& op == (if l.added {
                                OpType::Retract
                            } else {
                                OpType::Add
                            })
                        }
                },
                _ => false,
            },
    ensures
        forall|p: int|
            0 <= p < entities.len() ==> crate::tx::plain_entity(#[trigger] entities[p], txi)
                is Some,
        forall|t: (int, int, Val)|
            #[trigger] crate::tx::plain_has(entities, txi, OpType::Add, t) ==> block_datom(
                db,
                tx_bound as int,
                false,
                t,
            ),
        forall|t: (int, int, Val)|
            #[trigger] crate::tx::plain_has(entities, txi, OpType::Retract, t) ==> block_datom(
                db,
                tx_bound as int,
                true,
                t,
            ),
        forall|e: int, a: int|
            #[trigger] crate::tx::plain_replaces(entities, txi, e, a) ==> block_touches(
                db,
                tx_bound as int,
                e,
                a,
            ),
{
    assert forall|t: (int, int, Val)|
        #[trigger] crate::tx::plain_has(entities, txi, OpType::Add, t) implies block_datom(
        db,
        tx_bound as int,
        false,
        t,
    ) by {
        let p = choose|p: int|
            0 <= p < entities.len() && (crate::tx::plain_entity(#[trigger] entities[p], txi)
                matches Some(pe) && pe.0 == OpType::Add && (pe.1 as int, pe.2 as int, pe.3@) == t);
        let j = choose|j: int|
            0 <= j < db.log@.len() && {
                let l = #[trigger] db.log@[j];
                &&& l.timeline == MAIN_TIMELINE
                &&& l.tx > tx_bound
                &&& l.a != DB_TX_INSTANT
                &&& (match entities[p] {
                    Entity::AddOrRetract { op, e, a, v } => {
                        &&& e == EntityPlace::Entid(EntidOrIdent::Entid(l.e))
                        &&& a == AttributePlace::Entid(EntidOrIdent::Entid(l.a))
                        &&& (v matches ValuePlace::Atom(tv) && tv@ == l.v@)
                        &&& op == (if l.added {
                            OpType::Retract
                        } else {
                            OpType::Add
                        })
                    },
                    _ => false,
                })
            };
        assert(db.log@[j].added == false && (db.log@[j].e as int, db.log@[j].a as int,
        db.log@[j].v@) == t);
    }
    assert forall|t: (int, int, Val)|
        #[trigger] crate::tx::plain_has(entities, txi, OpType::Retract, t) implies block_datom(
        db,
        tx_bound as int,
        true,
        t,
    ) by {
        let p = choose|p: int|
            0 <= p < entities.len() && (crate::tx::plain_entity(#[trigger] entities[p], txi)
                matches Some(pe) && pe.0 == OpType::Retract && (pe.1 as int, pe.2 as int, pe.3@)
                == t);
        let j = choose|j: int|
            0 <= j < db.log@.len() && {
                let l = #[trigger] db.log@[j];
                &&& l.timeline == MAIN_TIMELINE
                &&& l.tx > tx_bound
                &&& l.a != DB_TX_INSTANT
                &&& (match entities[p] {
                    Entity::AddOrRetract { op, e, a, v } => {
                        &&& e == EntityPlace::Entid(EntidOrIdent::Entid(l.e))
                        &&& a == AttributePlace::Entid(EntidOrIdent::Entid(l.a))
                        &&& (v matches ValuePlace::Atom(tv) && tv@ == l.v@)
                        &&& op == (if l.added {
                            OpType::Retract
                        } else {
                            OpType::Add
                        })
                    },
                    _ => false,
                })
            };
        assert(db.log@[j].added == true && (db.log@[j].e as int, db.log@[j].a as int,
        db.log@[j].v@) == t);
    }
    assert forall|e: int, a: int|
        #[trigger] crate::tx::plain_replaces(entities, txi, e, a) implies block_touches(
        db,
        tx_bound as int,
        e,
        a,
    ) by {
        let p = choose|p: int|
            0 <= p < entities.len() && (crate::tx::plain_entity(#[trigger] entities[p], txi)
                matches Some(pe) && pe.0 == OpType::Add && pe.1 as int == e && pe.2 as int == a);
        let j = choose|j: int|
            0 <= j < db.log@.len() && {
                let l = #[trigger] db.log@[j];
                &&& l.timeline == MAIN_TIMELINE
                &&& l.tx > tx_bound
                &&& l.a != DB_TX_INSTANT
                &&& (match entities[p] {
                    Entity::AddOrRetract { op, e, a, v } => {
                        &&& e == EntityPlace::Entid(EntidOrIdent::Entid(l.e))
                        &&& a == AttributePlace::Entid(EntidOrIdent::Entid(l.a))
                        &&& (v matches ValuePlace::Atom(tv) && tv@ == l.v@)
                        &&& op == (if l.added {
                            OpType::Retract
                        } else {
                            OpType::Add
                        })
                    },
                    _ => false,
                })
            };
        assert(db.log@[j].e as int == e && db.log@[j].a as int == a);
    }
}

/// Every datom of the inverted block is answered by an assertion of the
/// inverse batch with the opposite polarity.
proof fn lemma_inverse_batch_complete(db: DB, tx_bound: Entid, entities: Seq<Entity>, txi: Entid)
    requires
        forall|j: int|
            0 <= j < db.log@.len() && (#[trigger] db.log@[j]).timeline == MAIN_TIMELINE
                && db.log@[j].tx > tx_bound && db.log@[j].a != DB_TX_INSTANT ==> exists|p: int|
                0 <= p < entities.len() && match #[trigger] entities[p] {
                    Entity::AddOrRetract { op, e, a, v } => {
                        &&& e == EntityPlace::Entid(EntidOrIdent::Entid(db.log@[j].e))
                        &&& a == AttributePlace::Entid(EntidOrIdent::Entid(db.log@[j].a))
                        &&& (v matches ValuePlace::Atom(tv) && tv@ == db.log@[j].v@)
                        &&& op == (if db.log@[j].added {
                            OpType::Retract
                        } else {
                            OpType::Add
                        })
                    },
                    _ => false,
                },
    ensures
        forall|t: (int, int, Val)|
            #[trigger] block_datom(db, tx_bound as int, false, t) ==> crate::tx::plain_has(
                entities,
                txi,
                OpType::Add,
                t,
            ),
        forall|t: (int, int, Val)|
            #[trigger] block_datom(db, tx_bound as int, true, t) ==> crate::tx::plain_has(
                entities,
                txi,
                OpType::Retract,
                t,
            ),
{
    assert forall|t: (int, int, Val), added: bool|
        #[trigger] block_datom(db, tx_bound as int, added, t) implies crate::tx::plain_has(
        entities,
        txi,
        if added {
            OpType::Retract
        } else {
            OpType::Add
        },
        t,
    ) by {
        let j = choose|j: int|
            0 <= j < db.log@.len() && {
                let l = #[trigger] db.log@[j];
                &&& l.timeline == MAIN_TIMELINE
                &&& l.tx as int > tx_bound as int
                &&& l.a != DB_TX_INSTANT
                &&& l.added == added
                &&& (l.e as int, l.a as int, l.v@) == t
            };
        let p = choose|p: int|
            0 <= p < entities.len() && match #[trigger] entities[p] {
                Entity::AddOrRetract { op, e, a, v } => {
                    &&& e == EntityPlace::Entid(EntidOrIdent::Entid(db.log@[j].e))
                    &&& a == AttributePlace::Entid(EntidOrIdent::Entid(db.log@[j].a))
                    &&& (v matches ValuePlace::Atom(tv) && tv@ == db.log@[j].v@)
                    &&& op == (if db.log@[j].added {
                        OpType::Retract
                    } else {
                        OpType::Add
                    })
                },
                _ => false,
            };
        assert(crate::tx::plain_entity(entities[p], txi) matches Some(pe) && pe.0 == (if added {
            OpType::Retract
        } else {
            OpType::Add
        }) && (pe.1 as int, pe.2 as int, pe.3@) == t);
    }
}

/// A block datom never speaks of the transaction-instant attribute, and its
/// triple always counts as touched by the block.
proof fn lemma_block_datom_facts(db: DB, bound: int)
    ensures
        forall|added: bool, t: (int, int, Val)|
            #[trigger] block_datom(db, bound, added, t) ==> t.1 != DB_TX_INSTANT as int
                && block_touches(db, bound, t.0, t.1),
{
    assert forall|added: bool, t: (int, int, Val)|
        #[trigger] block_datom(db, bound, added, t) implies t.1 != DB_TX_INSTANT as int
        && block_touches(db, bound, t.0, t.1) by {
        let j = choose|j: int|
            0 <= j < db.log@.len() && {
                let l = #[trigger] db.log@[j];
                &&& l.timeline == MAIN_TIMELINE
                &&& l.tx as int > bound
                &&& l.a != DB_TX_INSTANT
                &&& l.added == added
                &&& (l.e as int, l.a as int, l.v@) == t
            };
        assert(db.log@[j].e as int == t.0 && db.log@[j].a as int == t.1);
    }
}

} // verus!

verus! {

/// Rewind current state past the block's smallest transaction, drop the
/// bookkeeping transaction this creates, relabel the block, and wind the
/// partition cursors back.  The callers have already established that the
/// supplied ids are exactly the main timeline's tail at or after
/// `smallest`, their minimum.
#[verifier::rlimit(100)]
#[verifier::spinoff_prover]
#[verifier::loop_isolation(false)]
fn rewind_and_relabel(
    db: &DB,
    tx_ids: &Vec<Entid>,
    new_timeline: Entid,
    now: i64,
    smallest: Entid,
) -> (r: Result<(DB, TxReport), ErrorKind>)
    requires
        db.wf(),
        0 <= now < i64::MAX,
        new_timeline != MAIN_TIMELINE,
        tx_ids@.contains(smallest),
        forall|j: int| 0 <= j < tx_ids@.len() ==> smallest <= #[trigger] tx_ids@[j],
        smallest >= TX_PARTITION_START,
        forall|i: int|
            0 <= i < db.log@.len() && (#[trigger] db.log@[i]).tx >= smallest ==> tx_ids@.contains(
                db.log@[i].tx,
            ) && db.log@[i].timeline == MAIN_TIMELINE,
        exists|i: int|
            0 <= i < db.log@.len() && (#[trigger] db.log@[i]).tx >= smallest && db.log@[
            i].timeline == MAIN_TIMELINE,
    ensures
        match r {
            Ok(res) => {
                &&& res.0.wf()
                &&& tx_ids@.contains(res.0.partition_map.tx.index)
                &&& forall|j: int|
                    0 <= j < tx_ids@.len() ==> res.0.partition_map.tx.index <= tx_ids@[j]
                &&& forall|i: int|
                    0 <= i < db.log@.len() && (#[trigger] db.log@[i]).tx
                        >= res.0.partition_map.tx.index ==> tx_ids@.contains(db.log@[i].tx)
                        && db.log@[i].timeline == MAIN_TIMELINE
                &&& forall|i: int|
                    0 <= i < res.0.log@.len() && tx_ids@.contains((#[trigger] res.0.log@[i]).tx)
                        ==> res.0.log@[i].timeline == new_timeline
                &&& forall|i: int| 0 <= i < res.0.log@.len() ==> (#[trigger] res.0.log@[i]).tx
                    != res.1.tx
                &&& forall|i: int|
                    0 <= i < db.log@.len() ==> datom_moved(
                        #[trigger] db.log@[i],
                        res.0.log@,
                        tx_ids@,
                        new_timeline,
                    )
                &&& forall|t: (int, int, Val)|
                    #[trigger] block_datom(*db, res.0.partition_map.tx.index - 1, false, t)
                        ==> rows_have(res.0.eav@, t)
                &&& forall|t: (int, int, Val)|
                    #[trigger] block_datom(*db, res.0.partition_map.tx.index - 1, true, t)
                        && rows_have(db.eav@, t) && !block_datom(
                        *db,
                        res.0.partition_map.tx.index - 1,
                        false,
                        t,
                    ) ==> !rows_have(res.0.eav@, t)
                &&& forall|t: (int, int, Val)|
                    !(#[trigger] block_touches(*db, res.0.partition_map.tx.index - 1, t.0, t.1))
                        && t.1 != DB_TX_INSTANT as int ==> rows_have(res.0.eav@, t) == rows_have(
                        db.eav@,
                        t,
                    )
                &&& res.0.partition_map.user.start == db.partition_map.user.start
                &&& (res.0.partition_map.user == db.partition_map.user || (block_entity(
                    *db,
                    res.0.partition_map.tx.index - 1,
                    res.0.partition_map.user.index as int,
                ) && forall|e: int|
                    #[trigger] block_entity(*db, res.0.partition_map.tx.index - 1, e)
                        ==> res.0.partition_map.user.index as int <= e))
            },
            Err(_) => true,
        },
{
    // Rewind current state by transacting the inverse batch.
    let tx_bound = smallest - 1;
    let (entities, lowest_e) = reversed_terms_after(db, tx_bound);
    let (db2, report) = match crate::tx::transact_entities(db, entities, now) {
        Ok(res) => res,
        Err(k) => {
            return Err(k);
        },
    };
    let ghost oldn = db.log@.len() as int;

    let DB { partition_map, schema, eav, log, last_tx_instant } = db2;

    // The rewind transaction normalized current state only; drop it, and
    // relabel the moved block.
    let log2 = eradicate_transaction(log, report.tx);
    let log3 = move_transactions_to(log2, tx_ids, new_timeline);

    // Wind the partition cursors back: the user cursor to the smallest
    // entity the block observed when that is a user entity, else to where
    // it stood before the rewind.
    let mut pm = partition_map;
    let mut wound: bool = false;
    match lowest_e {
        Some(e) => {
            if pm.user.start <= e && e <= crate::types::TX_PARTITION_START {
                pm.user.set_index(e);
                wound = true;
                proof {
                    assert(block_entity(*db, (smallest - 1) as int, pm.user.index as int));
                    assert(forall|e2: int|
                        #[trigger] block_entity(*db, (smallest - 1) as int, e2)
                            ==> pm.user.index as int <= e2);
                }
            }
        },
        None => {},
    }
    if !wound {
        pm.user.set_index(db.partition_map.user.index);
        proof {
            assert(pm.user == db.partition_map.user);
        }
    }
    pm.tx.set_index(smallest);
    proof {
        assert(pm.user == db.partition_map.user || (block_entity(
            *db,
            (smallest - 1) as int,
            pm.user.index as int,
        ) && forall|e2: int|
            #[trigger] block_entity(*db, (smallest - 1) as int, e2) ==> pm.user.index as int
                <= e2));
    }

    let dbr = DB { partition_map: pm, schema, eav, log: log3, last_tx_instant };

    proof {
        let l2 = log2@;
        let l3 = log3@;
        // Every kept datom descends from the pre-rewind log and is not part
        // of the rewind transaction.
        assert forall|p: int| 0 <= p < l2.len() implies TX_PARTITION_START <= (
        #[trigger] l2[p]).tx && ((l2[p].timeline == MAIN_TIMELINE && l2[p].tx >= smallest)
            ==> tx_ids@.contains(l2[p].tx)) by {
            assert(datom_from(db2.log@, l2[p]));
            let q = choose|q: int| 0 <= q < db2.log@.len() && l2[p]@ == db2.log@[q]@;
            if q < oldn {
                assert(db2.log@[q]@ == db.log@[q]@);
                assert(TX_PARTITION_START <= db.log@[q].tx);
                if l2[p].timeline == MAIN_TIMELINE && l2[p].tx >= smallest {
                    assert(db.log@[q].timeline == MAIN_TIMELINE);
                    assert(db.log@[q].tx >= smallest);
                    assert(tx_ids@.contains(db.log@[q].tx));
                }
            } else {
                assert(db2.log@[q].tx == report.tx);
                assert(false);
            }
        }
        // Well-formedness of the rewound store.
        assert(dbr.partition_map.wf());
        assert forall|p: int, q: int|
            0 <= p < q < l3.len() && (#[trigger] l3[p]).timeline == MAIN_TIMELINE && (
            #[trigger] l3[q]).timeline == MAIN_TIMELINE implies l3[p].tx <= l3[q].tx by {
            assert(l3[p].tx == l2[p].tx && l3[q].tx == l2[q].tx);
            assert(l2[p].timeline == MAIN_TIMELINE);
            assert(l2[q].timeline == MAIN_TIMELINE);
        }
        assert forall|p: int| 0 <= p < l3.len() implies TX_PARTITION_START <= (
        #[trigger] l3[p]).tx by {
            assert(l3[p].tx == l2[p].tx);
        }
        assert forall|p: int|
            0 <= p < l3.len() && (#[trigger] l3[p]).timeline == MAIN_TIMELINE implies l3[p].tx
            < dbr.partition_map.tx.index by {
            assert(l3[p].tx == l2[p].tx);
            assert(!tx_ids@.contains(l2[p].tx));
            assert(l2[p].timeline == MAIN_TIMELINE);
            if l2[p].tx >= smallest {
                assert(tx_ids@.contains(l2[p].tx));
            }
        }
        assert(dbr.wf());
        assert forall|p: int| 0 <= p < l3.len() implies (#[trigger] l3[p]).tx != report.tx by {
            assert(l3[p].tx == l2[p].tx);
        }
        // The inverse batch is all plain, mirrors the block datom for
        // datom, and the transaction's frame ties the new state to the old.
        let txi = db.partition_map.tx.index;
        let ghost bound = (smallest - 1) as int;
        lemma_inverse_batch_sound(*db, tx_bound, entities@, txi);
        lemma_inverse_batch_complete(*db, tx_bound, entities@, txi);
        lemma_block_datom_facts(*db, bound);
        assert(crate::tx::all_plain(entities@, txi));
        // A triple the block retracted is current again.
        assert forall|t: (int, int, Val)| #[trigger] block_datom(*db, bound, false, t) implies
            rows_have(dbr.eav@, t) by {
            assert(crate::tx::plain_has(entities@, txi, OpType::Add, t));
            let p2 = choose|p2: int|
                0 <= p2 < entities@.len() && (crate::tx::plain_entity(
                    #[trigger] entities@[p2],
                    txi,
                ) matches Some(pe2) && pe2.0 == OpType::Add && (pe2.1 as int, pe2.2 as int,
                pe2.3@) == t);
            assert(rows_have(db2.eav@, t));
        }
        // A triple the block asserted and did not also retract is gone.
        assert forall|t: (int, int, Val)|
            #[trigger] block_datom(*db, bound, true, t) && rows_have(db.eav@, t) && !block_datom(
                *db,
                bound,
                false,
                t,
            ) implies !rows_have(dbr.eav@, t) by {
            assert(crate::tx::plain_has(entities@, txi, OpType::Retract, t));
            assert(!crate::tx::plain_has(entities@, txi, OpType::Add, t));
            assert(t.1 != DB_TX_INSTANT as int);
            assert(!rows_have(db2.eav@, t));
        }
        // A triple whose entity and attribute the block never spoke of is
        // exactly as it stood.
        assert forall|t: (int, int, Val)|
            !(#[trigger] block_touches(*db, bound, t.0, t.1)) && t.1 != DB_TX_INSTANT as int
            implies rows_have(dbr.eav@, t) == rows_have(db.eav@, t) by {
            assert(!crate::db::log_suffix_has(db2.log@, oldn, true, t)) by {
                if crate::db::log_suffix_has(db2.log@, oldn, true, t) {
                    if crate::tx::plain_has(entities@, txi, OpType::Add, t) {
                        assert(block_datom(*db, bound, false, t));
                        assert(block_touches(*db, bound, t.0, t.1));
                    } else {
                        assert(t == (txi as int, DB_TX_INSTANT as int, Val::Instant(
                            report.tx_instant as int,
                        )));
                    }
                    assert(false);
                }
            }
            assert(!crate::db::log_suffix_has(db2.log@, oldn, false, t)) by {
                if crate::db::log_suffix_has(db2.log@, oldn, false, t) {
                    if crate::tx::plain_has(entities@, txi, OpType::Retract, t) {
                        assert(block_datom(*db, bound, true, t));
                        assert(block_touches(*db, bound, t.0, t.1));
                    } else if crate::tx::plain_replaces(entities@, txi, t.0, t.1) {
                        assert(block_touches(*db, bound, t.0, t.1));
                    } else {
                        assert(t.1 == DB_TX_INSTANT as int);
                    }
                    assert(false);
                }
            }
            assert(rows_have(db2.eav@, t) == rows_have(db.eav@, t));
        }

        // Every pre-rewind datom survives the move, relabelled exactly when
        // its transaction is one of the moved ids.
        assert forall|i: int| 0 <= i < db.log@.len() implies datom_moved(
            #[trigger] db.log@[i],
            l3,
            tx_ids@,
            new_timeline,
        ) by {
            assert(db.log@[i].tx != report.tx) by {
                if db.log@[i].tx == report.tx {
                    let i0 = choose|i0: int|
                        0 <= i0 < db.log@.len() && (#[trigger] db.log@[i0]).tx >= smallest
                            && db.log@[i0].timeline == MAIN_TIMELINE;
                    assert(db.log@[i0].timeline == MAIN_TIMELINE);
                    assert(db.log@[i0].tx < db.partition_map.tx.index);
                    assert(db.log@[i].tx >= smallest);
                    assert(db.log@[i].timeline == MAIN_TIMELINE);
                    assert(db.log@[i].tx < db.partition_map.tx.index);
                    assert(false);
                }
            }
            assert(db2.log@[i]@ == db.log@[i]@);
            assert(db2.log@[i].tx != report.tx);
            assert(datom_from(l2, db2.log@[i]));
            let p = choose|p: int| 0 <= p < l2.len() && db2.log@[i]@ == l2[p]@;
            assert(l3[p].e == l2[p].e && l3[p].a == l2[p].a && l3[p].v@ == l2[p].v@ && l3[p].tx
                == l2[p].tx && l3[p].added == l2[p].added && l3[p].timeline == (
            if tx_ids@.contains(l2[p].tx) {
                new_timeline
            } else {
                l2[p].timeline
            }));
            assert(l2[p].tx == db.log@[i].tx && l2[p].e == db.log@[i].e && l2[p].a == db.log@[i].a
                && l2[p].v@ == db.log@[i].v@ && l2[p].added == db.log@[i].added
                && l2[p].timeline == db.log@[i].timeline);
        }
    }
    Ok((dbr, report))
}


/// Move the given block of transactions off the main timeline.
///
/// The block must be non-empty and must be exactly the tail of the main
/// timeline at or after its smallest member.  Inverse datoms are transacted
/// so that current state reads as if the block had never happened, the
/// bookkeeping transaction this creates is dropped again, the block is
/// relabeled onto `new_timeline`, and the partition cursors are wound back:
/// the transaction cursor to the smallest moved transaction, the user
/// cursor to the smallest entity observed in the inverse batch.  On any
/// failure the given store is simply not replaced.
#[verifier::rlimit(100)]
#[verifier::spinoff_prover]
#[verifier::loop_isolation(false)]
pub fn move_from_main_timeline(
    db: &DB,
    tx_ids: &Vec<Entid>,
    new_timeline: Entid,
    now: i64,
) -> (r: Result<(DB, TxReport), ErrorKind>)
    requires
        db.wf(),
        0 <= now < i64::MAX,
    ensures
        new_timeline == MAIN_TIMELINE ==> r is Err,
        (tx_ids@.len() == 0 && new_timeline != MAIN_TIMELINE) ==> (r matches Err(k)
            && k is TimelinesNoTransactionsSupplied),
        (exists|i: int|
            0 <= i < db.log@.len() && (exists|j: int|
                0 <= j < tx_ids@.len() && tx_ids@[j] <= (#[trigger] db.log@[i]).tx)
                && !tx_ids@.contains(db.log@[i].tx)) ==> r is Err,
        (exists|i: int|
            0 <= i < db.log@.len() && (exists|j: int|
                0 <= j < tx_ids@.len() && tx_ids@[j] <= (#[trigger] db.log@[i]).tx)
                && db.log@[i].timeline != MAIN_TIMELINE) ==> r is Err,
        (new_timeline != MAIN_TIMELINE && tx_ids@.len() > 0 && (exists|j: int|
            0 <= j < tx_ids@.len() && #[trigger] tx_ids@[j] < TX_PARTITION_START)) ==> (
        r matches Err(k) && k is TimelinesInvalidTransactionIds),
        (new_timeline != MAIN_TIMELINE && tx_ids@.len() > 0 && (forall|j: int|
            0 <= j < tx_ids@.len() ==> #[trigger] tx_ids@[j] >= TX_PARTITION_START) && (exists|
            i: int,
        |
            0 <= i < db.log@.len() && past_smallest(#[trigger] db.log@[i], tx_ids@)
                && !tx_ids@.contains(db.log@[i].tx)) && (forall|i: int|
            0 <= i < db.log@.len() && past_smallest(#[trigger] db.log@[i], tx_ids@) ==> db.log@[
            i].timeline == MAIN_TIMELINE)) ==> (r matches Err(k) && k is TimelinesNotOnTail),
        (new_timeline != MAIN_TIMELINE && tx_ids@.len() > 0 && (forall|j: int|
            0 <= j < tx_ids@.len() ==> #[trigger] tx_ids@[j] >= TX_PARTITION_START) && (forall|
            i: int,
        |
            0 <= i < db.log@.len() && past_smallest(#[trigger] db.log@[i], tx_ids@)
                ==> tx_ids@.contains(db.log@[i].tx)) && (exists|i: int, i2: int|
            0 <= i < db.log@.len() && 0 <= i2 < db.log@.len() && past_smallest(
                #[trigger] db.log@[i],
                tx_ids@,
            ) && past_smallest(#[trigger] db.log@[i2], tx_ids@) && db.log@[i].timeline != db.log@[
            i2].timeline)) ==> (r matches Err(k) && k is TimelinesMixed),
        (new_timeline != MAIN_TIMELINE && tx_ids@.len() > 0 && (forall|j: int|
            0 <= j < tx_ids@.len() ==> #[trigger] tx_ids@[j] >= TX_PARTITION_START) && (forall|
            i: int,
        |
            0 <= i < db.log@.len() && past_smallest(#[trigger] db.log@[i], tx_ids@)
                ==> tx_ids@.contains(db.log@[i].tx)) && (forall|i: int, i2: int|
            0 <= i < db.log@.len() && 0 <= i2 < db.log@.len() && past_smallest(
                #[trigger] db.log@[i],
                tx_ids@,
            ) && past_smallest(#[trigger] db.log@[i2], tx_ids@) ==> db.log@[i].timeline == db.log@[
            i2].timeline) && (exists|i: int|
            0 <= i < db.log@.len() && past_smallest(#[trigger] db.log@[i], tx_ids@) && db.log@[
            i].timeline != MAIN_TIMELINE)) ==> (r matches Err(k) && k is TimelinesNotOnMain),
        match r {
            Ok(res) => {
                &&& res.0.wf()
                &&& tx_ids@.contains(res.0.partition_map.tx.index)
                &&& forall|j: int|
                    0 <= j < tx_ids@.len() ==> res.0.partition_map.tx.index <= tx_ids@[j]
                &&& forall|i: int|
                    0 <= i < db.log@.len() && (#[trigger] db.log@[i]).tx
                        >= res.0.partition_map.tx.index ==> tx_ids@.contains(db.log@[i].tx)
                        && db.log@[i].timeline == MAIN_TIMELINE
                &&& forall|i: int|
                    0 <= i < res.0.log@.len() && tx_ids@.contains((#[trigger] res.0.log@[i]).tx)
                        ==> res.0.log@[i].timeline == new_timeline
                &&& forall|i: int| 0 <= i < res.0.log@.len() ==> (#[trigger] res.0.log@[i]).tx
                    != res.1.tx
                &&& forall|i: int|
                    0 <= i < db.log@.len() ==> datom_moved(
                        #[trigger] db.log@[i],
                        res.0.log@,
                        tx_ids@,
                        new_timeline,
                    )
                &&& forall|t: (int, int, Val)|
                    #[trigger] block_datom(*db, res.0.partition_map.tx.index - 1, false, t)
                        ==> rows_have(res.0.eav@, t)
                &&& forall|t: (int, int, Val)|
                    #[trigger] block_datom(*db, res.0.partition_map.tx.index - 1, true, t)
                        && rows_have(db.eav@, t) && !block_datom(
                        *db,
                        res.0.partition_map.tx.index - 1,
                        false,
                        t,
                    ) ==> !rows_have(res.0.eav@, t)
                &&& forall|t: (int, int, Val)|
                    !(#[trigger] block_touches(*db, res.0.partition_map.tx.index - 1, t.0, t.1))
                        && t.1 != DB_TX_INSTANT as int ==> rows_have(res.0.eav@, t) == rows_have(
                        db.eav@,
                        t,
                    )
                &&& res.0.partition_map.user.start == db.partition_map.user.start
                &&& (res.0.partition_map.user == db.partition_map.user || (block_entity(
                    *db,
                    res.0.partition_map.tx.index - 1,
                    res.0.partition_map.user.index as int,
                ) && forall|e: int|
                    #[trigger] block_entity(*db, res.0.partition_map.tx.index - 1, e)
                        ==> res.0.partition_map.user.index as int <= e))
            },
            Err(_) => true,
        },
{
    if new_timeline == MAIN_TIMELINE {
        return Err(
            ErrorKind::NotYetImplemented(
                String::from_str("cannot move transactions to the main timeline"),
            ),
        );
    }
    if tx_ids.len() == 0 {
        return Err(ErrorKind::TimelinesNoTransactionsSupplied);
    }
    let mut smallest = tx_ids[0];
    let mut i: usize = 1;
    while i < tx_ids.len()
        invariant
            1 <= i <= tx_ids@.len(),
            tx_ids@.contains(smallest),
            forall|j: int| 0 <= j < i ==> smallest <= tx_ids@[j],
        decreases tx_ids@.len() - i,
    {
        if tx_ids[i] < smallest {
            smallest = tx_ids[i];
            proof {
                assert(tx_ids@[i as int] == smallest);
            }
        }
        i = i + 1;
    }
    if smallest < TX_PARTITION_START {
        return Err(ErrorKind::TimelinesInvalidTransactionIds);
    }
    proof {
        // A datom sits past some supplied id exactly when it sits at or
        // after the smallest one.
        assert forall|i: int| 0 <= i < db.log@.len() implies past_smallest(
            #[trigger] db.log@[i],
            tx_ids@,
        ) == (db.log@[i].tx >= smallest) by {
            if past_smallest(db.log@[i], tx_ids@) {
                let j = choose|j: int|
                    0 <= j < tx_ids@.len() && #[trigger] tx_ids@[j] <= db.log@[i].tx;
                assert(smallest <= tx_ids@[j]);
            }
            if db.log@[i].tx >= smallest {
                let j = choose|j: int| 0 <= j < tx_ids@.len() && tx_ids@[j] == smallest;
                assert(tx_ids@[j] <= db.log@[i].tx);
            }
        }
    }
    let timeline = match current_timeline(db, smallest, tx_ids) {
        Ok(t) => t,
        Err(k) => {
            return Err(k);
        },
    };
    if timeline != MAIN_TIMELINE {
        return Err(ErrorKind::TimelinesNotOnMain);
    }

    rewind_and_relabel(db, tx_ids, new_timeline, now, smallest)
}

} // verus!
