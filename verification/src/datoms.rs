//! Datoms and their canonical orders.
//!
//! Current-state views order by `(e, a, value_type_tag, v, tx)`; transaction
//! views order by `(tx, e, a, value_type_tag, v, added)` with retractions
//! before assertions, so that replay is deterministic.

use crate::types::{Entid, TypedValue, Val, ValueType};
use vstd::prelude::*;
use vstd::relations::{sorted_by, total_ordering};
use vstd::seq_lib::lemma_sorted_unique;

verus! {

/// Represents a datom (assertion) in the store.
#[derive(Debug)]
pub struct Datom {
    pub e: Entid,
    pub a: Entid,
    pub v: TypedValue,
    pub tx: i64,
    /// `None` in a current-state view; in a transaction view, whether the
    /// datom asserts or retracts.
    pub added: Option<bool>,
}

/// The mathematical shadow of a [`Datom`].
pub ghost struct DatomView {
    pub e: int,
    pub a: int,
    pub v: Val,
    pub tx: int,
    pub added: Option<bool>,
}

impl View for Datom {
    type V = DatomView;

    open spec fn view(&self) -> DatomView {
        DatomView {
            e: self.e as int,
            a: self.a as int,
            v: self.v@,
            tx: self.tx as int,
            added: self.added,
        }
    }
}

impl Clone for Datom {
    fn clone(&self) -> (r: Self)
        ensures
            r@ == self@,
    {
        Datom { e: self.e, a: self.a, v: self.v.clone(), tx: self.tx, added: self.added }
    }
}

/// Lexicographic order on character sequences, by code point.
pub open spec fn lex_le(s: Seq<char>, t: Seq<char>) -> bool
    decreases s.len(),
{
    if s.len() == 0 {
        true
    } else if t.len() == 0 {
        false
    } else if s[0] != t[0] {
        s[0] < t[0]
    } else {
        lex_le(s.drop_first(), t.drop_first())
    }
}

/// The lexicographic order is total: connected, antisymmetric (up to
/// equality) and transitive.
pub proof fn lemma_lex_le_connected(s: Seq<char>, t: Seq<char>)
    ensures
        lex_le(s, t) || lex_le(t, s),
    decreases s.len(),
{
    if s.len() == 0 {
        assert(lex_le(s, t));
    } else if t.len() == 0 {
        assert(lex_le(t, s));
    } else if s[0] == t[0] {
        lemma_lex_le_connected(s.drop_first(), t.drop_first());
    } else {
        if s[0] < t[0] {
            assert(lex_le(s, t));
        } else {
            assert(t[0] < s[0]);
            assert(lex_le(t, s));
        }
    }
}

pub proof fn lemma_lex_le_antisymmetric(s: Seq<char>, t: Seq<char>)
    requires
        lex_le(s, t),
        lex_le(t, s),
    ensures
        s == t,
    decreases s.len(),
{
    if s.len() == 0 {
        assert(t.len() == 0);
        assert(s =~= t);
    } else {
        assert(t.len() > 0);
        assert(s[0] == t[0]);
        lemma_lex_le_antisymmetric(s.drop_first(), t.drop_first());
        let sd = s.drop_first();
        let td = t.drop_first();
        assert(sd == td);
        assert(sd.len() == td.len());
        assert(s =~= t) by {
            assert(s.len() == sd.len() + 1);
            assert(t.len() == td.len() + 1);
            assert(s.len() == t.len());
            assert forall|i: int| 0 <= i < s.len() implies s[i] == t[i] by {
                if i >= 1 {
                    assert(s[i] == sd[i - 1]);
                    assert(t[i] == td[i - 1]);
                }
            }
        }
    }
}

pub proof fn lemma_lex_le_transitive(s: Seq<char>, t: Seq<char>, u: Seq<char>)
    requires
        lex_le(s, t),
        lex_le(t, u),
    ensures
        lex_le(s, u),
    decreases s.len(),
{
    if s.len() > 0 {
        assert(t.len() > 0);
        assert(u.len() > 0);
        if s[0] == t[0] && t[0] == u[0] {
            lemma_lex_le_transitive(s.drop_first(), t.drop_first(), u.drop_first());
        }
    }
}

/// The storage tag of a value, read off its mathematical form.
pub open spec fn val_tag(v: Val) -> int {
    match v {
        Val::Ref(_) => 0,
        Val::Boolean(_) => 1,
        Val::Instant(_) => 4,
        Val::Long(_) => 5,
        Val::String(_) => 10,
        Val::Uuid(_) => 11,
        Val::Keyword(_) => 13,
    }
}

/// The canonical order on values: by tag, then by payload.
pub open spec fn val_le(x: Val, y: Val) -> bool {
    if val_tag(x) != val_tag(y) {
        val_tag(x) < val_tag(y)
    } else {
        match (x, y) {
            (Val::Ref(a), Val::Ref(b)) => a <= b,
            (Val::Boolean(a), Val::Boolean(b)) => !a || b,
            (Val::Instant(a), Val::Instant(b)) => a <= b,
            (Val::Long(a), Val::Long(b)) => a <= b,
            (Val::String(a), Val::String(b)) => lex_le(a, b),
            (Val::Uuid(a), Val::Uuid(b)) => a <= b,
            (Val::Keyword(a), Val::Keyword(b)) => lex_le(a, b),
            _ => true,
        }
    }
}

pub proof fn lemma_val_le_total(x: Val, y: Val, z: Val)
    ensures
        val_le(x, x),
        val_le(x, y) || val_le(y, x),
        val_le(x, y) && val_le(y, x) ==> x == y,
        val_le(x, y) && val_le(y, z) ==> val_le(x, z),
{
    match (x, y) {
        (Val::String(a), Val::String(b)) => {
            lemma_lex_le_connected(a, b);
            if lex_le(a, b) && lex_le(b, a) {
                lemma_lex_le_antisymmetric(a, b);
            }
        },
        (Val::Keyword(a), Val::Keyword(b)) => {
            lemma_lex_le_connected(a, b);
            if lex_le(a, b) && lex_le(b, a) {
                lemma_lex_le_antisymmetric(a, b);
            }
        },
        _ => {},
    }
    match (x, x) {
        (Val::String(a), Val::String(b)) => lemma_lex_le_connected(a, a),
        (Val::Keyword(a), Val::Keyword(b)) => lemma_lex_le_connected(a, a),
        _ => {},
    }
    if val_le(x, y) && val_le(y, z) {
        match (x, y, z) {
            (Val::String(a), Val::String(b), Val::String(c)) => {
                lemma_lex_le_transitive(a, b, c);
            },
            (Val::Keyword(a), Val::Keyword(b), Val::Keyword(c)) => {
                lemma_lex_le_transitive(a, b, c);
            },
            _ => {},
        }
    }
}

/// The canonical order on datoms.  Current-state datoms (no `added`) come
/// first and order by `(e, a, tag, v, tx)`; transaction datoms order by
/// `(tx, e, a, tag, v, added)` with retractions before assertions.
pub open spec fn datom_le(x: DatomView, y: DatomView) -> bool {
    match (x.added, y.added) {
        (Option::None, Option::Some(_)) => true,
        (Option::Some(_), Option::None) => false,
        (Option::None, Option::None) => {
            if x.e != y.e {
                x.e < y.e
            } else if x.a != y.a {
                x.a < y.a
            } else if val_tag(x.v) != val_tag(y.v) {
                val_tag(x.v) < val_tag(y.v)
            } else if x.v != y.v {
                val_le(x.v, y.v)
            } else {
                x.tx <= y.tx
            }
        },
        (Option::Some(xa), Option::Some(ya)) => {
            if x.tx != y.tx {
                x.tx < y.tx
            } else if x.e != y.e {
                x.e < y.e
            } else if x.a != y.a {
                x.a < y.a
            } else if val_tag(x.v) != val_tag(y.v) {
                val_tag(x.v) < val_tag(y.v)
            } else if x.v != y.v {
                val_le(x.v, y.v)
            } else {
                !xa || ya
            }
        },
    }
}

/// The canonical order is a total order on datom views.
pub proof fn lemma_datom_le_total_ordering()
    ensures
        total_ordering(|x: DatomView, y: DatomView| datom_le(x, y)),
{
    let leq = |x: DatomView, y: DatomView| datom_le(x, y);
    assert forall|x: DatomView| #[trigger] leq(x, x) by {
        lemma_val_le_total(x.v, x.v, x.v);
    }
    assert forall|x: DatomView, y: DatomView| #[trigger] leq(x, y) && #[trigger] leq(y, x) implies x
        == y by {
        lemma_val_le_total(x.v, y.v, y.v);
    }
    assert forall|x: DatomView, y: DatomView, z: DatomView|
        #[trigger] leq(x, y) && #[trigger] leq(y, z) implies leq(x, z) by {
        lemma_val_le_total(x.v, y.v, z.v);
        lemma_val_le_total(y.v, z.v, x.v);
        lemma_val_le_total(x.v, z.v, y.v);
    }
    assert forall|x: DatomView, y: DatomView| #[trigger] leq(x, y) || #[trigger] leq(y, x) by {
        lemma_val_le_total(x.v, y.v, x.v);
    }
}

/// Canonical datom order is deterministic: any two orderings of the same
/// datoms that both respect the canonical order are the same sequence.
pub proof fn lemma_canonical_order_deterministic(s1: Seq<DatomView>, s2: Seq<DatomView>)
    requires
        sorted_by(s1, |x: DatomView, y: DatomView| datom_le(x, y)),
        sorted_by(s2, |x: DatomView, y: DatomView| datom_le(x, y)),
        s1.to_multiset() == s2.to_multiset(),
    ensures
        s1 == s2,
{
    lemma_datom_le_total_ordering();
    lemma_sorted_unique(s1, s2, |x: DatomView, y: DatomView| datom_le(x, y));
}

} // verus!

verus! {

use vstd::string::StrSliceExecFns;

/// Equal prefixes do not influence the lexicographic comparison.
proof fn lemma_lex_le_skip(s: Seq<char>, t: Seq<char>, i: int)
    requires
        0 <= i <= s.len(),
        i <= t.len(),
        forall|j: int| 0 <= j < i ==> s[j] == t[j],
    ensures
        lex_le(s, t) == lex_le(s.skip(i), t.skip(i)),
    decreases i,
{
    if i == 0 {
        assert(s.skip(0) =~= s);
        assert(t.skip(0) =~= t);
    } else {
        assert(s.len() > 0 && t.len() > 0 && s[0] == t[0]);
        assert(lex_le(s, t) == lex_le(s.drop_first(), t.drop_first()));
        lemma_lex_le_skip(s.drop_first(), t.drop_first(), i - 1);
        assert(s.drop_first().skip(i - 1) =~= s.skip(i));
        assert(t.drop_first().skip(i - 1) =~= t.skip(i));
    }
}

/// Compare two strings in the canonical (code point) order.
pub fn str_le(a: &str, b: &str) -> (r: bool)
    ensures
        r == lex_le(a@, b@),
{
    let an = a.unicode_len();
    let bn = b.unicode_len();
    let mut i: usize = 0;
    loop
        invariant
            i <= an,
            i <= bn,
            an == a@.len(),
            bn == b@.len(),
            forall|j: int| 0 <= j < i ==> a@[j] == b@[j],
        decreases an - i,
    {
        proof {
            lemma_lex_le_skip(a@, b@, i as int);
        }
        if i == an {
            return true;
        }
        if i == bn {
            proof {
                assert(a@.skip(i as int).len() > 0);
                assert(b@.skip(i as int).len() == 0);
            }
            return false;
        }
        let ca = a.get_char(i);
        let cb = b.get_char(i);
        if ca != cb {
            proof {
                assert(a@.skip(i as int)[0] == a@[i as int]);
                assert(b@.skip(i as int)[0] == b@[i as int]);
            }
            return ca < cb;
        }
        i = i + 1;
    }
}

/// Compare two values in the canonical order.
pub fn value_le(x: &TypedValue, y: &TypedValue) -> (r: bool)
    ensures
        r == val_le(x@, y@),
{
    let xt = x.value_type().value_type_tag();
    let yt = y.value_type().value_type_tag();
    if xt != yt {
        proof {
            assert(val_tag(x@) == x.spec_value_type().spec_value_type_tag());
            assert(val_tag(y@) == y.spec_value_type().spec_value_type_tag());
        }
        xt < yt
    } else {
        proof {
            assert(val_tag(x@) == x.spec_value_type().spec_value_type_tag());
            assert(val_tag(y@) == y.spec_value_type().spec_value_type_tag());
        }
        match (x, y) {
            (TypedValue::Ref(a), TypedValue::Ref(b)) => a <= b,
            (TypedValue::Boolean(a), TypedValue::Boolean(b)) => !*a || *b,
            (TypedValue::Instant(a), TypedValue::Instant(b)) => a <= b,
            (TypedValue::Long(a), TypedValue::Long(b)) => a <= b,
            (TypedValue::String(a), TypedValue::String(b)) => str_le(a.as_str(), b.as_str()),
            (TypedValue::Uuid(a), TypedValue::Uuid(b)) => a <= b,
            (TypedValue::Keyword(a), TypedValue::Keyword(b)) => str_le(a.as_str(), b.as_str()),
            _ => true,
        }
    }
}

/// Compare two datoms in the canonical order.
pub fn datom_le_exec(x: &Datom, y: &Datom) -> (r: bool)
    ensures
        r == datom_le(x@, y@),
{
    match (x.added, y.added) {
        (Option::None, Option::Some(_)) => true,
        (Option::Some(_), Option::None) => false,
        (Option::None, Option::None) => {
            if x.e != y.e {
                x.e < y.e
            } else if x.a != y.a {
                x.a < y.a
            } else {
                let xt = x.v.value_type().value_type_tag();
                let yt = y.v.value_type().value_type_tag();
                proof {
                    assert(val_tag(x@.v) == x.v.spec_value_type().spec_value_type_tag());
                    assert(val_tag(y@.v) == y.v.spec_value_type().spec_value_type_tag());
                }
                if xt != yt {
                    xt < yt
                } else if !x.v.eq(&y.v) {
                    value_le(&x.v, &y.v)
                } else {
                    x.tx <= y.tx
                }
            }
        },
        (Option::Some(xa), Option::Some(ya)) => {
            if x.tx != y.tx {
                x.tx < y.tx
            } else if x.e != y.e {
                x.e < y.e
            } else if x.a != y.a {
                x.a < y.a
            } else {
                let xt = x.v.value_type().value_type_tag();
                let yt = y.v.value_type().value_type_tag();
                proof {
                    assert(val_tag(x@.v) == x.v.spec_value_type().spec_value_type_tag());
                    assert(val_tag(y@.v) == y.v.spec_value_type().spec_value_type_tag());
                }
                if xt != yt {
                    xt < yt
                } else if !x.v.eq(&y.v) {
                    value_le(&x.v, &y.v)
                } else {
                    !xa || ya
                }
            }
        },
    }
}

/// Sort datoms by `[e a v]`, grouping by `tx` first if `added` is present.
pub fn datom_cmp(x: &Datom, y: &Datom) -> (r: core::cmp::Ordering)
    ensures
        r is Equal <==> x@ == y@,
        r is Less <==> (datom_le(x@, y@) && x@ != y@),
        r is Greater <==> (datom_le(y@, x@) && x@ != y@),
{
    let le1 = datom_le_exec(x, y);
    let le2 = datom_le_exec(y, x);
    proof {
        lemma_val_le_total(x@.v, y@.v, y@.v);
        lemma_val_le_total(x@.v, y@.v, x@.v);
    }
    if le1 && le2 {
        core::cmp::Ordering::Equal
    } else if le1 {
        core::cmp::Ordering::Less
    } else {
        proof {
            lemma_val_le_total(y@.v, x@.v, x@.v);
        }
        core::cmp::Ordering::Greater
    }
}

/// Sort a vector of datoms into the canonical order: the result respects
/// the order and holds the same datoms.
pub fn sort_datoms(v: Vec<Datom>) -> (r: Vec<Datom>)
    ensures
        sorted_by(dviews(r@), |x: DatomView, y: DatomView| datom_le(x, y)),
        dviews(r@).to_multiset() == dviews(v@).to_multiset(),
{
    let ghost vw = |d: Datom| d@;
    let ghost leq = |x: DatomView, y: DatomView| datom_le(x, y);
    let mut pending = v;
    let mut out: Vec<Datom> = Vec::new();
    proof {
        broadcast use vstd::seq_lib::group_to_multiset_ensures;
        assert(out@.map_values(vw).to_multiset().add(pending@.map_values(vw).to_multiset())
            =~= v@.map_values(vw).to_multiset()) by {
            assert(out@.map_values(vw) =~= Seq::<DatomView>::empty());
        }
    }
    while pending.len() > 0
        invariant
            sorted_by(out@.map_values(|d: Datom| d@), |x: DatomView, y: DatomView| datom_le(x, y)),
            out@.map_values(|d: Datom| d@).to_multiset().add(
                pending@.map_values(|d: Datom| d@).to_multiset(),
            ) == v@.map_values(|d: Datom| d@).to_multiset(),
            forall|p: int, q: int|
                0 <= p < out@.len() && 0 <= q < pending@.len() ==> datom_le(
                    (#[trigger] out@[p])@,
                    (#[trigger] pending@[q])@,
                ),
        decreases pending@.len(),
    {
        // Find the least remaining datom.
        let mut min: usize = 0;
        let mut j: usize = 1;
        while j < pending.len()
            invariant
                min < j || (j == 1 && min == 0),
                min < pending@.len(),
                j <= pending@.len(),
                forall|q: int| 0 <= q < j ==> datom_le(pending@[min as int]@, (#[trigger] pending@[q])@),
            decreases pending@.len() - j,
        {
            if !datom_le_exec(&pending[min], &pending[j]) {
                proof {
                    lemma_datom_le_total_ordering();
                    assert forall|q: int| 0 <= q < j + 1 implies datom_le(
                        pending@[j as int]@,
                        (#[trigger] pending@[q])@,
                    ) by {
                        lemma_val_le_total(pending@[j as int]@.v, pending@[q]@.v, pending@[min as int]@.v);
                        lemma_val_le_total(pending@[min as int]@.v, pending@[q]@.v, pending@[j as int]@.v);
                        lemma_val_le_total(pending@[min as int]@.v, pending@[j as int]@.v, pending@[q]@.v);
                    }
                }
                min = j;
            }
            j = j + 1;
        }
        let ghost pend0 = pending@;
        let d = pending.remove(min);
        proof {
            broadcast use vstd::seq_lib::group_to_multiset_ensures;
            let ghost vw2 = |d: Datom| d@;
            assert(pending@.map_values(vw2) =~= pend0.map_values(vw2).remove(min as int));
            assert(pend0.map_values(vw2)[min as int] == d@);
            assert(out@.map_values(vw2).push(d@) =~= out@.push(d).map_values(vw2));
        }
        let ghost out0 = out@;
        out.push(d);
        proof {
            let vw2 = |d: Datom| d@;
            let leq2 = |x: DatomView, y: DatomView| datom_le(x, y);
            assert(out@.map_values(vw2) =~= out0.map_values(vw2).push(d@));
            assert forall|p: int, q: int|
                0 <= p < q < out@.map_values(vw2).len() implies leq2(
                out@.map_values(vw2)[p],
                out@.map_values(vw2)[q],
            ) by {
                if q < out0.len() {
                    assert(leq2(out0.map_values(vw2)[p], out0.map_values(vw2)[q]));
                } else {
                    assert(out@.map_values(vw2)[q] == d@);
                    assert(d@ == pend0[min as int]@);
                    assert(out@.map_values(vw2)[p] == out0[p]@);
                    assert(datom_le(out0[p]@, pend0[min as int]@));
                }
            }
            // Multiset bookkeeping: moving the minimum keeps the union.
            broadcast use vstd::seq_lib::group_to_multiset_ensures;
            assert(out@.map_values(vw2).to_multiset().add(
                pending@.map_values(vw2).to_multiset(),
            ) =~= out0.map_values(vw2).to_multiset().add(
                pend0.map_values(vw2).to_multiset(),
            ));
            // Every remaining datom is at least the minimum.
            assert forall|p: int, q: int|
                0 <= p < out@.len() && 0 <= q < pending@.len() implies datom_le(
                (#[trigger] out@[p])@,
                (#[trigger] pending@[q])@,
            ) by {
                if p < out0.len() {
                    if q < min {
                        assert(pending@[q] == pend0[q]);
                    } else {
                        assert(pending@[q] == pend0[q + 1]);
                    }
                } else {
                    assert(out@[p] == d);
                    if q < min {
                        assert(pending@[q] == pend0[q]);
                        assert(datom_le(pend0[min as int]@, pend0[q]@));
                    } else {
                        assert(pending@[q] == pend0[q + 1]);
                        assert(datom_le(pend0[min as int]@, pend0[q + 1]@));
                    }
                }
            }
        }
    }
    proof {
        broadcast use vstd::seq_lib::group_to_multiset_ensures;
        assert(pending@.map_values(|d: Datom| d@) =~= Seq::<DatomView>::empty());
        assert(out@.map_values(|d: Datom| d@).to_multiset() =~= v@.map_values(
            |d: Datom| d@,
        ).to_multiset());
        assert(dviews(out@) =~= out@.map_values(|d: Datom| d@));
        assert(dviews(v@) =~= v@.map_values(|d: Datom| d@));
        assert(sorted_by(dviews(out@), |x: DatomView, y: DatomView| datom_le(x, y)));
    }
    out
}

/// Represents a deterministically ordered set of datoms in the store.
#[derive(Debug)]
pub struct Datoms {
    pub datoms: Vec<Datom>,
}

impl Datoms {
    /// Order the given datoms canonically.
    pub fn new(datoms: Vec<Datom>) -> (r: Datoms)
        ensures
            sorted_by(dviews(r.datoms@), |x: DatomView, y: DatomView| datom_le(x, y)),
            dviews(r.datoms@).to_multiset() == dviews(datoms@).to_multiset(),
    {
        Datoms { datoms: sort_datoms(datoms) }
    }
}

} // verus!

verus! {

use crate::db::{DB, MAIN_TIMELINE};
use crate::types::DB_TX_INSTANT;

/// Represents an ordered sequence of transactions in the store, each a
/// deterministically ordered set of datoms.
#[derive(Debug)]
pub struct Transactions(pub Vec<Datoms>);

impl DB {
    /// The set of current datoms, canonically ordered by `(e, a, v)`, not
    /// including any datoms of the form `[... :db/txInstant ...]`: the
    /// result holds exactly one datom for every current-state triple whose
    /// attribute is not the transaction instant.
    pub fn datoms(&self) -> (r: Datoms)
        requires
            crate::db::rows_distinct(self.eav@),
        ensures
            sorted_by(dviews(r.datoms@), |x: DatomView, y: DatomView| datom_le(x, y)),
            forall|t: (int, int, crate::types::Val)|
                #[trigger] dviews(r.datoms@).contains(
                    DatomView { e: t.0, a: t.1, v: t.2, tx: 0, added: None },
                ) == (crate::db::rows_have(self.eav@, t) && t.1 != DB_TX_INSTANT as int),
            forall|i: int|
                0 <= i < r.datoms@.len() ==> (#[trigger] r.datoms@[i])@.tx == 0
                    && r.datoms@[i]@.added is None && r.datoms@[i]@.a != DB_TX_INSTANT as int,
    {
        let mut rows: Vec<Datom> = Vec::new();
        let mut i: usize = 0;
        while i < self.eav.len()
            invariant
                i <= self.eav@.len(),
                forall|t: (int, int, crate::types::Val)|
                    #[trigger] dviews(rows@).contains(
                        DatomView { e: t.0, a: t.1, v: t.2, tx: 0, added: None },
                    ) == (crate::db::rows_have(self.eav@.take(i as int), t) && t.1
                        != DB_TX_INSTANT as int),
                forall|j: int|
                    0 <= j < rows@.len() ==> (#[trigger] rows@[j])@.tx == 0 && rows@[j]@.added
                        is None && rows@[j]@.a != DB_TX_INSTANT as int,
            decreases self.eav@.len() - i,
        {
            proof {
                crate::tx::lemma_rows_take_step(self.eav@, i as int);
            }
            let row = &self.eav[i];
            if row.a != DB_TX_INSTANT {
                let d = Datom { e: row.e, a: row.a, v: row.v.clone(), tx: 0, added: None };
                proof {
                    lemma_dviews_push(rows@, d);
                    assert(d@ == (DatomView {
                        e: self.eav@[i as int].key().0,
                        a: self.eav@[i as int].key().1,
                        v: self.eav@[i as int].key().2,
                        tx: 0,
                        added: None,
                    }));
                }
                rows.push(d);
            }
            i = i + 1;
        }
        proof {
            assert(self.eav@.take(self.eav@.len() as int) =~= self.eav@);
        }
        let ghost built = rows@;
        let r = Datoms { datoms: sort_datoms(rows) };
        proof {
            lemma_multiset_same_contains(dviews(r.datoms@), dviews(built));
            assert forall|j: int| 0 <= j < r.datoms@.len() implies (#[trigger] r.datoms@[j])@.tx
                == 0 && r.datoms@[j]@.added is None && r.datoms@[j]@.a
                != DB_TX_INSTANT as int by {
                assert(dviews(r.datoms@)[j] == r.datoms@[j]@);
                assert(dviews(r.datoms@).contains(r.datoms@[j]@));
                assert(dviews(built).contains(r.datoms@[j]@));
                let p = choose|p: int| 0 <= p < built.len() && dviews(built)[p] == r.datoms@[j]@;
                assert(built[p]@ == r.datoms@[j]@);
            }
        }
        r
    }

    /// A datom view drawn from the main-timeline log after `bound`.
    pub open spec fn spec_tx_datom(self, bound: crate::types::Entid, d: DatomView) -> bool {
        exists|j: int|
            0 <= j < self.log@.len() && {
                let l = #[trigger] self.log@[j];
                &&& l.timeline == MAIN_TIMELINE
                &&& l.tx > bound
                &&& d == (DatomView {
                    e: l.e as int,
                    a: l.a as int,
                    v: l.v@,
                    tx: l.tx as int,
                    added: Some(l.added),
                })
            }
    }

    /// The sequence of main-timeline transactions with id strictly greater
    /// than `tx`, in ascending transaction order, each canonically ordered.
    /// Each transaction includes its `[... :db/txInstant ...]` datom: every
    /// group is a non-empty, internally sorted run of one transaction's
    /// datoms, the groups' transactions strictly ascend, every datom comes
    /// from the main-timeline log after `tx`, and every such log datom
    /// appears in some group.
    #[verifier::loop_isolation(false)]
    pub fn transactions_after(&self, tx: crate::types::Entid) -> (r: Transactions)
        requires
            self.wf(),
        ensures
            forall|g: int|
                0 <= g < r.0@.len() ==> (#[trigger] r.0@[g]).datoms@.len() > 0 && sorted_by(
                    dviews(r.0@[g].datoms@),
                    |x: DatomView, y: DatomView| datom_le(x, y),
                ),
            forall|g: int, i: int|
                0 <= g < r.0@.len() && 0 <= i < r.0@[g].datoms@.len() ==> self.spec_tx_datom(
                    tx,
                    (#[trigger] r.0@[g].datoms@[i])@,
                ) && r.0@[g].datoms@[i]@.tx == r.0@[g].datoms@[0]@.tx,
            forall|g1: int, g2: int|
                0 <= g1 < g2 < r.0@.len() ==> (#[trigger] r.0@[g1]).datoms@[0]@.tx < (
                #[trigger] r.0@[g2]).datoms@[0]@.tx,
            forall|j: int|
                0 <= j < self.log@.len() && (#[trigger] self.log@[j]).timeline == MAIN_TIMELINE
                    && self.log@[j].tx > tx ==> exists|g: int, i: int|
                    0 <= g < r.0@.len() && 0 <= i < r.0@[g].datoms@.len() && (
                    #[trigger] r.0@[g].datoms@[i])@ == (DatomView {
                        e: self.log@[j].e as int,
                        a: self.log@[j].a as int,
                        v: self.log@[j].v@,
                        tx: self.log@[j].tx as int,
                        added: Some(self.log@[j].added),
                    }),
    {
        let mut groups: Vec<Datoms> = Vec::new();
        let mut current: Vec<Datom> = Vec::new();
        let mut current_tx: Option<crate::types::Entid> = None;
        let mut i: usize = 0;
        while i < self.log.len()
            invariant
                i <= self.log@.len(),
                forall|g: int|
                    0 <= g < groups@.len() ==> (#[trigger] groups@[g]).datoms@.len() > 0
                        && sorted_by(
                        dviews(groups@[g].datoms@),
                        |x: DatomView, y: DatomView| datom_le(x, y),
                    ),
                forall|g: int, p: int|
                    0 <= g < groups@.len() && 0 <= p < groups@[g].datoms@.len()
                        ==> self.spec_tx_datom(tx, (#[trigger] groups@[g].datoms@[p])@)
                        && groups@[g].datoms@[p]@.tx == groups@[g].datoms@[0]@.tx,
                forall|g1: int, g2: int|
                    0 <= g1 < g2 < groups@.len() ==> (#[trigger] groups@[g1]).datoms@[0]@.tx < (
                    #[trigger] groups@[g2]).datoms@[0]@.tx,
                forall|p: int|
                    0 <= p < current@.len() ==> self.spec_tx_datom(
                        tx,
                        (#[trigger] current@[p])@,
                    ),
                match current_tx {
                    Some(t) => {
                        &&& tx < t
                        &&& current@.len() > 0
                        &&& forall|p: int|
                            0 <= p < current@.len() ==> (#[trigger] current@[p])@.tx == t as int
                        &&& forall|g: int|
                            0 <= g < groups@.len() ==> (#[trigger] groups@[g]).datoms@[0]@.tx
                                < t as int
                        &&& exists|j: int|
                            0 <= j < i && (#[trigger] self.log@[j]).timeline == MAIN_TIMELINE
                                && self.log@[j].tx == t
                    },
                    None => current@.len() == 0 && groups@.len() == 0,
                },
                forall|j: int|
                    0 <= j < i && (#[trigger] self.log@[j]).timeline == MAIN_TIMELINE
                        && self.log@[j].tx > tx ==> {
                        let d = DatomView {
                            e: self.log@[j].e as int,
                            a: self.log@[j].a as int,
                            v: self.log@[j].v@,
                            tx: self.log@[j].tx as int,
                            added: Some(self.log@[j].added),
                        };
                        (exists|g: int, p: int|
                            0 <= g < groups@.len() && 0 <= p < groups@[g].datoms@.len() && (
                            #[trigger] groups@[g].datoms@[p])@ == d) || dviews(current@).contains(
                            d,
                        )
                    },
            decreases self.log@.len() - i,
        {
            let d = &self.log[i];
            if d.timeline == MAIN_TIMELINE && d.tx > tx {
                let flush = match current_tx {
                    Some(t) => t != d.tx,
                    None => false,
                };
                if flush {
                    let mut done: Vec<Datom> = Vec::new();
                    core::mem::swap(&mut done, &mut current);
                    let ghost done_views = dviews(done@);
                    let g = Datoms::new(done);
                    proof {
                        broadcast use vstd::seq_lib::group_to_multiset_ensures;

                        lemma_multiset_same_contains(dviews(g.datoms@), done_views);
                        assert forall|p: int| 0 <= p < g.datoms@.len() implies self.spec_tx_datom(
                            tx,
                            (#[trigger] g.datoms@[p])@,
                        ) && g.datoms@[p]@.tx == current_tx->0 as int by {
                            assert(dviews(g.datoms@)[p] == g.datoms@[p]@);
                            assert(dviews(g.datoms@).contains(g.datoms@[p]@));
                            assert(done_views.contains(g.datoms@[p]@));
                            let q = choose|q: int|
                                0 <= q < done_views.len() && done_views[q] == g.datoms@[p]@;
                        }
                        assert(dviews(g.datoms@).to_multiset() == done_views.to_multiset());
                        assert(dviews(g.datoms@).to_multiset().len()
                            == done_views.to_multiset().len());
                        assert(dviews(g.datoms@).len() == done_views.len());
                        assert(g.datoms@.len() > 0);
                        // Every datom of the flushed run is in the new group.
                        assert forall|d: DatomView| done_views.contains(d) implies exists|p: int|
                            0 <= p < g.datoms@.len() && (#[trigger] g.datoms@[p])@ == d by {
                            assert(dviews(g.datoms@).contains(d));
                            let p = choose|p: int|
                                0 <= p < dviews(g.datoms@).len() && dviews(g.datoms@)[p] == d;
                            assert(g.datoms@[p]@ == d);
                        }
                    }
                    let ghost pre = groups@;
                    groups.push(g);
                    proof {
                        assert(groups@ == pre.push(g));
                        assert forall|j: int|
                            0 <= j < i && (#[trigger] self.log@[j]).timeline == MAIN_TIMELINE
                                && self.log@[j].tx > tx implies {
                            let dv = DatomView {
                                e: self.log@[j].e as int,
                                a: self.log@[j].a as int,
                                v: self.log@[j].v@,
                                tx: self.log@[j].tx as int,
                                added: Some(self.log@[j].added),
                            };
                            exists|g2: int, p: int|
                                0 <= g2 < groups@.len() && 0 <= p < groups@[g2].datoms@.len() && (
                                #[trigger] groups@[g2].datoms@[p])@ == dv
                        } by {
                            let dv = DatomView {
                                e: self.log@[j].e as int,
                                a: self.log@[j].a as int,
                                v: self.log@[j].v@,
                                tx: self.log@[j].tx as int,
                                added: Some(self.log@[j].added),
                            };
                            if done_views.contains(dv) {
                                let p = choose|p: int|
                                    0 <= p < g.datoms@.len() && g.datoms@[p]@ == dv;
                                assert(groups@[pre.len() as int] == g);
                                assert(groups@[pre.len() as int].datoms@[p]@ == dv);
                            } else {
                                let (g2, p0) = choose|g2: int, p0: int|
                                    0 <= g2 < pre.len() && 0 <= p0 < pre[g2].datoms@.len() && (
                                    #[trigger] pre[g2].datoms@[p0])@ == dv;
                                assert(groups@[g2] == pre[g2]);
                                assert(groups@[g2].datoms@[p0]@ == dv);
                            }
                        }
                    }
                }
                let nd = Datom { e: d.e, a: d.a, v: d.v.clone(), tx: d.tx, added: Some(d.added) };
                proof {
                    assert(self.spec_tx_datom(tx, (DatomView {
                        e: self.log@[i as int].e as int,
                        a: self.log@[i as int].a as int,
                        v: self.log@[i as int].v@,
                        tx: self.log@[i as int].tx as int,
                        added: Some(self.log@[i as int].added),
                    })));
                    lemma_dviews_push(current@, nd);
                }
                current_tx = Some(d.tx);
                current.push(nd);
            }
            i = i + 1;
        }
        if current.len() > 0 {
            let ghost done_views = dviews(current@);
            let g = Datoms::new(current);
            proof {
                broadcast use vstd::seq_lib::group_to_multiset_ensures;

                lemma_multiset_same_contains(dviews(g.datoms@), done_views);
                assert forall|p: int| 0 <= p < g.datoms@.len() implies self.spec_tx_datom(
                    tx,
                    (#[trigger] g.datoms@[p])@,
                ) && g.datoms@[p]@.tx == current_tx->0 as int by {
                    assert(dviews(g.datoms@)[p] == g.datoms@[p]@);
                    assert(dviews(g.datoms@).contains(g.datoms@[p]@));
                    assert(done_views.contains(g.datoms@[p]@));
                    let q = choose|q: int|
                        0 <= q < done_views.len() && done_views[q] == g.datoms@[p]@;
                }
                assert(dviews(g.datoms@).to_multiset() == done_views.to_multiset());
                assert(dviews(g.datoms@).to_multiset().len() == done_views.to_multiset().len());
                assert(dviews(g.datoms@).len() == done_views.len());
                assert(g.datoms@.len() > 0);
                assert forall|d: DatomView| done_views.contains(d) implies exists|p: int|
                    0 <= p < g.datoms@.len() && (#[trigger] g.datoms@[p])@ == d by {
                    assert(dviews(g.datoms@).contains(d));
                    let p = choose|p: int|
                        0 <= p < dviews(g.datoms@).len() && dviews(g.datoms@)[p] == d;
                    assert(g.datoms@[p]@ == d);
                }
            }
            let ghost pre = groups@;
            groups.push(g);
            proof {
                assert(groups@ == pre.push(g));
                assert forall|j: int|
                    0 <= j < self.log@.len() && (#[trigger] self.log@[j]).timeline
                        == MAIN_TIMELINE && self.log@[j].tx > tx implies exists|g2: int, p: int|
                    0 <= g2 < groups@.len() && 0 <= p < groups@[g2].datoms@.len() && (
                    #[trigger] groups@[g2].datoms@[p])@ == (DatomView {
                        e: self.log@[j].e as int,
                        a: self.log@[j].a as int,
                        v: self.log@[j].v@,
                        tx: self.log@[j].tx as int,
                        added: Some(self.log@[j].added),
                    }) by {
                    let dv = DatomView {
                        e: self.log@[j].e as int,
                        a: self.log@[j].a as int,
                        v: self.log@[j].v@,
                        tx: self.log@[j].tx as int,
                        added: Some(self.log@[j].added),
                    };
                    if done_views.contains(dv) {
                        let p = choose|p: int| 0 <= p < g.datoms@.len() && g.datoms@[p]@ == dv;
                        assert(groups@[pre.len() as int] == g);
                        assert(groups@[pre.len() as int].datoms@[p]@ == dv);
                    } else {
                        let (g2, p0) = choose|g2: int, p0: int|
                            0 <= g2 < pre.len() && 0 <= p0 < pre[g2].datoms@.len() && (
                            #[trigger] pre[g2].datoms@[p0])@ == dv;
                        assert(groups@[g2] == pre[g2]);
                        assert(groups@[g2].datoms@[p0]@ == dv);
                    }
                }
            }
        }
        Transactions(groups)
    }
}

} // verus!

verus! {

/// Membership is determined by the multiset of elements.
pub proof fn lemma_multiset_same_contains<A>(s1: Seq<A>, s2: Seq<A>)
    requires
        s1.to_multiset() == s2.to_multiset(),
    ensures
        forall|x: A| #[trigger] s1.contains(x) == s2.contains(x),
{
    broadcast use vstd::seq_lib::group_to_multiset_ensures;

    assert forall|x: A| #[trigger] s1.contains(x) == s2.contains(x) by {
        assert(s1.contains(x) <==> s1.to_multiset().count(x) > 0);
        assert(s2.contains(x) <==> s2.to_multiset().count(x) > 0);
    }
}

/// The views of a sequence of datoms.
pub open spec fn dviews(s: Seq<Datom>) -> Seq<DatomView> {
    s.map_values(|q: Datom| q@)
}

/// Pushing a datom extends exactly the views the sequence holds.
pub proof fn lemma_dviews_push(s: Seq<Datom>, x: Datom)
    ensures
        forall|d: DatomView|
            #[trigger] dviews(s.push(x)).contains(d) == (dviews(s).contains(d) || x@ == d),
{
    assert(dviews(s.push(x)) =~= dviews(s).push(x@));
    assert forall|d: DatomView| #[trigger] dviews(s.push(x)).contains(d) == (dviews(s).contains(d)
        || x@ == d) by {
        if dviews(s).contains(d) {
            let i = choose|i: int| 0 <= i < s.len() && dviews(s)[i] == d;
            assert(dviews(s.push(x))[i] == d);
        }
        if x@ == d {
            assert(dviews(s.push(x))[s.len() as int] == d);
        }
        if dviews(s.push(x)).contains(d) {
            let i = choose|i: int| 0 <= i < s.push(x).len() && dviews(s.push(x))[i] == d;
            if i < s.len() {
                assert(dviews(s)[i] == d);
            }
        }
    }
}

} // verus!

verus! {

use crate::keyed::{keyed_get, keyed_has};
use crate::schema::Schema;

/// Convert a numeric entid to its ident when it has one, otherwise keep it
/// numeric.
pub fn to_entid_or_ident(schema: &Schema, entid: crate::types::Entid) -> (r:
    crate::entities::EntidOrIdent)
    requires
        schema.wf(),
    ensures
        match r {
            crate::entities::EntidOrIdent::Ident(s) => keyed_has(schema.entid_map@, entid) && s@
                == keyed_get(schema.entid_map@, entid)@,
            crate::entities::EntidOrIdent::Entid(e) => e == entid && !keyed_has(
                schema.entid_map@,
                entid,
            ),
        },
{
    match schema.get_ident(entid) {
        Some(s) => crate::entities::EntidOrIdent::Ident(s.clone()),
        None => crate::entities::EntidOrIdent::Entid(entid),
    }
}

impl TypedValue {
    /// Turn a `Ref` into a `Keyword` when the referenced entity carries an
    /// ident; every other value is kept as it is.
    pub fn map_ident(self, schema: &Schema) -> (r: TypedValue)
        requires
            schema.wf(),
        ensures
            match self {
                TypedValue::Ref(e) => {
                    if keyed_has(schema.entid_map@, e) {
                        r@ == Val::Keyword(keyed_get(schema.entid_map@, e)@)
                    } else {
                        r@ == self@
                    }
                },
                _ => r@ == self@,
            },
    {
        match self {
            TypedValue::Ref(e) => {
                match schema.get_ident(e) {
                    Some(s) => TypedValue::Keyword(s.clone()),
                    None => TypedValue::Ref(e),
                }
            },
            other => other,
        }
    }
}

} // verus!
