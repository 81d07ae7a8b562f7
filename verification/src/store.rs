//! The record store: upsert, delete, singleton updates, and the
//! date-descending order that every mutating operation restores.

use vstd::prelude::*;
use crate::bytes::{lex_leq, lex_leq_total, lex_leq_trans, bytes_eq, bytes_leq};
use crate::model::{AppData, AppDataV, RecordV, WeightRecord, UserProfile, Goal, ProfileV, GoalV};

verus! {

/// Records in non-increasing date order, newest first.
pub open spec fn sorted_desc(rs: Seq<RecordV>) -> bool {
    forall|i: int, j: int| 0 <= i < j < rs.len() ==> lex_leq(#[trigger] rs[j].date, #[trigger] rs[i].date)
}

/// Stable insertion into a date-descending sequence: the new record goes
/// after every record whose date is not below its own.
pub open spec fn insert_desc(rs: Seq<RecordV>, r: RecordV) -> Seq<RecordV>
    decreases rs.len(),
{
    if rs.len() == 0 {
        seq![r]
    } else if lex_leq(r.date, rs[0].date) {
        seq![rs[0]] + insert_desc(rs.drop_first(), r)
    } else {
        seq![r] + rs
    }
}

/// Stable insertion sort by date, descending.
pub open spec fn sort_desc(rs: Seq<RecordV>) -> Seq<RecordV>
    decreases rs.len(),
{
    if rs.len() == 0 {
        Seq::empty()
    } else {
        insert_desc(sort_desc(rs.drop_last()), rs.last())
    }
}

/// The records of `rs` dated `d`, in order.
pub open spec fn filt_date(rs: Seq<RecordV>, d: Seq<u8>) -> Seq<RecordV>
    decreases rs.len(),
{
    if rs.len() == 0 {
        Seq::empty()
    } else {
        (if rs[0].date == d {
            seq![rs[0]]
        } else {
            Seq::empty()
        }) + filt_date(rs.drop_first(), d)
    }
}

/// Index of the first record dated `d`, or -1.
pub open spec fn find_date_idx(rs: Seq<RecordV>, d: Seq<u8>) -> int
    decreases rs.len(),
{
    if rs.len() == 0 {
        -1
    } else if rs[0].date == d {
        0
    } else {
        let t = find_date_idx(rs.drop_first(), d);
        if t == -1 {
            -1
        } else {
            t + 1
        }
    }
}

/// What saving one record does: replace the first record on the same date,
/// or append, then re-sort by date descending.
pub open spec fn upsert_spec(doc: AppDataV, r: RecordV) -> AppDataV {
    let i = find_date_idx(doc.records, r.date);
    let rs = if i >= 0 {
        doc.records.update(i, r)
    } else {
        doc.records.push(r)
    };
    AppDataV { records: sort_desc(rs), ..doc }
}

/// What deleting by id does: drop every record whose id matches, keeping
/// the order of the rest.
pub open spec fn remove_id(rs: Seq<RecordV>, id: Seq<u8>) -> Seq<RecordV>
    decreases rs.len(),
{
    if rs.len() == 0 {
        Seq::empty()
    } else {
        remove_id(rs.drop_last(), id) + (if rs.last().id == id {
            Seq::empty()
        } else {
            seq![rs.last()]
        })
    }
}

pub open spec fn delete_spec(doc: AppDataV, id: Seq<u8>) -> AppDataV {
    AppDataV { records: remove_id(doc.records, id), ..doc }
}

// ---------------------------------------------------------------------------
// Order lemmas
// ---------------------------------------------------------------------------

pub proof fn lemma_insert_desc_sorted(rs: Seq<RecordV>, r: RecordV)
    requires
        sorted_desc(rs),
    ensures
        sorted_desc(insert_desc(rs, r)),
        insert_desc(rs, r).len() == rs.len() + 1,
        forall|k: int| 0 <= k < insert_desc(rs, r).len() ==> #[trigger] rs.contains(
            insert_desc(rs, r)[k],
        ) || insert_desc(rs, r)[k] == r,
    decreases rs.len(),
{
    let out = insert_desc(rs, r);
    if rs.len() == 0 {
    } else if lex_leq(r.date, rs[0].date) {
        assert(sorted_desc(rs.drop_first())) by {
            assert(forall|i: int, j: int| 0 <= i < j < rs.drop_first().len() ==> lex_leq(
                #[trigger] rs.drop_first()[j].date,
                #[trigger] rs.drop_first()[i].date,
            )) by {
                assert(forall|i: int| 0 <= i < rs.drop_first().len() ==> rs.drop_first()[i]
                    == rs[i + 1]);
            }
        }
        lemma_insert_desc_sorted(rs.drop_first(), r);
        let tail = insert_desc(rs.drop_first(), r);
        assert(out == seq![rs[0]] + tail);
        assert(forall|k: int| 0 <= k < tail.len() ==> out[k + 1] == tail[k]);
        // every tail element is either r or from rs.drop_first(): date below rs[0]
        assert forall|k: int| 0 <= k < tail.len() implies lex_leq(tail[k].date, rs[0].date) by {
            if tail[k] == r {
            } else {
                assert(rs.drop_first().contains(tail[k]));
                let w = choose|w: int| 0 <= w < rs.drop_first().len() && rs.drop_first()[w]
                    == tail[k];
                assert(rs[w + 1] == tail[k]);
                assert(lex_leq(rs[w + 1].date, rs[0].date));
            }
        }
        assert(sorted_desc(out)) by {
            assert(forall|i: int, j: int| 0 < i < j < out.len() ==> lex_leq(
                #[trigger] out[j].date,
                #[trigger] out[i].date,
            )) by {
                assert(forall|i: int| 0 < i < out.len() ==> out[i] == tail[i - 1]);
            }
            assert(forall|j: int| 0 < j < out.len() ==> lex_leq(out[j].date, out[0].date));
        }
        assert forall|k: int| 0 <= k < out.len() implies rs.contains(out[k]) || out[k] == r by {
            if k == 0 {
                assert(rs[0] == out[0]);
            } else {
                if tail[k - 1] == r {
                } else {
                    assert(rs.drop_first().contains(tail[k - 1]));
                    let w = choose|w: int| 0 <= w < rs.drop_first().len() && rs.drop_first()[w]
                        == tail[k - 1];
                    assert(rs[w + 1] == out[k]);
                }
            }
        }
    } else {
        lex_leq_total(r.date, rs[0].date);
        assert(lex_leq(rs[0].date, r.date));
        assert(out == seq![r] + rs);
        assert forall|j: int| 0 < j < out.len() implies lex_leq(out[j].date, out[0].date) by {
            if j > 1 {
                assert(lex_leq(rs[j - 1].date, rs[0].date));
            } else {
                crate::bytes::lex_leq_refl(rs[0].date);
            }
            lex_leq_trans(rs[j - 1].date, rs[0].date, r.date);
        }
        assert(forall|i: int, j: int| 0 < i < j < out.len() ==> lex_leq(
            #[trigger] out[j].date,
            #[trigger] out[i].date,
        )) by {
            assert(forall|i: int| 0 < i < out.len() ==> out[i] == rs[i - 1]);
        }
        assert(forall|k: int| 0 < k < out.len() ==> rs.contains(out[k])) by {
            assert(forall|k: int| 0 < k < out.len() ==> rs[k - 1] == out[k]);
        }
    }
}

pub proof fn lemma_sort_desc_sorted(rs: Seq<RecordV>)
    ensures
        sorted_desc(sort_desc(rs)),
        sort_desc(rs).len() == rs.len(),
        forall|k: int| 0 <= k < sort_desc(rs).len() ==> rs.contains(#[trigger] sort_desc(rs)[k]),
    decreases rs.len(),
{
    if rs.len() > 0 {
        let head = rs.drop_last();
        lemma_sort_desc_sorted(head);
        lemma_insert_desc_sorted(sort_desc(head), rs.last());
        assert forall|k: int| 0 <= k < sort_desc(rs).len() implies rs.contains(
            #[trigger] sort_desc(rs)[k],
        ) by {
            let x = sort_desc(rs)[k];
            if x == rs.last() {
                assert(rs[rs.len() - 1] == x);
            } else {
                assert(sort_desc(head).contains(x) || x == rs.last());
                let w = choose|w: int| 0 <= w < sort_desc(head).len() && sort_desc(head)[w] == x;
                assert(head.contains(sort_desc(head)[w]));
                let u = choose|u: int| 0 <= u < head.len() && head[u] == x;
                assert(rs[u] == x);
            }
        }
    }
}

/// Inserting a record whose date lies at or below every date present
/// appends it.
proof fn lemma_insert_desc_append(rs: Seq<RecordV>, r: RecordV)
    requires
        forall|k: int| 0 <= k < rs.len() ==> lex_leq(r.date, #[trigger] rs[k].date),
    ensures
        insert_desc(rs, r) == rs + seq![r],
    decreases rs.len(),
{
    if rs.len() == 0 {
        assert(insert_desc(rs, r) =~= rs + seq![r]);
    } else {
        assert(forall|k: int| 0 <= k < rs.drop_first().len() ==> rs.drop_first()[k] == rs[k + 1]);
        lemma_insert_desc_append(rs.drop_first(), r);
        assert(seq![rs[0]] + (rs.drop_first() + seq![r]) =~= rs + seq![r]);
    }
}

/// Sorting an already sorted sequence leaves it as it stands.
pub proof fn lemma_sort_desc_id(rs: Seq<RecordV>)
    requires
        sorted_desc(rs),
    ensures
        sort_desc(rs) == rs,
    decreases rs.len(),
{
    if rs.len() > 0 {
        let head = rs.drop_last();
        assert(forall|i: int| 0 <= i < head.len() ==> head[i] == rs[i]);
        assert(sorted_desc(head));
        lemma_sort_desc_id(head);
        assert(forall|k: int| 0 <= k < head.len() ==> lex_leq(rs.last().date, head[k].date)) by {
            assert(forall|k: int| 0 <= k < head.len() ==> lex_leq(
                rs[rs.len() - 1].date,
                #[trigger] rs[k].date,
            ));
        }
        lemma_insert_desc_append(head, rs.last());
        assert(head + seq![rs.last()] =~= rs);
    }
}

// ---------------------------------------------------------------------------
// Date-filter lemmas (stability of the sort on equal dates)
// ---------------------------------------------------------------------------

pub proof fn lemma_filt_push(rs: Seq<RecordV>, x: RecordV, d: Seq<u8>)
    ensures
        filt_date(rs.push(x), d) == filt_date(rs, d) + (if x.date == d {
            seq![x]
        } else {
            Seq::<RecordV>::empty()
        }),
    decreases rs.len(),
{
    let tail: Seq<RecordV> = if x.date == d {
        seq![x]
    } else {
        Seq::empty()
    };
    if rs.len() == 0 {
        assert(rs.push(x)[0] == x);
        assert(rs.push(x).drop_first() =~= Seq::<RecordV>::empty());
        assert(filt_date(Seq::<RecordV>::empty(), d) == Seq::<RecordV>::empty());
        assert(filt_date(rs.push(x), d) =~= filt_date(rs, d) + tail);
    } else {
        assert(rs.push(x).drop_first() =~= rs.drop_first().push(x));
        lemma_filt_push(rs.drop_first(), x, d);
        assert(rs.push(x)[0] == rs[0]);
        let hd: Seq<RecordV> = if rs[0].date == d {
            seq![rs[0]]
        } else {
            Seq::empty()
        };
        assert(filt_date(rs.push(x), d) == hd + (filt_date(rs.drop_first(), d) + tail));
        assert(filt_date(rs, d) == hd + filt_date(rs.drop_first(), d));
        assert(hd + (filt_date(rs.drop_first(), d) + tail) =~= (hd + filt_date(
            rs.drop_first(),
            d,
        )) + tail);
    }
}

/// No record dated `d` means an empty filter, and the other way round.
pub proof fn lemma_filt_none(rs: Seq<RecordV>, d: Seq<u8>)
    ensures
        (filt_date(rs, d).len() == 0) == (forall|k: int|
            0 <= k < rs.len() ==> (#[trigger] rs[k].date) != d),
    decreases rs.len(),
{
    if rs.len() > 0 {
        lemma_filt_none(rs.drop_first(), d);
        assert(forall|k: int| 0 <= k < rs.drop_first().len() ==> rs.drop_first()[k] == rs[k + 1]);
        if rs[0].date == d {
        } else {
            if filt_date(rs, d).len() == 0 {
                assert(forall|k: int| 0 < k < rs.len() ==> rs[k] == rs.drop_first()[k - 1]);
            }
        }
    }
}

/// The first record dated `d` heads the filter.
pub proof fn lemma_filt_first(rs: Seq<RecordV>, d: Seq<u8>, i: int)
    requires
        0 <= i < rs.len(),
        rs[i].date == d,
        forall|k: int| 0 <= k < i ==> (#[trigger] rs[k].date) != d,
    ensures
        filt_date(rs, d).len() >= 1,
        filt_date(rs, d)[0] == rs[i],
    decreases rs.len(),
{
    if i == 0 {
    } else {
        assert(forall|k: int| 0 <= k < rs.drop_first().len() ==> rs.drop_first()[k] == rs[k + 1]);
        lemma_filt_first(rs.drop_first(), d, i - 1);
    }
}

/// Inserting a record on its own date appends it to that date's filter;
/// every other date's filter stands unchanged.
pub proof fn lemma_insert_desc_filt(rs: Seq<RecordV>, r: RecordV, d: Seq<u8>)
    requires
        sorted_desc(rs),
    ensures
        filt_date(insert_desc(rs, r), d) == filt_date(rs, d) + (if r.date == d {
            seq![r]
        } else {
            Seq::<RecordV>::empty()
        }),
    decreases rs.len(),
{
    let tail: Seq<RecordV> = if r.date == d {
        seq![r]
    } else {
        Seq::empty()
    };
    if rs.len() == 0 {
        assert(insert_desc(rs, r) == seq![r]);
        assert(seq![r].drop_first() =~= Seq::<RecordV>::empty());
        assert(filt_date(Seq::<RecordV>::empty(), d) == Seq::<RecordV>::empty());
        assert(filt_date(seq![r], d) =~= filt_date(rs, d) + tail);
    } else if lex_leq(r.date, rs[0].date) {
        assert(forall|i: int| 0 <= i < rs.drop_first().len() ==> rs.drop_first()[i] == rs[i + 1]);
        assert(sorted_desc(rs.drop_first()));
        lemma_insert_desc_filt(rs.drop_first(), r, d);
        let out = insert_desc(rs, r);
        assert(out == seq![rs[0]] + insert_desc(rs.drop_first(), r));
        assert(out[0] == rs[0]);
        assert(out.drop_first() =~= insert_desc(rs.drop_first(), r));
        assert(filt_date(out, d) =~= filt_date(rs, d) + tail);
    } else {
        lex_leq_total(r.date, rs[0].date);
        let out = insert_desc(rs, r);
        assert(out == seq![r] + rs);
        assert(out[0] == r);
        assert(out.drop_first() =~= rs);
        if r.date == d {
            // every record of rs sits strictly below r's date, so none is dated d
            assert forall|k: int| 0 <= k < rs.len() implies (#[trigger] rs[k].date) != d by {
                if rs[k].date == d {
                    if k == 0 {
                        crate::bytes::lex_leq_refl(r.date);
                    } else {
                        assert(lex_leq(rs[k].date, rs[0].date));
                        lex_leq_trans(r.date, rs[k].date, rs[0].date);
                    }
                }
            }
            lemma_filt_none(rs, d);
            assert(filt_date(out, d) =~= filt_date(rs, d) + tail);
        } else {
            assert(filt_date(out, d) =~= filt_date(rs, d) + tail);
        }
    }
}

/// Sorting keeps each date's records in their order of appearance.
pub proof fn lemma_sort_desc_filt(rs: Seq<RecordV>, d: Seq<u8>)
    ensures
        filt_date(sort_desc(rs), d) == filt_date(rs, d),
    decreases rs.len(),
{
    if rs.len() > 0 {
        let head = rs.drop_last();
        lemma_sort_desc_filt(head, d);
        lemma_sort_desc_sorted(head);
        lemma_insert_desc_filt(sort_desc(head), rs.last(), d);
        lemma_filt_push(head, rs.last(), d);
        assert(head.push(rs.last()) =~= rs);
    }
}

// ---------------------------------------------------------------------------
// Lookup lemmas
// ---------------------------------------------------------------------------

pub proof fn lemma_find_date_props(rs: Seq<RecordV>, d: Seq<u8>)
    ensures
        find_date_idx(rs, d) == -1 ==> forall|k: int|
            0 <= k < rs.len() ==> (#[trigger] rs[k].date) != d,
        find_date_idx(rs, d) != -1 ==> 0 <= find_date_idx(rs, d) < rs.len() && rs[find_date_idx(
            rs,
            d,
        )].date == d && forall|k: int| 0 <= k < find_date_idx(rs, d) ==> (#[trigger] rs[k].date)
            != d,
    decreases rs.len(),
{
    if rs.len() > 0 && rs[0].date != d {
        lemma_find_date_props(rs.drop_first(), d);
        assert(forall|k: int| 0 <= k < rs.drop_first().len() ==> rs.drop_first()[k] == rs[k + 1]);
        assert(forall|k: int| 0 < k < rs.len() ==> rs[k] == rs.drop_first()[k - 1]);
    }
}

/// The first index that holds date `d` is what the lookup returns.
pub proof fn lemma_find_date_at(rs: Seq<RecordV>, d: Seq<u8>, i: int)
    requires
        0 <= i < rs.len(),
        rs[i].date == d,
        forall|k: int| 0 <= k < i ==> (#[trigger] rs[k].date) != d,
    ensures
        find_date_idx(rs, d) == i,
    decreases rs.len(),
{
    if i > 0 {
        assert(forall|k: int| 0 <= k < rs.drop_first().len() ==> rs.drop_first()[k] == rs[k + 1]);
        lemma_find_date_at(rs.drop_first(), d, i - 1);
    }
}

} // verus!

verus! {

/// The views of a sequence of records.
pub open spec fn views_of(v: Seq<WeightRecord>) -> Seq<RecordV> {
    v.map_values(|r: WeightRecord| r@)
}

/// Inserting at the boundary between the dates not below `r.date` and the
/// rest splices `r` in at that index.
proof fn lemma_insert_desc_at(s: Seq<RecordV>, r: RecordV, p: int)
    requires
        0 <= p <= s.len(),
        forall|k: int| 0 <= k < p ==> lex_leq(r.date, (#[trigger] s[k]).date),
        p == s.len() || !lex_leq(r.date, s[p].date),
    ensures
        insert_desc(s, r) == s.take(p) + seq![r] + s.skip(p),
    decreases s.len(),
{
    if p == 0 {
        if s.len() == 0 {
            assert(insert_desc(s, r) =~= s.take(0) + seq![r] + s.skip(0));
        } else {
            assert(insert_desc(s, r) == seq![r] + s);
            assert(seq![r] + s =~= s.take(0) + seq![r] + s.skip(0));
        }
    } else {
        assert(lex_leq(r.date, s[0].date));
        let t = s.drop_first();
        assert(forall|k: int| 0 <= k < t.len() ==> t[k] == s[k + 1]);
        lemma_insert_desc_at(t, r, p - 1);
        assert(insert_desc(s, r) == seq![s[0]] + (t.take(p - 1) + seq![r] + t.skip(p - 1)));
        assert(seq![s[0]] + (t.take(p - 1) + seq![r] + t.skip(p - 1)) =~= s.take(p) + seq![r]
            + s.skip(p));
    }
}

/// Sorts the records by date, newest first, keeping equal dates in their
/// order of appearance.
pub fn sort_records(v: &mut Vec<WeightRecord>)
    ensures
        views_of(final(v)@) == sort_desc(views_of(old(v)@)),
        sorted_desc(views_of(final(v)@)),
{
    let ghost orig = v@;
    let ghost vs = views_of(orig);
    let mut out: Vec<WeightRecord> = Vec::new();
    proof {
        assert(views_of(out@) =~= sort_desc(vs.take(0)));
    }
    while v.len() > 0
        invariant
            v@.len() <= orig.len(),
            v@ == orig.skip(orig.len() - v@.len()),
            vs == views_of(orig),
            views_of(out@) == sort_desc(vs.take(orig.len() - v@.len())),
            sorted_desc(views_of(out@)),
        decreases v@.len(),
    {
        let ghost k = orig.len() - v@.len();
        let r = v.remove(0);
        proof {
            assert(orig.skip(k).remove(0) =~= orig.skip(k + 1));
            assert(r == orig.skip(k)[0]);
            assert(r@ == vs[k]);
        }
        let mut p: usize = 0;
        while p < out.len() && bytes_leq(&r.date, &out[p].date)
            invariant
                p <= out@.len(),
                forall|t: int| 0 <= t < p ==> lex_leq(r@.date, (#[trigger] views_of(out@)[t]).date),
            decreases out@.len() - p,
        {
            proof {
                assert(views_of(out@)[p as int] == out@[p as int]@);
            }
            p = p + 1;
        }
        let ghost before = views_of(out@);
        proof {
            if p < out.len() {
                assert(views_of(out@)[p as int] == out@[p as int]@);
            }
            lemma_insert_desc_at(before, r@, p as int);
        }
        out.insert(p, r);
        proof {
            assert(views_of(out@) =~= before.take(p as int) + seq![r@] + before.skip(p as int));
            assert(views_of(out@) == insert_desc(before, r@));
            lemma_insert_desc_sorted(before, r@);
            assert(vs.take(k + 1).drop_last() =~= vs.take(k));
            assert(vs.take(k + 1).last() == vs[k]);
            assert(views_of(out@) == sort_desc(vs.take(k + 1)));
        }
    }
    proof {
        assert(vs.take(orig.len() as int) =~= vs);
    }
    *v = out;
}

/// Index of the first record on the given date, if any.
pub(crate) fn find_by_date(records: &Vec<WeightRecord>, d: &Vec<u8>) -> (r: Option<usize>)
    ensures
        match r {
            Some(i) => i < records@.len() && find_date_idx(views_of(records@), d@) == i,
            None => find_date_idx(views_of(records@), d@) == -1,
        },
{
    let ghost vs = views_of(records@);
    let n = records.len();
    let mut i: usize = 0;
    while i < n
        invariant
            i <= n == records@.len(),
            vs == views_of(records@),
            forall|k: int| 0 <= k < i ==> (#[trigger] vs[k]).date != d@,
        decreases n - i,
    {
        proof {
            assert(vs[i as int] == records@[i as int]@);
        }
        if bytes_eq(&records[i].date, d) {
            proof {
                lemma_find_date_at(vs, d@, i as int);
            }
            return Some(i);
        }
        i = i + 1;
    }
    proof {
        lemma_find_date_props(vs, d@);
    }
    None
}

/// Records whose id differs survive a delete, in their stored order.
pub proof fn lemma_remove_id_sorted(rs: Seq<RecordV>, id: Seq<u8>)
    requires
        sorted_desc(rs),
    ensures
        sorted_desc(remove_id(rs, id)),
        forall|k: int| 0 <= k < remove_id(rs, id).len() ==> rs.contains(
            #[trigger] remove_id(rs, id)[k],
        ),
    decreases rs.len(),
{
    if rs.len() > 0 {
        let head = rs.drop_last();
        assert(forall|i: int| 0 <= i < head.len() ==> head[i] == rs[i]);
        assert(sorted_desc(head));
        lemma_remove_id_sorted(head, id);
        let out = remove_id(rs, id);
        let ho = remove_id(head, id);
        assert forall|k: int| 0 <= k < out.len() implies rs.contains(#[trigger] out[k]) by {
            if k < ho.len() {
                assert(out[k] == ho[k]);
                assert(head.contains(ho[k]));
                let u = choose|u: int| 0 <= u < head.len() && head[u] == ho[k];
                assert(rs[u] == out[k]);
            } else {
                assert(out[k] == rs.last());
                assert(rs[rs.len() - 1] == out[k]);
            }
        }
        assert forall|i: int, j: int| 0 <= i < j < out.len() implies lex_leq(
            #[trigger] out[j].date,
            #[trigger] out[i].date,
        ) by {
            if j < ho.len() {
                assert(out[i] == ho[i] && out[j] == ho[j]);
            } else {
                assert(out[j] == rs.last());
                assert(out[i] == ho[i]);
                assert(head.contains(ho[i]));
                let u = choose|u: int| 0 <= u < head.len() && head[u] == ho[i];
                assert(lex_leq(rs[rs.len() - 1].date, rs[u].date));
            }
        }
    }
}

impl AppData {
    /// Saves one record: replaces the record sharing its date, or appends
    /// it, then restores date-descending order. No weight validation runs
    /// here; direct saves are trusted.
    pub fn save_record(&mut self, record: WeightRecord)
        ensures
            final(self)@ == upsert_spec(old(self)@, record@),
            sorted_desc(final(self)@.records),
    {
        let ghost before = self@;
        match find_by_date(&self.records, &record.date) {
            Some(i) => {
                let ghost rv = record@;
                let _ = self.records.remove(i);
                self.records.insert(i, record);
                proof {
                    assert(views_of(self.records@) =~= before.records.update(i as int, rv));
                }
            },
            None => {
                let ghost rv = record@;
                self.records.push(record);
                proof {
                    assert(views_of(self.records@) =~= before.records.push(rv));
                }
            },
        }
        sort_records(&mut self.records);
        proof {
            lemma_sort_desc_sorted(views_of(self.records@));
            assert(self@ =~= upsert_spec(before, record@));
        }
    }

    /// Deletes every record whose id matches; no error when none does.
    pub fn delete_record(&mut self, id: &Vec<u8>)
        ensures
            final(self)@ == delete_spec(old(self)@, id@),
            sorted_desc(old(self)@.records) ==> sorted_desc(final(self)@.records),
    {
        let ghost before = self@;
        let mut kept: Vec<WeightRecord> = Vec::new();
        let n = self.records.len();
        let mut i: usize = 0;
        proof {
            assert(views_of(kept@) =~= remove_id(before.records.take(0), id@));
        }
        while i < n
            invariant
                i <= n == self.records@.len(),
                self@ == before,
                views_of(kept@) == remove_id(before.records.take(i as int), id@),
            decreases n - i,
        {
            let ghost kv = views_of(kept@);
            proof {
                assert(before.records.take(i + 1).drop_last() =~= before.records.take(i as int));
                assert(before.records.take(i + 1).last() == before.records[i as int]);
                assert(views_of(self.records@)[i as int] == self.records@[i as int]@);
            }
            if !bytes_eq(&self.records[i].id, id) {
                let r = self.records[i].duplicate();
                kept.push(r);
                proof {
                    assert(views_of(kept@) =~= kv + seq![before.records[i as int]]);
                }
            } else {
                proof {
                    assert(views_of(kept@) =~= kv + Seq::<RecordV>::empty());
                }
            }
            i = i + 1;
        }
        proof {
            assert(before.records.take(n as int) =~= before.records);
        }
        self.records = kept;
        proof {
            if sorted_desc(before.records) {
                lemma_remove_id_sorted(before.records, id@);
            }
            assert(self@ =~= delete_spec(before, id@));
        }
    }

    /// Overwrites the singleton profile.
    pub fn update_profile(&mut self, profile: UserProfile)
        ensures
            final(self)@ == (AppDataV { profile: Some(profile@), ..old(self)@ }),
            final(self)@.records == old(self)@.records,
    {
        let ghost before = self@;
        self.profile = Some(profile);
        proof {
            assert(self@ =~= (AppDataV { profile: Some(profile@), ..before }));
        }
    }

    /// Overwrites the singleton goal.
    pub fn update_goal(&mut self, goal: Goal)
        ensures
            final(self)@ == (AppDataV { goal: Some(goal@), ..old(self)@ }),
            final(self)@.records == old(self)@.records,
    {
        let ghost before = self@;
        self.goal = Some(goal);
        proof {
            assert(self@ =~= (AppDataV { goal: Some(goal@), ..before }));
        }
    }

    /// All records, in stored (date-descending) order.
    pub fn get_records(&self) -> (r: &Vec<WeightRecord>)
        ensures
            views_of(r@) == self@.records,
    {
        &self.records
    }

    /// The singleton profile, or none.
    pub fn get_profile(&self) -> (r: &Option<UserProfile>)
        ensures
            match r {
                Some(p) => self@.profile == Some(p@),
                None => self@.profile is None,
            },
    {
        &self.profile
    }

    /// The singleton goal, or none.
    pub fn get_goal(&self) -> (r: &Option<Goal>)
        ensures
            match r {
                Some(g) => self@.goal == Some(g@),
                None => self@.goal is None,
            },
    {
        &self.goal
    }
}

} // verus!
