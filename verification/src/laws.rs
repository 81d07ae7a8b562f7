//! The store's general laws, proved once over the specification functions
//! that the operations' contracts speak in.

use vstd::prelude::*;
use crate::model::{AppDataV, RecordV, ProfileV, GoalV};
use crate::store::{
    upsert_spec, delete_spec, sort_desc, sorted_desc, find_date_idx, filt_date, remove_id,
    lemma_find_date_props, lemma_find_date_at, lemma_filt_first, lemma_filt_none, lemma_filt_push,
    lemma_sort_desc_filt, lemma_sort_desc_sorted, lemma_sort_desc_id, lemma_remove_id_sorted,
};

verus! {

/// Saving the identical record twice leaves the same store as saving it
/// once: the second save replaces the first copy with itself.
pub proof fn lemma_upsert_idempotent(doc: AppDataV, r: RecordV)
    ensures
        upsert_spec(upsert_spec(doc, r), r) == upsert_spec(doc, r),
{
    let d = r.date;
    let s = doc.records;
    let i = find_date_idx(s, d);
    lemma_find_date_props(s, d);
    let l1: Seq<RecordV> = if i >= 0 {
        s.update(i, r)
    } else {
        s.push(r)
    };
    let d1 = upsert_spec(doc, r);
    assert(d1.records == sort_desc(l1));
    // the first record dated d in l1 is r itself
    if i >= 0 {
        assert(forall|k: int| 0 <= k < i ==> l1[k] == s[k]);
        lemma_filt_first(l1, d, i);
    } else {
        lemma_filt_none(s, d);
        lemma_filt_push(s, r, d);
        assert(filt_date(l1, d) == filt_date(s, d) + seq![r]);
        assert((filt_date(s, d) + seq![r])[0] == r);
    }
    assert(filt_date(l1, d).len() >= 1 && filt_date(l1, d)[0] == r);
    // sorting keeps that: the first record dated d after the sort is still r
    lemma_sort_desc_filt(l1, d);
    lemma_sort_desc_sorted(l1);
    let s1 = d1.records;
    let i2 = find_date_idx(s1, d);
    lemma_find_date_props(s1, d);
    lemma_filt_none(s1, d);
    assert(i2 >= 0);
    lemma_filt_first(s1, d, i2);
    assert(s1[i2] == r);
    // replacing r by itself and re-sorting the sorted list changes nothing
    assert(s1.update(i2, r) =~= s1);
    lemma_sort_desc_id(s1);
    assert(upsert_spec(d1, r) =~= d1);
}

/// After a save, the records stand in non-increasing date order.
pub proof fn lemma_upsert_sorted(doc: AppDataV, r: RecordV)
    ensures
        sorted_desc(upsert_spec(doc, r).records),
{
    let i = find_date_idx(doc.records, r.date);
    let rs: Seq<RecordV> = if i >= 0 {
        doc.records.update(i, r)
    } else {
        doc.records.push(r)
    };
    lemma_sort_desc_sorted(rs);
}

/// A delete keeps the non-increasing date order it finds.
pub proof fn lemma_delete_sorted(doc: AppDataV, id: Seq<u8>)
    requires
        sorted_desc(doc.records),
    ensures
        sorted_desc(delete_spec(doc, id).records),
{
    lemma_remove_id_sorted(doc.records, id);
}

/// Singleton updates do not touch the records, so they keep their order.
pub proof fn lemma_singleton_updates_sorted(doc: AppDataV, p: ProfileV, g: GoalV)
    requires
        sorted_desc(doc.records),
    ensures
        sorted_desc((AppDataV { profile: Some(p), ..doc }).records),
        sorted_desc((AppDataV { goal: Some(g), ..doc }).records),
{
}

} // verus!

verus! {

/// Saving a document and loading it back yields the document unchanged.
pub proof fn lemma_save_load_round_trip(d: AppDataV)
    ensures
        crate::json::parse_doc_spec(crate::json::ser_doc(d)) == Some(d),
{
    crate::json::lemma_parse_doc_round_trip(d);
}

/// Restoring a backup reproduces the document it was taken from, whatever
/// the store held in the meantime: the restored state depends on the backup
/// bytes alone.
pub proof fn lemma_backup_restore(d: AppDataV, meanwhile: AppDataV)
    ensures
        crate::json::parse_doc_spec(crate::json::ser_doc(d)) == Some(d),
        crate::json::parse_doc_spec(crate::json::ser_doc(d)) != Some(meanwhile) || d == meanwhile,
{
    crate::json::lemma_parse_doc_round_trip(d);
}

/// An exported record array reads back as the same records.
pub proof fn lemma_export_import_round_trip(rs: Seq<RecordV>)
    ensures
        crate::json::parse_records_spec(crate::json::ser_records(rs)) == Some(rs),
{
    crate::json::lemma_parse_records_round_trip(rs);
}

} // verus!
