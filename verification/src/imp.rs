//! The importer: weight validation and conflict resolution shared by the
//! JSON and CSV paths, the CSV row grammar, and the CSV export.

use vstd::prelude::*;
use crate::bytes::{
    dec_digits, ser_milli, p_number, trim, split_bytes, split_lines, lower, contains_seq,
    push_dec, push_milli, push_all, trim_bytes, split_vec, lines_vec, lower_contains, parse_number,
    bytes_eq,
};
use crate::model::{
    AppData, AppDataV, RecordV, WeightRecord, ImportResult, ImportResultV, Policy,
    ConflictResolution,
};
use crate::store::{views_of, sort_desc, sorted_desc, find_date_idx, sort_records, upsert_spec};
use crate::weight_in_bounds;
use crate::weight_valid;

verus! {

/// The importer's running state: the store's records, the additions staged
/// so far, and the counts and messages gathered so far.
#[verifier::ext_equal]
pub ghost struct ImpV {
    pub recs: Seq<RecordV>,
    pub staged: Seq<RecordV>,
    pub success: int,
    pub failed: int,
    pub skipped: int,
    pub errors: Seq<Seq<u8>>,
}

pub open spec fn init_st(recs: Seq<RecordV>) -> ImpV {
    ImpV {
        recs,
        staged: Seq::empty(),
        success: 0,
        failed: 0,
        skipped: 0,
        errors: Seq::empty(),
    }
}

/// The message recorded when a conflicting candidate is discarded, naming
/// the conflicting date.
pub open spec fn skip_msg(date: Seq<u8>) -> Seq<u8> {
    crate::lit::msg_skipped() + date
}

/// One candidate against the store: no record on its date stages it; on a
/// conflict, `overwrite` replaces in place, `keep` stages it alongside,
/// `skip` (and every unrecognized word) discards it with a message naming
/// the date.
pub open spec fn resolve_one(st: ImpV, c: RecordV, pol: Policy) -> ImpV {
    let i = find_date_idx(st.recs, c.date);
    if i == -1 {
        ImpV { staged: st.staged.push(c), success: st.success + 1, ..st }
    } else {
        match pol {
            Policy::Overwrite => ImpV {
                recs: st.recs.update(i, c),
                success: st.success + 1,
                ..st
            },
            Policy::Keep => ImpV { staged: st.staged.push(c), success: st.success + 1, ..st },
            Policy::Skip => ImpV {
                skipped: st.skipped + 1,
                errors: st.errors.push(skip_msg(c.date)),
                ..st
            },
        }
    }
}

fn skip_msg_vec(date: &Vec<u8>) -> (r: Vec<u8>)
    ensures
        r@ == skip_msg(date@),
{
    let mut out = crate::lit::msg_skipped_vec();
    push_all(&mut out, date);
    out
}

/// A weight as its error messages write it: the fraction only when one is
/// there.
pub open spec fn weight_text(w: u64) -> Seq<u8> {
    if w % 1000 == 0 {
        dec_digits((w / 1000) as nat)
    } else {
        ser_milli(w)
    }
}

/// The message recorded when a candidate's weight lies outside bounds.
pub open spec fn json_invalid_msg(c: RecordV) -> Seq<u8> {
    crate::lit::msg_invalid_weight() + weight_text(c.weight_milli) + crate::lit::msg_on() + c.date
}

/// Candidates applied in order: out-of-range weights fail with a message,
/// the rest run through conflict resolution.
pub open spec fn apply_fold(st: ImpV, cands: Seq<RecordV>, pol: Policy) -> ImpV
    decreases cands.len(),
{
    if cands.len() == 0 {
        st
    } else {
        let c = cands[0];
        let st2 = if !weight_in_bounds(c.weight_milli) {
            ImpV { failed: st.failed + 1, errors: st.errors.push(json_invalid_msg(c)), ..st }
        } else {
            resolve_one(st, c, pol)
        };
        apply_fold(st2, cands.drop_first(), pol)
    }
}

fn push_weight_text(out: &mut Vec<u8>, w: u64)
    ensures
        final(out)@ == old(out)@ + weight_text(w),
{
    if w % 1000 == 0 {
        push_dec(out, w / 1000);
    } else {
        push_milli(out, w);
    }
}

fn json_invalid_msg_vec(c: &WeightRecord) -> (r: Vec<u8>)
    ensures
        r@ == json_invalid_msg(c@),
{
    let mut out = crate::lit::msg_invalid_weight_vec();
    push_weight_text(&mut out, c.weight_milli);
    push_all(&mut out, &crate::lit::msg_on_vec());
    push_all(&mut out, &c.date);
    out
}

/// Runs validation and conflict resolution over the candidates, appends
/// what was staged, re-sorts, and reports the counts — the shared core of
/// both import paths.
pub fn apply_candidates(data: &mut AppData, cands: Vec<WeightRecord>, pol: Policy) -> (r:
    ImportResult)
    ensures
        ({
            let st = apply_fold(init_st(old(data)@.records), views_of(cands@), pol);
            final(data)@ == (AppDataV { records: sort_desc(st.recs + st.staged), ..old(data)@ })
                && r@.success == st.success && r@.failed == st.failed && r@.skipped == st.skipped
                && r@.errors == st.errors
        }),
        sorted_desc(final(data)@.records),
{
    let ghost st0 = init_st(old(data)@.records);
    let ghost all = views_of(cands@);
    let total_in = cands.len();
    let ghost total: int = total_in as int;
    let mut cands = cands;
    let mut staged: Vec<WeightRecord> = Vec::new();
    let mut success: usize = 0;
    let mut failed: usize = 0;
    let mut skipped: usize = 0;
    let mut errors: Vec<Vec<u8>> = Vec::new();
    proof {
        assert(views_of(staged@) =~= st0.staged);
        assert(errors@.map_values(|e: Vec<u8>| e@) =~= st0.errors);
        assert(st0.recs == views_of(data.records@));
    }
    while cands.len() > 0
        invariant
            cands@.len() <= total,
            total <= usize::MAX,
            success + failed + skipped == total - cands@.len(),
            ({
                let st_now = ImpV {
                    recs: views_of(data.records@),
                    staged: views_of(staged@),
                    success: success as int,
                    failed: failed as int,
                    skipped: skipped as int,
                    errors: errors@.map_values(|e: Vec<u8>| e@),
                };
                apply_fold(st_now, views_of(cands@), pol) == apply_fold(st0, all, pol)
            }),
            data.profile == old(data).profile,
            data.goal == old(data).goal,
            data.version == old(data).version,
        decreases cands@.len(),
    {
        let ghost st_prev = ImpV {
            recs: views_of(data.records@),
            staged: views_of(staged@),
            success: success as int,
            failed: failed as int,
            skipped: skipped as int,
            errors: errors@.map_values(|e: Vec<u8>| e@),
        };
        let ghost rem_prev = views_of(cands@);
        let c = cands.remove(0);
        proof {
            assert(rem_prev[0] == c@);
            assert(views_of(cands@) =~= rem_prev.drop_first());
        }
        if !weight_valid(c.weight_milli) {
            failed = failed + 1;
            let m = json_invalid_msg_vec(&c);
            let ghost ev = errors@.map_values(|e: Vec<u8>| e@);
            errors.push(m);
            proof {
                assert(errors@.map_values(|e: Vec<u8>| e@) =~= ev.push(json_invalid_msg(c@)));
            }
        } else {
            match crate::store::find_by_date(&data.records, &c.date) {
                None => {
                    let ghost sv = views_of(staged@);
                    staged.push(c);
                    success = success + 1;
                    proof {
                        assert(views_of(staged@) =~= sv.push(rem_prev[0]));
                    }
                },
                Some(i) => {
                    match pol {
                        Policy::Overwrite => {
                            let ghost rv = views_of(data.records@);
                            let _ = data.records.remove(i);
                            data.records.insert(i, c);
                            success = success + 1;
                            proof {
                                assert(views_of(data.records@) =~= rv.update(
                                    i as int,
                                    rem_prev[0],
                                ));
                            }
                        },
                        Policy::Keep => {
                            let ghost sv = views_of(staged@);
                            staged.push(c);
                            success = success + 1;
                            proof {
                                assert(views_of(staged@) =~= sv.push(rem_prev[0]));
                            }
                        },
                        Policy::Skip => {
                            skipped = skipped + 1;
                            let ghost ev = errors@.map_values(|e: Vec<u8>| e@);
                            let m = skip_msg_vec(&c.date);
                            errors.push(m);
                            proof {
                                assert(errors@.map_values(|e: Vec<u8>| e@) =~= ev.push(
                                    skip_msg(rem_prev[0].date),
                                ));
                            }
                        },
                    }
                },
            }
        }
        proof {
            let st_now = ImpV {
                recs: views_of(data.records@),
                staged: views_of(staged@),
                success: success as int,
                failed: failed as int,
                skipped: skipped as int,
                errors: errors@.map_values(|e: Vec<u8>| e@),
            };
            assert(st_now =~= (if !weight_in_bounds(rem_prev[0].weight_milli) {
                ImpV {
                    failed: st_prev.failed + 1,
                    errors: st_prev.errors.push(json_invalid_msg(rem_prev[0])),
                    ..st_prev
                }
            } else {
                resolve_one(st_prev, rem_prev[0], pol)
            }));
            assert(apply_fold(st_prev, rem_prev, pol) == apply_fold(
                st_now,
                rem_prev.drop_first(),
                pol,
            ));
        }
    }
    let ghost st = apply_fold(st0, all, pol);
    proof {
        assert(views_of(cands@).len() == 0);
        let st_now = ImpV {
            recs: views_of(data.records@),
            staged: views_of(staged@),
            success: success as int,
            failed: failed as int,
            skipped: skipped as int,
            errors: errors@.map_values(|e: Vec<u8>| e@),
        };
        assert(apply_fold(st_now, views_of(cands@), pol) == st_now);
        assert(st_now == st);
    }
    // append the staged additions
    let ghost moved0 = views_of(data.records@);
    while staged.len() > 0
        invariant
            views_of(data.records@) + views_of(staged@) == st.recs + st.staged,
            data.profile == old(data).profile,
            data.goal == old(data).goal,
            data.version == old(data).version,
        decreases staged@.len(),
    {
        let ghost rv = views_of(data.records@);
        let ghost sv = views_of(staged@);
        let x = staged.remove(0);
        data.records.push(x);
        proof {
            assert(views_of(data.records@) =~= rv.push(sv[0]));
            assert(views_of(staged@) =~= sv.drop_first());
            assert(rv.push(sv[0]) + sv.drop_first() =~= rv + sv);
        }
    }
    proof {
        assert(views_of(data.records@) + views_of(staged@) =~= views_of(data.records@));
    }
    sort_records(&mut data.records);
    let r = ImportResult { success, failed, skipped, errors };
    proof {
        crate::store::lemma_sort_desc_sorted(st.recs + st.staged);
        assert(final(data)@ =~= (AppDataV {
            records: sort_desc(st.recs + st.staged),
            ..old(data)@
        }));
        assert(r@.errors =~= st.errors);
    }
    r
}

} // verus!

verus! {

// ---------------------------------------------------------------------------
// CSV rows
// ---------------------------------------------------------------------------

/// A whole trimmed field read as a decimal weight in thousandths.
pub open spec fn parse_weight_field(t: Seq<u8>) -> Option<u64> {
    match p_number(t, 0) {
        Some(p) => if p.1 == t.len() {
            Some(p.0)
        } else {
            None
        },
        None => None,
    }
}

/// A CSV data row: date, weight and optional note — or nothing, when the
/// row has under two fields, an unreadable weight, or a weight out of
/// bounds.
pub open spec fn csv_row_ok(l: Seq<u8>) -> Option<(Seq<u8>, u64, Option<Seq<u8>>)> {
    let parts = split_bytes(l, 44);
    if parts.len() < 2 {
        None
    } else {
        match parse_weight_field(trim(parts[1])) {
            None => None,
            Some(w) => if !weight_in_bounds(w) {
                None
            } else {
                Some(
                    (
                        trim(parts[0]),
                        w,
                        if parts.len() > 2 && trim(parts[2]).len() > 0 {
                            Some(trim(parts[2]))
                        } else {
                            None
                        },
                    ),
                )
            },
        }
    }
}

/// The tail of the message a bad row gets: too few fields, an unreadable
/// weight, or one out of range — the last naming the offending value and
/// date.
pub open spec fn csv_row_err_tail(l: Seq<u8>) -> Seq<u8> {
    let parts = split_bytes(l, 44);
    if parts.len() < 2 {
        crate::lit::msg_invalid_format()
    } else {
        match parse_weight_field(trim(parts[1])) {
            None => crate::lit::msg_invalid_weight_line(),
            Some(w) => crate::lit::msg_weight_range() + seq![58u8, 32u8] + weight_text(w)
                + crate::lit::msg_on() + trim(parts[0]),
        }
    }
}

fn range_msg_tail_vec(w: u64, date: &Vec<u8>) -> (r: Vec<u8>)
    ensures
        r@ == crate::lit::msg_weight_range() + seq![58u8, 32u8] + weight_text(w)
            + crate::lit::msg_on() + date@,
{
    let mut out = crate::lit::msg_weight_range_vec();
    out.push(58);
    out.push(32);
    push_weight_text(&mut out, w);
    push_all(&mut out, &crate::lit::msg_on_vec());
    push_all(&mut out, date);
    proof {
        assert(out@ =~= crate::lit::msg_weight_range() + seq![58u8, 32u8] + weight_text(w)
            + crate::lit::msg_on() + date@);
    }
    out
}

/// `Line N` followed by the tail, with lines numbered from one.
pub open spec fn line_msg(line_no: int, tail: Seq<u8>) -> Seq<u8> {
    crate::lit::msg_line() + dec_digits((line_no + 1) as nat) + tail
}

/// One line of a CSV import: a bad row counts as failed with its message; a
/// good row becomes a candidate carrying the given identifier and timestamp
/// and runs through conflict resolution.
pub open spec fn csv_row_step(
    st: ImpV,
    l: Seq<u8>,
    line_no: int,
    id: Seq<u8>,
    ts: Seq<u8>,
    pol: Policy,
) -> ImpV {
    match csv_row_ok(l) {
        None => ImpV {
            failed: st.failed + 1,
            errors: st.errors.push(line_msg(line_no, csv_row_err_tail(l))),
            ..st
        },
        Some(t) => resolve_one(
            st,
            RecordV { id, date: t.0, weight_milli: t.1, note: t.2, created_at: ts },
            pol,
        ),
    }
}

/// The lines from `idx` to `end`, applied in order; the identifier and
/// timestamp drawn for the line at `idx` stand in `meta[idx - base]`.
pub open spec fn csv_fold(
    st: ImpV,
    lines: Seq<Seq<u8>>,
    idx: int,
    end: int,
    pol: Policy,
    base: int,
    meta: Seq<(Seq<u8>, Seq<u8>)>,
) -> ImpV
    decreases end - idx,
{
    if idx < end {
        csv_fold(
            csv_row_step(st, lines[idx], idx, meta[idx - base].0, meta[idx - base].1, pol),
            lines,
            idx + 1,
            end,
            pol,
            base,
            meta,
        )
    } else {
        st
    }
}

/// Where the rows begin: a first line naming `date` is a header.
pub open spec fn csv_start(lines: Seq<Seq<u8>>) -> int {
    if lines.len() > 0 && contains_seq(lower(lines[0]), crate::lit::word_date()) {
        1
    } else {
        0
    }
}

proof fn lemma_csv_fold_snoc(
    st: ImpV,
    lines: Seq<Seq<u8>>,
    a: int,
    e: int,
    pol: Policy,
    base: int,
    meta: Seq<(Seq<u8>, Seq<u8>)>,
)
    requires
        a <= e,
    ensures
        csv_fold(st, lines, a, e + 1, pol, base, meta) == csv_row_step(
            csv_fold(st, lines, a, e, pol, base, meta),
            lines[e],
            e,
            meta[e - base].0,
            meta[e - base].1,
            pol,
        ),
    decreases e - a,
{
    if a < e {
        lemma_csv_fold_snoc(
            csv_row_step(st, lines[a], a, meta[a - base].0, meta[a - base].1, pol),
            lines,
            a + 1,
            e,
            pol,
            base,
            meta,
        );
    } else {
        let st2 = csv_row_step(st, lines[a], a, meta[a - base].0, meta[a - base].1, pol);
        assert(csv_fold(st, lines, a, e + 1, pol, base, meta) == csv_fold(
            st2,
            lines,
            a + 1,
            e + 1,
            pol,
            base,
            meta,
        ));
        assert(csv_fold(st2, lines, a + 1, e + 1, pol, base, meta) == st2);
    }
}

proof fn lemma_csv_fold_frame(
    st: ImpV,
    lines: Seq<Seq<u8>>,
    a: int,
    e: int,
    pol: Policy,
    base: int,
    m: Seq<(Seq<u8>, Seq<u8>)>,
    x: (Seq<u8>, Seq<u8>),
)
    requires
        base <= a <= e,
        e - base <= m.len(),
    ensures
        csv_fold(st, lines, a, e, pol, base, m.push(x)) == csv_fold(st, lines, a, e, pol, base, m),
    decreases e - a,
{
    if a < e {
        assert(m.push(x)[a - base] == m[a - base]);
        lemma_csv_fold_frame(
            csv_row_step(st, lines[a], a, m[a - base].0, m[a - base].1, pol),
            lines,
            a + 1,
            e,
            pol,
            base,
            m,
            x,
        );
    }
}

fn line_msg_vec(line_no: usize, tail: &Vec<u8>) -> (r: Vec<u8>)
    requires
        line_no < usize::MAX,
    ensures
        r@ == line_msg(line_no as int, tail@),
{
    let mut out = crate::lit::msg_line_vec();
    push_dec(&mut out, (line_no as u64) + 1);
    push_all(&mut out, tail);
    out
}

} // verus!

verus! {

/// What a CSV import leaves behind, given the identifiers and timestamps
/// `meta` that were drawn for its lines: the state the line fold reaches,
/// its staged additions appended and the whole re-sorted, with its counts.
pub open spec fn csv_import_post(
    before: AppDataV,
    after: AppDataV,
    content: Seq<u8>,
    pol: Policy,
    r: ImportResultV,
    meta: Seq<(Seq<u8>, Seq<u8>)>,
) -> bool {
    let lines = split_lines(content);
    let st = csv_fold(
        init_st(before.records),
        lines,
        csv_start(lines),
        lines.len() as int,
        pol,
        csv_start(lines),
        meta,
    );
    after == (AppDataV { records: sort_desc(st.recs + st.staged), ..before }) && r.success
        == st.success && r.failed == st.failed && r.skipped == st.skipped && r.errors == st.errors
}

/// Imports CSV content against the current store: a first line naming
/// `date` is skipped as a header; every following line is parsed, validated
/// and resolved; fresh identifiers and the current time fill the new
/// records. The counts and messages are exact for the content; the records
/// carry whatever identifiers and timestamps were drawn, named by `meta`.
pub fn import_data_csv(data: &mut AppData, content: &Vec<u8>, resolution: &ConflictResolution) -> (r: ImportResult)
    ensures
        sorted_desc(final(data)@.records),
        exists|meta: Seq<(Seq<u8>, Seq<u8>)>| #[trigger] csv_import_post(
            old(data)@,
            final(data)@,
            content@,
            resolution.policy_spec(),
            r@,
            meta,
        ),
{
    let ghost st0 = init_st(old(data)@.records);
    let pol = resolution.policy();
    let lines = lines_vec(content);
    let ghost lv = split_lines(content@);
    let n = lines.len();
    let start: usize = if n > 0 && lower_contains(&lines[0], &crate::lit::word_date_vec()) {
        1
    } else {
        0
    };
    proof {
        if n > 0 {
            assert(lines@.map_values(|v: Vec<u8>| v@)[0] == lines@[0]@);
        }
        assert(start as int == csv_start(lv));
    }
    let mut staged: Vec<WeightRecord> = Vec::new();
    let mut success: usize = 0;
    let mut failed: usize = 0;
    let mut skipped: usize = 0;
    let mut errors: Vec<Vec<u8>> = Vec::new();
    let ghost mut meta_acc: Seq<(Seq<u8>, Seq<u8>)> = Seq::empty();
    let mut idx: usize = start;
    proof {
        assert(views_of(staged@) =~= st0.staged);
        assert(errors@.map_values(|e: Vec<u8>| e@) =~= st0.errors);
        assert(st0.recs == views_of(data.records@));
    }
    while idx < n
        invariant
            start <= idx <= n,
            n == lines@.len(),
            lv == split_lines(content@),
            lv == lines@.map_values(|v: Vec<u8>| v@),
            start as int == csv_start(lv),
            meta_acc.len() == idx - start,
            success + failed + skipped == idx - start,
            pol == resolution.policy_spec(),
            st0 == init_st(old(data)@.records),
            ({
                let st_now = ImpV {
                    recs: views_of(data.records@),
                    staged: views_of(staged@),
                    success: success as int,
                    failed: failed as int,
                    skipped: skipped as int,
                    errors: errors@.map_values(|e: Vec<u8>| e@),
                };
                st_now == csv_fold(st0, lv, start as int, idx as int, pol, start as int, meta_acc)
            }),
            data.profile == old(data).profile,
            data.goal == old(data).goal,
            data.version == old(data).version,
        decreases n - idx,
    {
        let ghost st_prev = ImpV {
            recs: views_of(data.records@),
            staged: views_of(staged@),
            success: success as int,
            failed: failed as int,
            skipped: skipped as int,
            errors: errors@.map_values(|e: Vec<u8>| e@),
        };
        let id = crate::trusted::new_record_id();
        let ts = crate::trusted::now_timestamp();
        let ghost pair = (id@, ts@);
        proof {
            assert(lines@.map_values(|v: Vec<u8>| v@)[idx as int] == lines@[idx as int]@);
        }
        let fields = split_vec(&lines[idx], 44);
        let ghost pv = split_bytes(lv[idx as int], 44);
        if fields.len() < 2 {
            failed = failed + 1;
            let m = line_msg_vec(idx, &crate::lit::msg_invalid_format_vec());
            let ghost ev = errors@.map_values(|e: Vec<u8>| e@);
            errors.push(m);
            proof {
                assert(errors@.map_values(|e: Vec<u8>| e@) =~= ev.push(
                    line_msg(idx as int, csv_row_err_tail(lv[idx as int])),
                ));
            }
        } else {
            proof {
                assert(fields@.map_values(|v: Vec<u8>| v@)[1] == fields@[1]@);
                assert(fields@.map_values(|v: Vec<u8>| v@)[0] == fields@[0]@);
            }
            let wf = trim_bytes(&fields[1]);
            let parsed = parse_number(&wf, 0);
            proof {
                crate::bytes::lemma_p_number_bounds(wf@, 0);
            }
            let mut weight: u64 = 0;
            let mut good = false;
            match parsed {
                Some(p) => {
                    if p.1 == wf.len() {
                        weight = p.0;
                        good = true;
                    }
                },
                None => {},
            }
            if !good {
                failed = failed + 1;
                let m = line_msg_vec(idx, &crate::lit::msg_invalid_weight_line_vec());
                let ghost ev = errors@.map_values(|e: Vec<u8>| e@);
                errors.push(m);
                proof {
                    assert(parse_weight_field(trim(pv[1])) is None);
                    assert(errors@.map_values(|e: Vec<u8>| e@) =~= ev.push(
                        line_msg(idx as int, csv_row_err_tail(lv[idx as int])),
                    ));
                }
            } else if !weight_valid(weight) {
                failed = failed + 1;
                let date_t = trim_bytes(&fields[0]);
                let tail = range_msg_tail_vec(weight, &date_t);
                let m = line_msg_vec(idx, &tail);
                let ghost ev = errors@.map_values(|e: Vec<u8>| e@);
                errors.push(m);
                proof {
                    assert(parse_weight_field(trim(pv[1])) == Some(weight));
                    assert(errors@.map_values(|e: Vec<u8>| e@) =~= ev.push(
                        line_msg(idx as int, csv_row_err_tail(lv[idx as int])),
                    ));
                }
            } else {
                let date = trim_bytes(&fields[0]);
                let note: Option<Vec<u8>> = if fields.len() > 2 {
                    proof {
                        assert(fields@.map_values(|v: Vec<u8>| v@)[2] == fields@[2]@);
                    }
                    let t = trim_bytes(&fields[2]);
                    if t.len() > 0 {
                        Some(t)
                    } else {
                        None
                    }
                } else {
                    None
                };
                let rec = WeightRecord { id, date, weight_milli: weight, note, created_at: ts };
                proof {
                    assert(parse_weight_field(trim(pv[1])) == Some(weight));
                    assert(csv_row_ok(lv[idx as int]) == Some(
                        (rec@.date, weight, rec@.note),
                    ));
                }
                match crate::store::find_by_date(&data.records, &rec.date) {
                    None => {
                        let ghost sv = views_of(staged@);
                        let ghost rv2 = rec@;
                        staged.push(rec);
                        success = success + 1;
                        proof {
                            assert(views_of(staged@) =~= sv.push(rv2));
                        }
                    },
                    Some(i) => {
                        match pol {
                            Policy::Overwrite => {
                                let ghost rv = views_of(data.records@);
                                let ghost rv2 = rec@;
                                let _ = data.records.remove(i);
                                data.records.insert(i, rec);
                                success = success + 1;
                                proof {
                                    assert(views_of(data.records@) =~= rv.update(i as int, rv2));
                                }
                            },
                            Policy::Keep => {
                                let ghost sv = views_of(staged@);
                                let ghost rv2 = rec@;
                                staged.push(rec);
                                success = success + 1;
                                proof {
                                    assert(views_of(staged@) =~= sv.push(rv2));
                                }
                            },
                            Policy::Skip => {
                                skipped = skipped + 1;
                                let ghost ev = errors@.map_values(|e: Vec<u8>| e@);
                                let m = skip_msg_vec(&rec.date);
                                errors.push(m);
                                proof {
                                    assert(errors@.map_values(|e: Vec<u8>| e@) =~= ev.push(
                                        skip_msg(rec@.date),
                                    ));
                                }
                            },
                        }
                    },
                }
            }
        }
        proof {
            let st_now = ImpV {
                recs: views_of(data.records@),
                staged: views_of(staged@),
                success: success as int,
                failed: failed as int,
                skipped: skipped as int,
                errors: errors@.map_values(|e: Vec<u8>| e@),
            };
            assert(st_now =~= csv_row_step(st_prev, lv[idx as int], idx as int, pair.0, pair.1, pol));
            lemma_csv_fold_frame(st0, lv, start as int, idx as int, pol, start as int, meta_acc, pair);
            lemma_csv_fold_snoc(st0, lv, start as int, idx as int, pol, start as int, meta_acc.push(pair));
            assert(meta_acc.push(pair)[idx - start] == pair);
            meta_acc = meta_acc.push(pair);
        }
        idx = idx + 1;
    }
    let ghost stf = csv_fold(st0, lv, start as int, n as int, resolution.policy_spec(), start as int, meta_acc);
    while staged.len() > 0
        invariant
            views_of(data.records@) + views_of(staged@) == stf.recs + stf.staged,
            data.profile == old(data).profile,
            data.goal == old(data).goal,
            data.version == old(data).version,
        decreases staged@.len(),
    {
        let ghost rv = views_of(data.records@);
        let ghost sv = views_of(staged@);
        let x = staged.remove(0);
        data.records.push(x);
        proof {
            assert(views_of(data.records@) =~= rv.push(sv[0]));
            assert(views_of(staged@) =~= sv.drop_first());
            assert(rv.push(sv[0]) + sv.drop_first() =~= rv + sv);
        }
    }
    proof {
        assert(views_of(data.records@) + views_of(staged@) =~= views_of(data.records@));
    }
    sort_records(&mut data.records);
    let r = ImportResult { success, failed, skipped, errors };
    proof {
        crate::store::lemma_sort_desc_sorted(stf.recs + stf.staged);
        assert(final(data)@ =~= (AppDataV {
            records: sort_desc(stf.recs + stf.staged),
            ..old(data)@
        }));
        assert(r@.errors =~= stf.errors);
        assert(csv_import_post(
            old(data)@,
            final(data)@,
            content@,
            resolution.policy_spec(),
            r@,
            meta_acc,
        ));
    }
    r
}

} // verus!

verus! {

/// One exported CSV row: date, weight, note (empty when absent), newline.
pub open spec fn csv_line_of(r: RecordV) -> Seq<u8> {
    r.date + seq![44u8] + weight_text(r.weight_milli) + seq![44u8] + (match r.note {
        Some(n) => n,
        None => Seq::empty(),
    }) + seq![10u8]
}

pub open spec fn csv_body(rs: Seq<RecordV>) -> Seq<u8>
    decreases rs.len(),
{
    if rs.len() == 0 {
        Seq::empty()
    } else {
        csv_body(rs.drop_last()) + csv_line_of(rs.last())
    }
}

/// The CSV export: the fixed header line, then one row per record in
/// stored order.
pub open spec fn export_csv_spec(rs: Seq<RecordV>) -> Seq<u8> {
    crate::lit::csv_header() + seq![10u8] + csv_body(rs)
}

/// Writes the record list as CSV.
pub fn export_csv(data: &AppData) -> (r: Vec<u8>)
    ensures
        r@ == export_csv_spec(data@.records),
{
    let ghost vs = views_of(data.records@);
    let mut out = crate::lit::csv_header_vec();
    out.push(10);
    let ghost base = out@;
    let n = data.records.len();
    let mut i: usize = 0;
    while i < n
        invariant
            i <= n == data.records@.len(),
            vs == views_of(data.records@),
            out@ == base + csv_body(vs.take(i as int)),
        decreases n - i,
    {
        let ghost before = out@;
        proof {
            assert(vs[i as int] == data.records@[i as int]@);
        }
        let rec = &data.records[i];
        push_all(&mut out, &rec.date);
        out.push(44);
        push_weight_text(&mut out, rec.weight_milli);
        out.push(44);
        match &rec.note {
            Some(nn) => {
                push_all(&mut out, nn);
            },
            None => {},
        }
        out.push(10);
        proof {
            assert(out@ =~= before + csv_line_of(vs[i as int]));
            assert(vs.take(i + 1).drop_last() =~= vs.take(i as int));
            assert(vs.take(i + 1).last() == vs[i as int]);
            assert(out@ =~= base + csv_body(vs.take(i + 1)));
        }
        i = i + 1;
    }
    proof {
        assert(vs.take(n as int) =~= vs);
    }
    out
}

/// The export dispatch: `json` writes the record list as JSON, `csv` as
/// CSV, and any other format is refused with no content at all.
pub fn export_data(data: &AppData, format: &Vec<u8>) -> (r: Option<Vec<u8>>)
    ensures
        format@ == crate::lit::fmt_json() ==> (r matches Some(c) && c@
            == crate::json::ser_records(data@.records)),
        format@ == crate::lit::fmt_csv() ==> (r matches Some(c) && c@ == export_csv_spec(
            data@.records,
        )),
        format@ != crate::lit::fmt_json() && format@ != crate::lit::fmt_csv() ==> r is None,
{
    if bytes_eq(format, &crate::lit::fmt_json_vec()) {
        Some(crate::json::serialize_records(&data.records))
    } else if bytes_eq(format, &crate::lit::fmt_csv_vec()) {
        Some(export_csv(data))
    } else {
        None
    }
}

} // verus!

verus! {

/// Imports JSON content: first read as a full document (whose records are
/// taken), then as a bare record array; when both fail, nothing happens
/// and no result is returned. The candidates then run through validation
/// and conflict resolution exactly as `apply_candidates` states.
pub fn import_data_json(data: &mut AppData, content: &Vec<u8>, resolution: &ConflictResolution) -> (r: Option<ImportResult>)
    ensures
        ({
            let doc = crate::json::parse_doc_spec(content@);
            let arr = crate::json::parse_records_spec(content@);
            match r {
                None => doc is None && arr is None && final(data)@ == old(data)@,
                Some(res) => {
                    let cands = if doc is Some {
                        doc->Some_0.records
                    } else {
                        arr->Some_0
                    };
                    (doc is Some || arr is Some) && ({
                        let st = apply_fold(
                            init_st(old(data)@.records),
                            cands,
                            resolution.policy_spec(),
                        );
                        final(data)@ == (AppDataV {
                            records: sort_desc(st.recs + st.staged),
                            ..old(data)@
                        }) && res@.success == st.success && res@.failed == st.failed
                            && res@.skipped == st.skipped && res@.errors == st.errors
                    })
                },
            }
        }),
        r is Some ==> sorted_desc(final(data)@.records),
{
    let cands = match crate::json::parse_document(content) {
        Some(d) => d.records,
        None => match crate::json::parse_record_array(content) {
            Some(rs) => rs,
            None => {
                return None;
            },
        },
    };
    Some(apply_candidates(data, cands, resolution.policy()))
}

} // verus!
