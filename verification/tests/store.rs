use weightlogger::model::{AppData, WeightRecord, ConflictResolution, Policy};
use weightlogger::imp::apply_candidates;
use weightlogger::paths::get_data_file_path;
use weightlogger::weight_valid;

fn rec(id: &str, date: &str, weight_milli: u64, note: Option<&str>) -> WeightRecord {
    WeightRecord {
        id: id.as_bytes().to_vec(),
        date: date.as_bytes().to_vec(),
        weight_milli,
        note: note.map(|n| n.as_bytes().to_vec()),
        created_at: b"2024-01-01T00:00:00+00:00".to_vec(),
    }
}

#[test]
fn empty_document_shape() {
    let d = AppData::empty();
    assert_eq!(d.records.len(), 0);
    assert!(d.profile.is_none());
    assert!(d.goal.is_none());
    assert_eq!(d.version, 1);
}

#[test]
fn save_record_sorts_newest_first() {
    let mut d = AppData::empty();
    d.save_record(rec("a", "2024-01-01", 70_000, None));
    d.save_record(rec("b", "2024-03-01", 71_000, None));
    d.save_record(rec("c", "2024-02-01", 72_000, None));
    let dates: Vec<&[u8]> = d.records.iter().map(|r| r.date.as_slice()).collect();
    assert_eq!(dates, vec![&b"2024-03-01"[..], &b"2024-02-01"[..], &b"2024-01-01"[..]]);
}

#[test]
fn save_record_replaces_same_date() {
    let mut d = AppData::empty();
    d.save_record(rec("a", "2024-01-01", 70_000, None));
    d.save_record(rec("b", "2024-01-01", 75_000, None));
    assert_eq!(d.records.len(), 1);
    assert_eq!(d.records[0].weight_milli, 75_000);
    assert_eq!(d.records[0].id, b"b".to_vec());
}

#[test]
fn save_record_twice_is_idempotent() {
    let mut d1 = AppData::empty();
    d1.save_record(rec("x", "2024-01-05", 81_500, Some("after run")));
    let mut d2 = AppData::empty();
    d2.save_record(rec("x", "2024-01-05", 81_500, Some("after run")));
    d2.save_record(rec("x", "2024-01-05", 81_500, Some("after run")));
    assert_eq!(d1.records.len(), d2.records.len());
    assert_eq!(d1.records[0].id, d2.records[0].id);
    assert_eq!(d1.records[0].weight_milli, d2.records[0].weight_milli);
    assert_eq!(d1.records[0].note, d2.records[0].note);
}

#[test]
fn delete_record_by_id() {
    let mut d = AppData::empty();
    d.save_record(rec("a", "2024-01-01", 70_000, None));
    d.save_record(rec("b", "2024-01-02", 71_000, None));
    d.delete_record(&b"a".to_vec());
    assert_eq!(d.records.len(), 1);
    assert_eq!(d.records[0].id, b"b".to_vec());
    // deleting an id that is not there is no error
    d.delete_record(&b"zz".to_vec());
    assert_eq!(d.records.len(), 1);
}

#[test]
fn weight_validation_boundary() {
    assert!(!weight_valid(19_999));
    assert!(weight_valid(20_000));
    assert!(weight_valid(300_000));
    assert!(!weight_valid(300_001));
}

#[test]
fn direct_save_skips_validation() {
    let mut d = AppData::empty();
    d.save_record(rec("a", "2024-01-01", 19_999, None));
    assert_eq!(d.records.len(), 1);
}

#[test]
fn policy_words() {
    let p = ConflictResolution { on_conflict: b"overwrite".to_vec() };
    assert!(matches!(p.policy(), Policy::Overwrite));
    let p = ConflictResolution { on_conflict: b"keep".to_vec() };
    assert!(matches!(p.policy(), Policy::Keep));
    let p = ConflictResolution { on_conflict: b"skip".to_vec() };
    assert!(matches!(p.policy(), Policy::Skip));
    let p = ConflictResolution { on_conflict: b"anything else".to_vec() };
    assert!(matches!(p.policy(), Policy::Skip));
}

#[test]
fn conflict_overwrite() {
    let mut d = AppData::empty();
    d.save_record(rec("a", "2024-01-01", 70_000, None));
    let r = apply_candidates(&mut d, vec![rec("b", "2024-01-01", 75_000, None)], Policy::Overwrite);
    assert_eq!(r.success, 1);
    assert_eq!(r.failed, 0);
    assert_eq!(r.skipped, 0);
    assert_eq!(d.records.len(), 1);
    assert_eq!(d.records[0].weight_milli, 75_000);
}

#[test]
fn conflict_skip() {
    let mut d = AppData::empty();
    d.save_record(rec("a", "2024-01-01", 70_000, None));
    let r = apply_candidates(&mut d, vec![rec("b", "2024-01-01", 75_000, None)], Policy::Skip);
    assert_eq!(r.success, 0);
    assert_eq!(r.skipped, 1);
    assert_eq!(r.errors.len(), 1);
    assert_eq!(
        String::from_utf8(r.errors[0].clone()).unwrap(),
        "Skipped existing record on 2024-01-01"
    );
    assert_eq!(d.records.len(), 1);
    assert_eq!(d.records[0].weight_milli, 70_000);
}

#[test]
fn conflict_keep() {
    let mut d = AppData::empty();
    d.save_record(rec("a", "2024-01-01", 70_000, None));
    let r = apply_candidates(&mut d, vec![rec("b", "2024-01-01", 75_000, None)], Policy::Keep);
    assert_eq!(r.success, 1);
    assert_eq!(d.records.len(), 2);
    let mut weights: Vec<u64> = d.records.iter().map(|r| r.weight_milli).collect();
    weights.sort();
    assert_eq!(weights, vec![70_000, 75_000]);
}

#[test]
fn import_rejects_out_of_range_with_message() {
    let mut d = AppData::empty();
    let r = apply_candidates(&mut d, vec![rec("a", "2024-01-02", 19_999, None)], Policy::Skip);
    assert_eq!(r.failed, 1);
    assert_eq!(d.records.len(), 0);
    assert_eq!(r.errors.len(), 1);
    assert_eq!(
        String::from_utf8(r.errors[0].clone()).unwrap(),
        "Invalid weight value: 19.999 on 2024-01-02"
    );
}

#[test]
fn data_file_path_under_home() {
    let p = get_data_file_path(&b"/home/me".to_vec());
    assert_eq!(String::from_utf8(p).unwrap(), "/home/me/.weightlogger/data.json");
}

#[test]
fn export_csv_three_lines_for_two_records() {
    let mut d = AppData::empty();
    d.save_record(rec("a", "2024-01-01", 70_000, Some("rest day")));
    d.save_record(rec("b", "2024-01-02", 70_500, None));
    let out = weightlogger::imp::export_csv(&d);
    let text = String::from_utf8(out).unwrap();
    let lines: Vec<&str> = text.lines().collect();
    assert_eq!(lines.len(), 3);
    assert_eq!(lines[0], "Date,Weight,Note");
    assert_eq!(lines[1], "2024-01-02,70.5,");
    assert_eq!(lines[2], "2024-01-01,70,rest day");
}

#[test]
fn export_unsupported_format_is_refused() {
    let d = AppData::empty();
    assert!(weightlogger::imp::export_data(&d, &b"xml".to_vec()).is_none());
    assert!(weightlogger::imp::export_data(&d, &b"csv".to_vec()).is_some());
    assert!(weightlogger::imp::export_data(&d, &b"json".to_vec()).is_some());
}

#[test]
fn serialize_empty_document() {
    let d = AppData::empty();
    let out = weightlogger::json::serialize_app_data(&d);
    assert_eq!(String::from_utf8(out).unwrap(), "{\"records\":[],\"version\":1}");
}

#[test]
fn serialize_then_parse_is_identity() {
    let mut d = AppData::empty();
    d.save_record(rec("a", "2024-01-01", 70_250, Some("note, with comma")));
    d.save_record(rec("b", "2024-02-01", 71_000, None));
    d.update_profile(weightlogger::model::UserProfile {
        height_milli: 180_500,
        gender: Some(b"f".to_vec()),
    });
    d.update_goal(weightlogger::model::Goal {
        target_weight_milli: 65_000,
        target_date: None,
        created_at: b"2024-01-01T00:00:00+00:00".to_vec(),
    });
    let bytes = weightlogger::json::serialize_app_data(&d);
    let back = weightlogger::json::parse_document(&bytes).expect("parse back");
    assert_eq!(back.records.len(), 2);
    assert_eq!(back.records[0].date, b"2024-02-01".to_vec());
    assert_eq!(back.records[1].weight_milli, 70_250);
    assert_eq!(back.records[1].note, Some(b"note, with comma".to_vec()));
    assert_eq!(back.profile.as_ref().unwrap().height_milli, 180_500);
    assert_eq!(back.goal.as_ref().unwrap().target_weight_milli, 65_000);
    assert_eq!(back.version, 1);
}

#[test]
fn import_json_document_shape_first() {
    let mut d = AppData::empty();
    let mut src = AppData::empty();
    src.save_record(rec("x", "2024-03-03", 80_000, None));
    let content = weightlogger::json::serialize_app_data(&src);
    let resolution = ConflictResolution { on_conflict: b"skip".to_vec() };
    let r = weightlogger::imp::import_data_json(&mut d, &content, &resolution).expect("import");
    assert_eq!(r.success, 1);
    assert_eq!(d.records.len(), 1);
    assert_eq!(d.records[0].date, b"2024-03-03".to_vec());
}

#[test]
fn import_json_bare_array_fallback() {
    let mut d = AppData::empty();
    let content = weightlogger::json::serialize_records(&vec![rec("x", "2024-03-04", 81_000, None)]);
    let resolution = ConflictResolution { on_conflict: b"skip".to_vec() };
    let r = weightlogger::imp::import_data_json(&mut d, &content, &resolution).expect("import");
    assert_eq!(r.success, 1);
    assert_eq!(d.records[0].weight_milli, 81_000);
}

#[test]
fn import_json_invalid_content_is_refused() {
    let mut d = AppData::empty();
    d.save_record(rec("a", "2024-01-01", 70_000, None));
    let resolution = ConflictResolution { on_conflict: b"overwrite".to_vec() };
    let r = weightlogger::imp::import_data_json(&mut d, &b"not json".to_vec(), &resolution);
    assert!(r.is_none());
    assert_eq!(d.records.len(), 1);
    assert_eq!(d.records[0].weight_milli, 70_000);
}

#[test]
fn backup_then_restore_reproduces_document() {
    let mut d = AppData::empty();
    d.save_record(rec("a", "2024-01-01", 70_000, None));
    d.update_profile(weightlogger::model::UserProfile { height_milli: 175_000, gender: None });
    let backup = weightlogger::json::serialize_app_data(&d);
    // mutate in between
    d.save_record(rec("b", "2024-05-05", 90_000, None));
    d.delete_record(&b"a".to_vec());
    assert!(weightlogger::json::restore_backup(&mut d, &backup));
    assert_eq!(d.records.len(), 1);
    assert_eq!(d.records[0].id, b"a".to_vec());
    assert_eq!(d.profile.as_ref().unwrap().height_milli, 175_000);
}

#[test]
fn restore_rejects_bare_array() {
    let mut d = AppData::empty();
    d.save_record(rec("a", "2024-01-01", 70_000, None));
    let arr = weightlogger::json::serialize_records(&vec![rec("x", "2024-03-04", 81_000, None)]);
    assert!(!weightlogger::json::restore_backup(&mut d, &arr));
    assert_eq!(d.records.len(), 1);
}

#[test]
fn parser_accepts_whitespace_between_tokens() {
    let text = b"{ \"records\" : [ ] , \"version\" : 3 }".to_vec();
    let d = weightlogger::json::parse_document(&text).expect("parse");
    assert_eq!(d.records.len(), 0);
    assert_eq!(d.version, 3);
}

#[test]
fn csv_import_counts_and_messages() {
    let mut d = AppData::empty();
    let content = b"date,weight\n2024-01-01,19.999\n2024-01-02,20.0\nshort\n2024-01-03,300.0\n"
        .to_vec();
    let resolution = ConflictResolution { on_conflict: b"skip".to_vec() };
    let r = weightlogger::imp::import_data_csv(&mut d, &content, &resolution);
    assert_eq!(r.success, 2);
    assert_eq!(r.failed, 2);
    assert_eq!(r.skipped, 0);
    assert_eq!(d.records.len(), 2);
    assert_eq!(
        String::from_utf8(r.errors[0].clone()).unwrap(),
        "Line 2: Weight out of range: 19.999 on 2024-01-01"
    );
    assert_eq!(String::from_utf8(r.errors[1].clone()).unwrap(), "Line 4: Invalid format");
}
