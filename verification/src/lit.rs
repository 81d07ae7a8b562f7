//! The byte constants of the library: JSON keys, policy and format words,
//! message fragments. Byte literals spell each text out, with the text in the
//! doc comment.

use vstd::prelude::*;

verus! {

/// Bytes of the quoted JSON key `"records"`.
pub open spec fn k_records() -> Seq<u8> {
    seq![34u8, 114, 101, 99, 111, 114, 100, 115, 34]
}

/// Builds the quoted JSON key `"records"`.
pub fn k_records_vec() -> (r: Vec<u8>)
    ensures
        r@ == k_records(),
{
    let mut v: Vec<u8> = Vec::new();
    v.push(34);
    v.push(114);
    v.push(101);
    v.push(99);
    v.push(111);
    v.push(114);
    v.push(100);
    v.push(115);
    v.push(34);
    proof {
        assert(v@ =~= k_records());
    }
    v
}

/// Bytes of the quoted JSON key `"profile"`.
pub open spec fn k_profile() -> Seq<u8> {
    seq![34u8, 112, 114, 111, 102, 105, 108, 101, 34]
}

/// Builds the quoted JSON key `"profile"`.
pub fn k_profile_vec() -> (r: Vec<u8>)
    ensures
        r@ == k_profile(),
{
    let mut v: Vec<u8> = Vec::new();
    v.push(34);
    v.push(112);
    v.push(114);
    v.push(111);
    v.push(102);
    v.push(105);
    v.push(108);
    v.push(101);
    v.push(34);
    proof {
        assert(v@ =~= k_profile());
    }
    v
}

/// Bytes of the quoted JSON key `"goal"`.
pub open spec fn k_goal() -> Seq<u8> {
    seq![34u8, 103, 111, 97, 108, 34]
}

/// Builds the quoted JSON key `"goal"`.
pub fn k_goal_vec() -> (r: Vec<u8>)
    ensures
        r@ == k_goal(),
{
    let mut v: Vec<u8> = Vec::new();
    v.push(34);
    v.push(103);
    v.push(111);
    v.push(97);
    v.push(108);
    v.push(34);
    proof {
        assert(v@ =~= k_goal());
    }
    v
}

/// Bytes of the quoted JSON key `"version"`.
pub open spec fn k_version() -> Seq<u8> {
    seq![34u8, 118, 101, 114, 115, 105, 111, 110, 34]
}

/// Builds the quoted JSON key `"version"`.
pub fn k_version_vec() -> (r: Vec<u8>)
    ensures
        r@ == k_version(),
{
    let mut v: Vec<u8> = Vec::new();
    v.push(34);
    v.push(118);
    v.push(101);
    v.push(114);
    v.push(115);
    v.push(105);
    v.push(111);
    v.push(110);
    v.push(34);
    proof {
        assert(v@ =~= k_version());
    }
    v
}

/// Bytes of the quoted JSON key `"id"`.
pub open spec fn k_id() -> Seq<u8> {
    seq![34u8, 105, 100, 34]
}

/// Builds the quoted JSON key `"id"`.
pub fn k_id_vec() -> (r: Vec<u8>)
    ensures
        r@ == k_id(),
{
    let mut v: Vec<u8> = Vec::new();
    v.push(34);
    v.push(105);
    v.push(100);
    v.push(34);
    proof {
        assert(v@ =~= k_id());
    }
    v
}

/// Bytes of the quoted JSON key `"date"`.
pub open spec fn k_date() -> Seq<u8> {
    seq![34u8, 100, 97, 116, 101, 34]
}

/// Builds the quoted JSON key `"date"`.
pub fn k_date_vec() -> (r: Vec<u8>)
    ensures
        r@ == k_date(),
{
    let mut v: Vec<u8> = Vec::new();
    v.push(34);
    v.push(100);
    v.push(97);
    v.push(116);
    v.push(101);
    v.push(34);
    proof {
        assert(v@ =~= k_date());
    }
    v
}

/// Bytes of the quoted JSON key `"weight"`.
pub open spec fn k_weight() -> Seq<u8> {
    seq![34u8, 119, 101, 105, 103, 104, 116, 34]
}

/// Builds the quoted JSON key `"weight"`.
pub fn k_weight_vec() -> (r: Vec<u8>)
    ensures
        r@ == k_weight(),
{
    let mut v: Vec<u8> = Vec::new();
    v.push(34);
    v.push(119);
    v.push(101);
    v.push(105);
    v.push(103);
    v.push(104);
    v.push(116);
    v.push(34);
    proof {
        assert(v@ =~= k_weight());
    }
    v
}

/// Bytes of the quoted JSON key `"note"`.
pub open spec fn k_note() -> Seq<u8> {
    seq![34u8, 110, 111, 116, 101, 34]
}

/// Builds the quoted JSON key `"note"`.
pub fn k_note_vec() -> (r: Vec<u8>)
    ensures
        r@ == k_note(),
{
    let mut v: Vec<u8> = Vec::new();
    v.push(34);
    v.push(110);
    v.push(111);
    v.push(116);
    v.push(101);
    v.push(34);
    proof {
        assert(v@ =~= k_note());
    }
    v
}

/// Bytes of the quoted JSON key `"created_at"`.
pub open spec fn k_created_at() -> Seq<u8> {
    seq![34u8, 99, 114, 101, 97, 116, 101, 100, 95, 97, 116, 34]
}

/// Builds the quoted JSON key `"created_at"`.
pub fn k_created_at_vec() -> (r: Vec<u8>)
    ensures
        r@ == k_created_at(),
{
    let mut v: Vec<u8> = Vec::new();
    v.push(34);
    v.push(99);
    v.push(114);
    v.push(101);
    v.push(97);
    v.push(116);
    v.push(101);
    v.push(100);
    v.push(95);
    v.push(97);
    v.push(116);
    v.push(34);
    proof {
        assert(v@ =~= k_created_at());
    }
    v
}

/// Bytes of the quoted JSON key `"height"`.
pub open spec fn k_height() -> Seq<u8> {
    seq![34u8, 104, 101, 105, 103, 104, 116, 34]
}

/// Builds the quoted JSON key `"height"`.
pub fn k_height_vec() -> (r: Vec<u8>)
    ensures
        r@ == k_height(),
{
    let mut v: Vec<u8> = Vec::new();
    v.push(34);
    v.push(104);
    v.push(101);
    v.push(105);
    v.push(103);
    v.push(104);
    v.push(116);
    v.push(34);
    proof {
        assert(v@ =~= k_height());
    }
    v
}

/// Bytes of the quoted JSON key `"gender"`.
pub open spec fn k_gender() -> Seq<u8> {
    seq![34u8, 103, 101, 110, 100, 101, 114, 34]
}

/// Builds the quoted JSON key `"gender"`.
pub fn k_gender_vec() -> (r: Vec<u8>)
    ensures
        r@ == k_gender(),
{
    let mut v: Vec<u8> = Vec::new();
    v.push(34);
    v.push(103);
    v.push(101);
    v.push(110);
    v.push(100);
    v.push(101);
    v.push(114);
    v.push(34);
    proof {
        assert(v@ =~= k_gender());
    }
    v
}

/// Bytes of the quoted JSON key `"target_weight"`.
pub open spec fn k_target_weight() -> Seq<u8> {
    seq![34u8, 116, 97, 114, 103, 101, 116, 95, 119, 101, 105, 103, 104, 116, 34]
}

/// Builds the quoted JSON key `"target_weight"`.
pub fn k_target_weight_vec() -> (r: Vec<u8>)
    ensures
        r@ == k_target_weight(),
{
    let mut v: Vec<u8> = Vec::new();
    v.push(34);
    v.push(116);
    v.push(97);
    v.push(114);
    v.push(103);
    v.push(101);
    v.push(116);
    v.push(95);
    v.push(119);
    v.push(101);
    v.push(105);
    v.push(103);
    v.push(104);
    v.push(116);
    v.push(34);
    proof {
        assert(v@ =~= k_target_weight());
    }
    v
}

/// Bytes of the quoted JSON key `"target_date"`.
pub open spec fn k_target_date() -> Seq<u8> {
    seq![34u8, 116, 97, 114, 103, 101, 116, 95, 100, 97, 116, 101, 34]
}

/// Builds the quoted JSON key `"target_date"`.
pub fn k_target_date_vec() -> (r: Vec<u8>)
    ensures
        r@ == k_target_date(),
{
    let mut v: Vec<u8> = Vec::new();
    v.push(34);
    v.push(116);
    v.push(97);
    v.push(114);
    v.push(103);
    v.push(101);
    v.push(116);
    v.push(95);
    v.push(100);
    v.push(97);
    v.push(116);
    v.push(101);
    v.push(34);
    proof {
        assert(v@ =~= k_target_date());
    }
    v
}

/// Bytes of the conflict policy word `overwrite`.
pub open spec fn pol_overwrite() -> Seq<u8> {
    seq![111u8, 118, 101, 114, 119, 114, 105, 116, 101]
}

/// Builds the conflict policy word `overwrite`.
pub fn pol_overwrite_vec() -> (r: Vec<u8>)
    ensures
        r@ == pol_overwrite(),
{
    let mut v: Vec<u8> = Vec::new();
    v.push(111);
    v.push(118);
    v.push(101);
    v.push(114);
    v.push(119);
    v.push(114);
    v.push(105);
    v.push(116);
    v.push(101);
    proof {
        assert(v@ =~= pol_overwrite());
    }
    v
}

/// Bytes of the conflict policy word `keep`.
pub open spec fn pol_keep() -> Seq<u8> {
    seq![107u8, 101, 101, 112]
}

/// Builds the conflict policy word `keep`.
pub fn pol_keep_vec() -> (r: Vec<u8>)
    ensures
        r@ == pol_keep(),
{
    let mut v: Vec<u8> = Vec::new();
    v.push(107);
    v.push(101);
    v.push(101);
    v.push(112);
    proof {
        assert(v@ =~= pol_keep());
    }
    v
}

/// Bytes of the conflict policy word `skip`.
pub open spec fn pol_skip() -> Seq<u8> {
    seq![115u8, 107, 105, 112]
}

/// Builds the conflict policy word `skip`.
pub fn pol_skip_vec() -> (r: Vec<u8>)
    ensures
        r@ == pol_skip(),
{
    let mut v: Vec<u8> = Vec::new();
    v.push(115);
    v.push(107);
    v.push(105);
    v.push(112);
    proof {
        assert(v@ =~= pol_skip());
    }
    v
}

/// Bytes of the export format word `json`.
pub open spec fn fmt_json() -> Seq<u8> {
    seq![106u8, 115, 111, 110]
}

/// Builds the export format word `json`.
pub fn fmt_json_vec() -> (r: Vec<u8>)
    ensures
        r@ == fmt_json(),
{
    let mut v: Vec<u8> = Vec::new();
    v.push(106);
    v.push(115);
    v.push(111);
    v.push(110);
    proof {
        assert(v@ =~= fmt_json());
    }
    v
}

/// Bytes of the export format word `csv`.
pub open spec fn fmt_csv() -> Seq<u8> {
    seq![99u8, 115, 118]
}

/// Builds the export format word `csv`.
pub fn fmt_csv_vec() -> (r: Vec<u8>)
    ensures
        r@ == fmt_csv(),
{
    let mut v: Vec<u8> = Vec::new();
    v.push(99);
    v.push(115);
    v.push(118);
    proof {
        assert(v@ =~= fmt_csv());
    }
    v
}

/// Bytes of the CSV header row `Date,Weight,Note`.
pub open spec fn csv_header() -> Seq<u8> {
    seq![68u8, 97, 116, 101, 44, 87, 101, 105, 103, 104, 116, 44, 78, 111, 116, 101]
}

/// Builds the CSV header row `Date,Weight,Note`.
pub fn csv_header_vec() -> (r: Vec<u8>)
    ensures
        r@ == csv_header(),
{
    let mut v: Vec<u8> = Vec::new();
    v.push(68);
    v.push(97);
    v.push(116);
    v.push(101);
    v.push(44);
    v.push(87);
    v.push(101);
    v.push(105);
    v.push(103);
    v.push(104);
    v.push(116);
    v.push(44);
    v.push(78);
    v.push(111);
    v.push(116);
    v.push(101);
    proof {
        assert(v@ =~= csv_header());
    }
    v
}

/// Bytes of the lower-case word `date`, looked for in a CSV header line.
pub open spec fn word_date() -> Seq<u8> {
    seq![100u8, 97, 116, 101]
}

/// Builds the lower-case word `date`, looked for in a CSV header line.
pub fn word_date_vec() -> (r: Vec<u8>)
    ensures
        r@ == word_date(),
{
    let mut v: Vec<u8> = Vec::new();
    v.push(100);
    v.push(97);
    v.push(116);
    v.push(101);
    proof {
        assert(v@ =~= word_date());
    }
    v
}

/// Bytes of the message prefix `Invalid weight value: `.
pub open spec fn msg_invalid_weight() -> Seq<u8> {
    seq![73u8, 110, 118, 97, 108, 105, 100, 32, 119, 101, 105, 103, 104, 116, 32, 118, 97, 108, 117, 101, 58, 32]
}

/// Builds the message prefix `Invalid weight value: `.
pub fn msg_invalid_weight_vec() -> (r: Vec<u8>)
    ensures
        r@ == msg_invalid_weight(),
{
    let mut v: Vec<u8> = Vec::new();
    v.push(73);
    v.push(110);
    v.push(118);
    v.push(97);
    v.push(108);
    v.push(105);
    v.push(100);
    v.push(32);
    v.push(119);
    v.push(101);
    v.push(105);
    v.push(103);
    v.push(104);
    v.push(116);
    v.push(32);
    v.push(118);
    v.push(97);
    v.push(108);
    v.push(117);
    v.push(101);
    v.push(58);
    v.push(32);
    proof {
        assert(v@ =~= msg_invalid_weight());
    }
    v
}

/// Bytes of the message infix ` on `.
pub open spec fn msg_on() -> Seq<u8> {
    seq![32u8, 111, 110, 32]
}

/// Builds the message infix ` on `.
pub fn msg_on_vec() -> (r: Vec<u8>)
    ensures
        r@ == msg_on(),
{
    let mut v: Vec<u8> = Vec::new();
    v.push(32);
    v.push(111);
    v.push(110);
    v.push(32);
    proof {
        assert(v@ =~= msg_on());
    }
    v
}

/// Bytes of the message prefix `Line `.
pub open spec fn msg_line() -> Seq<u8> {
    seq![76u8, 105, 110, 101, 32]
}

/// Builds the message prefix `Line `.
pub fn msg_line_vec() -> (r: Vec<u8>)
    ensures
        r@ == msg_line(),
{
    let mut v: Vec<u8> = Vec::new();
    v.push(76);
    v.push(105);
    v.push(110);
    v.push(101);
    v.push(32);
    proof {
        assert(v@ =~= msg_line());
    }
    v
}

/// Bytes of the message tail `: Invalid format`.
pub open spec fn msg_invalid_format() -> Seq<u8> {
    seq![58u8, 32, 73, 110, 118, 97, 108, 105, 100, 32, 102, 111, 114, 109, 97, 116]
}

/// Builds the message tail `: Invalid format`.
pub fn msg_invalid_format_vec() -> (r: Vec<u8>)
    ensures
        r@ == msg_invalid_format(),
{
    let mut v: Vec<u8> = Vec::new();
    v.push(58);
    v.push(32);
    v.push(73);
    v.push(110);
    v.push(118);
    v.push(97);
    v.push(108);
    v.push(105);
    v.push(100);
    v.push(32);
    v.push(102);
    v.push(111);
    v.push(114);
    v.push(109);
    v.push(97);
    v.push(116);
    proof {
        assert(v@ =~= msg_invalid_format());
    }
    v
}

/// Bytes of the message tail `: Invalid weight value`.
pub open spec fn msg_invalid_weight_line() -> Seq<u8> {
    seq![58u8, 32, 73, 110, 118, 97, 108, 105, 100, 32, 119, 101, 105, 103, 104, 116, 32, 118, 97, 108, 117, 101]
}

/// Builds the message tail `: Invalid weight value`.
pub fn msg_invalid_weight_line_vec() -> (r: Vec<u8>)
    ensures
        r@ == msg_invalid_weight_line(),
{
    let mut v: Vec<u8> = Vec::new();
    v.push(58);
    v.push(32);
    v.push(73);
    v.push(110);
    v.push(118);
    v.push(97);
    v.push(108);
    v.push(105);
    v.push(100);
    v.push(32);
    v.push(119);
    v.push(101);
    v.push(105);
    v.push(103);
    v.push(104);
    v.push(116);
    v.push(32);
    v.push(118);
    v.push(97);
    v.push(108);
    v.push(117);
    v.push(101);
    proof {
        assert(v@ =~= msg_invalid_weight_line());
    }
    v
}

/// Bytes of the message tail `: Weight out of range`.
pub open spec fn msg_weight_range() -> Seq<u8> {
    seq![58u8, 32, 87, 101, 105, 103, 104, 116, 32, 111, 117, 116, 32, 111, 102, 32, 114, 97, 110, 103, 101]
}

/// Builds the message tail `: Weight out of range`.
pub fn msg_weight_range_vec() -> (r: Vec<u8>)
    ensures
        r@ == msg_weight_range(),
{
    let mut v: Vec<u8> = Vec::new();
    v.push(58);
    v.push(32);
    v.push(87);
    v.push(101);
    v.push(105);
    v.push(103);
    v.push(104);
    v.push(116);
    v.push(32);
    v.push(111);
    v.push(117);
    v.push(116);
    v.push(32);
    v.push(111);
    v.push(102);
    v.push(32);
    v.push(114);
    v.push(97);
    v.push(110);
    v.push(103);
    v.push(101);
    proof {
        assert(v@ =~= msg_weight_range());
    }
    v
}

/// Bytes of the path tail `/.weightlogger/data.json`.
pub open spec fn data_file_suffix() -> Seq<u8> {
    seq![47u8, 46, 119, 101, 105, 103, 104, 116, 108, 111, 103, 103, 101, 114, 47, 100, 97, 116, 97, 46, 106, 115, 111, 110]
}

/// Builds the path tail `/.weightlogger/data.json`.
pub fn data_file_suffix_vec() -> (r: Vec<u8>)
    ensures
        r@ == data_file_suffix(),
{
    let mut v: Vec<u8> = Vec::new();
    v.push(47);
    v.push(46);
    v.push(119);
    v.push(101);
    v.push(105);
    v.push(103);
    v.push(104);
    v.push(116);
    v.push(108);
    v.push(111);
    v.push(103);
    v.push(103);
    v.push(101);
    v.push(114);
    v.push(47);
    v.push(100);
    v.push(97);
    v.push(116);
    v.push(97);
    v.push(46);
    v.push(106);
    v.push(115);
    v.push(111);
    v.push(110);
    proof {
        assert(v@ =~= data_file_suffix());
    }
    v
}

/// Bytes of the message prefix `Skipped existing record on `.
pub open spec fn msg_skipped() -> Seq<u8> {
    seq![83u8, 107, 105, 112, 112, 101, 100, 32, 101, 120, 105, 115, 116, 105, 110, 103, 32, 114, 101, 99, 111, 114, 100, 32, 111, 110, 32]
}

/// Builds the message prefix `Skipped existing record on `.
pub fn msg_skipped_vec() -> (r: Vec<u8>)
    ensures
        r@ == msg_skipped(),
{
    let mut v: Vec<u8> = Vec::new();
    v.push(83);
    v.push(107);
    v.push(105);
    v.push(112);
    v.push(112);
    v.push(101);
    v.push(100);
    v.push(32);
    v.push(101);
    v.push(120);
    v.push(105);
    v.push(115);
    v.push(116);
    v.push(105);
    v.push(110);
    v.push(103);
    v.push(32);
    v.push(114);
    v.push(101);
    v.push(99);
    v.push(111);
    v.push(114);
    v.push(100);
    v.push(32);
    v.push(111);
    v.push(110);
    v.push(32);
    proof {
        assert(v@ =~= msg_skipped());
    }
    v
}

} // verus!
