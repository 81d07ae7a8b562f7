//! The document codec: the JSON form the store persists, backs up and
//! exports, written and read by verified code, with the proof that reading
//! back what was written yields the document that was given.
//!
//! The writer emits compact JSON with the fields in declaration order; the
//! reader accepts that shape with any whitespace between tokens.

use vstd::prelude::*;
use crate::bytes::{
    is_ws, is_digit, sw, lemma_sw_props, skip_ws, dec_digits, ser_milli, ser_i32, p_number, p_int,
    digits_end, push_dec, push_milli, push_i32, push_all, parse_number, parse_int, lemma_p_number_ser,
    lemma_p_int_ser, lemma_p_number_bounds, lemma_digits_end_props,
};
use crate::model::{AppData, AppDataV, RecordV, WeightRecord, UserProfile, Goal, ProfileV, GoalV};
use crate::store::views_of;

verus! {

// ---------------------------------------------------------------------------
// Strings: escaping and its inverse
// ---------------------------------------------------------------------------

pub open spec fn hex_digit(d: u8) -> u8 {
    if d < 10 {
        (48 + d) as u8
    } else {
        (87 + d) as u8
    }
}

/// How one byte is written inside a JSON string: quote, backslash and the
/// named control characters with a backslash, other control bytes as
/// `\u00..`, everything else as itself.
pub open spec fn esc_byte(b: u8) -> Seq<u8> {
    if b == 34 {
        seq![92u8, 34]
    } else if b == 92 {
        seq![92u8, 92]
    } else if b == 8 {
        seq![92u8, 98]
    } else if b == 9 {
        seq![92u8, 116]
    } else if b == 10 {
        seq![92u8, 110]
    } else if b == 12 {
        seq![92u8, 102]
    } else if b == 13 {
        seq![92u8, 114]
    } else if b < 32 {
        seq![92u8, 117, 48, 48, hex_digit(b / 16), hex_digit(b % 16)]
    } else {
        seq![b]
    }
}

pub open spec fn esc(t: Seq<u8>) -> Seq<u8>
    decreases t.len(),
{
    if t.len() == 0 {
        Seq::empty()
    } else {
        esc_byte(t[0]) + esc(t.drop_first())
    }
}

/// A whole JSON string token.
pub open spec fn ser_string(t: Seq<u8>) -> Seq<u8> {
    seq![34u8] + esc(t) + seq![34u8]
}

pub open spec fn is_hex(b: u8) -> bool {
    is_digit(b) || 97 <= b <= 102 || 65 <= b <= 70
}

pub open spec fn unhex(b: u8) -> u8 {
    if is_digit(b) {
        (b - 48) as u8
    } else if 97 <= b <= 102 {
        (b - 87) as u8
    } else {
        (b - 55) as u8
    }
}

/// Reads a string body from `i` (just inside the opening quote) to its
/// closing quote: the unescaped bytes and the index after the quote.
/// Escapes cover the simple set and `\u00..`; string bytes carry UTF-8
/// through unchanged.
pub open spec fn p_str_body(s: Seq<u8>, i: int) -> Option<(Seq<u8>, int)>
    decreases s.len() - i,
{
    if !(0 <= i < s.len()) {
        None
    } else if s[i] == 34 {
        Some((Seq::empty(), i + 1))
    } else if s[i] == 92 {
        if i + 1 >= s.len() {
            None
        } else {
            let c = s[i + 1];
            if c == 34 || c == 92 || c == 47 {
                match p_str_body(s, i + 2) {
                    Some(t) => Some((seq![c] + t.0, t.1)),
                    None => None,
                }
            } else if c == 98 {
                match p_str_body(s, i + 2) {
                    Some(t) => Some((seq![8u8] + t.0, t.1)),
                    None => None,
                }
            } else if c == 116 {
                match p_str_body(s, i + 2) {
                    Some(t) => Some((seq![9u8] + t.0, t.1)),
                    None => None,
                }
            } else if c == 110 {
                match p_str_body(s, i + 2) {
                    Some(t) => Some((seq![10u8] + t.0, t.1)),
                    None => None,
                }
            } else if c == 102 {
                match p_str_body(s, i + 2) {
                    Some(t) => Some((seq![12u8] + t.0, t.1)),
                    None => None,
                }
            } else if c == 114 {
                match p_str_body(s, i + 2) {
                    Some(t) => Some((seq![13u8] + t.0, t.1)),
                    None => None,
                }
            } else if c == 117 {
                if i + 6 <= s.len() && s[i + 2] == 48 && s[i + 3] == 48 && is_hex(s[i + 4])
                    && is_hex(s[i + 5]) {
                    match p_str_body(s, i + 6) {
                        Some(t) => Some(
                            (seq![(16 * unhex(s[i + 4]) + unhex(s[i + 5])) as u8] + t.0, t.1),
                        ),
                        None => None,
                    }
                } else {
                    None
                }
            } else {
                None
            }
        }
    } else {
        match p_str_body(s, i + 1) {
            Some(t) => Some((seq![s[i]] + t.0, t.1)),
            None => None,
        }
    }
}

/// Reading a written string body gives back the bytes that were written.
pub proof fn lemma_str_body_ser(t: Seq<u8>, pre: Seq<u8>, rest: Seq<u8>)
    ensures
        p_str_body(pre + esc(t) + seq![34u8] + rest, pre.len() as int) == Some(
            (t, pre.len() + esc(t).len() + 1 as int),
        ),
    decreases t.len(),
{
    let s = pre + esc(t) + seq![34u8] + rest;
    let p = pre.len() as int;
    if t.len() == 0 {
        assert(s[p] == 34);
    } else {
        let b = t[0];
        let eb = esc_byte(b);
        let t2 = t.drop_first();
        assert(esc(t) == eb + esc(t2));
        let pre2 = pre + eb;
        lemma_str_body_ser(t2, pre2, rest);
        assert(pre2 + esc(t2) + seq![34u8] + rest =~= s);
        assert(forall|k: int| 0 <= k < eb.len() ==> s[p + k] == eb[k]);
        assert(p_str_body(s, p + eb.len()) == Some(
            (t2, pre2.len() + esc(t2).len() + 1 as int),
        ));
        if b == 34 || b == 92 {
            assert(s[p] == 92 && s[p + 1] == b);
            assert(seq![b] + t2 =~= t);
        } else if b == 8 || b == 9 || b == 10 || b == 12 || b == 13 {
            assert(s[p] == 92);
            assert(seq![b] + t2 =~= t);
        } else if b < 32 {
            assert(s[p] == 92 && s[p + 1] == 117 && s[p + 2] == 48 && s[p + 3] == 48);
            assert(s[p + 4] == hex_digit(b / 16) && s[p + 5] == hex_digit(b % 16));
            assert(is_hex(hex_digit(b / 16)) && is_hex(hex_digit(b % 16)));
            assert(unhex(hex_digit(b / 16)) == b / 16 && unhex(hex_digit(b % 16)) == b % 16);
            assert(16 * (b / 16) + b % 16 == b);
            assert(seq![b] + t2 =~= t);
        } else {
            assert(s[p] == b && b != 34 && b != 92);
            assert(seq![b] + t2 =~= t);
        }
    }
}

} // verus!

verus! {

// ---------------------------------------------------------------------------
// Tokens
// ---------------------------------------------------------------------------

/// One expected byte, whitespace before it skipped.
pub open spec fn p_char(s: Seq<u8>, i: int, c: u8) -> Option<int> {
    if i < 0 {
        None
    } else {
        let j = sw(s, i);
        if j < s.len() && s[j] == c {
            Some(j + 1)
        } else {
            None
        }
    }
}

/// An expected literal run, whitespace before it skipped.
pub open spec fn p_exact(s: Seq<u8>, i: int, lit: Seq<u8>) -> Option<int> {
    if i < 0 {
        None
    } else {
        let j = sw(s, i);
        if j + lit.len() <= s.len() && s.subrange(j, j + lit.len() as int) == lit {
            Some(j + lit.len() as int)
        } else {
            None
        }
    }
}

/// A quoted string token.
pub open spec fn p_string(s: Seq<u8>, i: int) -> Option<(Seq<u8>, int)> {
    match p_char(s, i, 34) {
        Some(j) => p_str_body(s, j),
        None => None,
    }
}

pub open spec fn p_number_ws(s: Seq<u8>, i: int) -> Option<(u64, int)> {
    if i < 0 {
        None
    } else {
        p_number(s, sw(s, i))
    }
}

pub open spec fn p_int_ws(s: Seq<u8>, i: int) -> Option<(i32, int)> {
    if i < 0 {
        None
    } else {
        p_int(s, sw(s, i))
    }
}

/// `"key"` followed by a colon.
pub open spec fn p_field_prefix(s: Seq<u8>, i: int, key: Seq<u8>) -> Option<int> {
    match p_exact(s, i, key) {
        Some(j) => p_char(s, j, 58),
        None => None,
    }
}

/// `"key"` and colon followed by a string value.
pub open spec fn p_field_str(s: Seq<u8>, i: int, key: Seq<u8>) -> Option<(Seq<u8>, int)> {
    match p_field_prefix(s, i, key) {
        Some(j) => p_string(s, j),
        None => None,
    }
}

// ---------------------------------------------------------------------------
// Bounds: a token that parses ends past where it began, inside the input
// ---------------------------------------------------------------------------

pub proof fn lemma_p_char_bounds(s: Seq<u8>, i: int, c: u8)
    ensures
        match p_char(s, i, c) {
            Some(j) => i < j <= s.len(),
            None => true,
        },
{
    if 0 <= i <= s.len() {
        lemma_sw_props(s, i);
    }
}

pub proof fn lemma_p_exact_bounds(s: Seq<u8>, i: int, lit: Seq<u8>)
    ensures
        match p_exact(s, i, lit) {
            Some(j) => i <= j <= s.len() && (lit.len() > 0 ==> i < j),
            None => true,
        },
{
    if 0 <= i <= s.len() {
        lemma_sw_props(s, i);
    }
}

pub proof fn lemma_p_str_body_bounds(s: Seq<u8>, i: int)
    ensures
        match p_str_body(s, i) {
            Some(t) => i < t.1 <= s.len(),
            None => true,
        },
    decreases s.len() - i,
{
    if 0 <= i < s.len() && s[i] != 34 {
        if s[i] == 92 {
            if i + 1 < s.len() {
                lemma_p_str_body_bounds(s, i + 2);
                if i + 6 <= s.len() {
                    lemma_p_str_body_bounds(s, i + 6);
                }
            }
        } else {
            lemma_p_str_body_bounds(s, i + 1);
        }
    }
}

pub proof fn lemma_p_string_bounds(s: Seq<u8>, i: int)
    ensures
        match p_string(s, i) {
            Some(t) => i < t.1 <= s.len(),
            None => true,
        },
{
    lemma_p_char_bounds(s, i, 34);
    match p_char(s, i, 34) {
        Some(j) => {
            lemma_p_str_body_bounds(s, j);
        },
        None => {},
    }
}

pub proof fn lemma_p_number_ws_bounds(s: Seq<u8>, i: int)
    ensures
        match p_number_ws(s, i) {
            Some(t) => i < t.1 <= s.len(),
            None => true,
        },
{
    if 0 <= i <= s.len() {
        lemma_sw_props(s, i);
        let j = sw(s, i);
        crate::bytes::lemma_p_number_bounds(s, j);
        match p_number(s, j) {
            Some(p) => {
                if s[j] == 45 {
                    lemma_digits_end_props(s, j + 1);
                    if digits_end(s, j + 1) < s.len() && s[digits_end(s, j + 1)] == 46 {
                        lemma_digits_end_props(s, digits_end(s, j + 1) + 1);
                    }
                } else {
                    lemma_digits_end_props(s, j);
                    if digits_end(s, j) < s.len() && s[digits_end(s, j)] == 46 {
                        lemma_digits_end_props(s, digits_end(s, j) + 1);
                    }
                }
            },
            None => {},
        }
    } else if i > s.len() {
        assert(sw(s, i) == i);
    }
}

pub proof fn lemma_p_int_ws_bounds(s: Seq<u8>, i: int)
    ensures
        match p_int_ws(s, i) {
            Some(t) => i < t.1 <= s.len(),
            None => true,
        },
{
    if 0 <= i <= s.len() {
        lemma_sw_props(s, i);
        let j = sw(s, i);
        lemma_digits_end_props(s, j);
        if j < s.len() && s[j] == 45 {
            lemma_digits_end_props(s, j + 1);
        }
    } else if i > s.len() {
        assert(sw(s, i) == i);
    }
}

pub proof fn lemma_p_field_str_bounds(s: Seq<u8>, i: int, key: Seq<u8>)
    ensures
        match p_field_str(s, i, key) {
            Some(t) => i <= t.1 <= s.len() && (key.len() > 0 ==> i < t.1),
            None => true,
        },
{
    lemma_p_exact_bounds(s, i, key);
    match p_exact(s, i, key) {
        Some(j) => {
            lemma_p_char_bounds(s, j, 58);
            match p_char(s, j, 58) {
                Some(j2) => {
                    lemma_p_string_bounds(s, j2);
                },
                None => {},
            }
        },
        None => {},
    }
}

} // verus!

verus! {

// ---------------------------------------------------------------------------
// Values: how each part of the document is written and read
// ---------------------------------------------------------------------------

/// `"key":"value"`.
pub open spec fn field_str(key: Seq<u8>, v: Seq<u8>) -> Seq<u8> {
    key + seq![58u8] + ser_string(v)
}

pub open spec fn ser_record(r: RecordV) -> Seq<u8> {
    seq![123u8] + field_str(crate::lit::k_id(), r.id) + seq![44u8] + field_str(
        crate::lit::k_date(),
        r.date,
    ) + seq![44u8] + crate::lit::k_weight() + seq![58u8] + ser_milli(r.weight_milli) + (match r
        .note {
        Some(n) => seq![44u8] + field_str(crate::lit::k_note(), n),
        None => Seq::empty(),
    }) + seq![44u8] + field_str(crate::lit::k_created_at(), r.created_at) + seq![125u8]
}

pub open spec fn ser_rec_items(rs: Seq<RecordV>) -> Seq<u8>
    decreases rs.len(),
{
    if rs.len() == 0 {
        Seq::empty()
    } else if rs.len() == 1 {
        ser_record(rs[0])
    } else {
        ser_record(rs[0]) + seq![44u8] + ser_rec_items(rs.drop_first())
    }
}

pub open spec fn ser_records(rs: Seq<RecordV>) -> Seq<u8> {
    seq![91u8] + ser_rec_items(rs) + seq![93u8]
}

pub open spec fn ser_profile(p: ProfileV) -> Seq<u8> {
    seq![123u8] + crate::lit::k_height() + seq![58u8] + ser_milli(p.height_milli) + (match p
        .gender {
        Some(g) => seq![44u8] + field_str(crate::lit::k_gender(), g),
        None => Seq::empty(),
    }) + seq![125u8]
}

pub open spec fn ser_goal(g: GoalV) -> Seq<u8> {
    seq![123u8] + crate::lit::k_target_weight() + seq![58u8] + ser_milli(g.target_weight_milli) + (
    match g.target_date {
        Some(d) => seq![44u8] + field_str(crate::lit::k_target_date(), d),
        None => Seq::empty(),
    }) + seq![44u8] + field_str(crate::lit::k_created_at(), g.created_at) + seq![125u8]
}

/// The whole document, compact, fields in declaration order, absent
/// singletons left out.
pub open spec fn ser_doc(d: AppDataV) -> Seq<u8> {
    seq![123u8] + crate::lit::k_records() + seq![58u8] + ser_records(d.records) + (match d.profile {
        Some(p) => seq![44u8] + crate::lit::k_profile() + seq![58u8] + ser_profile(p),
        None => Seq::empty(),
    }) + (match d.goal {
        Some(g) => seq![44u8] + crate::lit::k_goal() + seq![58u8] + ser_goal(g),
        None => Seq::empty(),
    }) + seq![44u8] + crate::lit::k_version() + seq![58u8] + ser_i32(d.version) + seq![125u8]
}

/// The optional `"note"` field and the `"created_at"` field that closes a
/// record's fields.
pub open spec fn p_note_created(s: Seq<u8>, i: int) -> Option<((Option<Seq<u8>>, Seq<u8>), int)> {
    match p_field_str(s, i, crate::lit::k_note()) {
        Some(n) => match p_char(s, n.1, 44) {
            Some(j) => match p_field_str(s, j, crate::lit::k_created_at()) {
                Some(ca) => Some(((Some(n.0), ca.0), ca.1)),
                None => None,
            },
            None => None,
        },
        None => match p_field_str(s, i, crate::lit::k_created_at()) {
            Some(ca) => Some(((None, ca.0), ca.1)),
            None => None,
        },
    }
}

/// One record object, fields in declaration order, the note optional.
pub open spec fn p_record(s: Seq<u8>, i: int) -> Option<(RecordV, int)> {
    match p_char(s, i, 123) {
        None => None,
        Some(a) => match p_field_str(s, a, crate::lit::k_id()) {
            None => None,
            Some(id) => match p_char(s, id.1, 44) {
                None => None,
                Some(b) => match p_field_str(s, b, crate::lit::k_date()) {
                    None => None,
                    Some(date) => match p_char(s, date.1, 44) {
                        None => None,
                        Some(c) => match p_field_prefix(s, c, crate::lit::k_weight()) {
                            None => None,
                            Some(d0) => match p_number_ws(s, d0) {
                                None => None,
                                Some(w) => match p_char(s, w.1, 44) {
                                    None => None,
                                    Some(e) => match p_note_created(s, e) {
                                        None => None,
                                        Some(nc) => match p_char(s, nc.1, 125) {
                                            None => None,
                                            Some(z) => Some(
                                                (
                                                    RecordV {
                                                        id: id.0,
                                                        date: date.0,
                                                        weight_milli: w.0,
                                                        note: nc.0.0,
                                                        created_at: nc.0.1,
                                                    },
                                                    z,
                                                ),
                                            ),
                                        },
                                    },
                                },
                            },
                        },
                    },
                },
            },
        },
    }
}

pub proof fn lemma_p_record_bounds(s: Seq<u8>, i: int)
    ensures
        match p_record(s, i) {
            Some(t) => i < t.1 <= s.len(),
            None => true,
        },
{
    lemma_p_char_bounds(s, i, 123);
    if let Some(a) = p_char(s, i, 123) {
        lemma_p_field_str_bounds(s, a, crate::lit::k_id());
        if let Some(id) = p_field_str(s, a, crate::lit::k_id()) {
            lemma_p_char_bounds(s, id.1, 44);
            if let Some(b) = p_char(s, id.1, 44) {
                lemma_p_field_str_bounds(s, b, crate::lit::k_date());
                if let Some(date) = p_field_str(s, b, crate::lit::k_date()) {
                    lemma_p_char_bounds(s, date.1, 44);
                    if let Some(c) = p_char(s, date.1, 44) {
                        lemma_p_exact_bounds(s, c, crate::lit::k_weight());
                        if let Some(d1) = p_exact(s, c, crate::lit::k_weight()) {
                            lemma_p_char_bounds(s, d1, 58);
                            if let Some(d0) = p_char(s, d1, 58) {
                                lemma_p_number_ws_bounds(s, d0);
                                if let Some(w) = p_number_ws(s, d0) {
                                    lemma_p_char_bounds(s, w.1, 44);
                                    if let Some(e) = p_char(s, w.1, 44) {
                                        lemma_p_field_str_bounds(s, e, crate::lit::k_note());
                                        lemma_p_field_str_bounds(s, e, crate::lit::k_created_at());
                                        if let Some(n) = p_field_str(s, e, crate::lit::k_note()) {
                                            lemma_p_char_bounds(s, n.1, 44);
                                            if let Some(j) = p_char(s, n.1, 44) {
                                                lemma_p_field_str_bounds(
                                                    s,
                                                    j,
                                                    crate::lit::k_created_at(),
                                                );
                                            }
                                        }
                                        if let Some(nc) = p_note_created(s, e) {
                                            lemma_p_char_bounds(s, nc.1, 125);
                                        }
                                    }
                                }
                            }
                        }
                    }
                }
            }
        }
    }
}

/// One or more records separated by commas, then the closing bracket.
pub open spec fn p_rec_list(s: Seq<u8>, i: int) -> Option<(Seq<RecordV>, int)>
    decreases s.len() - i,
    via p_rec_list_dec
{
    match p_record(s, i) {
        None => None,
        Some(r) => match p_char(s, r.1, 44) {
            Some(j) => match p_rec_list(s, j) {
                Some(l) => Some((seq![r.0] + l.0, l.1)),
                None => None,
            },
            None => match p_char(s, r.1, 93) {
                Some(j) => Some((seq![r.0], j)),
                None => None,
            },
        },
    }
}

#[via_fn]
proof fn p_rec_list_dec(s: Seq<u8>, i: int) {
    lemma_p_record_bounds(s, i);
    if let Some(r) = p_record(s, i) {
        lemma_p_char_bounds(s, r.1, 44);
    }
}

/// A record array: empty brackets, or a comma-separated list.
pub open spec fn p_records(s: Seq<u8>, i: int) -> Option<(Seq<RecordV>, int)> {
    match p_char(s, i, 91) {
        None => None,
        Some(j) => match p_char(s, j, 93) {
            Some(k) => Some((Seq::<RecordV>::empty(), k)),
            None => p_rec_list(s, j),
        },
    }
}

/// A profile object: height, optional gender.
pub open spec fn p_profile(s: Seq<u8>, i: int) -> Option<(ProfileV, int)> {
    match p_char(s, i, 123) {
        None => None,
        Some(a) => match p_field_prefix(s, a, crate::lit::k_height()) {
            None => None,
            Some(b) => match p_number_ws(s, b) {
                None => None,
                Some(h) => match p_char(s, h.1, 44) {
                    Some(c) => match p_field_str(s, c, crate::lit::k_gender()) {
                        None => None,
                        Some(g) => match p_char(s, g.1, 125) {
                            None => None,
                            Some(z) => Some(
                                (ProfileV { height_milli: h.0, gender: Some(g.0) }, z),
                            ),
                        },
                    },
                    None => match p_char(s, h.1, 125) {
                        None => None,
                        Some(z) => Some((ProfileV { height_milli: h.0, gender: None }, z)),
                    },
                },
            },
        },
    }
}

/// A goal object: target weight, optional target date, creation timestamp.
pub open spec fn p_goal(s: Seq<u8>, i: int) -> Option<(GoalV, int)> {
    match p_char(s, i, 123) {
        None => None,
        Some(a) => match p_field_prefix(s, a, crate::lit::k_target_weight()) {
            None => None,
            Some(b) => match p_number_ws(s, b) {
                None => None,
                Some(w) => match p_char(s, w.1, 44) {
                    None => None,
                    Some(c) => match p_field_str(s, c, crate::lit::k_target_date()) {
                        Some(td) => match p_char(s, td.1, 44) {
                            None => None,
                            Some(d0) => match p_field_str(s, d0, crate::lit::k_created_at()) {
                                None => None,
                                Some(ca) => match p_char(s, ca.1, 125) {
                                    None => None,
                                    Some(z) => Some(
                                        (
                                            GoalV {
                                                target_weight_milli: w.0,
                                                target_date: Some(td.0),
                                                created_at: ca.0,
                                            },
                                            z,
                                        ),
                                    ),
                                },
                            },
                        },
                        None => match p_field_str(s, c, crate::lit::k_created_at()) {
                            None => None,
                            Some(ca) => match p_char(s, ca.1, 125) {
                                None => None,
                                Some(z) => Some(
                                    (
                                        GoalV {
                                            target_weight_milli: w.0,
                                            target_date: None,
                                            created_at: ca.0,
                                        },
                                        z,
                                    ),
                                ),
                            },
                        },
                    },
                },
            },
        },
    }
}

/// The optional `"profile"` member, ending with the comma that follows it.
pub open spec fn p_opt_profile(s: Seq<u8>, i: int) -> Option<(Option<ProfileV>, int)> {
    match p_field_prefix(s, i, crate::lit::k_profile()) {
        Some(a) => match p_profile(s, a) {
            None => None,
            Some(p) => match p_char(s, p.1, 44) {
                None => None,
                Some(j) => Some((Some(p.0), j)),
            },
        },
        None => Some((None, i)),
    }
}

/// The optional `"goal"` member, ending with the comma that follows it.
pub open spec fn p_opt_goal(s: Seq<u8>, i: int) -> Option<(Option<GoalV>, int)> {
    match p_field_prefix(s, i, crate::lit::k_goal()) {
        Some(a) => match p_goal(s, a) {
            None => None,
            Some(g) => match p_char(s, g.1, 44) {
                None => None,
                Some(j) => Some((Some(g.0), j)),
            },
        },
        None => Some((None, i)),
    }
}

/// The members that close a document: the comma after the records, the
/// optional profile and goal, the version, the closing brace.
pub open spec fn p_doc_members(s: Seq<u8>, i: int) -> Option<((Option<ProfileV>, Option<GoalV>, i32), int)> {
    match p_char(s, i, 44) {
        None => None,
        Some(c) => match p_opt_profile(s, c) {
            None => None,
            Some(pr) => match p_opt_goal(s, pr.1) {
                None => None,
                Some(gl) => match p_field_prefix(s, gl.1, crate::lit::k_version()) {
                    None => None,
                    Some(d0) => match p_int_ws(s, d0) {
                        None => None,
                        Some(v) => match p_char(s, v.1, 125) {
                            None => None,
                            Some(z) => Some(((pr.0, gl.0, v.0), z)),
                        },
                    },
                },
            },
        },
    }
}

/// The document object: records, optional profile, optional goal, version.
pub open spec fn p_doc(s: Seq<u8>, i: int) -> Option<(AppDataV, int)> {
    match p_char(s, i, 123) {
        None => None,
        Some(a) => match p_field_prefix(s, a, crate::lit::k_records()) {
            None => None,
            Some(b) => match p_records(s, b) {
                None => None,
                Some(rs) => match p_doc_members(s, rs.1) {
                    None => None,
                    Some(m) => Some(
                        (
                            AppDataV {
                                records: rs.0,
                                profile: m.0.0,
                                goal: m.0.1,
                                version: m.0.2,
                            },
                            m.1,
                        ),
                    ),
                },
            },
        },
    }
}

/// The whole input as one document: nothing but whitespace may follow it.
pub open spec fn parse_doc_spec(s: Seq<u8>) -> Option<AppDataV> {
    match p_doc(s, 0) {
        Some(d) => if sw(s, d.1) == s.len() {
            Some(d.0)
        } else {
            None
        },
        None => None,
    }
}

/// The whole input as one bare record array.
pub open spec fn parse_records_spec(s: Seq<u8>) -> Option<Seq<RecordV>> {
    match p_records(s, 0) {
        Some(r) => if sw(s, r.1) == s.len() {
            Some(r.0)
        } else {
            None
        },
        None => None,
    }
}

} // verus!

verus! {

// ---------------------------------------------------------------------------
// Round trip: reading a written token at its place in a larger text
// ---------------------------------------------------------------------------

proof fn lemma_step_char(s: Seq<u8>, p: int, c: u8)
    requires
        0 <= p < s.len(),
        s[p] == c,
        !is_ws(c),
    ensures
        p_char(s, p, c) == Some(p + 1),
{
    assert(sw(s, p) == p);
}

proof fn lemma_step_exact(s: Seq<u8>, p: int, lit: Seq<u8>)
    requires
        0 <= p,
        p + lit.len() <= s.len(),
        lit.len() > 0,
        !is_ws(lit[0]),
        forall|k: int| 0 <= k < lit.len() ==> s[p + k] == lit[k],
    ensures
        p_exact(s, p, lit) == Some(p + lit.len() as int),
{
    assert(s[p + 0] == lit[0]);
    assert(s[p] == lit[0]);
    assert(sw(s, p) == p);
    assert(s.subrange(p, p + lit.len() as int) =~= lit);
}

proof fn lemma_step_string(s: Seq<u8>, p: int, t: Seq<u8>)
    requires
        0 <= p,
        p + ser_string(t).len() <= s.len(),
        forall|k: int| 0 <= k < ser_string(t).len() ==> s[p + k] == ser_string(t)[k],
    ensures
        p_string(s, p) == Some((t, p + ser_string(t).len() as int)),
{
    let st = ser_string(t);
    assert(st[0] == 34);
    assert(forall|k: int| 0 <= k < esc(t).len() ==> st[1 + k] == esc(t)[k]);
    assert(st[st.len() - 1] == 34);
    assert(s[p + 0] == st[0]);
    assert(s[p] == 34);
    assert(sw(s, p) == p);
    let pre = s.take(p + 1);
    let rest = s.skip(p + st.len() as int);
    assert(pre + esc(t) + seq![34u8] + rest =~= s);
    lemma_str_body_ser(t, pre, rest);
}

proof fn lemma_step_field_str(s: Seq<u8>, p: int, key: Seq<u8>, v: Seq<u8>)
    requires
        0 <= p,
        p + field_str(key, v).len() <= s.len(),
        key.len() > 0,
        !is_ws(key[0]),
        forall|k: int| 0 <= k < field_str(key, v).len() ==> s[p + k] == field_str(key, v)[k],
    ensures
        p_field_str(s, p, key) == Some((v, p + field_str(key, v).len() as int)),
{
    let f = field_str(key, v);
    assert(forall|k: int| 0 <= k < key.len() ==> f[k] == key[k]);
    lemma_step_exact(s, p, key);
    assert(f[key.len() as int] == 58);
    lemma_step_char(s, p + key.len(), 58);
    assert(forall|k: int| 0 <= k < ser_string(v).len() ==> f[key.len() + 1 + k] == ser_string(
        v,
    )[k]);
    lemma_step_string(s, p + key.len() + 1, v);
}

proof fn lemma_step_number(s: Seq<u8>, p: int, w: u64)
    requires
        0 <= p,
        p + ser_milli(w).len() <= s.len(),
        forall|k: int| 0 <= k < ser_milli(w).len() ==> s[p + k] == ser_milli(w)[k],
        p + ser_milli(w).len() == s.len() || (!is_digit(s[p + ser_milli(w).len()]) && s[p
            + ser_milli(w).len()] != 46),
    ensures
        p_number_ws(s, p) == Some((w, p + ser_milli(w).len() as int)),
{
    let m = ser_milli(w);
    let pre = s.take(p);
    let rest = s.skip(p + m.len() as int);
    assert(pre + m + rest =~= s);
    lemma_p_number_ser(w, pre, rest);
    crate::bytes::lemma_dec_digits_props((w / 1000) as nat);
    assert(m[0] == dec_digits((w / 1000) as nat)[0]);
    assert(s[p + 0] == m[0]);
    assert(is_digit(s[p]));
    assert(sw(s, p) == p);
}

proof fn lemma_step_int(s: Seq<u8>, p: int, v: i32)
    requires
        0 <= p,
        p + ser_i32(v).len() <= s.len(),
        forall|k: int| 0 <= k < ser_i32(v).len() ==> s[p + k] == ser_i32(v)[k],
        p + ser_i32(v).len() == s.len() || !is_digit(s[p + ser_i32(v).len()]),
    ensures
        p_int_ws(s, p) == Some((v, p + ser_i32(v).len() as int)),
{
    let m = ser_i32(v);
    let pre = s.take(p);
    let rest = s.skip(p + m.len() as int);
    assert(pre + m + rest =~= s);
    lemma_p_int_ser(v, pre, rest);
    assert(s[p + 0] == m[0]);
    if v >= 0 {
        crate::bytes::lemma_dec_digits_props(v as nat);
        assert(m[0] == dec_digits(v as nat)[0]);
        assert(is_digit(s[p]));
    } else {
        assert(m[0] == 45);
        assert(s[p] == 45);
    }
    assert(sw(s, p) == p);
}

} // verus!

verus! {

/// The field section that closes a record: the optional note, then the
/// creation timestamp.
pub open spec fn nc_seq(note: Option<Seq<u8>>, ca: Seq<u8>) -> Seq<u8> {
    (match note {
        Some(n) => field_str(crate::lit::k_note(), n) + seq![44u8],
        None => Seq::empty(),
    }) + field_str(crate::lit::k_created_at(), ca)
}

#[verifier::rlimit(60)]
proof fn lemma_step_note_created(s: Seq<u8>, q: int, note: Option<Seq<u8>>, ca: Seq<u8>)
    requires
        0 <= q,
        q + nc_seq(note, ca).len() <= s.len(),
        forall|k: int| 0 <= k < nc_seq(note, ca).len() ==> s[q + k] == nc_seq(note, ca)[k],
    ensures
        p_note_created(s, q) == Some(((note, ca), q + nc_seq(note, ca).len() as int)),
{
    let nc = nc_seq(note, ca);
    let f_ca = field_str(crate::lit::k_created_at(), ca);
    match note {
        Some(n) => {
            let f_n = field_str(crate::lit::k_note(), n);
            assert(forall|t: int| 0 <= t < f_n.len() ==> nc[t] == f_n[t]);
            assert(nc[f_n.len() as int] == 44);
            assert(forall|t: int| 0 <= t < f_ca.len() ==> nc[f_n.len() + 1 + t] == f_ca[t]);
            lemma_step_field_str(s, q, crate::lit::k_note(), n);
            lemma_step_char(s, q + f_n.len(), 44);
            lemma_step_field_str(s, q + f_n.len() + 1, crate::lit::k_created_at(), ca);
        },
        None => {
            assert(forall|t: int| 0 <= t < f_ca.len() ==> nc[t] == f_ca[t]);
            lemma_step_field_str(s, q, crate::lit::k_created_at(), ca);
            // `"note"` does not parse there: the key written is `"created_at"`
            assert(p_field_str(s, q, crate::lit::k_note()) is None) by {
                assert(crate::lit::k_created_at()[0] == 34 && crate::lit::k_created_at()[1] == 99);
                assert(f_ca[0] == 34 && f_ca[1] == 99);
                assert(s[q + 0] == 34 && s[q + 1] == 99);
                assert(sw(s, q) == q);
                let kn = crate::lit::k_note();
                if p_exact(s, q, kn) is Some {
                    assert(s.subrange(q, q + kn.len() as int) == kn);
                    assert(s.subrange(q, q + kn.len() as int)[1] == s[q + 1]);
                    assert(kn[1] == 110);
                }
            }
        },
    }
}

/// Reading a written record at its place gives back the record.
#[verifier::rlimit(100)]
pub proof fn lemma_p_record_ser(r: RecordV, s: Seq<u8>, p: int)
    requires
        0 <= p,
        p + ser_record(r).len() <= s.len(),
        forall|k: int| 0 <= k < ser_record(r).len() ==> s[p + k] == ser_record(r)[k],
    ensures
        p_record(s, p) == Some((r, p + ser_record(r).len() as int)),
{
    let body = ser_record(r);
    let f_id = field_str(crate::lit::k_id(), r.id);
    let f_date = field_str(crate::lit::k_date(), r.date);
    let kw = crate::lit::k_weight();
    let m = ser_milli(r.weight_milli);
    let opt_note: Seq<u8> = match r.note {
        Some(n) => seq![44u8] + field_str(crate::lit::k_note(), n),
        None => Seq::empty(),
    };
    let f_ca = field_str(crate::lit::k_created_at(), r.created_at);
    let nc = nc_seq(r.note, r.created_at);
    let o1 = p + 1;
    let o2 = o1 + f_id.len();
    let o3 = o2 + 1;
    let o4 = o3 + f_date.len();
    let o5 = o4 + 1;
    let o6 = o5 + kw.len();
    let o7 = o6 + 1;
    let o8 = o7 + m.len();
    let o9 = o8 + opt_note.len();
    let o10 = o9 + 1;
    let o11 = o10 + f_ca.len();
    assert(body.len() == 1 + f_id.len() + 1 + f_date.len() + 1 + kw.len() + 1 + m.len()
        + opt_note.len() + 1 + f_ca.len() + 1);
    assert(body[0] == 123);
    assert(forall|t: int| 0 <= t < f_id.len() ==> body[1 + t] == f_id[t]);
    assert(body[o2 - p] == 44);
    assert(forall|t: int| 0 <= t < f_date.len() ==> body[o3 - p + t] == f_date[t]);
    assert(body[o4 - p] == 44);
    assert(forall|t: int| 0 <= t < kw.len() ==> body[o5 - p + t] == kw[t]);
    assert(body[o6 - p] == 58);
    assert(forall|t: int| 0 <= t < m.len() ==> body[o7 - p + t] == m[t]);
    assert(forall|t: int| 0 <= t < opt_note.len() ==> body[o8 - p + t] == opt_note[t]);
    assert(body[o9 - p] == 44);
    assert(forall|t: int| 0 <= t < f_ca.len() ==> body[o10 - p + t] == f_ca[t]);
    assert(body[o11 - p] == 125);
    // the closing section, seen as one run from just after the comma
    assert(nc.len() == o11 - (o8 + 1));
    assert(forall|t: int| 0 <= t < nc.len() ==> s[o8 + 1 + t] == nc[t]) by {
        match r.note {
            Some(n) => {
                let f_n = field_str(crate::lit::k_note(), n);
                assert(forall|t: int| 0 <= t < f_n.len() ==> opt_note[1 + t] == f_n[t]);
                assert(forall|t: int| 0 <= t < f_n.len() ==> nc[t] == f_n[t]);
                assert(nc[f_n.len() as int] == 44);
                assert(forall|t: int| 0 <= t < f_ca.len() ==> nc[f_n.len() + 1 + t] == f_ca[t]);
            },
            None => {
                assert(forall|t: int| 0 <= t < f_ca.len() ==> nc[t] == f_ca[t]);
            },
        }
    }
    // walk the tokens
    lemma_step_char(s, p, 123);
    lemma_step_field_str(s, o1, crate::lit::k_id(), r.id);
    lemma_step_char(s, o2, 44);
    lemma_step_field_str(s, o3, crate::lit::k_date(), r.date);
    lemma_step_char(s, o4, 44);
    lemma_step_exact(s, o5, kw);
    lemma_step_char(s, o6, 58);
    assert(s[o8] == 44) by {
        if opt_note.len() == 0 {
            assert(body[o8 - p] == body[o9 - p]);
        } else {
            assert(opt_note[0] == 44);
        }
    }
    lemma_step_number(s, o7, r.weight_milli);
    lemma_step_char(s, o8, 44);
    lemma_step_note_created(s, o8 + 1, r.note, r.created_at);
    lemma_step_char(s, o11, 125);
}

} // verus!

verus! {

/// A literal fails to parse where the text differs from it.
proof fn lemma_exact_mismatch(s: Seq<u8>, q: int, lit: Seq<u8>, t: int)
    requires
        0 <= q < s.len(),
        !is_ws(s[q]),
        0 <= t < lit.len(),
        q + t < s.len(),
        s[q + t] != lit[t],
    ensures
        p_exact(s, q, lit) == None::<int>,
        p_field_prefix(s, q, lit) == None::<int>,
        p_field_str(s, q, lit) == None::<(Seq<u8>, int)>,
{
    assert(sw(s, q) == q);
    if q + lit.len() <= s.len() {
        if s.subrange(q, q + lit.len() as int) == lit {
            assert(s.subrange(q, q + lit.len() as int)[t] == s[q + t]);
        }
    }
}

/// Reading a written record list at its place gives back the records.
#[verifier::rlimit(100)]
#[verifier::spinoff_prover]
proof fn lemma_p_rec_items_ser(rs: Seq<RecordV>, s: Seq<u8>, p: int)
    requires
        rs.len() >= 1,
        0 <= p,
        p + ser_rec_items(rs).len() < s.len(),
        forall|k: int| 0 <= k < ser_rec_items(rs).len() ==> s[p + k] == ser_rec_items(rs)[k],
        s[p + ser_rec_items(rs).len()] == 93,
    ensures
        p_rec_list(s, p) == Some((rs, p + ser_rec_items(rs).len() + 1 as int)),
    decreases rs.len(),
{
    let items = ser_rec_items(rs);
    let r0 = ser_record(rs[0]);
    if rs.len() == 1 {
        assert(items == r0);
        lemma_p_record_ser(rs[0], s, p);
        let e = p + r0.len();
        assert(s[e] == 93);
        assert(sw(s, e) == e);
        assert(p_char(s, e, 44) is None);
        lemma_step_char(s, e, 93);
        assert(seq![rs[0]] =~= rs);
    } else {
        let tail = rs.drop_first();
        let t_items = ser_rec_items(tail);
        assert(items == r0 + seq![44u8] + t_items);
        assert(forall|t: int| 0 <= t < r0.len() ==> items[t] == r0[t]);
        assert(items[r0.len() as int] == 44);
        assert(forall|t: int| 0 <= t < t_items.len() ==> items[r0.len() + 1 + t] == t_items[t]);
        lemma_p_record_ser(rs[0], s, p);
        let e = p + r0.len();
        lemma_step_char(s, e, 44);
        lemma_p_rec_items_ser(tail, s, e + 1);
        assert(seq![rs[0]] + tail =~= rs);
    }
}

/// Reading a written record array gives back the records.
pub proof fn lemma_p_records_ser(rs: Seq<RecordV>, s: Seq<u8>, p: int)
    requires
        0 <= p,
        p + ser_records(rs).len() <= s.len(),
        forall|k: int| 0 <= k < ser_records(rs).len() ==> s[p + k] == ser_records(rs)[k],
    ensures
        p_records(s, p) == Some((rs, p + ser_records(rs).len() as int)),
{
    let body = ser_records(rs);
    let items = ser_rec_items(rs);
    assert(body[0] == 91);
    assert(forall|t: int| 0 <= t < items.len() ==> body[1 + t] == items[t]);
    assert(body[body.len() - 1] == 93);
    assert(s[p + 0] == 91);
    lemma_step_char(s, p, 91);
    if rs.len() == 0 {
        assert(s[p + 1] == 93);
        lemma_step_char(s, p + 1, 93);
        assert(Seq::<RecordV>::empty() =~= rs);
    } else {
        let r0 = ser_record(rs[0]);
        assert(forall|t: int| 0 <= t < r0.len() ==> items[t] == r0[t]);
        assert(r0[0] == 123);
        assert(s[p + 1] == 123);
        assert(sw(s, p + 1) == p + 1);
        assert(p_char(s, p + 1, 93) is None);
        lemma_p_rec_items_ser(rs, s, p + 1);
    }
}

/// Reading a written profile gives it back.
#[verifier::rlimit(60)]
pub proof fn lemma_p_profile_ser(pr: ProfileV, s: Seq<u8>, p: int)
    requires
        0 <= p,
        p + ser_profile(pr).len() <= s.len(),
        forall|k: int| 0 <= k < ser_profile(pr).len() ==> s[p + k] == ser_profile(pr)[k],
    ensures
        p_profile(s, p) == Some((pr, p + ser_profile(pr).len() as int)),
{
    let body = ser_profile(pr);
    let kh = crate::lit::k_height();
    let m = ser_milli(pr.height_milli);
    let opt_g: Seq<u8> = match pr.gender {
        Some(g) => seq![44u8] + field_str(crate::lit::k_gender(), g),
        None => Seq::empty(),
    };
    let o1 = p + 1;
    let o2 = o1 + kh.len();
    let o3 = o2 + 1;
    let o4 = o3 + m.len();
    let o5 = o4 + opt_g.len();
    assert(body.len() == 1 + kh.len() + 1 + m.len() + opt_g.len() + 1);
    assert(body[0] == 123);
    assert(forall|t: int| 0 <= t < kh.len() ==> body[1 + t] == kh[t]);
    assert(body[o3 - p - 1] == 58);
    assert(forall|t: int| 0 <= t < m.len() ==> body[o3 - p + t] == m[t]);
    assert(forall|t: int| 0 <= t < opt_g.len() ==> body[o4 - p + t] == opt_g[t]);
    assert(body[o5 - p] == 125);
    lemma_step_char(s, p, 123);
    lemma_step_exact(s, o1, kh);
    lemma_step_char(s, o2, 58);
    assert(s[o4] == 44 || s[o4] == 125) by {
        if opt_g.len() == 0 {
        } else {
            assert(opt_g[0] == 44);
        }
    }
    lemma_step_number(s, o3, pr.height_milli);
    match pr.gender {
        Some(g) => {
            let f_g = field_str(crate::lit::k_gender(), g);
            assert(opt_g[0] == 44);
            lemma_step_char(s, o4, 44);
            assert(forall|t: int| 0 <= t < f_g.len() ==> s[o4 + 1 + t] == f_g[t]) by {
                assert(forall|t: int| 0 <= t < f_g.len() ==> opt_g[1 + t] == f_g[t]);
            }
            lemma_step_field_str(s, o4 + 1, crate::lit::k_gender(), g);
            lemma_step_char(s, o5, 125);
        },
        None => {
            assert(s[o4] == 125);
            assert(sw(s, o4) == o4);
            assert(p_char(s, o4, 44) is None);
            lemma_step_char(s, o4, 125);
        },
    }
}

/// Reading a written goal gives it back.
#[verifier::rlimit(60)]
pub proof fn lemma_p_goal_ser(g: GoalV, s: Seq<u8>, p: int)
    requires
        0 <= p,
        p + ser_goal(g).len() <= s.len(),
        forall|k: int| 0 <= k < ser_goal(g).len() ==> s[p + k] == ser_goal(g)[k],
    ensures
        p_goal(s, p) == Some((g, p + ser_goal(g).len() as int)),
{
    let body = ser_goal(g);
    let kt = crate::lit::k_target_weight();
    let m = ser_milli(g.target_weight_milli);
    let opt_d: Seq<u8> = match g.target_date {
        Some(d) => seq![44u8] + field_str(crate::lit::k_target_date(), d),
        None => Seq::empty(),
    };
    let f_ca = field_str(crate::lit::k_created_at(), g.created_at);
    let o1 = p + 1;
    let o2 = o1 + kt.len();
    let o3 = o2 + 1;
    let o4 = o3 + m.len();
    let o5 = o4 + opt_d.len();
    let o6 = o5 + 1;
    let o7 = o6 + f_ca.len();
    assert(body.len() == 1 + kt.len() + 1 + m.len() + opt_d.len() + 1 + f_ca.len() + 1);
    assert(body[0] == 123);
    assert(forall|t: int| 0 <= t < kt.len() ==> body[1 + t] == kt[t]);
    assert(body[o3 - p - 1] == 58);
    assert(forall|t: int| 0 <= t < m.len() ==> body[o3 - p + t] == m[t]);
    assert(forall|t: int| 0 <= t < opt_d.len() ==> body[o4 - p + t] == opt_d[t]);
    assert(body[o5 - p] == 44);
    assert(forall|t: int| 0 <= t < f_ca.len() ==> body[o6 - p + t] == f_ca[t]);
    assert(body[o7 - p] == 125);
    lemma_step_char(s, p, 123);
    lemma_step_exact(s, o1, kt);
    lemma_step_char(s, o2, 58);
    assert(s[o4] == 44) by {
        if opt_d.len() == 0 {
            assert(body[o4 - p] == body[o5 - p]);
        } else {
            assert(opt_d[0] == 44);
        }
    }
    lemma_step_number(s, o3, g.target_weight_milli);
    lemma_step_char(s, o4, 44);
    match g.target_date {
        Some(d) => {
            let f_d = field_str(crate::lit::k_target_date(), d);
            assert(forall|t: int| 0 <= t < f_d.len() ==> s[o4 + 1 + t] == f_d[t]) by {
                assert(forall|t: int| 0 <= t < f_d.len() ==> opt_d[1 + t] == f_d[t]);
            }
            lemma_step_field_str(s, o4 + 1, crate::lit::k_target_date(), d);
            lemma_step_char(s, o5, 44);
            lemma_step_field_str(s, o6, crate::lit::k_created_at(), g.created_at);
            lemma_step_char(s, o7, 125);
        },
        None => {
            assert(o4 + 1 == o6);
            assert(f_ca[0] == 34 && f_ca[1] == 99) by {
                assert(crate::lit::k_created_at()[0] == 34 && crate::lit::k_created_at()[1] == 99);
            }
            assert(s[o6 + 0] == 34 && s[o6 + 1] == 99);
            assert(crate::lit::k_target_date()[1] == 116);
            lemma_exact_mismatch(s, o6, crate::lit::k_target_date(), 1);
            lemma_step_field_str(s, o6, crate::lit::k_created_at(), g.created_at);
            lemma_step_char(s, o7, 125);
        },
    }
}

} // verus!

verus! {

/// The members that close a document: optional profile, optional goal,
/// version — each preceded by its comma — and the closing brace.
pub open spec fn doc_tail_seq(profile: Option<ProfileV>, goal: Option<GoalV>, v: i32) -> Seq<u8> {
    (match profile {
        Some(pr) => seq![44u8] + crate::lit::k_profile() + seq![58u8] + ser_profile(pr),
        None => Seq::empty(),
    }) + (match goal {
        Some(gl) => seq![44u8] + crate::lit::k_goal() + seq![58u8] + ser_goal(gl),
        None => Seq::empty(),
    }) + seq![44u8] + crate::lit::k_version() + seq![58u8] + ser_i32(v) + seq![125u8]
}

/// The optional profile member parses where its text was written, comma
/// included; and parses as absent where another key follows.
proof fn lemma_opt_profile_present(s: Seq<u8>, a: int, pr: ProfileV)
    requires
        0 <= a,
        ({
            let seg = crate::lit::k_profile() + seq![58u8] + ser_profile(pr) + seq![44u8];
            a + seg.len() <= s.len() && forall|k: int| 0 <= k < seg.len() ==> s[a + k] == seg[k]
        }),
    ensures
        p_opt_profile(s, a) == Some(
            (
                Some(pr),
                a + crate::lit::k_profile().len() + 1 + ser_profile(pr).len() + 1 as int,
            ),
        ),
{
    let kp = crate::lit::k_profile();
    let sp = ser_profile(pr);
    let seg = kp + seq![58u8] + sp + seq![44u8];
    assert(forall|t: int| 0 <= t < kp.len() ==> seg[t] == kp[t]);
    assert(seg[kp.len() as int] == 58);
    assert(forall|t: int| 0 <= t < sp.len() ==> seg[kp.len() + 1 + t] == sp[t]);
    assert(seg[seg.len() - 1] == 44);
    lemma_step_exact(s, a, kp);
    lemma_step_char(s, a + kp.len(), 58);
    lemma_p_profile_ser(pr, s, a + kp.len() + 1);
    lemma_step_char(s, a + kp.len() + 1 + sp.len(), 44);
}

proof fn lemma_opt_profile_absent(s: Seq<u8>, a: int)
    requires
        0 <= a,
        a + 2 <= s.len(),
        s[a] == 34,
        s[a + 1] != 112,
    ensures
        p_opt_profile(s, a) == Some((None::<ProfileV>, a)),
{
    assert(crate::lit::k_profile()[1] == 112);
    lemma_exact_mismatch(s, a, crate::lit::k_profile(), 1);
}

/// The optional goal member, in the same two shapes.
proof fn lemma_opt_goal_present(s: Seq<u8>, a: int, gl: GoalV)
    requires
        0 <= a,
        ({
            let seg = crate::lit::k_goal() + seq![58u8] + ser_goal(gl) + seq![44u8];
            a + seg.len() <= s.len() && forall|k: int| 0 <= k < seg.len() ==> s[a + k] == seg[k]
        }),
    ensures
        p_opt_goal(s, a) == Some(
            (Some(gl), a + crate::lit::k_goal().len() + 1 + ser_goal(gl).len() + 1 as int),
        ),
{
    let kg = crate::lit::k_goal();
    let sg = ser_goal(gl);
    let seg = kg + seq![58u8] + sg + seq![44u8];
    assert(forall|t: int| 0 <= t < kg.len() ==> seg[t] == kg[t]);
    assert(seg[kg.len() as int] == 58);
    assert(forall|t: int| 0 <= t < sg.len() ==> seg[kg.len() + 1 + t] == sg[t]);
    assert(seg[seg.len() - 1] == 44);
    lemma_step_exact(s, a, kg);
    lemma_step_char(s, a + kg.len(), 58);
    lemma_p_goal_ser(gl, s, a + kg.len() + 1);
    lemma_step_char(s, a + kg.len() + 1 + sg.len(), 44);
}

proof fn lemma_opt_goal_absent(s: Seq<u8>, a: int)
    requires
        0 <= a,
        a + 2 <= s.len(),
        s[a] == 34,
        s[a + 1] != 103,
    ensures
        p_opt_goal(s, a) == Some((None::<GoalV>, a)),
{
    assert(crate::lit::k_goal()[1] == 103);
    lemma_exact_mismatch(s, a, crate::lit::k_goal(), 1);
}

/// The comma after the records and the two optional members.
pub open spec fn members_front_seq(profile: Option<ProfileV>, goal: Option<GoalV>) -> Seq<u8> {
    (match profile {
        Some(pr) => seq![44u8] + crate::lit::k_profile() + seq![58u8] + ser_profile(pr),
        None => Seq::empty(),
    }) + (match goal {
        Some(gl) => seq![44u8] + crate::lit::k_goal() + seq![58u8] + ser_goal(gl),
        None => Seq::empty(),
    }) + seq![44u8] + crate::lit::k_version()
}

#[verifier::rlimit(100)]
#[verifier::spinoff_prover]
proof fn lemma_members_profile(s: Seq<u8>, q: int, profile: Option<ProfileV>, goal: Option<GoalV>)
    requires
        0 <= q,
        q + members_front_seq(profile, goal).len() <= s.len(),
        forall|k: int| 0 <= k < members_front_seq(profile, goal).len() ==> s[q + k]
            == members_front_seq(profile, goal)[k],
    ensures
        ({
            let opt_p: Seq<u8> = match profile {
                Some(pr) => seq![44u8] + crate::lit::k_profile() + seq![58u8] + ser_profile(pr),
                None => Seq::empty(),
            };
            p_char(s, q, 44) == Some(q + 1) && p_opt_profile(s, q + 1) == Some(
                (profile, q + opt_p.len() + 1 as int),
            )
        }),
{
    let body = members_front_seq(profile, goal);
    let opt_p: Seq<u8> = match profile {
        Some(pr) => seq![44u8] + crate::lit::k_profile() + seq![58u8] + ser_profile(pr),
        None => Seq::empty(),
    };
    let opt_g: Seq<u8> = match goal {
        Some(gl) => seq![44u8] + crate::lit::k_goal() + seq![58u8] + ser_goal(gl),
        None => Seq::empty(),
    };
    let kv = crate::lit::k_version();
    let o5 = q + opt_p.len();
    let o6 = o5 + opt_g.len();
    let o7 = o6 + 1;
    assert(body == opt_p + opt_g + seq![44u8] + kv);
    assert(body.len() == opt_p.len() + opt_g.len() + 1 + kv.len());
    assert(forall|t: int| 0 <= t < opt_p.len() ==> body[t] == opt_p[t]);
    assert(forall|t: int| 0 <= t < opt_g.len() ==> body[opt_p.len() + t] == opt_g[t]);
    assert(body[o6 - q] == 44);
    assert(forall|t: int| 0 <= t < kv.len() ==> body[o7 - q + t] == kv[t]);
    assert(s[q + 0] == 44) by {
        if opt_p.len() > 0 {
            assert(opt_p[0] == 44);
        } else if opt_g.len() > 0 {
            assert(opt_g[0] == 44);
        }
    }
    lemma_step_char(s, q, 44);
    match profile {
        Some(pr) => {
            let kp = crate::lit::k_profile();
            let sp = ser_profile(pr);
            let seg = kp + seq![58u8] + sp + seq![44u8];
            assert(forall|t: int| 0 <= t < seg.len() ==> s[q + 1 + t] == seg[t]) by {
                assert(forall|t: int| 0 <= t < kp.len() ==> opt_p[1 + t] == kp[t]);
                assert(opt_p[1 + kp.len() as int] == 58);
                assert(forall|t: int| 0 <= t < sp.len() ==> opt_p[2 + kp.len() + t] == sp[t]);
                assert(s[o5] == 44) by {
                    if opt_g.len() > 0 {
                        assert(opt_g[0] == 44);
                    } else {
                        assert(body[o6 - q] == body[o5 - q]);
                    }
                }
                assert(forall|t: int| 0 <= t < seg.len() - 1 ==> seg[t] == opt_p[1 + t]);
                assert(seg[seg.len() - 1] == 44);
            }
            lemma_opt_profile_present(s, q + 1, pr);
        },
        None => {
            if opt_g.len() > 0 {
                let kg = crate::lit::k_goal();
                assert(forall|t: int| 0 <= t < kg.len() ==> opt_g[1 + t] == kg[t]);
                assert(s[q + 1 + 0] == 34 && s[q + 1 + 1] == 103) by {
                    assert(kg[0] == 34 && kg[1] == 103);
                }
            } else {
                assert(s[q + 1 + 0] == 34 && s[q + 1 + 1] == 118) by {
                    assert(kv[0] == 34 && kv[1] == 118);
                    assert(body[o7 - q + 0] == kv[0] && body[o7 - q + 1] == kv[1]);
                }
            }
            lemma_opt_profile_absent(s, q + 1);
        },
    }
}

#[verifier::rlimit(100)]
#[verifier::spinoff_prover]
proof fn lemma_members_goal(s: Seq<u8>, q: int, profile: Option<ProfileV>, goal: Option<GoalV>)
    requires
        0 <= q,
        q + members_front_seq(profile, goal).len() <= s.len(),
        forall|k: int| 0 <= k < members_front_seq(profile, goal).len() ==> s[q + k]
            == members_front_seq(profile, goal)[k],
    ensures
        ({
            let opt_p: Seq<u8> = match profile {
                Some(pr) => seq![44u8] + crate::lit::k_profile() + seq![58u8] + ser_profile(pr),
                None => Seq::empty(),
            };
            let opt_g: Seq<u8> = match goal {
                Some(gl) => seq![44u8] + crate::lit::k_goal() + seq![58u8] + ser_goal(gl),
                None => Seq::empty(),
            };
            p_opt_goal(s, q + opt_p.len() + 1) == Some(
                (goal, q + opt_p.len() + opt_g.len() + 1 as int),
            )
        }),
{
    let body = members_front_seq(profile, goal);
    let opt_p: Seq<u8> = match profile {
        Some(pr) => seq![44u8] + crate::lit::k_profile() + seq![58u8] + ser_profile(pr),
        None => Seq::empty(),
    };
    let opt_g: Seq<u8> = match goal {
        Some(gl) => seq![44u8] + crate::lit::k_goal() + seq![58u8] + ser_goal(gl),
        None => Seq::empty(),
    };
    let kv = crate::lit::k_version();
    let o5 = q + opt_p.len();
    let o6 = o5 + opt_g.len();
    let o7 = o6 + 1;
    assert(body == opt_p + opt_g + seq![44u8] + kv);
    assert(body.len() == opt_p.len() + opt_g.len() + 1 + kv.len());
    assert(forall|t: int| 0 <= t < opt_p.len() ==> body[t] == opt_p[t]);
    assert(forall|t: int| 0 <= t < opt_g.len() ==> body[opt_p.len() + t] == opt_g[t]);
    assert(body[o6 - q] == 44);
    assert(forall|t: int| 0 <= t < kv.len() ==> body[o7 - q + t] == kv[t]);
    let aft_p = q + opt_p.len() + 1;
    match goal {
        Some(gl) => {
            let kg = crate::lit::k_goal();
            let sg = ser_goal(gl);
            let seg = kg + seq![58u8] + sg + seq![44u8];
            assert(forall|t: int| 0 <= t < seg.len() ==> s[aft_p + t] == seg[t]) by {
                assert(forall|t: int| 0 <= t < kg.len() ==> opt_g[1 + t] == kg[t]);
                assert(opt_g[1 + kg.len() as int] == 58);
                assert(forall|t: int| 0 <= t < sg.len() ==> opt_g[2 + kg.len() + t] == sg[t]);
                assert(s[o6] == 44);
                assert(forall|t: int| 0 <= t < seg.len() - 1 ==> seg[t] == opt_g[1 + t]);
                assert(seg[seg.len() - 1] == 44);
            }
            lemma_opt_goal_present(s, aft_p, gl);
        },
        None => {
            assert(s[aft_p + 0] == 34 && s[aft_p + 1] == 118) by {
                assert(kv[0] == 34 && kv[1] == 118);
                assert(body[o7 - q + 0] == kv[0] && body[o7 - q + 1] == kv[1]);
            }
            lemma_opt_goal_absent(s, aft_p);
        },
    }
}

#[verifier::rlimit(60)]
#[verifier::spinoff_prover]
proof fn lemma_members_front(s: Seq<u8>, q: int, profile: Option<ProfileV>, goal: Option<GoalV>)
    requires
        0 <= q,
        q + members_front_seq(profile, goal).len() <= s.len(),
        forall|k: int| 0 <= k < members_front_seq(profile, goal).len() ==> s[q + k]
            == members_front_seq(profile, goal)[k],
    ensures
        ({
            let opt_p: Seq<u8> = match profile {
                Some(pr) => seq![44u8] + crate::lit::k_profile() + seq![58u8] + ser_profile(pr),
                None => Seq::empty(),
            };
            let opt_g: Seq<u8> = match goal {
                Some(gl) => seq![44u8] + crate::lit::k_goal() + seq![58u8] + ser_goal(gl),
                None => Seq::empty(),
            };
            p_char(s, q, 44) == Some(q + 1) && p_opt_profile(s, q + 1) == Some(
                (profile, q + opt_p.len() + 1 as int),
            ) && p_opt_goal(s, q + opt_p.len() + 1) == Some(
                (goal, q + opt_p.len() + opt_g.len() + 1 as int),
            )
        }),
{
    lemma_members_profile(s, q, profile, goal);
    lemma_members_goal(s, q, profile, goal);
}

#[verifier::rlimit(100)]
#[verifier::spinoff_prover]
proof fn lemma_doc_tail(s: Seq<u8>, q: int, profile: Option<ProfileV>, goal: Option<GoalV>, v: i32)
    requires
        0 <= q,
        q + doc_tail_seq(profile, goal, v).len() <= s.len(),
        forall|k: int| 0 <= k < doc_tail_seq(profile, goal, v).len() ==> s[q + k] == doc_tail_seq(
            profile,
            goal,
            v,
        )[k],
    ensures
        p_doc_members(s, q) == Some(
            ((profile, goal, v), q + doc_tail_seq(profile, goal, v).len() as int),
        ),
{
    let body = doc_tail_seq(profile, goal, v);
    let front = members_front_seq(profile, goal);
    let kv = crate::lit::k_version();
    let vi = ser_i32(v);
    assert(body == front + seq![58u8] + vi + seq![125u8]);
    assert(body.len() == front.len() + 1 + vi.len() + 1);
    assert(forall|t: int| 0 <= t < front.len() ==> body[t] == front[t]);
    assert(body[front.len() as int] == 58);
    assert(forall|t: int| 0 <= t < vi.len() ==> body[front.len() + 1 + t] == vi[t]);
    assert(body[body.len() - 1] == 125);
    lemma_members_front(s, q, profile, goal);
    let o8 = q + front.len();
    let o9 = o8 + 1;
    let o10 = o9 + vi.len();
    assert(p_field_prefix(s, o8 - kv.len(), kv) == Some(o9)) by {
        assert(forall|t: int| 0 <= t < kv.len() ==> s[o8 - kv.len() + t] == kv[t]) by {
            assert(forall|t: int| 0 <= t < kv.len() ==> front[front.len() - kv.len() + t]
                == kv[t]);
        }
        lemma_step_exact(s, o8 - kv.len(), kv);
        lemma_step_char(s, o8, 58);
    }
    lemma_step_int(s, o9, v);
    lemma_step_char(s, o10, 125);
}

/// Reading a written document gives back the document.
#[verifier::rlimit(100)]
#[verifier::spinoff_prover]
pub proof fn lemma_p_doc_ser(d: AppDataV, s: Seq<u8>, p: int)
    requires
        0 <= p,
        p + ser_doc(d).len() <= s.len(),
        forall|k: int| 0 <= k < ser_doc(d).len() ==> s[p + k] == ser_doc(d)[k],
    ensures
        p_doc(s, p) == Some((d, p + ser_doc(d).len() as int)),
{
    let body = ser_doc(d);
    let kr = crate::lit::k_records();
    let recs = ser_records(d.records);
    let tail = doc_tail_seq(d.profile, d.goal, d.version);
    let o1 = p + 1;
    let o2 = o1 + kr.len();
    let o3 = o2 + 1;
    let o4 = o3 + recs.len();
    assert(body =~= seq![123u8] + kr + seq![58u8] + recs + tail);
    assert(body.len() == 1 + kr.len() + 1 + recs.len() + tail.len());
    assert(body[0] == 123);
    assert(forall|t: int| 0 <= t < kr.len() ==> body[1 + t] == kr[t]);
    assert(body[o3 - p - 1] == 58);
    assert(forall|t: int| 0 <= t < recs.len() ==> body[o3 - p + t] == recs[t]);
    assert(forall|t: int| 0 <= t < tail.len() ==> body[o4 - p + t] == tail[t]);
    lemma_step_char(s, p, 123);
    lemma_step_exact(s, o1, kr);
    lemma_step_char(s, o2, 58);
    lemma_p_records_ser(d.records, s, o3);
    lemma_doc_tail(s, o4, d.profile, d.goal, d.version);
    assert(p_doc(s, p) == Some(
        (
            AppDataV {
                records: d.records,
                profile: d.profile,
                goal: d.goal,
                version: d.version,
            },
            p + body.len() as int,
        ),
    ));
    assert(AppDataV {
        records: d.records,
        profile: d.profile,
        goal: d.goal,
        version: d.version,
    } =~= d);
}

/// Reading a written document as the whole input gives back the document.
pub proof fn lemma_parse_doc_round_trip(d: AppDataV)
    ensures
        parse_doc_spec(ser_doc(d)) == Some(d),
{
    let s = ser_doc(d);
    lemma_p_doc_ser(d, s, 0);
    assert(sw(s, s.len() as int) == s.len());
}

/// Reading a written record array as the whole input gives back the records.
pub proof fn lemma_parse_records_round_trip(rs: Seq<RecordV>)
    ensures
        parse_records_spec(ser_records(rs)) == Some(rs),
{
    let s = ser_records(rs);
    lemma_p_records_ser(rs, s, 0);
    assert(sw(s, s.len() as int) == s.len());
}

} // verus!

verus! {

// ---------------------------------------------------------------------------
// Executable writer
// ---------------------------------------------------------------------------

proof fn lemma_esc_push(t: Seq<u8>, b: u8)
    ensures
        esc(t.push(b)) == esc(t) + esc_byte(b),
    decreases t.len(),
{
    if t.len() == 0 {
        assert(t.push(b)[0] == b);
        assert(t.push(b).drop_first() =~= Seq::<u8>::empty());
        assert(esc(Seq::<u8>::empty()) == Seq::<u8>::empty());
        assert(esc(t.push(b)) =~= esc(t) + esc_byte(b));
    } else {
        assert(t.push(b).drop_first() =~= t.drop_first().push(b));
        lemma_esc_push(t.drop_first(), b);
        assert(t.push(b)[0] == t[0]);
        assert(esc_byte(t[0]) + (esc(t.drop_first()) + esc_byte(b)) =~= (esc_byte(t[0]) + esc(
            t.drop_first(),
        )) + esc_byte(b));
    }
}

fn push_esc_byte(out: &mut Vec<u8>, b: u8)
    ensures
        final(out)@ == old(out)@ + esc_byte(b),
{
    if b == 34 {
        out.push(92);
        out.push(34);
    } else if b == 92 {
        out.push(92);
        out.push(92);
    } else if b == 8 {
        out.push(92);
        out.push(98);
    } else if b == 9 {
        out.push(92);
        out.push(116);
    } else if b == 10 {
        out.push(92);
        out.push(110);
    } else if b == 12 {
        out.push(92);
        out.push(102);
    } else if b == 13 {
        out.push(92);
        out.push(114);
    } else if b < 32 {
        out.push(92);
        out.push(117);
        out.push(48);
        out.push(48);
        let hi = b / 16;
        let lo = b % 16;
        out.push(if hi < 10 { 48 + hi } else { 87 + hi });
        out.push(if lo < 10 { 48 + lo } else { 87 + lo });
    } else {
        out.push(b);
    }
    proof {
        assert(out@ =~= old(out)@ + esc_byte(b));
    }
}

/// Writes a string token: quote, escaped bytes, quote.
fn push_string(out: &mut Vec<u8>, t: &Vec<u8>)
    ensures
        final(out)@ == old(out)@ + ser_string(t@),
{
    out.push(34);
    let ghost base = out@;
    let n = t.len();
    let mut i: usize = 0;
    while i < n
        invariant
            i <= n == t@.len(),
            out@ == base + esc(t@.take(i as int)),
        decreases n - i,
    {
        let ghost pre = t@.take(i as int);
        push_esc_byte(out, t[i]);
        proof {
            lemma_esc_push(pre, t@[i as int]);
            assert(pre.push(t@[i as int]) =~= t@.take(i + 1));
        }
        i = i + 1;
    }
    proof {
        assert(t@.take(n as int) =~= t@);
    }
    out.push(34);
    proof {
        assert(out@ =~= old(out)@ + ser_string(t@));
    }
}

/// Writes one record object.
fn push_record(out: &mut Vec<u8>, r: &WeightRecord)
    ensures
        final(out)@ == old(out)@ + ser_record(r@),
{
    out.push(123);
    push_all(out, &crate::lit::k_id_vec());
    out.push(58);
    push_string(out, &r.id);
    out.push(44);
    push_all(out, &crate::lit::k_date_vec());
    out.push(58);
    push_string(out, &r.date);
    out.push(44);
    push_all(out, &crate::lit::k_weight_vec());
    out.push(58);
    push_milli(out, r.weight_milli);
    match &r.note {
        Some(n) => {
            out.push(44);
            push_all(out, &crate::lit::k_note_vec());
            out.push(58);
            push_string(out, n);
        },
        None => {},
    }
    out.push(44);
    push_all(out, &crate::lit::k_created_at_vec());
    out.push(58);
    push_string(out, &r.created_at);
    out.push(125);
    proof {
        assert(out@ =~= old(out)@ + ser_record(r@));
    }
}

/// Writes the record array.
fn push_records(out: &mut Vec<u8>, rs: &Vec<WeightRecord>)
    ensures
        final(out)@ == old(out)@ + ser_records(views_of(rs@)),
{
    let ghost vs = views_of(rs@);
    out.push(91);
    let ghost base = out@;
    let n = rs.len();
    let mut i: usize = 0;
    while i < n
        invariant
            i <= n == rs@.len(),
            vs == views_of(rs@),
            i == 0 ==> out@ == base,
            i > 0 ==> out@ == base + ser_rec_items(vs.take(i as int)),
        decreases n - i,
    {
        if i > 0 {
            out.push(44);
        }
        proof {
            assert(vs[i as int] == rs@[i as int]@);
        }
        push_record(out, &rs[i]);
        proof {
            lemma_ser_rec_items_snoc(vs, i as int);
        }
        i = i + 1;
    }
    out.push(93);
    proof {
        if n == 0 {
            assert(ser_rec_items(vs) == Seq::<u8>::empty());
            assert(out@ =~= old(out)@ + ser_records(vs));
        } else {
            assert(vs.take(n as int) =~= vs);
            assert(out@ =~= old(out)@ + ser_records(vs));
        }
    }
}

/// Extending a non-empty written list by one record appends a comma and
/// the record's text.
proof fn lemma_items_push(a: Seq<RecordV>, x: RecordV)
    requires
        a.len() >= 1,
    ensures
        ser_rec_items(a.push(x)) == ser_rec_items(a) + seq![44u8] + ser_record(x),
    decreases a.len(),
{
    assert(a.push(x)[0] == a[0]);
    if a.len() == 1 {
        assert(a.push(x).drop_first() =~= seq![x]);
        assert(seq![x][0] == x);
        assert(ser_rec_items(seq![x]) == ser_record(x));
        assert(ser_rec_items(a) == ser_record(a[0]));
        assert(ser_record(a[0]) + seq![44u8] + ser_record(x) =~= ser_rec_items(a) + seq![44u8]
            + ser_record(x));
    } else {
        assert(a.push(x).drop_first() =~= a.drop_first().push(x));
        lemma_items_push(a.drop_first(), x);
        assert(ser_record(a[0]) + seq![44u8] + (ser_rec_items(a.drop_first()) + seq![44u8]
            + ser_record(x)) =~= (ser_record(a[0]) + seq![44u8] + ser_rec_items(a.drop_first()))
            + seq![44u8] + ser_record(x));
    }
}

/// One step of the writer's loop, for both the first and later records.
proof fn lemma_ser_rec_items_snoc(vs: Seq<RecordV>, i: int)
    requires
        0 <= i < vs.len(),
    ensures
        i == 0 ==> ser_rec_items(vs.take(1)) == ser_record(vs[0]),
        i > 0 ==> ser_rec_items(vs.take(i + 1)) == ser_rec_items(vs.take(i)) + seq![44u8]
            + ser_record(vs[i]),
{
    if i == 0 {
        assert(vs.take(1)[0] == vs[0]);
        assert(vs.take(1).len() == 1);
    } else {
        assert(vs.take(i + 1) =~= vs.take(i).push(vs[i]));
        lemma_items_push(vs.take(i), vs[i]);
    }
}

} // verus!

verus! {

fn push_profile(out: &mut Vec<u8>, p: &UserProfile)
    ensures
        final(out)@ == old(out)@ + ser_profile(p@),
{
    out.push(123);
    push_all(out, &crate::lit::k_height_vec());
    out.push(58);
    push_milli(out, p.height_milli);
    match &p.gender {
        Some(g) => {
            out.push(44);
            push_all(out, &crate::lit::k_gender_vec());
            out.push(58);
            push_string(out, g);
        },
        None => {},
    }
    out.push(125);
    proof {
        assert(out@ =~= old(out)@ + ser_profile(p@));
    }
}

fn push_goal(out: &mut Vec<u8>, g: &Goal)
    ensures
        final(out)@ == old(out)@ + ser_goal(g@),
{
    out.push(123);
    push_all(out, &crate::lit::k_target_weight_vec());
    out.push(58);
    push_milli(out, g.target_weight_milli);
    match &g.target_date {
        Some(d) => {
            out.push(44);
            push_all(out, &crate::lit::k_target_date_vec());
            out.push(58);
            push_string(out, d);
        },
        None => {},
    }
    out.push(44);
    push_all(out, &crate::lit::k_created_at_vec());
    out.push(58);
    push_string(out, &g.created_at);
    out.push(125);
    proof {
        assert(out@ =~= old(out)@ + ser_goal(g@));
    }
}

/// The whole document as JSON bytes: what a save or a backup writes.
#[verifier::rlimit(100)]
#[verifier::spinoff_prover]
pub fn serialize_app_data(d: &AppData) -> (r: Vec<u8>)
    ensures
        r@ == ser_doc(d@),
{
    let mut out: Vec<u8> = Vec::new();
    out.push(123);
    push_all(&mut out, &crate::lit::k_records_vec());
    out.push(58);
    push_records(&mut out, &d.records);
    match &d.profile {
        Some(p) => {
            out.push(44);
            push_all(&mut out, &crate::lit::k_profile_vec());
            out.push(58);
            push_profile(&mut out, p);
        },
        None => {},
    }
    match &d.goal {
        Some(g) => {
            out.push(44);
            push_all(&mut out, &crate::lit::k_goal_vec());
            out.push(58);
            push_goal(&mut out, g);
        },
        None => {},
    }
    out.push(44);
    push_all(&mut out, &crate::lit::k_version_vec());
    out.push(58);
    push_i32(&mut out, d.version);
    out.push(125);
    proof {
        assert(out@ =~= ser_doc(d@));
    }
    out
}

/// The record list alone as JSON bytes: what a JSON export writes.
pub fn serialize_records(rs: &Vec<WeightRecord>) -> (r: Vec<u8>)
    ensures
        r@ == ser_records(views_of(rs@)),
{
    let mut out: Vec<u8> = Vec::new();
    push_records(&mut out, rs);
    proof {
        assert(Seq::<u8>::empty() + ser_records(views_of(rs@)) =~= ser_records(views_of(rs@)));
    }
    out
}

} // verus!

verus! {

// ---------------------------------------------------------------------------
// Executable reader
// ---------------------------------------------------------------------------

fn expect_char(s: &Vec<u8>, i: usize, c: u8) -> (r: Option<usize>)
    requires
        i <= s@.len(),
    ensures
        r is Some <==> p_char(s@, i as int, c) is Some,
        r matches Some(j) ==> p_char(s@, i as int, c) == Some(j as int) && i < j <= s@.len(),
{
    proof {
        lemma_p_char_bounds(s@, i as int, c);
    }
    let j = skip_ws(s, i);
    if j < s.len() && s[j] == c {
        Some(j + 1)
    } else {
        None
    }
}

fn expect_lit(s: &Vec<u8>, i: usize, lit: &Vec<u8>) -> (r: Option<usize>)
    requires
        i <= s@.len(),
    ensures
        r is Some <==> p_exact(s@, i as int, lit@) is Some,
        r matches Some(j) ==> p_exact(s@, i as int, lit@) == Some(j as int) && i <= j <= s@.len(),
{
    proof {
        lemma_p_exact_bounds(s@, i as int, lit@);
    }
    let j = skip_ws(s, i);
    let n = s.len();
    if n - j < lit.len() {
        return None;
    }
    let m = lit.len();
    let mut k: usize = 0;
    while k < m
        invariant
            j + m <= n == s@.len(),
            m == lit@.len(),
            j == sw(s@, i as int),
            0 <= i as int <= s@.len(),
            k <= m,
            forall|t: int| 0 <= t < k ==> s@[j + t] == lit@[t],
        decreases m - k,
    {
        if s[j + k] != lit[k] {
            proof {
                if s@.subrange(j as int, j + lit@.len() as int) == lit@ {
                    assert(s@.subrange(j as int, j + lit@.len() as int)[k as int] == s@[j + k]);
                }
            }
            return None;
        }
        k = k + 1;
    }
    proof {
        assert(s@.subrange(j as int, j + lit@.len() as int) =~= lit@);
    }
    Some(j + lit.len())
}

/// Reads a string token: the unescaped bytes and the index after the
/// closing quote.
fn parse_string(s: &Vec<u8>, i: usize) -> (r: Option<(Vec<u8>, usize)>)
    requires
        i <= s@.len(),
    ensures
        match r {
            Some(p) => p_string(s@, i as int) == Some((p.0@, p.1 as int)) && i < p.1 <= s@.len(),
            None => p_string(s@, i as int) is None,
        },
{
    proof {
        lemma_p_string_bounds(s@, i as int);
    }
    let j0 = match expect_char(s, i, 34) {
        Some(j) => j,
        None => {
            return None;
        },
    };
    let mut out: Vec<u8> = Vec::new();
    let mut cur: usize = j0;
    proof {
        if p_str_body(s@, j0 as int) is Some {
            let t = p_str_body(s@, j0 as int)->Some_0;
            assert(Seq::<u8>::empty() + t.0 =~= t.0);
        }
    }
    loop
        invariant
            i <= s@.len(),
            j0 <= cur <= s@.len(),
            p_char(s@, i as int, 34) == Some(j0 as int),
            p_str_body(s@, j0 as int) == match p_str_body(s@, cur as int) {
                Some(t) => Some((out@ + t.0, t.1)),
                None => None::<(Seq<u8>, int)>,
            },
        decreases s@.len() - cur,
    {
        proof {
            lemma_p_str_body_bounds(s@, cur as int);
        }
        if cur >= s.len() {
            proof {
                assert(p_str_body(s@, cur as int) is None);
            }
            return None;
        }
        let b = s[cur];
        if b == 34 {
            proof {
                lemma_p_char_bounds(s@, i as int, 34);
                assert(out@ + Seq::<u8>::empty() =~= out@);
            }
            return Some((out, cur + 1));
        }
        let ghost prev = out@;
        let ghost pcur = cur as int;
        if b == 92 {
            if cur + 1 >= s.len() {
                proof {
                    assert(p_str_body(s@, cur as int) is None);
                }
                return None;
            }
            let c = s[cur + 1];
            if c == 34 || c == 92 || c == 47 {
                out.push(c);
                cur = cur + 2;
            } else if c == 98 {
                out.push(8);
                cur = cur + 2;
            } else if c == 116 {
                out.push(9);
                cur = cur + 2;
            } else if c == 110 {
                out.push(10);
                cur = cur + 2;
            } else if c == 102 {
                out.push(12);
                cur = cur + 2;
            } else if c == 114 {
                out.push(13);
                cur = cur + 2;
            } else if c == 117 {
                if s.len() - cur >= 6 && s[cur + 2] == 48 && s[cur + 3] == 48 && hex_ok(s[cur + 4])
                    && hex_ok(s[cur + 5]) {
                    let hi = unhex_byte(s[cur + 4]);
                    let lo = unhex_byte(s[cur + 5]);
                    out.push(16 * hi + lo);
                    cur = cur + 6;
                } else {
                    proof {
                        assert(p_str_body(s@, cur as int) is None);
                    }
                    return None;
                }
            } else {
                proof {
                    assert(p_str_body(s@, cur as int) is None);
                }
                return None;
            }
        } else {
            out.push(b);
            cur = cur + 1;
        }
        proof {
            let piece = out@.last();
            assert(out@ =~= prev.push(piece));
            if p_str_body(s@, cur as int) is Some {
                let t = p_str_body(s@, cur as int)->Some_0;
                assert(p_str_body(s@, pcur) == Some((seq![piece] + t.0, t.1)));
                assert(prev + (seq![piece] + t.0) =~= out@ + t.0);
            } else {
                assert(p_str_body(s@, pcur) is None);
            }
        }
    }
}

fn hex_ok(b: u8) -> (r: bool)
    ensures
        r == is_hex(b),
{
    (48 <= b && b <= 57) || (97 <= b && b <= 102) || (65 <= b && b <= 70)
}

fn unhex_byte(b: u8) -> (r: u8)
    requires
        is_hex(b),
    ensures
        r == unhex(b),
        r < 16,
{
    if 48 <= b && b <= 57 {
        b - 48
    } else if 97 <= b && b <= 102 {
        b - 87
    } else {
        b - 55
    }
}

/// Reads `"key"`, the colon and a string value.
fn parse_field_str(s: &Vec<u8>, i: usize, key: &Vec<u8>) -> (r: Option<(Vec<u8>, usize)>)
    requires
        i <= s@.len(),
    ensures
        match r {
            Some(p) => p_field_str(s@, i as int, key@) == Some((p.0@, p.1 as int)) && p.1
                <= s@.len(),
            None => p_field_str(s@, i as int, key@) is None,
        },
{
    match expect_lit(s, i, key) {
        None => None,
        Some(j) => match expect_char(s, j, 58) {
            None => None,
            Some(j2) => parse_string(s, j2),
        },
    }
}

} // verus!

verus! {

fn parse_number_ws(s: &Vec<u8>, i: usize) -> (r: Option<(u64, usize)>)
    requires
        i <= s@.len(),
    ensures
        match r {
            Some(p) => p_number_ws(s@, i as int) == Some((p.0, p.1 as int)) && i < p.1 <= s@.len(),
            None => p_number_ws(s@, i as int) is None,
        },
{
    let n = s.len();
    proof {
        assert(n == s@.len());
        lemma_p_number_ws_bounds(s@, i as int);
    }
    let j = skip_ws(s, i);
    parse_number(s, j)
}

fn parse_int_ws(s: &Vec<u8>, i: usize) -> (r: Option<(i32, usize)>)
    requires
        i <= s@.len(),
    ensures
        match r {
            Some(p) => p_int_ws(s@, i as int) == Some((p.0, p.1 as int)) && i < p.1 <= s@.len(),
            None => p_int_ws(s@, i as int) is None,
        },
{
    let n = s.len();
    proof {
        assert(n == s@.len());
        lemma_p_int_ws_bounds(s@, i as int);
    }
    let j = skip_ws(s, i);
    parse_int(s, j)
}

/// Reads one record object.
fn parse_record(s: &Vec<u8>, i: usize) -> (r: Option<(WeightRecord, usize)>)
    requires
        i <= s@.len(),
    ensures
        match r {
            Some(p) => p_record(s@, i as int) == Some((p.0@, p.1 as int)) && i < p.1 <= s@.len(),
            None => p_record(s@, i as int) is None,
        },
{
    proof {
        lemma_p_record_bounds(s@, i as int);
    }
    let a = match expect_char(s, i, 123) {
        Some(v) => v,
        None => {
            return None;
        },
    };
    let (id, a1) = match parse_field_str(s, a, &crate::lit::k_id_vec()) {
        Some(v) => v,
        None => {
            return None;
        },
    };
    let b = match expect_char(s, a1, 44) {
        Some(v) => v,
        None => {
            return None;
        },
    };
    let (date, b1) = match parse_field_str(s, b, &crate::lit::k_date_vec()) {
        Some(v) => v,
        None => {
            return None;
        },
    };
    let c = match expect_char(s, b1, 44) {
        Some(v) => v,
        None => {
            return None;
        },
    };
    let c1 = match expect_lit(s, c, &crate::lit::k_weight_vec()) {
        Some(v) => v,
        None => {
            return None;
        },
    };
    let d0 = match expect_char(s, c1, 58) {
        Some(v) => v,
        None => {
            return None;
        },
    };
    let (weight, e0) = match parse_number_ws(s, d0) {
        Some(v) => v,
        None => {
            return None;
        },
    };
    let e = match expect_char(s, e0, 44) {
        Some(v) => v,
        None => {
            return None;
        },
    };
    let (note, created_at, z0) = match parse_field_str(s, e, &crate::lit::k_note_vec()) {
        Some((n, j)) => {
            let j2 = match expect_char(s, j, 44) {
                Some(v) => v,
                None => {
                    return None;
                },
            };
            match parse_field_str(s, j2, &crate::lit::k_created_at_vec()) {
                Some((ca, j3)) => (Some(n), ca, j3),
                None => {
                    return None;
                },
            }
        },
        None => match parse_field_str(s, e, &crate::lit::k_created_at_vec()) {
            Some((ca, j3)) => (None, ca, j3),
            None => {
                return None;
            },
        },
    };
    let z = match expect_char(s, z0, 125) {
        Some(v) => v,
        None => {
            return None;
        },
    };
    Some((WeightRecord { id, date, weight_milli: weight, note, created_at }, z))
}

/// Reads the non-empty tail of a record array: records separated by commas,
/// then the closing bracket.
fn parse_rec_list(s: &Vec<u8>, i: usize) -> (r: Option<(Vec<WeightRecord>, usize)>)
    requires
        i <= s@.len(),
    ensures
        match r {
            Some(p) => p_rec_list(s@, i as int) == Some((views_of(p.0@), p.1 as int)) && p.1
                <= s@.len(),
            None => p_rec_list(s@, i as int) is None,
        },
{
    let mut acc: Vec<WeightRecord> = Vec::new();
    let mut cur: usize = i;
    proof {
        if p_rec_list(s@, i as int) is Some {
            let l = p_rec_list(s@, i as int)->Some_0;
            assert(views_of(acc@) + l.0 =~= l.0);
        }
    }
    loop
        invariant
            i <= cur <= s@.len(),
            p_rec_list(s@, i as int) == match p_rec_list(s@, cur as int) {
                Some(l) => Some((views_of(acc@) + l.0, l.1)),
                None => None::<(Seq<RecordV>, int)>,
            },
        decreases s@.len() - cur,
    {
        let (rec, e) = match parse_record(s, cur) {
            Some(v) => v,
            None => {
                return None;
            },
        };
        let ghost av = views_of(acc@);
        let ghost rv = rec@;
        match expect_char(s, e, 44) {
            Some(j) => {
                acc.push(rec);
                proof {
                    assert(views_of(acc@) =~= av.push(rv));
                    if p_rec_list(s@, j as int) is Some {
                        let l = p_rec_list(s@, j as int)->Some_0;
                        assert(p_rec_list(s@, cur as int) == Some((seq![rv] + l.0, l.1)));
                        assert(av + (seq![rv] + l.0) =~= av.push(rv) + l.0);
                    }
                }
                cur = j;
            },
            None => {
                match expect_char(s, e, 93) {
                    Some(j) => {
                        acc.push(rec);
                        proof {
                            assert(views_of(acc@) =~= av.push(rv));
                            assert(p_rec_list(s@, cur as int) == Some((seq![rv], j as int)));
                            assert(av + seq![rv] =~= av.push(rv));
                        }
                        return Some((acc, j));
                    },
                    None => {
                        return None;
                    },
                }
            },
        }
    }
}

/// Reads a record array.
fn parse_records(s: &Vec<u8>, i: usize) -> (r: Option<(Vec<WeightRecord>, usize)>)
    requires
        i <= s@.len(),
    ensures
        match r {
            Some(p) => p_records(s@, i as int) == Some((views_of(p.0@), p.1 as int)) && p.1
                <= s@.len(),
            None => p_records(s@, i as int) is None,
        },
{
    let j = match expect_char(s, i, 91) {
        Some(v) => v,
        None => {
            return None;
        },
    };
    match expect_char(s, j, 93) {
        Some(k) => {
            let empty: Vec<WeightRecord> = Vec::new();
            proof {
                assert(views_of(empty@) =~= Seq::<RecordV>::empty());
            }
            Some((empty, k))
        },
        None => parse_rec_list(s, j),
    }
}

/// Reads a profile object.
fn parse_profile(s: &Vec<u8>, i: usize) -> (r: Option<(UserProfile, usize)>)
    requires
        i <= s@.len(),
    ensures
        match r {
            Some(p) => p_profile(s@, i as int) == Some((p.0@, p.1 as int)) && p.1 <= s@.len(),
            None => p_profile(s@, i as int) is None,
        },
{
    let a = match expect_char(s, i, 123) {
        Some(v) => v,
        None => {
            return None;
        },
    };
    let b0 = match expect_lit(s, a, &crate::lit::k_height_vec()) {
        Some(v) => v,
        None => {
            return None;
        },
    };
    let b = match expect_char(s, b0, 58) {
        Some(v) => v,
        None => {
            return None;
        },
    };
    let (height, h1) = match parse_number_ws(s, b) {
        Some(v) => v,
        None => {
            return None;
        },
    };
    match expect_char(s, h1, 44) {
        Some(c) => {
            let (g, g1) = match parse_field_str(s, c, &crate::lit::k_gender_vec()) {
                Some(v) => v,
                None => {
                    return None;
                },
            };
            let z = match expect_char(s, g1, 125) {
                Some(v) => v,
                None => {
                    return None;
                },
            };
            Some((UserProfile { height_milli: height, gender: Some(g) }, z))
        },
        None => {
            let z = match expect_char(s, h1, 125) {
                Some(v) => v,
                None => {
                    return None;
                },
            };
            Some((UserProfile { height_milli: height, gender: None }, z))
        },
    }
}

/// Reads a goal object.
fn parse_goal(s: &Vec<u8>, i: usize) -> (r: Option<(Goal, usize)>)
    requires
        i <= s@.len(),
    ensures
        match r {
            Some(p) => p_goal(s@, i as int) == Some((p.0@, p.1 as int)) && p.1 <= s@.len(),
            None => p_goal(s@, i as int) is None,
        },
{
    let a = match expect_char(s, i, 123) {
        Some(v) => v,
        None => {
            return None;
        },
    };
    let b0 = match expect_lit(s, a, &crate::lit::k_target_weight_vec()) {
        Some(v) => v,
        None => {
            return None;
        },
    };
    let b = match expect_char(s, b0, 58) {
        Some(v) => v,
        None => {
            return None;
        },
    };
    let (w, w1) = match parse_number_ws(s, b) {
        Some(v) => v,
        None => {
            return None;
        },
    };
    let c = match expect_char(s, w1, 44) {
        Some(v) => v,
        None => {
            return None;
        },
    };
    match parse_field_str(s, c, &crate::lit::k_target_date_vec()) {
        Some((td, t1)) => {
            let d0 = match expect_char(s, t1, 44) {
                Some(v) => v,
                None => {
                    return None;
                },
            };
            let (ca, c1) = match parse_field_str(s, d0, &crate::lit::k_created_at_vec()) {
                Some(v) => v,
                None => {
                    return None;
                },
            };
            let z = match expect_char(s, c1, 125) {
                Some(v) => v,
                None => {
                    return None;
                },
            };
            Some((Goal { target_weight_milli: w, target_date: Some(td), created_at: ca }, z))
        },
        None => {
            let (ca, c1) = match parse_field_str(s, c, &crate::lit::k_created_at_vec()) {
                Some(v) => v,
                None => {
                    return None;
                },
            };
            let z = match expect_char(s, c1, 125) {
                Some(v) => v,
                None => {
                    return None;
                },
            };
            Some((Goal { target_weight_milli: w, target_date: None, created_at: ca }, z))
        },
    }
}

/// Reads a document object.
#[verifier::rlimit(100)]
#[verifier::spinoff_prover]
fn parse_doc(s: &Vec<u8>, i: usize) -> (r: Option<(AppData, usize)>)
    requires
        i <= s@.len(),
    ensures
        match r {
            Some(p) => p_doc(s@, i as int) == Some((p.0@, p.1 as int)) && p.1 <= s@.len(),
            None => p_doc(s@, i as int) is None,
        },
{
    let a = match expect_char(s, i, 123) {
        Some(v) => v,
        None => {
            return None;
        },
    };
    let b0 = match expect_lit(s, a, &crate::lit::k_records_vec()) {
        Some(v) => v,
        None => {
            return None;
        },
    };
    let b = match expect_char(s, b0, 58) {
        Some(v) => v,
        None => {
            return None;
        },
    };
    let (records, r1) = match parse_records(s, b) {
        Some(v) => v,
        None => {
            return None;
        },
    };
    let c = match expect_char(s, r1, 44) {
        Some(v) => v,
        None => {
            return None;
        },
    };
    // optional profile member
    let (profile, c2) = match expect_lit(s, c, &crate::lit::k_profile_vec()) {
        Some(j) => match expect_char(s, j, 58) {
            Some(a2) => {
                let (p, p1) = match parse_profile(s, a2) {
                    Some(v) => v,
                    None => {
                        return None;
                    },
                };
                let j2 = match expect_char(s, p1, 44) {
                    Some(v) => v,
                    None => {
                        return None;
                    },
                };
                (Some(p), j2)
            },
            None => (None, c),
        },
        None => (None, c),
    };
    // optional goal member
    let (goal, c3) = match expect_lit(s, c2, &crate::lit::k_goal_vec()) {
        Some(j) => match expect_char(s, j, 58) {
            Some(a2) => {
                let (g, g1) = match parse_goal(s, a2) {
                    Some(v) => v,
                    None => {
                        return None;
                    },
                };
                let j2 = match expect_char(s, g1, 44) {
                    Some(v) => v,
                    None => {
                        return None;
                    },
                };
                (Some(g), j2)
            },
            None => (None, c2),
        },
        None => (None, c2),
    };
    let d0 = match expect_lit(s, c3, &crate::lit::k_version_vec()) {
        Some(v) => v,
        None => {
            return None;
        },
    };
    let d1 = match expect_char(s, d0, 58) {
        Some(v) => v,
        None => {
            return None;
        },
    };
    let (version, v1) = match parse_int_ws(s, d1) {
        Some(v) => v,
        None => {
            return None;
        },
    };
    let z = match expect_char(s, v1, 125) {
        Some(v) => v,
        None => {
            return None;
        },
    };
    Some((AppData { records, profile, goal, version }, z))
}

/// Parses the whole input strictly as one document, in the canonical form
/// this library writes: fields in declaration order, absent optional fields
/// left out (a literal `null` is not accepted), any whitespace between
/// tokens.
pub fn parse_document(content: &Vec<u8>) -> (r: Option<AppData>)
    ensures
        r matches Some(d) ==> parse_doc_spec(content@) == Some(d@),
        r is None ==> parse_doc_spec(content@) is None,
{
    match parse_doc(content, 0) {
        None => None,
        Some((d, e)) => {
            let j = skip_ws(content, e);
            if j == content.len() {
                Some(d)
            } else {
                None
            }
        },
    }
}

/// Parses the whole input as one bare record array, in the same canonical
/// form.
pub fn parse_record_array(content: &Vec<u8>) -> (r: Option<Vec<WeightRecord>>)
    ensures
        r matches Some(rs) ==> parse_records_spec(content@) == Some(views_of(rs@)),
        r is None ==> parse_records_spec(content@) is None,
{
    match parse_records(content, 0) {
        None => None,
        Some((rs, e)) => {
            let j = skip_ws(content, e);
            if j == content.len() {
                Some(rs)
            } else {
                None
            }
        },
    }
}

} // verus!

verus! {

/// Restores a backup: the content must read strictly as a document, and on
/// success it replaces the store's document outright — no merge, no
/// conflict resolution, and no re-sort: the records stand as the backup
/// holds them. On failure the store is untouched.
pub fn restore_backup(data: &mut AppData, content: &Vec<u8>) -> (r: bool)
    ensures
        r == (parse_doc_spec(content@) is Some),
        r ==> parse_doc_spec(content@) == Some(final(data)@),
        !r ==> final(data)@ == old(data)@,
{
    match parse_document(content) {
        Some(d) => {
            *data = d;
            true
        },
        None => false,
    }
}

} // verus!
