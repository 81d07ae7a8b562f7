//! Byte-sequence utilities shared by the store, the importer and the codec:
//! ASCII classification, lexicographic order (the order of ISO 8601 date
//! strings), decimal formatting and parsing.

use vstd::prelude::*;

verus! {

/// ASCII space, tab, line feed and carriage return.
pub open spec fn is_ws(b: u8) -> bool {
    b == 32 || b == 9 || b == 10 || b == 13
}

pub open spec fn is_digit(b: u8) -> bool {
    48 <= b <= 57
}

pub fn byte_is_ws(b: u8) -> (r: bool)
    ensures
        r == is_ws(b),
{
    b == 32 || b == 9 || b == 10 || b == 13
}

pub fn byte_is_digit(b: u8) -> (r: bool)
    ensures
        r == is_digit(b),
{
    48 <= b && b <= 57
}

/// Lexicographic "less than or equal" on byte sequences; this is how the
/// standard library orders the strings that hold ISO 8601 dates.
pub open spec fn lex_leq(a: Seq<u8>, b: Seq<u8>) -> bool
    decreases a.len(),
{
    if a.len() == 0 {
        true
    } else if b.len() == 0 {
        false
    } else if a[0] < b[0] {
        true
    } else if a[0] > b[0] {
        false
    } else {
        lex_leq(a.drop_first(), b.drop_first())
    }
}

pub proof fn lex_leq_refl(a: Seq<u8>)
    ensures
        lex_leq(a, a),
    decreases a.len(),
{
    if a.len() > 0 {
        lex_leq_refl(a.drop_first());
    }
}

pub proof fn lex_leq_total(a: Seq<u8>, b: Seq<u8>)
    ensures
        lex_leq(a, b) || lex_leq(b, a),
    decreases a.len(),
{
    if a.len() > 0 && b.len() > 0 && a[0] == b[0] {
        lex_leq_total(a.drop_first(), b.drop_first());
    }
}

pub proof fn lex_leq_trans(a: Seq<u8>, b: Seq<u8>, c: Seq<u8>)
    requires
        lex_leq(a, b),
        lex_leq(b, c),
    ensures
        lex_leq(a, c),
    decreases a.len(),
{
    if a.len() > 0 && b.len() > 0 && c.len() > 0 && a[0] == b[0] && b[0] == c[0] {
        lex_leq_trans(a.drop_first(), b.drop_first(), c.drop_first());
    }
}

/// Equality on byte vectors, decided byte by byte.
pub fn bytes_eq(a: &Vec<u8>, b: &Vec<u8>) -> (r: bool)
    ensures
        r == (a@ == b@),
{
    if a.len() != b.len() {
        assert(a@ != b@) by {
            assert(a@.len() != b@.len());
        }
        return false;
    }
    let n = a.len();
    let mut i: usize = 0;
    while i < n
        invariant
            n == a@.len() && n == b@.len(),
            i <= n,
            forall|k: int| 0 <= k < i ==> a@[k] == b@[k],
        decreases n - i,
    {
        if a[i] != b[i] {
            return false;
        }
        i = i + 1;
    }
    proof {
        assert(a@ =~= b@);
    }
    true
}

/// Lexicographic comparison on byte vectors.
pub fn bytes_leq(a: &Vec<u8>, b: &Vec<u8>) -> (r: bool)
    ensures
        r == lex_leq(a@, b@),
{
    let mut i: usize = 0;
    proof {
        assert(a@.skip(0) =~= a@);
        assert(b@.skip(0) =~= b@);
    }
    loop
        invariant
            i <= a@.len() && i <= b@.len(),
            forall|k: int| 0 <= k < i ==> a@[k] == b@[k],
            lex_leq(a@, b@) == lex_leq(a@.skip(i as int), b@.skip(i as int)),
        decreases a@.len() - i,
    {
        proof {
            lemma_lex_skip(a@, b@, i as int);
        }
        if i >= a.len() {
            return true;
        }
        if i >= b.len() {
            return false;
        }
        let x = a[i];
        let y = b[i];
        if x < y {
            return true;
        }
        if x > y {
            return false;
        }
        proof {
            assert(a@.skip(i as int).drop_first() =~= a@.skip(i as int + 1));
            assert(b@.skip(i as int).drop_first() =~= b@.skip(i as int + 1));
        }
        i = i + 1;
    }
}

/// One unfolding step of `lex_leq` on suffixes, phrased for the loop above.
proof fn lemma_lex_skip(a: Seq<u8>, b: Seq<u8>, i: int)
    requires
        0 <= i <= a.len(),
        0 <= i <= b.len(),
    ensures
        i == a.len() ==> lex_leq(a.skip(i), b.skip(i)),
        i < a.len() && i == b.len() ==> !lex_leq(a.skip(i), b.skip(i)),
        i < a.len() && i < b.len() && a[i] < b[i] ==> lex_leq(a.skip(i), b.skip(i)),
        i < a.len() && i < b.len() && a[i] > b[i] ==> !lex_leq(a.skip(i), b.skip(i)),
{
    if i == a.len() {
        assert(a.skip(i).len() == 0);
    } else if i == b.len() {
        assert(b.skip(i).len() == 0);
        assert(a.skip(i).len() > 0);
    } else {
        assert(a.skip(i)[0] == a[i]);
        assert(b.skip(i)[0] == b[i]);
    }
}

} // verus!

verus! {

// ---------------------------------------------------------------------------
// Decimal digits
// ---------------------------------------------------------------------------

/// Decimal digits of `n`, most significant first, no leading zeros
/// (a single `0` for zero).
pub open spec fn dec_digits(n: nat) -> Seq<u8>
    decreases n,
{
    if n < 10 {
        seq![(48 + n) as u8]
    } else {
        dec_digits(n / 10) + seq![(48 + n % 10) as u8]
    }
}

pub proof fn lemma_dec_digits_props(n: nat)
    ensures
        dec_digits(n).len() >= 1,
        forall|k: int| 0 <= k < dec_digits(n).len() ==> is_digit(#[trigger] dec_digits(n)[k]),
    decreases n,
{
    if n >= 10 {
        lemma_dec_digits_props(n / 10);
    }
}

/// Value of the digit run `s[i..j)`, read as a decimal number.
pub open spec fn digits_val(s: Seq<u8>, i: int, j: int) -> int
    decreases j - i,
{
    if i < j {
        digits_val(s, i, j - 1) * 10 + (s[j - 1] - 48)
    } else {
        0
    }
}

/// End of the digit run that starts at `i`.
pub open spec fn digits_end(s: Seq<u8>, i: int) -> int
    decreases s.len() - i,
{
    if 0 <= i < s.len() && is_digit(s[i]) {
        digits_end(s, i + 1)
    } else {
        i
    }
}

pub proof fn lemma_digits_end_props(s: Seq<u8>, i: int)
    requires
        0 <= i <= s.len(),
    ensures
        i <= digits_end(s, i) <= s.len(),
        forall|k: int| i <= k < digits_end(s, i) ==> is_digit(s[k]),
        digits_end(s, i) == s.len() || !is_digit(s[digits_end(s, i)]),
    decreases s.len() - i,
{
    if i < s.len() && is_digit(s[i]) {
        lemma_digits_end_props(s, i + 1);
    }
}

/// The digit run starting at `p` ends exactly after `k` known digits.
pub proof fn lemma_digits_end_at(s: Seq<u8>, p: int, k: int)
    requires
        0 <= p,
        0 <= k,
        p + k <= s.len(),
        forall|t: int| p <= t < p + k ==> is_digit(s[t]),
        p + k == s.len() || !is_digit(s[p + k]),
    ensures
        digits_end(s, p) == p + k,
    decreases k,
{
    if k > 0 {
        lemma_digits_end_at(s, p + 1, k - 1);
    }
}

/// The value of a digit run depends only on the bytes it covers.
pub proof fn lemma_val_offset(s: Seq<u8>, d: Seq<u8>, p: int, i: int, j: int)
    requires
        0 <= p,
        0 <= i <= j <= d.len(),
        p + j <= s.len(),
        forall|k: int| i <= k < j ==> s[p + k] == d[k],
    ensures
        digits_val(s, p + i, p + j) == digits_val(d, i, j),
    decreases j - i,
{
    if i < j {
        lemma_val_offset(s, d, p, i, j - 1);
    }
}

pub proof fn lemma_dec_digits_val(n: nat)
    ensures
        digits_val(dec_digits(n), 0, dec_digits(n).len() as int) == n,
    decreases n,
{
    let d = dec_digits(n);
    if n < 10 {
        assert(digits_val(d, 0, 0) == 0);
        assert(digits_val(d, 0, 1) == d[0] - 48);
    } else {
        let h = dec_digits(n / 10);
        lemma_dec_digits_val(n / 10);
        lemma_val_offset(d, h, 0, 0, h.len() as int);
        assert(digits_val(d, 0, d.len() as int)
            == digits_val(d, 0, d.len() - 1) * 10 + (d[d.len() - 1] - 48));
        assert(d[d.len() - 1] == (48 + n % 10) as u8);
        assert(n / 10 * 10 + n % 10 == n) by {
            vstd::arithmetic::div_mod::lemma_fundamental_div_mod(n as int, 10);
        }
    }
}

/// Digit-run values only grow as the run extends.
pub proof fn lemma_val_monotone(s: Seq<u8>, i: int, j: int, k: int)
    requires
        i <= j <= k,
        forall|t: int| i <= t < k ==> is_digit(s[t]),
    ensures
        0 <= digits_val(s, i, j) <= digits_val(s, i, k),
    decreases k - j,
{
    if j == k {
        lemma_val_nonneg(s, i, j);
    } else {
        lemma_val_monotone(s, i, j, k - 1);
        let v = digits_val(s, i, k - 1);
        assert(v * 10 >= v) by (nonlinear_arith)
            requires v >= 0,
        ;
    }
}

pub proof fn lemma_val_nonneg(s: Seq<u8>, i: int, j: int)
    requires
        forall|t: int| i <= t < j ==> is_digit(s[t]),
    ensures
        digits_val(s, i, j) >= 0,
    decreases j - i,
{
    if i < j {
        lemma_val_nonneg(s, i, j - 1);
    }
}

/// `v`, clamped into `u64`.
pub open spec fn sat_u64(v: int) -> u64 {
    if v > u64::MAX {
        u64::MAX
    } else if v < 0 {
        0
    } else {
        v as u64
    }
}

// ---------------------------------------------------------------------------
// Executable counterparts
// ---------------------------------------------------------------------------

/// Appends the decimal digits of `n`.
pub fn push_dec(out: &mut Vec<u8>, n: u64)
    ensures
        final(out)@ == old(out)@ + dec_digits(n as nat),
    decreases n,
{
    if n < 10 {
        out.push((48 + n) as u8);
        assert(out@ =~= old(out)@ + dec_digits(n as nat));
    } else {
        push_dec(out, n / 10);
        out.push((48 + (n % 10)) as u8);
        assert(out@ =~= old(out)@ + dec_digits(n as nat));
    }
}

/// First index at or after `i` that does not hold an ASCII digit.
pub fn scan_digits(s: &Vec<u8>, i: usize) -> (j: usize)
    requires
        i <= s@.len(),
    ensures
        j == digits_end(s@, i as int),
        i <= j <= s@.len(),
{
    proof {
        lemma_digits_end_props(s@, i as int);
    }
    let mut j: usize = i;
    while j < s.len() && byte_is_digit(s[j])
        invariant
            i <= j <= s@.len(),
            digits_end(s@, i as int) == digits_end(s@, j as int),
        decreases s@.len() - j,
    {
        j = j + 1;
    }
    j
}

/// Value of the digit run `s[i..j)`, clamped into `u64`.
pub fn digits_value(s: &Vec<u8>, i: usize, j: usize) -> (r: u64)
    requires
        i <= j <= s@.len(),
        forall|k: int| i <= k < j ==> is_digit(s@[k]),
    ensures
        r == sat_u64(digits_val(s@, i as int, j as int)),
{
    let mut acc: u64 = 0;
    let mut cur: usize = i;
    while cur < j
        invariant
            i <= cur <= j <= s@.len(),
            forall|k: int| i <= k < j ==> is_digit(s@[k]),
            acc == sat_u64(digits_val(s@, i as int, cur as int)),
        decreases j - cur,
    {
        proof {
            lemma_val_nonneg(s@, i as int, cur as int);
        }
        let d: u64 = (s[cur] - 48) as u64;
        let ghost v = digits_val(s@, i as int, cur as int);
        assert(digits_val(s@, i as int, cur as int + 1) == v * 10 + d);
        acc = match acc.checked_mul(10) {
            Some(m) => match m.checked_add(d) {
                Some(x) => x,
                None => u64::MAX,
            },
            None => u64::MAX,
        };
        proof {
            if v > u64::MAX {
                assert(v * 10 >= v) by (nonlinear_arith)
                    requires v >= 0,
                ;
            }
        }
        cur = cur + 1;
    }
    acc
}

} // verus!

verus! {

// ---------------------------------------------------------------------------
// Fixed-point numbers: values carried in thousandths (milli-units)
// ---------------------------------------------------------------------------

/// Fraction digits of `f` thousandths, trailing zeros trimmed but at least
/// one digit kept, as a decimal fraction would be written.
pub open spec fn frac_digits(f: nat) -> Seq<u8> {
    if f % 100 == 0 {
        seq![(48 + f / 100) as u8]
    } else if f % 10 == 0 {
        seq![(48 + f / 100) as u8, (48 + (f / 10) % 10) as u8]
    } else {
        seq![(48 + f / 100) as u8, (48 + (f / 10) % 10) as u8, (48 + f % 10) as u8]
    }
}

/// Decimal rendering of `w` thousandths: integer part, point, fraction.
pub open spec fn ser_milli(w: u64) -> Seq<u8> {
    dec_digits((w / 1000) as nat) + seq![46u8] + frac_digits((w % 1000) as nat)
}

/// Milli-value of the fraction run `s[i..j)`: the first three fraction
/// digits weighted, further digits truncated.
pub open spec fn frac_milli(s: Seq<u8>, i: int, j: int) -> int {
    if j - i >= 3 {
        digits_val(s, i, i + 3)
    } else if j - i == 2 {
        digits_val(s, i, j) * 10
    } else {
        digits_val(s, i, j) * 100
    }
}

/// Parse of an unsigned decimal number at `i` into thousandths, clamped
/// into `u64`. Returns the value and the index after the number.
pub open spec fn p_unsigned_milli(s: Seq<u8>, i: int) -> Option<(u64, int)> {
    let j = digits_end(s, i);
    if j == i {
        None
    } else {
        let n = digits_val(s, i, j);
        if j < s.len() && s[j] == 46 {
            let k = digits_end(s, j + 1);
            if k == j + 1 {
                None
            } else {
                Some((sat_u64(n * 1000 + frac_milli(s, j + 1, k)), k))
            }
        } else {
            Some((sat_u64(n * 1000), j))
        }
    }
}

/// Parse of a possibly signed decimal number into thousandths. A negative
/// number is read in full and clamped to zero: every negative weight lies
/// below the accepted range, so only the clamped value matters.
pub open spec fn p_number(s: Seq<u8>, i: int) -> Option<(u64, int)> {
    if !(0 <= i < s.len()) {
        None
    } else if s[i] == 45 {
        match p_unsigned_milli(s, i + 1) {
            Some(v) => Some((0u64, v.1)),
            None => None,
        }
    } else {
        p_unsigned_milli(s, i)
    }
}

/// Parsing inverts rendering: in any context that does not continue with a
/// digit or a point, the rendered number reads back as itself.
pub proof fn lemma_p_number_ser(w: u64, pre: Seq<u8>, rest: Seq<u8>)
    requires
        rest.len() > 0 ==> !is_digit(rest[0]) && rest[0] != 46,
    ensures
        p_number(pre + ser_milli(w) + rest, pre.len() as int) == Some(
            (w, pre.len() + ser_milli(w).len() as int),
        ),
{
    let s = pre + ser_milli(w) + rest;
    let p = pre.len() as int;
    let hi = (w / 1000) as nat;
    let f = (w % 1000) as nat;
    let d1 = dec_digits(hi);
    let fr = frac_digits(f);
    let il = d1.len() as int;
    let fl = fr.len() as int;
    lemma_dec_digits_props(hi);
    lemma_dec_digits_val(hi);
    assert(forall|k: int| 0 <= k < il ==> s[p + k] == d1[k]);
    assert(s[p + il] == 46);
    assert(forall|k: int| 0 <= k < fl ==> s[p + il + 1 + k] == fr[k]);
    assert(f / 100 <= 9 && (f / 10) % 10 <= 9 && f % 10 <= 9);
    assert(forall|k: int| 0 <= k < fl ==> is_digit(fr[k]));
    assert(p + il + 1 + fl == s.len() - rest.len());
    // integer part
    lemma_digits_end_at(s, p, il);
    assert(s[p] == d1[0]);
    assert(is_digit(s[p]) && s[p] != 45);
    lemma_val_offset(s, d1, p, 0, il);
    assert(digits_val(s, p, p + il) == hi);
    // fraction part
    lemma_digits_end_at(s, p + il + 1, fl);
    let k_end = p + il + 1 + fl;
    lemma_val_offset(s, fr, p + il + 1, 0, fl);
    assert(digits_val(s, p + il + 1, k_end) == digits_val(fr, 0, fl));
    lemma_frac_digits_val(f);
    // frac_milli reads the same run
    if fl == 3 {
        assert(frac_milli(s, p + il + 1, k_end) == digits_val(s, p + il + 1, p + il + 1 + 3));
    }
    assert(frac_milli(s, p + il + 1, k_end) == f);
    assert(hi * 1000 + f == w) by {
        vstd::arithmetic::div_mod::lemma_fundamental_div_mod(w as int, 1000);
    }
    assert(sat_u64(digits_val(s, p, p + il) * 1000 + frac_milli(s, p + il + 1, k_end)) == w);
    assert(p + ser_milli(w).len() == k_end);
}

/// The trimmed fraction digits evaluate back to the fraction, after the
/// missing trailing zeros are restored by weighting.
proof fn lemma_frac_digits_val(f: nat)
    requires
        f < 1000,
    ensures
        frac_digits(f).len() >= 1,
        ({
            let fr = frac_digits(f);
            let fl = fr.len() as int;
            (if fl >= 3 {
                digits_val(fr, 0, 3)
            } else if fl == 2 {
                digits_val(fr, 0, 2) * 10
            } else {
                digits_val(fr, 0, 1) * 100
            }) == f
        }),
{
    let fr = frac_digits(f);
    assert(digits_val(fr, 0, 0) == 0);
    assert(digits_val(fr, 0, 1) == digits_val(fr, 0, 0) * 10 + (fr[0] - 48));
    if f % 100 == 0 {
        assert(digits_val(fr, 0, 1) == f / 100);
        assert(f / 100 * 100 == f) by {
            vstd::arithmetic::div_mod::lemma_fundamental_div_mod(f as int, 100);
        }
    } else if f % 10 == 0 {
        assert(digits_val(fr, 0, 2) == digits_val(fr, 0, 1) * 10 + (fr[1] - 48));
        assert(digits_val(fr, 0, 2) == (f / 100) * 10 + (f / 10) % 10);
        assert(((f / 100) * 10 + (f / 10) % 10) * 10 == f) by {
            vstd::arithmetic::div_mod::lemma_fundamental_div_mod(f as int, 10);
            vstd::arithmetic::div_mod::lemma_fundamental_div_mod((f / 10) as int, 10);
            assert(f / 10 / 10 == f / 100) by (nonlinear_arith)
                requires f < 1000,
            ;
        }
    } else {
        assert(digits_val(fr, 0, 2) == digits_val(fr, 0, 1) * 10 + (fr[1] - 48));
        assert(digits_val(fr, 0, 3) == digits_val(fr, 0, 2) * 10 + (fr[2] - 48));
        assert(digits_val(fr, 0, 3) == ((f / 100) * 10 + (f / 10) % 10) * 10 + f % 10);
        assert(((f / 100) * 10 + (f / 10) % 10) * 10 + f % 10 == f) by {
            vstd::arithmetic::div_mod::lemma_fundamental_div_mod(f as int, 10);
            vstd::arithmetic::div_mod::lemma_fundamental_div_mod((f / 10) as int, 10);
            assert(f / 10 / 10 == f / 100) by (nonlinear_arith)
                requires f < 1000,
            ;
        }
    }
}

// ---------------------------------------------------------------------------
// Signed integers (the document's version tag)
// ---------------------------------------------------------------------------

pub open spec fn ser_i32(v: i32) -> Seq<u8> {
    if v >= 0 {
        dec_digits(v as nat)
    } else {
        seq![45u8] + dec_digits((-(v as int)) as nat)
    }
}

pub open spec fn sat_pos_i32(v: int) -> i32 {
    if v > i32::MAX {
        i32::MAX
    } else if v < 0 {
        0
    } else {
        v as i32
    }
}

pub open spec fn sat_neg_i32(v: int) -> i32 {
    if v >= 0x8000_0000 {
        i32::MIN
    } else if v < 0 {
        0
    } else {
        (-v) as i32
    }
}

/// Parse of a possibly signed integer at `i`, clamped into `i32`.
pub open spec fn p_int(s: Seq<u8>, i: int) -> Option<(i32, int)> {
    if !(0 <= i < s.len()) {
        None
    } else if s[i] == 45 {
        let j = digits_end(s, i + 1);
        if j == i + 1 {
            None
        } else {
            Some((sat_neg_i32(digits_val(s, i + 1, j)), j))
        }
    } else {
        let j = digits_end(s, i);
        if j == i {
            None
        } else {
            Some((sat_pos_i32(digits_val(s, i, j)), j))
        }
    }
}

pub proof fn lemma_p_int_ser(v: i32, pre: Seq<u8>, rest: Seq<u8>)
    requires
        rest.len() > 0 ==> !is_digit(rest[0]),
    ensures
        p_int(pre + ser_i32(v) + rest, pre.len() as int) == Some(
            (v, pre.len() + ser_i32(v).len() as int),
        ),
{
    let s = pre + ser_i32(v) + rest;
    let p = pre.len() as int;
    let m: nat = if v >= 0 { v as nat } else { (-(v as int)) as nat };
    let d = dec_digits(m);
    let dl = d.len() as int;
    lemma_dec_digits_props(m);
    lemma_dec_digits_val(m);
    if v >= 0 {
        assert(forall|k: int| 0 <= k < dl ==> s[p + k] == d[k]);
        lemma_digits_end_at(s, p, dl);
        lemma_val_offset(s, d, p, 0, dl);
        assert(is_digit(s[p]) && s[p] != 45);
    } else {
        assert(s[p] == 45);
        assert(forall|k: int| 0 <= k < dl ==> s[p + 1 + k] == d[k]);
        lemma_digits_end_at(s, p + 1, dl);
        lemma_val_offset(s, d, p + 1, 0, dl);
        assert(digits_val(s, p + 1, p + 1 + dl) == m);
    }
}

} // verus!

verus! {

// ---------------------------------------------------------------------------
// Executable number parsing
// ---------------------------------------------------------------------------

/// Small digit runs stay below the clamping threshold.
proof fn lemma_val_small(s: Seq<u8>, a: int, k: int)
    requires
        0 <= k <= 3,
        forall|t: int| a <= t < a + k ==> is_digit(s[t]),
    ensures
        0 <= digits_val(s, a, a + k),
        k == 3 ==> digits_val(s, a, a + k) <= 999,
        k == 2 ==> digits_val(s, a, a + k) <= 99,
        k == 1 ==> digits_val(s, a, a + k) <= 9,
{
    assert(digits_val(s, a, a) == 0);
    if k >= 1 {
        assert(digits_val(s, a, a + 1) == digits_val(s, a, a) * 10 + (s[a] - 48));
    }
    if k >= 2 {
        assert(digits_val(s, a, a + 2) == digits_val(s, a, a + 1) * 10 + (s[a + 1] - 48));
    }
    if k >= 3 {
        assert(digits_val(s, a, a + 3) == digits_val(s, a, a + 2) * 10 + (s[a + 2] - 48));
    }
}

/// Parses an unsigned decimal number at `i` into thousandths.
fn parse_unsigned(s: &Vec<u8>, i: usize) -> (r: Option<(u64, usize)>)
    requires
        i <= s@.len(),
    ensures
        r == match p_unsigned_milli(s@, i as int) {
            Some(p) => Some((p.0, p.1 as usize)),
            None => None::<(u64, usize)>,
        },
{
    let j = scan_digits(s, i);
    proof {
        lemma_digits_end_props(s@, i as int);
    }
    if j == i {
        return None;
    }
    let n = digits_value(s, i, j);
    let ghost nv = digits_val(s@, i as int, j as int);
    proof {
        lemma_val_nonneg(s@, i as int, j as int);
    }
    if j < s.len() && s[j] == 46 {
        let k = scan_digits(s, j + 1);
        proof {
            lemma_digits_end_props(s@, j as int + 1);
        }
        if k == j + 1 {
            return None;
        }
        let fl = k - (j + 1);
        let f: u64 = if fl >= 3 {
            proof {
                lemma_val_small(s@, j as int + 1, 3);
            }
            digits_value(s, j + 1, j + 4)
        } else if fl == 2 {
            proof {
                lemma_val_small(s@, j as int + 1, 2);
            }
            digits_value(s, j + 1, k) * 10
        } else {
            proof {
                lemma_val_small(s@, j as int + 1, 1);
            }
            digits_value(s, j + 1, k) * 100
        };
        assert(f == frac_milli(s@, j as int + 1, k as int));
        let total = combine_milli(n, f, Ghost(nv));
        Some((total, k))
    } else {
        let total = combine_milli(n, 0, Ghost(nv));
        assert(nv * 1000 + 0 == nv * 1000);
        Some((total, j))
    }
}

/// Clamped combination `n * 1000 + f` of an integer part (already clamped
/// from `nv`) and a milli fraction.
fn combine_milli(n: u64, f: u64, Ghost(nv): Ghost<int>) -> (r: u64)
    requires
        n == sat_u64(nv),
        nv >= 0,
        f <= 999,
    ensures
        r == sat_u64(nv * 1000 + f),
{
    proof {
        if nv > u64::MAX {
            assert(nv * 1000 >= nv) by (nonlinear_arith)
                requires nv >= 0,
            ;
        }
    }
    match n.checked_mul(1000) {
        Some(m) => match m.checked_add(f) {
            Some(x) => x,
            None => u64::MAX,
        },
        None => {
            proof {
                if nv <= u64::MAX {
                    assert(nv * 1000 + f >= nv * 1000);
                }
            }
            u64::MAX
        },
    }
}

/// Parses a possibly signed decimal number at `i` into thousandths; a
/// negative value is clamped to zero.
pub fn parse_number(s: &Vec<u8>, i: usize) -> (r: Option<(u64, usize)>)
    requires
        i <= s@.len(),
    ensures
        r == match p_number(s@, i as int) {
            Some(p) => Some((p.0, p.1 as usize)),
            None => None::<(u64, usize)>,
        },
{
    if i >= s.len() {
        return None;
    }
    if s[i] == 45 {
        match parse_unsigned(s, i + 1) {
            Some(p) => Some((0, p.1)),
            None => None,
        }
    } else {
        parse_unsigned(s, i)
    }
}

/// Parses a possibly signed integer at `i`, clamped into `i32`.
pub fn parse_int(s: &Vec<u8>, i: usize) -> (r: Option<(i32, usize)>)
    requires
        i <= s@.len(),
    ensures
        r == match p_int(s@, i as int) {
            Some(p) => Some((p.0, p.1 as usize)),
            None => None::<(i32, usize)>,
        },
{
    if i >= s.len() {
        return None;
    }
    if s[i] == 45 {
        let j = scan_digits(s, i + 1);
        proof {
            lemma_digits_end_props(s@, i as int + 1);
            lemma_val_nonneg(s@, i as int + 1, digits_end(s@, i as int + 1));
        }
        if j == i + 1 {
            return None;
        }
        let v = digits_value(s, i + 1, j);
        let r: i32 = if v >= 0x8000_0000u64 {
            i32::MIN
        } else {
            (-(v as i64)) as i32
        };
        Some((r, j))
    } else {
        let j = scan_digits(s, i);
        proof {
            lemma_digits_end_props(s@, i as int);
            lemma_val_nonneg(s@, i as int, digits_end(s@, i as int));
        }
        if j == i {
            return None;
        }
        let v = digits_value(s, i, j);
        let r: i32 = if v > i32::MAX as u64 {
            i32::MAX
        } else {
            v as i32
        };
        Some((r, j))
    }
}

// ---------------------------------------------------------------------------
// Whitespace, trimming, splitting
// ---------------------------------------------------------------------------

/// First index at or after `i` that holds no ASCII whitespace.
pub open spec fn sw(s: Seq<u8>, i: int) -> int
    decreases s.len() - i,
{
    if 0 <= i < s.len() && is_ws(s[i]) {
        sw(s, i + 1)
    } else {
        i
    }
}

pub proof fn lemma_sw_props(s: Seq<u8>, i: int)
    requires
        0 <= i <= s.len(),
    ensures
        i <= sw(s, i) <= s.len(),
        forall|k: int| i <= k < sw(s, i) ==> is_ws(s[k]),
        sw(s, i) == s.len() || !is_ws(s[sw(s, i)]),
    decreases s.len() - i,
{
    if i < s.len() && is_ws(s[i]) {
        lemma_sw_props(s, i + 1);
    }
}

pub fn skip_ws(s: &Vec<u8>, i: usize) -> (j: usize)
    requires
        i <= s@.len(),
    ensures
        j == sw(s@, i as int),
        i <= j <= s@.len(),
{
    proof {
        lemma_sw_props(s@, i as int);
    }
    let mut j: usize = i;
    while j < s.len() && byte_is_ws(s[j])
        invariant
            i <= j <= s@.len(),
            sw(s@, i as int) == sw(s@, j as int),
        decreases s@.len() - j,
    {
        j = j + 1;
    }
    j
}

pub open spec fn trim_start(s: Seq<u8>) -> Seq<u8>
    decreases s.len(),
{
    if s.len() > 0 && is_ws(s[0]) {
        trim_start(s.drop_first())
    } else {
        s
    }
}

pub open spec fn trim_end(s: Seq<u8>) -> Seq<u8>
    decreases s.len(),
{
    if s.len() > 0 && is_ws(s.last()) {
        trim_end(s.drop_last())
    } else {
        s
    }
}

/// ASCII whitespace stripped from both ends.
pub open spec fn trim(s: Seq<u8>) -> Seq<u8> {
    trim_end(trim_start(s))
}

proof fn lemma_trim_start_skip(s: Seq<u8>, lo: int)
    requires
        0 <= lo <= s.len(),
        forall|k: int| 0 <= k < lo ==> is_ws(s[k]),
        lo == s.len() || !is_ws(s[lo]),
    ensures
        trim_start(s) == s.skip(lo),
    decreases lo,
{
    if lo == 0 {
        assert(s.skip(0) =~= s);
    } else {
        assert(s.drop_first() =~= s.skip(1));
        lemma_trim_start_skip(s.skip(1), lo - 1);
        assert(s.skip(1).skip(lo - 1) =~= s.skip(lo));
    }
}

proof fn lemma_trim_end_take(s: Seq<u8>, hi: int)
    requires
        0 <= hi <= s.len(),
        forall|k: int| hi <= k < s.len() ==> is_ws(s[k]),
        hi == 0 || !is_ws(s[hi - 1]),
    ensures
        trim_end(s) == s.take(hi),
    decreases s.len() - hi,
{
    if hi == s.len() {
        assert(s.take(hi) =~= s);
    } else {
        assert(s.drop_last() =~= s.take(s.len() - 1));
        lemma_trim_end_take(s.take(s.len() - 1), hi);
        assert(s.take(s.len() - 1).take(hi) =~= s.take(hi));
    }
}

/// Copy of `s` with ASCII whitespace stripped from both ends.
pub fn trim_bytes(s: &Vec<u8>) -> (r: Vec<u8>)
    ensures
        r@ == trim(s@),
{
    let mut lo: usize = 0;
    while lo < s.len() && byte_is_ws(s[lo])
        invariant
            lo <= s@.len(),
            forall|k: int| 0 <= k < lo ==> is_ws(s@[k]),
        decreases s@.len() - lo,
    {
        lo = lo + 1;
    }
    let mut hi: usize = s.len();
    while hi > lo && byte_is_ws(s[hi - 1])
        invariant
            lo <= hi <= s@.len(),
            forall|k: int| hi <= k < s@.len() ==> is_ws(s@[k]),
        decreases hi,
    {
        hi = hi - 1;
    }
    proof {
        lemma_trim_start_skip(s@, lo as int);
        if hi == lo {
            lemma_trim_end_take(s@.skip(lo as int), 0);
        } else {
            lemma_trim_end_take(s@.skip(lo as int), hi - lo);
        }
    }
    let mut r: Vec<u8> = Vec::new();
    let mut k: usize = lo;
    while k < hi
        invariant
            lo <= k <= hi <= s@.len(),
            r@ =~= s@.subrange(lo as int, k as int),
        decreases hi - k,
    {
        r.push(s[k]);
        k = k + 1;
    }
    proof {
        if hi == lo {
            assert(r@ =~= s@.skip(lo as int).take(0));
        } else {
            assert(r@ =~= s@.skip(lo as int).take(hi - lo as int));
        }
    }
    r
}

/// First index at or after `i` holding `sep`, or the length.
pub open spec fn find_byte(s: Seq<u8>, sep: u8, i: int) -> int
    decreases s.len() - i,
{
    if 0 <= i < s.len() {
        if s[i] == sep {
            i
        } else {
            find_byte(s, sep, i + 1)
        }
    } else {
        s.len() as int
    }
}

pub proof fn lemma_find_byte_props(s: Seq<u8>, sep: u8, i: int)
    requires
        0 <= i <= s.len(),
    ensures
        i <= find_byte(s, sep, i) <= s.len(),
        forall|k: int| i <= k < find_byte(s, sep, i) ==> s[k] != sep,
        find_byte(s, sep, i) < s.len() ==> s[find_byte(s, sep, i)] == sep,
    decreases s.len() - i,
{
    if i < s.len() && s[i] != sep {
        lemma_find_byte_props(s, sep, i + 1);
    }
}

fn scan_to_byte(s: &Vec<u8>, sep: u8, i: usize) -> (j: usize)
    requires
        i <= s@.len(),
    ensures
        j == find_byte(s@, sep, i as int),
        i <= j <= s@.len(),
{
    proof {
        lemma_find_byte_props(s@, sep, i as int);
    }
    let mut j: usize = i;
    while j < s.len() && s[j] != sep
        invariant
            i <= j <= s@.len(),
            find_byte(s@, sep, i as int) == find_byte(s@, sep, j as int),
        decreases s@.len() - j,
    {
        j = j + 1;
    }
    j
}

/// The pieces of `s` between occurrences of `sep`, from index `i` on.
pub open spec fn split_from(s: Seq<u8>, sep: u8, i: int) -> Seq<Seq<u8>>
    decreases s.len() - i,
    via split_from_dec
{
    if 0 <= i <= s.len() {
        let j = find_byte(s, sep, i);
        if j >= s.len() {
            seq![s.subrange(i, s.len() as int)]
        } else {
            seq![s.subrange(i, j)] + split_from(s, sep, j + 1)
        }
    } else {
        seq![]
    }
}

/// The pieces of `s` between occurrences of `sep`; always at least one
/// piece, as the standard `split` yields.
#[via_fn]
proof fn split_from_dec(s: Seq<u8>, sep: u8, i: int) {
    if 0 <= i <= s.len() {
        lemma_find_byte_props(s, sep, i);
    }
}

pub open spec fn split_bytes(s: Seq<u8>, sep: u8) -> Seq<Seq<u8>> {
    split_from(s, sep, 0)
}

pub proof fn lemma_split_from_len(s: Seq<u8>, sep: u8, i: int)
    requires
        0 <= i <= s.len(),
    ensures
        split_from(s, sep, i).len() >= 1,
{
    lemma_find_byte_props(s, sep, i);
}

/// Splits a byte vector on `sep`.
pub fn split_vec(s: &Vec<u8>, sep: u8) -> (r: Vec<Vec<u8>>)
    ensures
        r@.map_values(|v: Vec<u8>| v@) == split_bytes(s@, sep),
        r@.len() >= 1,
{
    let mut out: Vec<Vec<u8>> = Vec::new();
    let mut start: usize = 0;
    loop
        invariant
            start <= s@.len(),
            split_bytes(s@, sep) == out@.map_values(|v: Vec<u8>| v@) + split_from(
                s@,
                sep,
                start as int,
            ),
        decreases s@.len() - start,
    {
        let j = scan_to_byte(s, sep, start);
        proof {
            lemma_find_byte_props(s@, sep, start as int);
        }
        let mut field: Vec<u8> = Vec::new();
        let mut k: usize = start;
        while k < j
            invariant
                start <= k <= j <= s@.len(),
                field@ =~= s@.subrange(start as int, k as int),
            decreases j - k,
        {
            field.push(s[k]);
            k = k + 1;
        }
        let ghost old_out = out@;
        out.push(field);
        proof {
            assert(out@.map_values(|v: Vec<u8>| v@) =~= old_out.map_values(|v: Vec<u8>| v@)
                + seq![s@.subrange(start as int, j as int)]);
        }
        if j >= s.len() {
            proof {
                assert(split_from(s@, sep, start as int) == seq![
                    s@.subrange(start as int, s@.len() as int),
                ]);
                assert(split_bytes(s@, sep) =~= out@.map_values(|v: Vec<u8>| v@));
            }
            return out;
        }
        proof {
            assert(split_from(s@, sep, start as int) == seq![s@.subrange(start as int, j as int)]
                + split_from(s@, sep, j + 1));
            assert(split_bytes(s@, sep) =~= out@.map_values(|v: Vec<u8>| v@) + split_from(
                s@,
                sep,
                j + 1,
            ));
        }
        start = j + 1;
    }
}

} // verus!

verus! {

// ---------------------------------------------------------------------------
// Lines, lower-casing, substring search
// ---------------------------------------------------------------------------

/// One trailing carriage return removed, as the standard `lines` does.
pub open spec fn strip_cr(l: Seq<u8>) -> Seq<u8> {
    if l.len() > 0 && l.last() == 13 {
        l.drop_last()
    } else {
        l
    }
}

/// The lines of `s`: pieces between line feeds, one trailing carriage
/// return stripped from each, and no empty piece after a final line feed.
pub open spec fn split_lines(s: Seq<u8>) -> Seq<Seq<u8>> {
    if s.len() == 0 {
        seq![]
    } else {
        let p = split_bytes(s, 10);
        let q = if p.last().len() == 0 {
            p.drop_last()
        } else {
            p
        };
        q.map_values(|l: Seq<u8>| strip_cr(l))
    }
}

pub fn lines_vec(s: &Vec<u8>) -> (r: Vec<Vec<u8>>)
    ensures
        r@.map_values(|v: Vec<u8>| v@) == split_lines(s@),
{
    if s.len() == 0 {
        let r: Vec<Vec<u8>> = Vec::new();
        proof {
            assert(r@.map_values(|v: Vec<u8>| v@) =~= split_lines(s@));
        }
        return r;
    }
    let mut p = split_vec(s, 10);
    let ghost p0 = p@.map_values(|v: Vec<u8>| v@);
    if p[p.len() - 1].len() == 0 {
        let _ = p.pop();
        proof {
            assert(p@.map_values(|v: Vec<u8>| v@) =~= p0.drop_last());
        }
    }
    let ghost q = p@.map_values(|v: Vec<u8>| v@);
    let mut r: Vec<Vec<u8>> = Vec::new();
    let n = p.len();
    let mut i: usize = 0;
    while i < n
        invariant
            i <= n == p@.len(),
            q == p@.map_values(|v: Vec<u8>| v@),
            r@.map_values(|v: Vec<u8>| v@) =~= q.take(i as int).map_values(
                |l: Seq<u8>| strip_cr(l),
            ),
        decreases n - i,
    {
        let mut line = Vec::new();
        let m = p[i].len();
        let mut k: usize = 0;
        while k < m
            invariant
                i < p@.len(),
                k <= m == p@[i as int]@.len(),
                line@ =~= p@[i as int]@.take(k as int),
            decreases m - k,
        {
            line.push(p[i][k]);
            k = k + 1;
        }
        if line.len() > 0 && line[line.len() - 1] == 13 {
            let _ = line.pop();
        }
        assert(line@ =~= strip_cr(q[i as int]));
        let ghost r_old = r@;
        r.push(line);
        proof {
            assert(r@.map_values(|v: Vec<u8>| v@) =~= r_old.map_values(|v: Vec<u8>| v@).push(
                line@,
            ));
            assert(q.take(i + 1).map_values(|l: Seq<u8>| strip_cr(l)) =~= q.take(
                i as int,
            ).map_values(|l: Seq<u8>| strip_cr(l)).push(strip_cr(q[i as int])));
            assert(r@.map_values(|v: Vec<u8>| v@) =~= q.take(i + 1).map_values(
                |l: Seq<u8>| strip_cr(l),
            ));
        }
        i = i + 1;
    }
    proof {
        assert(q.take(n as int) =~= q);
        assert(split_lines(s@) == q.map_values(|l: Seq<u8>| strip_cr(l)));
    }
    r
}

pub open spec fn to_lower(b: u8) -> u8 {
    if 65 <= b <= 90 {
        (b + 32) as u8
    } else {
        b
    }
}

pub open spec fn lower(s: Seq<u8>) -> Seq<u8> {
    s.map_values(|b: u8| to_lower(b))
}

/// Whether `p` occurs as a contiguous run inside `s`.
pub open spec fn contains_seq(s: Seq<u8>, p: Seq<u8>) -> bool {
    exists|i: int| 0 <= i && i + p.len() <= s.len() && #[trigger] s.subrange(i, i + p.len()) == p
}

/// Substring search, on the lower-cased haystack.
pub fn lower_contains(s: &Vec<u8>, p: &Vec<u8>) -> (r: bool)
    ensures
        r == contains_seq(lower(s@), p@),
{
    let ghost ls = lower(s@);
    let n = s.len();
    let m = p.len();
    if m > n {
        proof {
            if contains_seq(ls, p@) {
                let w = choose|t: int|
                    0 <= t && t + p@.len() <= ls.len() && #[trigger] ls.subrange(
                        t,
                        t + p@.len(),
                    ) == p@;
                assert(w + p@.len() <= ls.len() && w >= 0);
                assert(false);
            }
        }
        return false;
    }
    if m == 0 {
        proof {
            assert(ls.subrange(0, 0 + p@.len() as int) =~= p@);
        }
        return true;
    }
    let mut i: usize = 0;
    while i <= n - m
        invariant
            0 < m <= n == s@.len(),
            m == p@.len(),
            ls == lower(s@),
            i <= n - m + 1,
            forall|t: int| 0 <= t < i ==> #[trigger] ls.subrange(t, t + p@.len()) != p@,
        decreases n - i,
    {
        let mut k: usize = 0;
        let mut hit = true;
        while k < m
            invariant
                m <= n == s@.len(),
                m == p@.len(),
                i + m <= n,
                ls == lower(s@),
                k <= m,
                hit == (forall|t: int| 0 <= t < k ==> ls[i + t] == p@[t]),
            decreases m - k,
        {
            let c = s[i + k];
            let lc = if 65 <= c && c <= 90 {
                c + 32
            } else {
                c
            };
            assert(lc == ls[i + k]);
            if lc != p[k] {
                hit = false;
                assert(ls[i + k as int] != p@[k as int]);
                k = m;
            } else {
                assert(ls[i + k as int] == p@[k as int]);
                k = k + 1;
            }
        }
        if hit {
            proof {
                assert(ls.subrange(i as int, i + p@.len()) =~= p@);
            }
            return true;
        }
        proof {
            if ls.subrange(i as int, i + p@.len()) == p@ {
                assert(forall|t: int| 0 <= t < m ==> #[trigger] ls.subrange(
                    i as int,
                    i + p@.len(),
                )[t] == ls[i + t]);
            }
        }
        i = i + 1;
    }
    proof {
        if contains_seq(ls, p@) {
            let w = choose|t: int|
                0 <= t && t + p@.len() <= ls.len() && #[trigger] ls.subrange(t, t + p@.len())
                    == p@;
            assert(w < i);
        }
    }
    false
}

} // verus!

verus! {

/// Appends a copy of `s` to `out`.
pub fn push_all(out: &mut Vec<u8>, s: &Vec<u8>)
    ensures
        final(out)@ == old(out)@ + s@,
{
    let ghost base = out@;
    let mut i: usize = 0;
    while i < s.len()
        invariant
            i <= s@.len(),
            out@ =~= base + s@.take(i as int),
        decreases s@.len() - i,
    {
        out.push(s[i]);
        i = i + 1;
    }
    proof {
        assert(base + s@.take(s@.len() as int) =~= base + s@);
    }
}

/// A fresh copy of a byte vector.
pub fn copy_bytes(s: &Vec<u8>) -> (r: Vec<u8>)
    ensures
        r@ == s@,
{
    let mut r: Vec<u8> = Vec::new();
    push_all(&mut r, s);
    proof {
        assert(Seq::<u8>::empty() + s@ =~= s@);
    }
    r
}

} // verus!

verus! {

/// Appends the decimal rendering of `w` thousandths, point and fraction
/// included.
pub fn push_milli(out: &mut Vec<u8>, w: u64)
    ensures
        final(out)@ == old(out)@ + ser_milli(w),
{
    push_dec(out, w / 1000);
    out.push(46);
    let f = w % 1000;
    if f % 100 == 0 {
        out.push((48 + f / 100) as u8);
    } else if f % 10 == 0 {
        out.push((48 + f / 100) as u8);
        out.push((48 + (f / 10) % 10) as u8);
    } else {
        out.push((48 + f / 100) as u8);
        out.push((48 + (f / 10) % 10) as u8);
        out.push((48 + f % 10) as u8);
    }
    proof {
        assert(out@ =~= old(out)@ + ser_milli(w));
    }
}

/// Appends the decimal rendering of `v`, sign included.
pub fn push_i32(out: &mut Vec<u8>, v: i32)
    ensures
        final(out)@ == old(out)@ + ser_i32(v),
{
    if v >= 0 {
        push_dec(out, v as u64);
    } else {
        out.push(45);
        let m: i64 = -(v as i64);
        push_dec(out, m as u64);
        proof {
            assert(out@ =~= old(out)@ + ser_i32(v));
        }
    }
}

} // verus!

verus! {

/// A parsed number ends inside the input.
pub proof fn lemma_p_number_bounds(s: Seq<u8>, i: int)
    requires
        0 <= i <= s.len(),
    ensures
        match p_number(s, i) {
            Some(p) => i <= p.1 <= s.len(),
            None => true,
        },
{
    if i < s.len() {
        if s[i] == 45 {
            lemma_p_unsigned_bounds(s, i + 1);
        } else {
            lemma_p_unsigned_bounds(s, i);
        }
    }
}

proof fn lemma_p_unsigned_bounds(s: Seq<u8>, i: int)
    requires
        0 <= i <= s.len(),
    ensures
        match p_unsigned_milli(s, i) {
            Some(p) => i <= p.1 <= s.len(),
            None => true,
        },
{
    lemma_digits_end_props(s, i);
    let j = digits_end(s, i);
    if j > i && j < s.len() && s[j] == 46 {
        lemma_digits_end_props(s, j + 1);
    }
}

} // verus!
