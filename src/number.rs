//! Numerals: unsigned integers as `u64::from_str` reads them, the shape of a
//! non-negative floating value, and such values read exactly into a whole
//! part and microseconds.
use vstd::prelude::*;
use crate::text::{find_first, first_index, lemma_first_index_bounds, slice_of};

verus! {

pub open spec fn is_digit(c: char) -> bool {
    48 <= (c as u32) <= 57
}

pub open spec fn digit_value(c: char) -> nat {
    ((c as u32) - 48) as nat
}

pub open spec fn all_digits(s: Seq<char>) -> bool {
    forall|i: int| 0 <= i < s.len() ==> is_digit(#[trigger] s[i])
}

/// The number that the digits of `s` write in base ten.
pub open spec fn digits_value(s: Seq<char>) -> nat
    decreases s.len(),
{
    if s.len() == 0 {
        0
    } else {
        digits_value(s.drop_last()) * 10 + digit_value(s.last())
    }
}

/// What `u64::from_str` gives for `t`: an optional `+`, then at least one
/// digit and nothing else, with a value that fits in 64 bits.
pub open spec fn u64_of(t: Seq<char>) -> Option<u64> {
    let d = if t.len() > 0 && t[0] == '+' {
        t.drop_first()
    } else {
        t
    };
    if d.len() > 0 && all_digits(d) && digits_value(d) <= u64::MAX {
        Some(digits_value(d) as u64)
    } else {
        None
    }
}

/// `t` without one leading `+`.
pub open spec fn unsigned_part(t: Seq<char>) -> Seq<char> {
    if t.len() > 0 && t[0] == '+' {
        t.drop_first()
    } else {
        t
    }
}

/// A decimal fraction `W.F`, `W`, `W.` or `.F`: the digits before and after the
/// point, when `t` has that shape.
pub open spec fn decimal_parts(t: Seq<char>) -> Option<(Seq<char>, Seq<char>)> {
    let (w, f) = match first_index(t, '.') {
        Some(i) => (t.subrange(0, i), t.subrange(i + 1, t.len() as int)),
        None => (t, Seq::empty()),
    };
    if all_digits(w) && all_digits(f) && w.len() + f.len() > 0 {
        Some((w, f))
    } else {
        None
    }
}

/// A leading part of a numeral writes no larger a number than the whole.
pub proof fn lemma_digits_value_prefix(s: Seq<char>, i: int)
    requires
        0 <= i <= s.len(),
    ensures
        digits_value(s.subrange(0, i)) <= digits_value(s),
    decreases s.len(),
{
    if i < s.len() {
        lemma_digits_value_prefix(s.drop_last(), i);
        assert(s.drop_last().subrange(0, i) =~= s.subrange(0, i));
    } else {
        assert(s.subrange(0, i) =~= s);
    }
}

/// `10^k`.
pub open spec fn pow10(k: nat) -> nat
    decreases k,
{
    if k == 0 {
        1
    } else {
        10 * pow10((k - 1) as nat)
    }
}

/// The number written by the digits `v[lo..hi]`, when all of them are digits
/// and it fits in 64 bits.
pub fn digits_u64(v: &Vec<char>, lo: usize, hi: usize) -> (r: Option<u64>)
    requires
        lo <= hi <= v@.len(),
    ensures
        r == (if all_digits(v@.subrange(lo as int, hi as int)) && digits_value(
            v@.subrange(lo as int, hi as int),
        ) <= u64::MAX {
            Some(digits_value(v@.subrange(lo as int, hi as int)) as u64)
        } else {
            None
        }),
{
    let ghost s = v@.subrange(lo as int, hi as int);
    let mut acc: u64 = 0;
    let mut i: usize = lo;
    while i < hi
        invariant
            lo <= i <= hi <= v@.len(),
            s == v@.subrange(lo as int, hi as int),
            all_digits(s.subrange(0, i - lo)),
            acc == digits_value(s.subrange(0, i - lo)),
        decreases hi - i,
    {
        let c = v[i];
        let u = c as u32;
        if u < 48 || u > 57 {
            assert(!is_digit(s[i - lo]));
            return None;
        }
        let ghost next = s.subrange(0, i - lo + 1);
        assert(next.drop_last() =~= s.subrange(0, i - lo));
        assert(all_digits(next));
        let d = (u - 48) as u64;
        let m = acc.checked_mul(10);
        if m.is_none() {
            proof {
                lemma_digits_value_prefix(s, i - lo + 1);
            }
            return None;
        }
        let a = m.unwrap().checked_add(d);
        if a.is_none() {
            proof {
                lemma_digits_value_prefix(s, i - lo + 1);
            }
            return None;
        }
        acc = a.unwrap();
        i = i + 1;
    }
    assert(s.subrange(0, i - lo) =~= s);
    Some(acc)
}

/// The number written by the digits `v[lo..hi]`, when all of them are digits
/// and it fits in 128 bits.
pub fn digits_u128(v: &Vec<char>, lo: usize, hi: usize) -> (r: Option<u128>)
    requires
        lo <= hi <= v@.len(),
    ensures
        r == (if all_digits(v@.subrange(lo as int, hi as int)) && digits_value(
            v@.subrange(lo as int, hi as int),
        ) <= u128::MAX {
            Some(digits_value(v@.subrange(lo as int, hi as int)) as u128)
        } else {
            None
        }),
{
    let ghost s = v@.subrange(lo as int, hi as int);
    let mut acc: u128 = 0;
    let mut i: usize = lo;
    while i < hi
        invariant
            lo <= i <= hi <= v@.len(),
            s == v@.subrange(lo as int, hi as int),
            all_digits(s.subrange(0, i - lo)),
            acc == digits_value(s.subrange(0, i - lo)),
        decreases hi - i,
    {
        let c = v[i];
        let u = c as u32;
        if u < 48 || u > 57 {
            assert(!is_digit(s[i - lo]));
            return None;
        }
        let ghost next = s.subrange(0, i - lo + 1);
        assert(next.drop_last() =~= s.subrange(0, i - lo));
        assert(all_digits(next));
        let d = (u - 48) as u128;
        let m = acc.checked_mul(10);
        if m.is_none() {
            proof {
                lemma_digits_value_prefix(s, i - lo + 1);
            }
            return None;
        }
        let a = m.unwrap().checked_add(d);
        if a.is_none() {
            proof {
                lemma_digits_value_prefix(s, i - lo + 1);
            }
            return None;
        }
        acc = a.unwrap();
        i = i + 1;
    }
    assert(s.subrange(0, i - lo) =~= s);
    Some(acc)
}

/// `t` read as `u64::from_str` reads it.
pub fn parse_u64(t: &Vec<char>) -> (r: Option<u64>)
    ensures
        r == u64_of(t@),
{
    let lo: usize = if t.len() > 0 && t[0] == '+' {
        1
    } else {
        0
    };
    assert(t@.subrange(lo as int, t@.len() as int) =~= (if t@.len() > 0 && t@[0] == '+' {
        t@.drop_first()
    } else {
        t@
    }));
    if lo == t.len() {
        return None;
    }
    digits_u64(t, lo, t.len())
}

/// The powers of ten that microseconds need.
pub proof fn lemma_pow10_small()
    ensures
        pow10(5) == 100000,
        pow10(6) == 1000000,
{
    assert(pow10(0) == 1);
    assert(pow10(1) == 10);
    assert(pow10(2) == 100);
    assert(pow10(3) == 1000);
    assert(pow10(4) == 10000);
    assert(pow10(5) == 100000);
    assert(pow10(6) == 1000000);
}

/// Powers of ten grow with the exponent.
pub proof fn lemma_pow10_mono(a: nat, b: nat)
    requires
        a <= b,
    ensures
        pow10(a) <= pow10(b),
    decreases b,
{
    if a < b {
        lemma_pow10_mono(a, (b - 1) as nat);
    }
}

/// An exponent as a float literal writes it: an optional sign, then at least
/// one digit.
pub open spec fn exponent_ok(x: Seq<char>) -> bool {
    let d = if x.len() > 0 && (x[0] == '+' || x[0] == '-') {
        x.drop_first()
    } else {
        x
    };
    d.len() > 0 && all_digits(d)
}

/// The position of the first exponent marker (`e` or `E`) of `t`.
pub open spec fn exp_marker(t: Seq<char>) -> Option<int> {
    match first_index(t, 'e') {
        Some(a) => match first_index(t, 'E') {
            Some(b) => Some(if a < b { a } else { b }),
            None => Some(a),
        },
        None => first_index(t, 'E'),
    }
}

/// Whether `t` writes a finite, non-negative floating value: an optional
/// `+`, a decimal fraction (`W.F`, `W`, `W.` or `.F`), and an optional
/// exponent (`e` or `E`, an optional sign, digits). This is the form that
/// `f64::from_str` reads, without the sign `-` and the words `inf` and `NaN`.
pub open spec fn float_literal(t: Seq<char>) -> bool {
    let u = unsigned_part(t);
    match exp_marker(u) {
        Some(i) => decimal_parts(u.subrange(0, i)) is Some && exponent_ok(
            u.subrange(i + 1, u.len() as int),
        ),
        None => decimal_parts(u) is Some,
    }
}

/// Whether every character of `v` is a digit.
fn digits_only(v: &Vec<char>) -> (r: bool)
    ensures
        r == all_digits(v@),
{
    let mut i: usize = 0;
    while i < v.len()
        invariant
            i <= v@.len(),
            all_digits(v@.subrange(0, i as int)),
        decreases v@.len() - i,
    {
        let u = v[i] as u32;
        if u < 48 || u > 57 {
            assert(!is_digit(v@[i as int]));
            return false;
        }
        assert(v@.subrange(0, i + 1) =~= v@.subrange(0, i as int).push(v@[i as int]));
        i = i + 1;
    }
    assert(v@.subrange(0, i as int) =~= v@);
    true
}

/// Whether `t` is a decimal fraction `W.F`, `W`, `W.` or `.F`.
fn plain_decimal_shape(t: &Vec<char>) -> (r: bool)
    ensures
        r == decimal_parts(t@) is Some,
{
    let n = t.len();
    proof {
        lemma_first_index_bounds(t@, '.');
    }
    let (w, f) = match find_first(t, '.') {
        Some(i) => (slice_of(t, 0, i), slice_of(t, i + 1, n)),
        None => (slice_of(t, 0, n), Vec::new()),
    };
    assert(first_index(t@, '.') is None ==> t@.subrange(0, n as int) =~= t@ && f@ =~= Seq::<
        char,
    >::empty());
    w.len() + f.len() > 0 && digits_only(&w) && digits_only(&f)
}

/// The position of the first exponent marker of `v`.
fn find_exp_marker(v: &Vec<char>) -> (r: Option<usize>)
    ensures
        r matches Some(i) ==> exp_marker(v@) == Some(i as int) && i < v@.len(),
        r is None ==> exp_marker(v@) is None,
{
    proof {
        lemma_first_index_bounds(v@, 'e');
        lemma_first_index_bounds(v@, 'E');
    }
    match (find_first(v, 'e'), find_first(v, 'E')) {
        (Some(a), Some(b)) => Some(if a < b { a } else { b }),
        (Some(a), None) => Some(a),
        (None, Some(b)) => Some(b),
        (None, None) => None,
    }
}

/// Whether `t` writes a finite, non-negative floating value.
pub fn is_float_literal(t: &Vec<char>) -> (r: bool)
    ensures
        r == float_literal(t@),
{
    let u = if t.len() > 0 && t[0] == '+' {
        slice_of(t, 1, t.len())
    } else {
        slice_of(t, 0, t.len())
    };
    assert(u@ =~= unsigned_part(t@));
    match find_exp_marker(&u) {
        Some(i) => {
            let m = slice_of(&u, 0, i);
            let x = slice_of(&u, i + 1, u.len());
            let lo: usize = if x.len() > 0 && (x[0] == '+' || x[0] == '-') {
                1
            } else {
                0
            };
            let d = slice_of(&x, lo, x.len());
            assert(d@ =~= (if x@.len() > 0 && (x@[0] == '+' || x@[0] == '-') {
                x@.drop_first()
            } else {
                x@
            }));
            plain_decimal_shape(&m) && d.len() > 0 && digits_only(&d)
        },
        None => plain_decimal_shape(&u),
    }
}

/// The digit at position `j` of `d`, where `d` is padded with zeros on both
/// sides.
pub open spec fn digit_at(d: Seq<char>, j: int) -> nat {
    if 0 <= j < d.len() {
        digit_value(d[j])
    } else {
        0
    }
}

/// The number that the digits of `d` before position `k` write (none when
/// `k <= 0`; zeros past the end of `d`).
pub open spec fn lead(d: Seq<char>, k: int) -> nat
    decreases k,
{
    if k <= 0 {
        0
    } else {
        lead(d, k - 1) * 10 + digit_at(d, k - 1)
    }
}

/// The number that the `j` digits of `d` from position `p` on write.
pub open spec fn digits_from(d: Seq<char>, p: int, j: nat) -> nat
    decreases j,
{
    if j == 0 {
        0
    } else {
        digits_from(d, p, (j - 1) as nat) * 10 + digit_at(d, p + j - 1)
    }
}

/// The value of an exponent: its digits, negated after a `-`.
pub open spec fn exponent_value(x: Seq<char>) -> int {
    if x.len() > 0 && x[0] == '-' {
        -digits_value(x.drop_first())
    } else if x.len() > 0 && x[0] == '+' {
        digits_value(x.drop_first()) as int
    } else {
        digits_value(x) as int
    }
}

/// A float literal as its mantissa digits, without the point, and the
/// position of the point among them once the exponent has moved it.
pub open spec fn float_parts(t: Seq<char>) -> (Seq<char>, int) {
    let u = unsigned_part(t);
    let (m, e) = match exp_marker(u) {
        Some(i) => (u.subrange(0, i), exponent_value(u.subrange(i + 1, u.len() as int))),
        None => (u, 0),
    };
    match decimal_parts(m) {
        Some((w, f)) => (w + f, w.len() + e),
        None => (Seq::empty(), 0),
    }
}

/// The floating value that `t` writes, as whole seconds and the
/// microseconds of the rest (rounded down), when `t` is a float literal and
/// the whole seconds fit in 64 bits.
pub open spec fn float_seconds(t: Seq<char>) -> Option<(u64, u32)> {
    if float_literal(t) {
        let (d, p) = float_parts(t);
        if lead(d, p) <= u64::MAX {
            Some((lead(d, p) as u64, digits_from(d, p, 6) as u32))
        } else {
            None
        }
    } else {
        None
    }
}

proof fn lemma_lead_step(d: Seq<char>, k: int)
    ensures
        lead(d, k) == lead(d, k - 1) * 10 + digit_at(d, k - 1),
{
}

proof fn lemma_lead_grow(d: Seq<char>, a: int, b: int)
    requires
        a <= b,
    ensures
        lead(d, a) * pow10((b - a) as nat) <= lead(d, b),
    decreases b - a,
{
    if a < b {
        lemma_lead_grow(d, a, b - 1);
        lemma_lead_step(d, b);
        let x = lead(d, a);
        let q = pow10((b - 1 - a) as nat);
        let y = lead(d, b - 1);
        assert(pow10((b - a) as nat) == 10 * q);
        assert(x * (10 * q) <= y * 10) by (nonlinear_arith)
            requires
                x * q <= y,
        ;
        assert(lead(d, b) >= y * 10);
        assert(x * pow10((b - a) as nat) == x * (10 * q));
    } else {
        assert(pow10(0) == 1);
        assert(lead(d, a) * 1 == lead(d, a));
    }
}

proof fn lemma_lead_mono(d: Seq<char>, a: int, b: int)
    requires
        a <= b,
    ensures
        lead(d, a) <= lead(d, b),
{
    lemma_lead_grow(d, a, b);
    lemma_pow10_positive((b - a) as nat);
    assert(lead(d, a) <= lead(d, a) * pow10((b - a) as nat)) by (nonlinear_arith)
        requires
            pow10((b - a) as nat) >= 1,
    ;
}

proof fn lemma_pow10_positive(k: nat)
    ensures
        pow10(k) >= 1,
    decreases k,
{
    if k > 0 {
        lemma_pow10_positive((k - 1) as nat);
    }
}

proof fn lemma_zero_digits(d: Seq<char>, p: int, k: int, j: nat)
    requires
        forall|i: int| 0 <= i < d.len() ==> digit_value(#[trigger] d[i]) == 0,
    ensures
        lead(d, k) == 0,
        digits_from(d, p, j) == 0,
    decreases j,
{
    lemma_zero_lead(d, k);
    if j > 0 {
        lemma_zero_digits(d, p, k, (j - 1) as nat);
    }
}

proof fn lemma_zero_lead(d: Seq<char>, k: int)
    requires
        forall|i: int| 0 <= i < d.len() ==> digit_value(#[trigger] d[i]) == 0,
    ensures
        lead(d, k) == 0,
    decreases k,
{
    if k > 0 {
        lemma_zero_lead(d, k - 1);
    }
}

proof fn lemma_digits_from_bound(d: Seq<char>, p: int, j: nat)
    requires
        all_digits(d),
    ensures
        digits_from(d, p, j) < pow10(j),
    decreases j,
{
    if j > 0 {
        lemma_digits_from_bound(d, p, (j - 1) as nat);
        let q = p + j - 1;
        if 0 <= q < d.len() {
            assert(is_digit(d[q]));
        }
    }
}

/// A whole part read past a non-zero digit by twenty places or more does
/// not fit in 64 bits.
proof fn lemma_lead_too_large(d: Seq<char>, z: int, p: int)
    requires
        0 <= z < d.len(),
        digit_value(d[z]) >= 1,
        p >= z + 21,
    ensures
        lead(d, p) > u64::MAX,
{
    lemma_lead_step(d, z + 1);
    assert(lead(d, z + 1) >= 1);
    lemma_lead_grow(d, z + 1, p);
    lemma_pow10_mono(20, (p - z - 1) as nat);
    assert(pow10(20) == 100000000000000000000nat) by {
        lemma_pow10_small();
        assert(pow10(7) == 10000000);
        assert(pow10(8) == 100000000);
        assert(pow10(9) == 1000000000);
        assert(pow10(10) == 10000000000);
        assert(pow10(11) == 100000000000);
        assert(pow10(12) == 1000000000000);
        assert(pow10(13) == 10000000000000);
        assert(pow10(14) == 100000000000000);
        assert(pow10(15) == 1000000000000000);
        assert(pow10(16) == 10000000000000000);
        assert(pow10(17) == 100000000000000000);
        assert(pow10(18) == 1000000000000000000);
        assert(pow10(19) == 10000000000000000000);
    }
    let g = pow10((p - z - 1) as nat);
    assert(lead(d, z + 1) * g >= g) by (nonlinear_arith)
        requires
            lead(d, z + 1) >= 1,
            g >= 0,
    ;
}

/// `a` followed by `b`.
fn concat(a: &Vec<char>, b: &Vec<char>) -> (r: Vec<char>)
    ensures
        r@ == a@ + b@,
{
    let mut r = slice_of(a, 0, a.len());
    assert(r@ =~= a@);
    let mut i: usize = 0;
    while i < b.len()
        invariant
            i <= b@.len(),
            r@ == a@ + b@.subrange(0, i as int),
        decreases b@.len() - i,
    {
        r.push(b[i]);
        assert(a@ + b@.subrange(0, i + 1) =~= (a@ + b@.subrange(0, i as int)).push(b@[i as int]));
        i = i + 1;
    }
    assert(b@.subrange(0, i as int) =~= b@);
    r
}

/// The digit at position `j` of `d`, zero outside it.
fn digit_at_exec(d: &Vec<char>, j: i128) -> (r: u32)
    requires
        all_digits(d@),
    ensures
        r == digit_at(d@, j as int),
        r <= 9,
{
    if 0 <= j && j < d.len() as i128 {
        assert(is_digit(d@[j as int]));
        d[j as usize] as u32 - 48
    } else {
        0
    }
}

/// Whether every digit of `d` is `0`.
fn all_zero(d: &Vec<char>) -> (r: bool)
    requires
        all_digits(d@),
    ensures
        r == forall|i: int| 0 <= i < d@.len() ==> digit_value(#[trigger] d@[i]) == 0,
{
    let mut i: usize = 0;
    while i < d.len()
        invariant
            i <= d@.len(),
            all_digits(d@),
            forall|k: int| 0 <= k < i ==> digit_value(#[trigger] d@[k]) == 0,
        decreases d@.len() - i,
    {
        if d[i] as u32 != 48 {
            assert(is_digit(d@[i as int]));
            assert(digit_value(d@[i as int]) != 0);
            return false;
        }
        i = i + 1;
    }
    true
}

proof fn lemma_digits_from_left(d: Seq<char>, p: int, j: nat)
    requires
        p + j <= 0,
    ensures
        digits_from(d, p, j) == 0,
    decreases j,
{
    if j > 0 {
        lemma_digits_from_left(d, p, (j - 1) as nat);
    }
}

/// The pieces of a float literal: the digits before and after the point,
/// the exponent text and whether there is one.
fn float_pieces(t: &Vec<char>) -> (r: (Vec<char>, Vec<char>, Vec<char>, bool))
    requires
        float_literal(t@),
    ensures
        float_parts(t@) == (r.0@ + r.1@, r.0@.len() + if r.3 {
            exponent_value(r.2@)
        } else {
            0
        }),
        all_digits(r.0@),
        all_digits(r.1@),
        r.3 ==> exponent_ok(r.2@),
{
    let u = if t.len() > 0 && t[0] == '+' {
        slice_of(t, 1, t.len())
    } else {
        slice_of(t, 0, t.len())
    };
    assert(u@ =~= unsigned_part(t@));
    let (m, x, has_exp) = match find_exp_marker(&u) {
        Some(i) => (slice_of(&u, 0, i), slice_of(&u, i + 1, u.len()), true),
        None => (slice_of(&u, 0, u.len()), Vec::new(), false),
    };
    assert(!has_exp ==> m@ =~= u@);
    assert(decimal_parts(m@) is Some);
    let mn = m.len();
    proof {
        lemma_first_index_bounds(m@, '.');
    }
    let (w, f) = match find_first(&m, '.') {
        Some(i) => (slice_of(&m, 0, i), slice_of(&m, i + 1, mn)),
        None => (slice_of(&m, 0, mn), Vec::new()),
    };
    assert(first_index(m@, '.') is None ==> m@.subrange(0, mn as int) =~= m@ && f@ =~= Seq::<
        char,
    >::empty());
    assert(decimal_parts(m@) == Some((w@, f@)));
    (w, f, x, has_exp)
}

/// `t` read as a floating value (an optional `+`, a decimal fraction and an
/// optional exponent), exactly: its whole part and the microseconds of the
/// rest, rounded down. `None` when `t` is no such value or its whole part
/// does not fit in 64 bits.
#[verifier::rlimit(40)]
pub fn parse_float_seconds(t: &Vec<char>) -> (r: Option<(u64, u32)>)
    ensures
        r == float_seconds(t@),
        r matches Some((_, us)) ==> us < 1000000,
{
    if !is_float_literal(t) {
        return None;
    }
    let (w, f, x, has_exp) = float_pieces(t);
    let d = concat(&w, &f);
    assert(all_digits(d@)) by {
        assert forall|i: int| 0 <= i < d@.len() implies is_digit(#[trigger] d@[i]) by {
            if i < w@.len() {
                assert(d@[i] == w@[i]);
            } else {
                assert(d@[i] == f@[i - w@.len()]);
            }
        }
    }
    let ghost gd = float_parts(t@).0;
    let ghost gp = float_parts(t@).1;
    assert(gd == d@);
    let ghost e: int = if has_exp {
        exponent_value(x@)
    } else {
        0
    };
    assert(gp == w@.len() + e);
    if all_zero(&d) {
        proof {
            lemma_zero_digits(d@, gp, gp, 6);
        }
        return Some((0, 0));
    }
    let ghost z = choose|z: int| 0 <= z < d@.len() && digit_value(#[trigger] d@[z]) != 0;
    let dn = d.len();
    let lw = w.len() as i128;
    let p: i128;
    if has_exp {
        let neg = x.len() > 0 && x[0] == '-';
        let lo: usize = if x.len() > 0 && (x[0] == '+' || x[0] == '-') {
            1
        } else {
            0
        };
        let ghost xd = x@.subrange(lo as int, x@.len() as int);
        assert(lo == 1 ==> xd =~= x@.drop_first());
        assert(lo == 0 ==> xd =~= x@);
        assert(all_digits(xd));
        let ev = digits_u128(&x, lo, x.len());
        if neg {
            assert(e == -digits_value(xd));
            match ev {
                None => {
                    proof {
                        lemma_digits_from_left(d@, gp, 6);
                    }
                    return Some((0, 0));
                },
                Some(v) => {
                    if v >= w.len() as u128 + 6 {
                        proof {
                            lemma_digits_from_left(d@, gp, 6);
                        }
                        return Some((0, 0));
                    }
                    p = lw - v as i128;
                },
            }
        } else {
            assert(e == digits_value(xd));
            match ev {
                None => {
                    proof {
                        assert(digits_value(xd) > u128::MAX);
                        assert(w@.len() <= usize::MAX && d@.len() <= usize::MAX);
                        assert(gp >= z + 21);
                        lemma_lead_too_large(d@, z, gp);
                    }
                    return None;
                },
                Some(v) => {
                    if v >= d.len() as u128 + 21 {
                        proof {
                            lemma_lead_too_large(d@, z, gp);
                        }
                        return None;
                    }
                    p = lw + v as i128;
                },
            }
        }
    } else {
        p = lw;
    }
    assert(p == gp);
    assert(p < 0x4_0000_0000_0000_0000);
    shifted_seconds(&d, p)
}

/// The value of the digits `d` with the point at position `p`: its whole
/// part and the six digits after the point, when the whole part fits in
/// 64 bits.
fn shifted_seconds(d: &Vec<char>, p: i128) -> (r: Option<(u64, u32)>)
    requires
        all_digits(d@),
        -6 < p < 0x4_0000_0000_0000_0000,
    ensures
        r == (if lead(d@, p as int) <= u64::MAX {
            Some((lead(d@, p as int) as u64, digits_from(d@, p as int, 6) as u32))
        } else {
            None
        }),
        r matches Some((_, us)) ==> us < 1000000,
{
    // the whole part: the digits before position p
    let mut acc: u64 = 0;
    let mut k: i128 = 0;
    while k < p
        invariant
            all_digits(d@),
            0 <= k,
            k <= p || k == 0,
            -6 < p < 0x4_0000_0000_0000_0000,
            acc == lead(d@, k as int),
        decreases p - k,
    {
        let dig = digit_at_exec(d, k);
        proof {
            lemma_lead_step(d@, k + 1);
        }
        let m1 = acc.checked_mul(10);
        if m1.is_none() {
            proof {
                lemma_lead_mono(d@, k + 1, p as int);
            }
            return None;
        }
        let a1 = m1.unwrap().checked_add(dig as u64);
        if a1.is_none() {
            proof {
                lemma_lead_mono(d@, k + 1, p as int);
            }
            return None;
        }
        acc = a1.unwrap();
        k = k + 1;
    }
    assert(acc == lead(d@, p as int));
    // the six digits after position p
    let mut micros: u32 = 0;
    let mut j: i128 = 0;
    while j < 6
        invariant
            all_digits(d@),
            0 <= j <= 6,
            -6 < p < 0x4_0000_0000_0000_0000,
            micros == digits_from(d@, p as int, j as nat),
            micros < pow10(j as nat),
        decreases 6 - j,
    {
        let dig = digit_at_exec(d, p + j);
        assert(pow10((j + 1) as nat) == 10 * pow10(j as nat));
        assert(pow10(j as nat) <= 100000) by {
            lemma_pow10_small();
            lemma_pow10_mono(j as nat, 5);
        }
        micros = micros * 10 + dig;
        j = j + 1;
    }
    proof {
        lemma_pow10_small();
    }
    Some((acc, micros))
}

} // verus!
