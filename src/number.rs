//! Numeric literals that follow a keyword. After the first occurrence of the
//! keyword, any filler is skipped up to the first digit or sign, which opens
//! the literal; the literal then runs over the digits that follow it, and for
//! decimals over at most one point among them.

use vstd::prelude::*;
use vstd::slice::slice_subrange;
use vstd::string::StringSliceAdditionalSpecFns;
use crate::text::{find_key, first_occurrence};

verus! {

/// 2^63, the magnitude of `i64::MIN`.
pub const MAGNITUDE_LIMIT: u64 = 0x8000_0000_0000_0000;

/// The largest number of digits after the point that a decimal literal is read with.
pub const MAX_FRAC_DIGITS: u32 = 18;

pub open spec fn is_digit(b: u8) -> bool {
    48 <= b <= 57
}

pub open spec fn is_sign(b: u8) -> bool {
    b == 43 || b == 45
}

/// A byte that may open a literal: a digit or a sign.
pub open spec fn opens_literal(b: u8) -> bool {
    is_digit(b) || is_sign(b)
}

/// A byte that may continue a literal once it is open; `point` says whether
/// a decimal point still may.
pub open spec fn continues_literal(b: u8, point: bool) -> bool {
    is_digit(b) || (point && b == 46)
}

/// The first index at or after `i` whose byte may open a literal, or the length of `s`.
pub open spec fn literal_start(s: Seq<u8>, i: int) -> int
    decreases s.len() - i,
{
    if i >= s.len() {
        s.len() as int
    } else if opens_literal(s[i]) {
        i
    } else {
        literal_start(s, i + 1)
    }
}

/// The first index at or after `i` whose byte does not continue a literal, or
/// the length of `s`; `point` says whether a decimal point may still be taken,
/// and once one is taken no other is.
pub open spec fn literal_end(s: Seq<u8>, i: int, point: bool) -> int
    decreases s.len() - i,
{
    if i >= s.len() {
        s.len() as int
    } else if continues_literal(s[i], point) {
        literal_end(s, i + 1, point && !(s[i] == 46))
    } else {
        i
    }
}

/// The literal that follows the first occurrence of `key` in `s`, as text:
/// none where the key is absent or no digit or sign follows it. With `point`
/// the literal may hold one decimal point; a second one ends it.
pub open spec fn literal_after(s: Seq<u8>, key: Seq<u8>, point: bool) -> Option<Seq<u8>> {
    match first_occurrence(s, key) {
        Some(k) => {
            let a = literal_start(s, k + key.len());
            if a < s.len() {
                Some(s.subrange(a, literal_end(s, a + 1, point)))
            } else {
                None
            }
        },
        None => None,
    }
}

pub open spec fn all_digits(d: Seq<u8>) -> bool {
    forall|i: int| 0 <= i < d.len() ==> is_digit(#[trigger] d[i])
}

/// The number that a run of decimal digits denotes.
pub open spec fn digits_value(d: Seq<u8>) -> int
    decreases d.len(),
{
    if d.len() == 0 {
        0
    } else {
        digits_value(d.drop_last()) * 10 + (d.last() - 48)
    }
}

pub open spec fn pow10(n: nat) -> int
    decreases n,
{
    if n == 0 {
        1
    } else {
        10 * pow10((n - 1) as nat)
    }
}

/// The first index at or after `i` that holds a decimal point, or the length of `u`.
pub open spec fn point_index(u: Seq<u8>, i: int) -> int
    decreases u.len() - i,
{
    if i >= u.len() {
        u.len() as int
    } else if u[i] == 46 {
        i
    } else {
        point_index(u, i + 1)
    }
}

/// The literal without its leading sign.
pub open spec fn unsigned_part(t: Seq<u8>) -> Seq<u8> {
    if t.len() > 0 && is_sign(t[0]) {
        t.drop_first()
    } else {
        t
    }
}

/// The digits before the point.
pub open spec fn whole_part(t: Seq<u8>) -> Seq<u8> {
    unsigned_part(t).subrange(0, point_index(unsigned_part(t), 0))
}

/// What follows the first point, if there is one.
pub open spec fn frac_part(t: Seq<u8>) -> Seq<u8> {
    let u = unsigned_part(t);
    let p = point_index(u, 0);
    if p < u.len() {
        u.subrange(p + 1, u.len() as int)
    } else {
        Seq::<u8>::empty()
    }
}

/// The number of digits after the point that count when a literal is read at
/// `k` digits after the point.
pub open spec fn frac_taken(t: Seq<u8>, k: nat) -> nat {
    if frac_part(t).len() < k {
        frac_part(t).len()
    } else {
        k
    }
}

/// The size of the literal `t` times 10^k, the digits past the k-th after the
/// point dropped.
pub open spec fn magnitude(t: Seq<u8>, k: nat) -> int {
    let taken = frac_taken(t, k);
    digits_value(whole_part(t)) * pow10(k) + digits_value(frac_part(t).subrange(0, taken as int))
        * pow10((k - taken) as nat)
}

/// The value of the decimal literal `t` times 10^k, the digits past the k-th
/// after the point dropped. A literal is an optional sign, then digits with at
/// most one point among them, and at least one digit.
pub open spec fn decimal_value(t: Seq<u8>, k: nat) -> Option<int> {
    let whole = whole_part(t);
    let frac = frac_part(t);
    if all_digits(whole) && all_digits(frac) && whole.len() + frac.len() > 0 {
        Some(
            if t[0] == 45 {
                -magnitude(t, k)
            } else {
                magnitude(t, k)
            },
        )
    } else {
        None
    }
}

pub open spec fn fit_i64(v: Option<int>) -> Option<i64> {
    match v {
        Some(x) => if i64::MIN <= x <= i64::MAX {
            Some(x as i64)
        } else {
            None
        },
        None => None,
    }
}

pub open spec fn fit_i32(v: Option<int>) -> Option<i32> {
    match v {
        Some(x) => if i32::MIN <= x <= i32::MAX {
            Some(x as i32)
        } else {
            None
        },
        None => None,
    }
}

/// The integer after `key` in `s`: an optional sign and digits, if it fits in `i32`.
pub open spec fn int_literal_after(s: Seq<u8>, key: Seq<u8>) -> Option<i32> {
    match literal_after(s, key, false) {
        Some(t) => fit_i32(decimal_value(t, 0)),
        None => None,
    }
}

/// The decimal number after `key` in `s`, times 10^k and cut after the k-th
/// digit after the point, if it fits in `i64`.
pub open spec fn fixed_literal_after(s: Seq<u8>, key: Seq<u8>, k: nat) -> Option<i64> {
    match literal_after(s, key, true) {
        Some(t) => fit_i64(decimal_value(t, k)),
        None => None,
    }
}

proof fn lemma_pow10_bounds(n: nat)
    requires
        n <= 18,
    ensures
        1 <= pow10(n) <= 1_000_000_000_000_000_000,
        pow10(n) * 10 == pow10(n + 1),
{
    lemma_pow10_monotone(n, 18);
    reveal_with_fuel(pow10, 19);
    assert(pow10(18) == 1_000_000_000_000_000_000);
}

proof fn lemma_pow10_monotone(n: nat, m: nat)
    requires
        n <= m,
    ensures
        1 <= pow10(n) <= pow10(m),
    decreases m,
{
    if m > n {
        lemma_pow10_monotone(n, (m - 1) as nat);
    } else if n > 0 {
        lemma_pow10_monotone((n - 1) as nat, (n - 1) as nat);
    }
}

proof fn lemma_digits_prefix_le(d: Seq<u8>, j: int)
    requires
        all_digits(d),
        0 <= j <= d.len(),
    ensures
        0 <= digits_value(d.subrange(0, j)) <= digits_value(d),
    decreases d.len(),
{
    if j == d.len() {
        assert(d.subrange(0, j) =~= d);
        lemma_digits_nonneg(d);
    } else {
        assert(all_digits(d.drop_last()));
        assert(d.drop_last().subrange(0, j) =~= d.subrange(0, j));
        lemma_digits_prefix_le(d.drop_last(), j);
        lemma_digits_nonneg(d.drop_last());
    }
}

pub proof fn lemma_digits_nonneg(d: Seq<u8>)
    requires
        all_digits(d),
    ensures
        digits_value(d) >= 0,
    decreases d.len(),
{
    if d.len() > 0 {
        assert(all_digits(d.drop_last()));
        lemma_digits_nonneg(d.drop_last());
        assert(is_digit(d[d.len() - 1]));
    }
}

proof fn lemma_point_index_ge(u: Seq<u8>, i: int)
    requires
        0 <= i <= u.len(),
    ensures
        i <= point_index(u, i) <= u.len(),
    decreases u.len() - i,
{
    if i < u.len() && u[i] != 46 {
        lemma_point_index_ge(u, i + 1);
    }
}

fn pow10_u64(n: u32) -> (r: u64)
    requires
        n <= 18,
    ensures
        r == pow10(n as nat),
{
    let mut r: u64 = 1;
    let mut i: u32 = 0;
    while i < n
        invariant
            i <= n <= 18,
            r == pow10(i as nat),
        decreases n - i,
    {
        proof {
            lemma_pow10_bounds(i as nat);
        }
        r = r * 10;
        i += 1;
    }
    r
}

/// Reads the whole part of an unsigned literal: its digits up to the first
/// point, with their value, or none where a byte before the point is not a
/// digit or the value passes 2^63.
fn read_whole(u: &[u8]) -> (r: Option<(usize, u64)>)
    ensures
        match r {
            Some((p, w)) => {
                &&& p == point_index(u@, 0)
                &&& all_digits(u@.subrange(0, p as int))
                &&& w == digits_value(u@.subrange(0, p as int))
                &&& w <= MAGNITUDE_LIMIT
            },
            None => !all_digits(u@.subrange(0, point_index(u@, 0))) || digits_value(
                u@.subrange(0, point_index(u@, 0)),
            ) > MAGNITUDE_LIMIT,
        },
{
    let m = u.len();
    let mut i: usize = 0;
    let mut whole: u64 = 0;
    proof {
        lemma_point_index_ge(u@, 0);
    }
    while i < m && u[i] != 46
        invariant
            m == u@.len(),
            i <= point_index(u@, 0) <= m,
            point_index(u@, 0) == point_index(u@, i as int),
            all_digits(u@.subrange(0, i as int)),
            whole == digits_value(u@.subrange(0, i as int)),
            whole <= MAGNITUDE_LIMIT,
        decreases m - i,
    {
        let b = u[i];
        let ghost p = point_index(u@, 0);
        proof {
            lemma_point_index_ge(u@, i + 1);
            assert(u@.subrange(0, p)[i as int] == b);
        }
        if b < 48 || b > 57 {
            return None;
        }
        proof {
            assert(u@.subrange(0, i + 1).drop_last() =~= u@.subrange(0, i as int));
            assert(all_digits(u@.subrange(0, i + 1)));
        }
        let next = match whole.checked_mul(10) {
            Some(w) => w.checked_add((b - 48) as u64),
            None => None,
        };
        match next {
            Some(w) => {
                if w > MAGNITUDE_LIMIT {
                    proof {
                        if all_digits(u@.subrange(0, p)) {
                            assert(u@.subrange(0, p).subrange(0, i + 1) =~= u@.subrange(0, i + 1));
                            lemma_digits_prefix_le(u@.subrange(0, p), i + 1);
                        }
                    }
                    return None;
                }
                whole = w;
            },
            None => {
                proof {
                    if all_digits(u@.subrange(0, p)) {
                        assert(u@.subrange(0, p).subrange(0, i + 1) =~= u@.subrange(0, i + 1));
                        lemma_digits_prefix_le(u@.subrange(0, p), i + 1);
                    }
                }
                return None;
            },
        }
        i += 1;
    }
    Some((i, whole))
}

/// Reads the digits after the point: how many of them count at `k` digits
/// after the point and their value, or none where a byte is not a digit.
fn read_frac(f: &[u8], k: u32) -> (r: Option<(u32, u64)>)
    requires
        k <= MAX_FRAC_DIGITS,
    ensures
        match r {
            Some((taken, v)) => {
                &&& all_digits(f@)
                &&& taken == (if f@.len() < k {
                    f@.len()
                } else {
                    k as nat
                })
                &&& v == digits_value(f@.subrange(0, taken as int))
            },
            None => !all_digits(f@),
        },
{
    let n = f.len();
    let mut j: usize = 0;
    let mut taken: u32 = 0;
    let mut v: u64 = 0;
    while j < n
        invariant
            n == f@.len(),
            j <= n,
            k <= MAX_FRAC_DIGITS,
            all_digits(f@.subrange(0, j as int)),
            taken == (if j < k {
                j as nat
            } else {
                k as nat
            }),
            v == digits_value(f@.subrange(0, taken as int)),
            v < pow10(taken as nat),
        decreases n - j,
    {
        let b = f[j];
        if b < 48 || b > 57 {
            return None;
        }
        proof {
            assert(f@.subrange(0, j + 1).drop_last() =~= f@.subrange(0, j as int));
            assert(all_digits(f@.subrange(0, j + 1)));
        }
        if taken < k {
            proof {
                lemma_pow10_bounds(taken as nat);
                assert(f@.subrange(0, taken + 1).drop_last() =~= f@.subrange(0, taken as int));
            }
            v = v * 10 + (b - 48) as u64;
            taken += 1;
        }
        j += 1;
    }
    proof {
        assert(f@.subrange(0, n as int) =~= f@);
    }
    Some((taken, v))
}

proof fn lemma_product_nonneg(a: int, b: int)
    requires
        a >= 0,
        b >= 0,
    ensures
        a * b >= 0,
{
    assert(a * b >= 0) by (nonlinear_arith)
        requires
            a >= 0,
            b >= 0,
    ;
}

proof fn lemma_product_ge(a: int, b: int)
    requires
        a >= 0,
        b >= 1,
    ensures
        a * b >= a,
{
    assert(a * b >= a) by (nonlinear_arith)
        requires
            a >= 0,
            b >= 1,
    ;
}

/// Both terms of a literal's size are at least zero, and the first is at
/// least the value of the whole part.
proof fn lemma_magnitude_terms(t: Seq<u8>, k: nat)
    requires
        all_digits(whole_part(t)),
        all_digits(frac_part(t)),
        k <= MAX_FRAC_DIGITS,
    ensures
        digits_value(whole_part(t)) * pow10(k) >= digits_value(whole_part(t)) >= 0,
        digits_value(frac_part(t).subrange(0, frac_taken(t, k) as int)) * pow10(
            (k - frac_taken(t, k)) as nat,
        ) >= 0,
{
    let taken = frac_taken(t, k);
    lemma_digits_nonneg(whole_part(t));
    lemma_digits_prefix_le(frac_part(t), taken as int);
    lemma_pow10_bounds(k);
    lemma_pow10_bounds((k - taken) as nat);
    lemma_product_ge(digits_value(whole_part(t)), pow10(k));
    lemma_product_nonneg(
        digits_value(frac_part(t).subrange(0, taken as int)),
        pow10((k - taken) as nat),
    );
}

/// The value of the decimal literal `t` times 10^k, the digits past the k-th
/// after the point dropped, where it is a literal whose value fits in `i64`.
pub fn decimal_literal_value(t: &[u8], k: u32) -> (r: Option<i64>)
    requires
        k <= MAX_FRAC_DIGITS,
    ensures
        r == fit_i64(decimal_value(t@, k as nat)),
{
    let n = t.len();
    let signed = n > 0 && (t[0] == 43 || t[0] == 45);
    let negative = n > 0 && t[0] == 45;
    let start: usize = if signed {
        1
    } else {
        0
    };
    let u = slice_subrange(t, start, n);
    proof {
        assert(u@ =~= unsigned_part(t@));
        lemma_point_index_ge(u@, 0);
    }
    let (p, whole) = match read_whole(u) {
        Some(x) => x,
        None => {
            proof {
                if all_digits(whole_part(t@)) && all_digits(frac_part(t@)) {
                    lemma_magnitude_terms(t@, k as nat);
                }
            }
            return None;
        },
    };
    let m = u.len();
    let fstart = if p < m {
        p + 1
    } else {
        m
    };
    let f = slice_subrange(u, fstart, m);
    proof {
        assert(f@ =~= frac_part(t@));
        assert(u@.subrange(0, p as int) =~= whole_part(t@));
    }
    let (taken, frac) = match read_frac(f, k) {
        Some(x) => x,
        None => {
            return None;
        },
    };
    if p == 0 && f.len() == 0 {
        return None;
    }
    proof {
        lemma_magnitude_terms(t@, k as nat);
    }
    let pk = pow10_u64(k);
    let pr = pow10_u64(k - taken);
    let a = match whole.checked_mul(pk) {
        Some(a) => a,
        None => {
            return None;
        },
    };
    let b = match frac.checked_mul(pr) {
        Some(b) => b,
        None => {
            return None;
        },
    };
    let size = match a.checked_add(b) {
        Some(x) => x,
        None => {
            return None;
        },
    };
    if negative {
        if size < MAGNITUDE_LIMIT {
            Some(-(size as i64))
        } else if size == MAGNITUDE_LIMIT {
            Some(i64::MIN)
        } else {
            None
        }
    } else if size <= i64::MAX as u64 {
        Some(size as i64)
    } else {
        None
    }
}

fn opens(b: u8) -> (r: bool)
    ensures
        r == opens_literal(b),
{
    (48 <= b && b <= 57) || b == 43 || b == 45
}

fn continues(b: u8, point: bool) -> (r: bool)
    ensures
        r == continues_literal(b, point),
{
    (48 <= b && b <= 57) || (point && b == 46)
}

/// Where the literal after `key` lies in `s`.
fn literal_span(s: &[u8], key: &[u8], point: bool) -> (r: Option<(usize, usize)>)
    ensures
        match r {
            Some((a, b)) => a < b <= s@.len() && literal_after(s@, key@, point) == Some(
                s@.subrange(a as int, b as int),
            ),
            None => literal_after(s@, key@, point) is None,
        },
{
    let k = match find_key(s, key) {
        Some(k) => k,
        None => {
            return None;
        },
    };
    let n = s.len();
    let mut a = k + key.len();
    while a < n && !opens(s[a])
        invariant
            n == s@.len(),
            a <= n,
            first_occurrence(s@, key@) == Some(k as int),
            literal_start(s@, k + key@.len()) == literal_start(s@, a as int),
        decreases n - a,
    {
        a += 1;
    }
    if a >= n {
        return None;
    }
    let mut b = a + 1;
    let mut may_point = point;
    while b < n && continues(s[b], may_point)
        invariant
            n == s@.len(),
            a < b <= n,
            literal_end(s@, a + 1, point) == literal_end(s@, b as int, may_point),
        decreases n - b,
    {
        if s[b] == 46 {
            may_point = false;
        }
        b += 1;
    }
    Some((a, b))
}

/// The integer after the first occurrence of `key` in `s`.
pub fn int_after(s: &[u8], key: &[u8]) -> (r: Option<i32>)
    ensures
        r == int_literal_after(s@, key@),
{
    match literal_span(s, key, false) {
        Some((a, b)) => {
            let t = slice_subrange(s, a, b);
            match decimal_literal_value(t, 0) {
                Some(v) => if i32::MIN as i64 <= v && v <= i32::MAX as i64 {
                    Some(v as i32)
                } else {
                    None
                },
                None => {
                    proof {
                        if decimal_value(t@, 0) is Some {
                            let x = decimal_value(t@, 0)->Some_0;
                            assert(!(i64::MIN <= x <= i64::MAX));
                        }
                    }
                    None
                },
            }
        },
        None => None,
    }
}

/// The decimal number after the first occurrence of `key` in `s`, times 10^k.
pub fn fixed_after(s: &[u8], key: &[u8], k: u32) -> (r: Option<i64>)
    requires
        k <= MAX_FRAC_DIGITS,
    ensures
        r == fixed_literal_after(s@, key@, k as nat),
{
    match literal_span(s, key, true) {
        Some((a, b)) => decimal_literal_value(slice_subrange(s, a, b), k),
        None => None,
    }
}

/// The integer that follows the first occurrence of `key` in `src`: filler is
/// skipped up to the first digit or sign, the digits after it are read, and the
/// value is kept if it fits in `i32`.
pub fn find_int_after(src: &str, key: &str) -> (r: Option<i32>)
    ensures
        r == int_literal_after(src.spec_bytes(), key.spec_bytes()),
{
    int_after(src.as_bytes(), key.as_bytes())
}

/// The decimal number that follows the first occurrence of `key` in `src`,
/// times 10^k: filler is skipped up to the first digit or sign, the digits
/// after it are read with at most one point among them (a second point ends
/// the literal), and the value is kept if it fits in `i64`.
pub fn find_fixed_after(src: &str, key: &str, k: u32) -> (r: Option<i64>)
    requires
        k <= MAX_FRAC_DIGITS,
    ensures
        r == fixed_literal_after(src.spec_bytes(), key.spec_bytes(), k as nat),
{
    fixed_after(src.as_bytes(), key.as_bytes(), k)
}

} // verus!
