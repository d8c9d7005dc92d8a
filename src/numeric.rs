//! Numeric canonicalization: rounds numbers to a fixed precision, converts absolute units to
//! pixels where that is shorter, and drops redundant zeros and `px` units. Numbers are decimals
//! here, held exactly; nothing is computed in floating point.
use vstd::prelude::*;
use crate::model::{Attribute, AttrV, attrs_view, lemma_attrs_view_push};
use crate::text::is_digit;

verus! {

broadcast use vstd::seq::group_seq_axioms;

pub open spec fn digit_val(c: char) -> nat {
    (c as u32 - '0' as u32) as nat
}

/// The end of the run of ASCII digits that starts at `i`.
pub open spec fn digits_end(s: Seq<char>, i: int) -> int
    decreases s.len() - i,
{
    if 0 <= i < s.len() && is_digit(s[i]) {
        digits_end(s, i + 1)
    } else {
        i
    }
}

/// The number that a sequence of decimal digits spells.
pub open spec fn seq_value(ds: Seq<char>) -> nat
    decreases ds.len(),
{
    if ds.len() == 0 {
        0
    } else {
        seq_value(ds.drop_last()) * 10 + digit_val(ds.last())
    }
}

pub open spec fn pow10(k: nat) -> nat
    decreases k,
{
    if k == 0 {
        1
    } else {
        10 * pow10((k - 1) as nat)
    }
}

/// A decimal number read from text: `(-1 if neg) * mant * 10^exp`; `eval` is the magnitude that
/// the exponent digits spell, and `end` the position after the number.
pub struct Num {
    pub neg: bool,
    pub mant: nat,
    pub exp: int,
    pub eval: nat,
    pub end: int,
}

pub open spec fn is_sign(c: char) -> bool {
    c == '+' || c == '-'
}

/// The part of a number before its exponent, at `start`: an optional sign; digits, a `.` and
/// digits, at least one digit after the `.` unless `lenient` and digits come before it. Gives
/// the sign, the value of the digits, how many follow the `.`, and the position after them.
pub open spec fn mantissa_part(s: Seq<char>, start: int, lenient: bool) -> Option<(bool, nat, int, int)> {
    let has_sign = 0 <= start < s.len() && is_sign(s[start]);
    let neg = 0 <= start < s.len() && s[start] == '-';
    let i1 = if has_sign {
        start + 1
    } else {
        start
    };
    let j = digits_end(s, i1);
    let dot = 0 <= j < s.len() && s[j] == '.';
    let f = digits_end(s, j + 1);
    let frac_ok = dot && (f > j + 1 || (lenient && j > i1));
    if !frac_ok && j == i1 {
        None
    } else if frac_ok {
        Some((neg, seq_value(s.subrange(i1, j) + s.subrange(j + 1, f)), f - j - 1, f))
    } else {
        Some((neg, seq_value(s.subrange(i1, j)), 0, j))
    }
}

/// The exponent at `pos`, where `with_exp`: `e` or `E`, an optional sign and digits. Gives
/// whether it is negative, the value of its digits, and the position after them.
pub open spec fn exponent_part(s: Seq<char>, pos: int, with_exp: bool) -> Option<(bool, nat, int)> {
    let has_e = with_exp && 0 <= pos < s.len() && (s[pos] == 'e' || s[pos] == 'E');
    let q1 = if pos + 1 < s.len() && is_sign(s[pos + 1]) {
        pos + 2
    } else {
        pos + 1
    };
    let ee = digits_end(s, q1);
    if has_e && ee > q1 {
        Some((s[pos + 1] == '-', seq_value(s.subrange(q1, ee)), ee))
    } else {
        None
    }
}

/// Reads a number at `start`: its mantissa, then, if `with_exp`, an optional exponent.
pub open spec fn scan_number(s: Seq<char>, start: int, lenient: bool, with_exp: bool) -> Option<Num> {
    match mantissa_part(s, start, lenient) {
        None => None,
        Some((neg, m, frac, pos)) => match exponent_part(s, pos, with_exp) {
            Some((eneg, ev, ee)) => Some(
                Num {
                    neg,
                    mant: m,
                    exp: (if eneg {
                        -ev
                    } else {
                        ev as int
                    }) - frac,
                    eval: ev,
                    end: ee,
                },
            ),
            None => Some(Num { neg, mant: m, exp: -frac, eval: 0, end: pos }),
        },
    }
}

proof fn lemma_digits_end(s: Seq<char>, i: int)
    requires
        0 <= i <= s.len(),
    ensures
        i <= digits_end(s, i) <= s.len(),
        forall|k: int| i <= k < digits_end(s, i) ==> is_digit(#[trigger] s[k]),
        digits_end(s, i) < s.len() ==> !is_digit(s[digits_end(s, i)]),
    decreases s.len() - i,
{
    if i < s.len() && is_digit(s[i]) {
        lemma_digits_end(s, i + 1);
    }
}

fn digits_end_exec(s: &Vec<char>, i: usize) -> (r: usize)
    requires
        i <= s@.len(),
    ensures
        r as int == digits_end(s@, i as int),
{
    let mut k = i;
    while k < s.len() && crate::text::is_ascii_digit(s[k])
        invariant
            i <= k <= s@.len(),
            digits_end(s@, k as int) == digits_end(s@, i as int),
        decreases s.len() - k,
    {
        k += 1;
    }
    k
}

pub open spec fn u128_max() -> nat {
    340282366920938463463374607431768211455
}

proof fn lemma_seq_value_push(ds: Seq<char>, c: char)
    ensures
        seq_value(ds.push(c)) == seq_value(ds) * 10 + digit_val(c),
{
    assert(ds.push(c).drop_last() =~= ds);
}

proof fn lemma_seq_value_grows(ds: Seq<char>, k: int)
    requires
        0 <= k <= ds.len(),
    ensures
        seq_value(ds.subrange(0, k)) <= seq_value(ds),
    decreases ds.len() - k,
{
    if k < ds.len() {
        lemma_seq_value_grows(ds, k + 1);
        let a = ds.subrange(0, k + 1);
        assert(a.drop_last() =~= ds.subrange(0, k));
    } else {
        assert(ds.subrange(0, k) =~= ds);
    }
}

/// Accumulates the value of the digits `s[a..b]` onto `m`; `None` once it passes `u128::MAX`.
fn accumulate(s: &Vec<char>, a: usize, b: usize, m: u128, Ghost(prefix): Ghost<Seq<char>>) -> (r: Option<u128>)
    requires
        a <= b <= s@.len(),
        forall|k: int| a <= k < b ==> is_digit(#[trigger] s@[k]),
        m == seq_value(prefix),
    ensures
        r is Some <==> seq_value(prefix + s@.subrange(a as int, b as int)) <= u128_max(),
        r is Some ==> r->0 == seq_value(prefix + s@.subrange(a as int, b as int)),
{
    let mut k = a;
    let mut acc = m;
    while k < b
        invariant
            a <= k <= b,
            b <= s@.len(),
            forall|k: int| a <= k < b ==> is_digit(#[trigger] s@[k]),
            acc == seq_value(prefix + s@.subrange(a as int, k as int)),
        decreases b - k,
    {
        let d = (s[k] as u32 - '0' as u32) as u128;
        let ghost before = prefix + s@.subrange(a as int, k as int);
        assert(prefix + s@.subrange(a as int, k + 1) =~= before.push(s@[k as int]));
        proof {
            lemma_seq_value_push(before, s@[k as int]);
        }
        match acc.checked_mul(10) {
            Some(t) => match t.checked_add(d) {
                Some(u) => {
                    acc = u;
                },
                None => {
                    proof {
                        let all = prefix + s@.subrange(a as int, b as int);
                        assert(all.subrange(0, before.len() + 1int) =~= before.push(s@[k as int]));
                        lemma_seq_value_grows(all, before.len() + 1int);
                    }
                    return None;
                },
            },
            None => {
                proof {
                    let all = prefix + s@.subrange(a as int, b as int);
                    assert(all.subrange(0, before.len() + 1int) =~= before.push(s@[k as int]));
                    lemma_seq_value_grows(all, before.len() + 1int);
                }
                return None;
            },
        }
        k += 1;
    }
    Some(acc)
}

/// What reading a number gave, in machine integers.
pub(crate) struct Scanned {
    pub(crate) big: bool,
    pub(crate) neg: bool,
    pub(crate) mant: u128,
    pub(crate) frac: usize,
    pub(crate) eneg: bool,
    pub(crate) eval: u64,
    pub(crate) end: usize,
}

pub(crate) open spec fn scanned_is(x: Scanned, n: Num) -> bool {
    &&& x.neg == n.neg
    &&& x.mant == n.mant
    &&& x.eval == n.eval
    &&& n.exp == (if x.eneg {
        -(x.eval as int)
    } else {
        x.eval as int
    }) - x.frac
    &&& x.end == n.end
}

fn is_sign_char(c: char) -> (r: bool)
    ensures
        r == is_sign(c),
{
    c == '+' || c == '-'
}

/// The value of the digits `s[a..b]`, where it fits in 64 bits.
fn digits_u64(s: &Vec<char>, a: usize, b: usize) -> (r: Option<u64>)
    requires
        a <= b <= s@.len(),
        forall|t: int| a <= t < b ==> is_digit(#[trigger] s@[t]),
    ensures
        r is Some <==> seq_value(s@.subrange(a as int, b as int)) <= u64::MAX,
        r is Some ==> r->0 == seq_value(s@.subrange(a as int, b as int)),
{
    let ghost sv = s@;
    let mut ev: u64 = 0;
    let mut k = a;
    while k < b
        invariant
            a <= k <= b,
            b <= sv.len(),
            sv == s@,
            forall|t: int| a <= t < b ==> is_digit(#[trigger] sv[t]),
            ev == seq_value(sv.subrange(a as int, k as int)),
        decreases b - k,
    {
        let d = (s[k] as u32 - '0' as u32) as u64;
        let ghost before = sv.subrange(a as int, k as int);
        assert(sv.subrange(a as int, k + 1) =~= before.push(sv[k as int]));
        proof {
            lemma_seq_value_push(before, sv[k as int]);
            let all = sv.subrange(a as int, b as int);
            assert(all.subrange(0, k + 1 - a) =~= sv.subrange(a as int, k + 1));
            lemma_seq_value_grows(all, k + 1 - a);
        }
        match ev.checked_mul(10) {
            Some(t) => match t.checked_add(d) {
                Some(u) => {
                    ev = u;
                },
                None => {
                    return None;
                },
            },
            None => {
                return None;
            },
        }
        k += 1;
    }
    Some(ev)
}

fn mantissa_exec(s: &Vec<char>, start: usize, lenient: bool) -> (r: Option<(bool, Option<u128>, usize, usize)>)
    requires
        start <= s@.len(),
    ensures
        r is None <==> mantissa_part(s@, start as int, lenient) is None,
        r is Some ==> ({
            let (neg, m, frac, pos) = r->0;
            let (sneg, sm, sfrac, spos) = mantissa_part(s@, start as int, lenient)->0;
            &&& neg == sneg && frac as int == sfrac && pos as int == spos
            &&& start <= pos <= s@.len()
            &&& m is Some <==> sm <= u128_max()
            &&& m is Some ==> m->0 == sm
        }),
{
    let ghost sv = s@;
    let has_sign = start < s.len() && is_sign_char(s[start]);
    let neg = start < s.len() && s[start] == '-';
    let i1 = if has_sign {
        start + 1
    } else {
        start
    };
    let j = digits_end_exec(s, i1);
    proof {
        lemma_digits_end(sv, i1 as int);
    }
    let dot = j < s.len() && s[j] == '.';
    let f = if j < s.len() {
        digits_end_exec(s, j + 1)
    } else {
        j
    };
    proof {
        if j < s.len() {
            lemma_digits_end(sv, j + 1);
        }
    }
    let frac_ok = dot && (f > j + 1 || (lenient && j > i1));
    if !frac_ok && j == i1 {
        return None;
    }
    let m1 = accumulate(s, i1, j, 0, Ghost(Seq::empty()));
    assert(Seq::<char>::empty() + sv.subrange(i1 as int, j as int) =~= sv.subrange(i1 as int, j as int));
    if frac_ok {
        let ghost ds = sv.subrange(i1 as int, j as int) + sv.subrange(j + 1, f as int);
        let m = match m1 {
            None => {
                proof {
                    assert(ds.subrange(0, j - i1) =~= sv.subrange(i1 as int, j as int));
                    lemma_seq_value_grows(ds, j - i1);
                }
                None
            },
            Some(m) => accumulate(s, j + 1, f, m, Ghost(sv.subrange(i1 as int, j as int))),
        };
        Some((neg, m, f - j - 1, f))
    } else {
        Some((neg, m1, 0, j))
    }
}

fn exponent_exec(s: &Vec<char>, pos: usize, with_exp: bool) -> (r: Option<(bool, Option<u64>, usize)>)
    requires
        pos <= s@.len(),
    ensures
        r is None <==> exponent_part(s@, pos as int, with_exp) is None,
        r is Some ==> ({
            let (eneg, ev, ee) = r->0;
            let (seneg, sev, see) = exponent_part(s@, pos as int, with_exp)->0;
            &&& eneg == seneg && ee as int == see
            &&& pos <= ee <= s@.len()
            &&& ev is Some <==> sev <= u64::MAX
            &&& ev is Some ==> ev->0 == sev
        }),
{
    let ghost sv = s@;
    let has_e = with_exp && pos < s.len() && (s[pos] == 'e' || s[pos] == 'E');
    if !has_e {
        return None;
    }
    let q1 = if pos + 1 < s.len() && is_sign_char(s[pos + 1]) {
        pos + 2
    } else {
        pos + 1
    };
    let ee = digits_end_exec(s, q1);
    proof {
        lemma_digits_end(sv, q1 as int);
    }
    if ee > q1 {
        let eneg = s[pos + 1] == '-';
        Some((eneg, digits_u64(s, q1, ee), ee))
    } else {
        None
    }
}

/// Reads a number at `start`, as `scan_number` says; `big` where the number is there but its
/// digits pass what 128 bits (or, for the exponent, 64 bits) hold.
pub(crate) fn scan_number_exec(s: &Vec<char>, start: usize, lenient: bool, with_exp: bool) -> (r: Option<Scanned>)
    requires
        start <= s@.len(),
    ensures
        r is None <==> scan_number(s@, start as int, lenient, with_exp) is None,
        r is Some ==> r->0.end == scan_number(s@, start as int, lenient, with_exp)->0.end,
        r is Some ==> start <= r->0.end <= s@.len(),
        r is Some && !r->0.big ==> scanned_is(r->0, scan_number(s@, start as int, lenient, with_exp)->0),
        r is Some && r->0.big ==> ({
            let n = scan_number(s@, start as int, lenient, with_exp)->0;
            n.mant > u128_max() || n.eval > u64::MAX
        }),
{
    let (neg, m, frac, pos) = match mantissa_exec(s, start, lenient) {
        None => {
            return None;
        },
        Some(x) => x,
    };
    match exponent_exec(s, pos, with_exp) {
        Some((eneg, ev, ee)) => match (m, ev) {
            (Some(mv), Some(e)) => Some(Scanned { big: false, neg, mant: mv, frac, eneg, eval: e, end: ee }),
            _ => Some(Scanned { big: true, neg, mant: 0, frac, eneg, eval: 0, end: ee }),
        },
        None => match m {
            Some(mv) => Some(Scanned { big: false, neg, mant: mv, frac, eneg: false, eval: 0, end: pos }),
            None => Some(Scanned { big: true, neg, mant: 0, frac, eneg: false, eval: 0, end: pos }),
        },
    }
}

proof fn lemma_pow10_big(k: nat)
    requires
        k >= 39,
    ensures
        pow10(k) > u128_max(),
    decreases k,
{
    if k == 39 {
        reveal_with_fuel(pow10, 40);
        assert(pow10(39) == 1000000000000000000000000000000000000000nat);
    } else {
        lemma_pow10_big((k - 1) as nat);
    }
}

proof fn lemma_pow10_pos(k: nat)
    ensures
        pow10(k) >= 1,
    decreases k,
{
    if k > 0 {
        lemma_pow10_pos((k - 1) as nat);
    }
}

/// `10^k`, where it fits in 128 bits.
fn pow10_exec(k: u64) -> (r: Option<u128>)
    ensures
        r is Some <==> pow10(k as nat) <= u128_max(),
        r is Some ==> r->0 == pow10(k as nat),
{
    if k >= 39 {
        proof {
            lemma_pow10_big(k as nat);
        }
        return None;
    }
    let mut r: u128 = 1;
    let mut i: u64 = 0;
    while i < k
        invariant
            i <= k < 39,
            r == pow10(i as nat),
        decreases k - i,
    {
        proof {
            lemma_pow10_38();
            lemma_pow10_mono((i + 1) as nat, 38);
        }
        r = r * 10;
        i += 1;
    }
    Some(r)
}

proof fn lemma_pow10_38()
    ensures
        pow10(38) == 100000000000000000000000000000000000000nat,
{
    reveal_with_fuel(pow10, 40);
}

proof fn lemma_pow10_mono(a: nat, b: nat)
    requires
        a <= b,
    ensures
        pow10(a) <= pow10(b),
    decreases b - a,
{
    if a < b {
        lemma_pow10_mono(a, (b - 1) as nat);
        lemma_pow10_pos((b - 1) as nat);
    }
}

/// `x * 10^p` split into a numerator and a denominator, with `x = mant * a / b * 10^(e - p)`.
pub open spec fn scaled(mant: nat, a: nat, b: nat, e: int) -> (nat, nat) {
    if e >= 0 {
        (mant * a * pow10(e as nat), b)
    } else {
        (mant * a, b * pow10((-e) as nat))
    }
}

/// Whether rounding `n * a / b` to `p` decimals stays within 128-bit arithmetic.
pub open spec fn fits(n: Num, a: nat, b: nat, p: int) -> bool {
    let (x, d) = scaled(n.mant, a, b, n.exp + p);
    &&& -30 <= p <= 30
    &&& n.mant <= u128_max()
    &&& n.eval <= u64::MAX
    &&& 2 * x + d <= u128_max()
    &&& 2 * d <= u128_max()
}

/// The magnitude of `n * a / b` rounded to `p` decimals, half away from zero, times `10^p`.
pub open spec fn rounded(n: Num, a: nat, b: nat, p: int) -> nat {
    let (x, d) = scaled(n.mant, a, b, n.exp + p);
    ((2 * x + d) / (2 * d)) as nat
}

pub(crate) fn scaled_exec(x: &Scanned, a: u128, b: u128, p: i32, Ghost(n): Ghost<Num>) -> (r: Option<(u128, u128)>)
    requires
        !x.big,
        scanned_is(*x, n),
        1 <= a <= 4800,
        1 <= b <= 127,
    ensures
        r is Some <==> fits(n, a as nat, b as nat, p as int),
        r is Some ==> ({
            let (x, d) = r->0;
            (x as nat, d as nat) == scaled(n.mant, a as nat, b as nat, n.exp + p) && d >= 1
        }),
{
    if p < -30 || p > 30 {
        return None;
    }
    let e: i128 = (if x.eneg {
        -(x.eval as i128)
    } else {
        x.eval as i128
    }) - x.frac as i128 + p as i128;
    assert(e == n.exp + p);
    let xn: u128;
    let d: u128;
    if e >= 0 {
        d = b;
        if x.mant == 0 {
            xn = 0;
            assert(n.mant * a * pow10(e as nat) == 0) by (nonlinear_arith)
                requires n.mant == 0;
        } else {
            if e > 38 {
                proof {
                    lemma_pow10_big(e as nat);
                    assert(n.mant * a * pow10(e as nat) >= pow10(e as nat)) by (nonlinear_arith)
                        requires n.mant >= 1, a >= 1;
                }
                return None;
            }
            let pw = match pow10_exec(e as u64) {
                Some(v) => v,
                None => {
                    assert(n.mant * a * pow10(e as nat) >= pow10(e as nat)) by (nonlinear_arith)
                        requires n.mant >= 1, a >= 1;
                    return None;
                },
            };
            let ma = match x.mant.checked_mul(a) {
                Some(v) => v,
                None => {
                    proof {
                        lemma_pow10_pos(e as nat);
                        assert(n.mant * a * pow10(e as nat) >= n.mant * a) by (nonlinear_arith)
                            requires pow10(e as nat) >= 1;
                    }
                    return None;
                },
            };
            assert(n.mant * a * pow10(e as nat) == ma * pw);
            xn = match ma.checked_mul(pw) {
                Some(v) => v,
                None => {
                    return None;
                },
            };
        }
    } else {
        let k: i128 = -e;
        if k > 38 {
            proof {
                lemma_pow10_big(k as nat);
                assert(b * pow10(k as nat) >= pow10(k as nat)) by (nonlinear_arith)
                    requires b >= 1;
            }
            return None;
        }
        let pw = match pow10_exec(k as u64) {
            Some(v) => v,
            None => {
                assert(b * pow10(k as nat) >= pow10(k as nat)) by (nonlinear_arith)
                    requires b >= 1;
                return None;
            },
        };
        d = match b.checked_mul(pw) {
            Some(v) => v,
            None => {
                return None;
            },
        };
        xn = match x.mant.checked_mul(a) {
            Some(v) => v,
            None => {
                return None;
            },
        };
    }
    proof {
        lemma_pow10_pos(0);
        if e >= 0 {
        } else {
            lemma_pow10_pos((-e) as nat);
            assert(b * pow10((-e) as nat) >= 1) by (nonlinear_arith)
                requires b >= 1, pow10((-e) as nat) >= 1;
        }
    }
    let two_x = match xn.checked_mul(2) {
        Some(v) => v,
        None => {
            return None;
        },
    };
    let top = match two_x.checked_add(d) {
        Some(v) => v,
        None => {
            return None;
        },
    };
    let den = match d.checked_mul(2) {
        Some(v) => v,
        None => {
            return None;
        },
    };
    Some((xn, d))
}

pub(crate) fn round_exec(x: &Scanned, a: u128, b: u128, p: i32, Ghost(n): Ghost<Num>) -> (r: Option<u128>)
    requires
        !x.big,
        scanned_is(*x, n),
        1 <= a <= 4800,
        1 <= b <= 127,
    ensures
        r is Some <==> fits(n, a as nat, b as nat, p as int),
        r is Some ==> r->0 == rounded(n, a as nat, b as nat, p as int),
{
    match scaled_exec(x, a, b, p, Ghost(n)) {
        Some((xn, d)) => Some((2 * xn + d) / (2 * d)),
        None => None,
    }
}

/// The number with its fraction cut off.
pub open spec fn truncated(n: Num) -> nat {
    let (x, d) = scaled(n.mant, 1, 1, n.exp);
    x / d
}

pub(crate) fn trunc_exec(x: &Scanned, Ghost(n): Ghost<Num>) -> (r: Option<u128>)
    requires
        !x.big,
        scanned_is(*x, n),
    ensures
        r is Some <==> fits(n, 1, 1, 0),
        r is Some ==> r->0 == truncated(n),
{
    match scaled_exec(x, 1, 1, 0, Ghost(n)) {
        Some((xn, d)) => Some(xn / d),
        None => None,
    }
}

pub open spec fn digit_char(d: nat) -> char {
    seq!['0', '1', '2', '3', '4', '5', '6', '7', '8', '9'][d as int]
}

/// The decimal digits of `n`.
pub open spec fn nat_text(n: nat) -> Seq<char>
    decreases n,
{
    if n < 10 {
        seq![digit_char(n)]
    } else {
        nat_text(n / 10).push(digit_char(n % 10))
    }
}

/// The last `k` decimal digits of `f`, zeros in front where `f` has fewer.
pub open spec fn padded_text(f: nat, k: nat) -> Seq<char>
    decreases k,
{
    if k == 0 {
        Seq::empty()
    } else {
        padded_text(f / 10, (k - 1) as nat).push(digit_char(f % 10))
    }
}

/// `f` of `k` decimals with its trailing zeros dropped.
pub open spec fn strip_zeros(f: nat, k: nat) -> (nat, nat)
    decreases k,
{
    if k > 0 && f % 10 == 0 {
        strip_zeros(f / 10, (k - 1) as nat)
    } else {
        (f, k)
    }
}

/// The shortest decimal text of `(-1 if neg) * n / 10^p`: no trailing zeros after the point,
/// no point without decimals, and no sign on zero.
pub open spec fn number_text(neg: bool, n: nat, p: nat) -> Seq<char> {
    let ip = n / pow10(p);
    let (f, k) = strip_zeros(n % pow10(p), p);
    let sign = if neg && n > 0 {
        seq!['-']
    } else {
        Seq::empty()
    };
    sign + nat_text(ip) + if k == 0 {
        Seq::empty()
    } else {
        seq!['.'] + padded_text(f, k)
    }
}

fn digit_char_exec(d: u128) -> (c: char)
    requires
        d < 10,
    ensures
        c == digit_char(d as nat),
{
    let t = vec!['0', '1', '2', '3', '4', '5', '6', '7', '8', '9'];
    assert(t@ =~= seq!['0', '1', '2', '3', '4', '5', '6', '7', '8', '9']);
    t[d as usize]
}

fn push_nat_text(n: u128, out: &mut Vec<char>)
    ensures
        final(out)@ == old(out)@ + nat_text(n as nat),
    decreases n,
{
    if n >= 10 {
        push_nat_text(n / 10, out);
    }
    let c = digit_char_exec(n % 10);
    let ghost before = out@;
    out.push(c);
    proof {
        if n >= 10 {
            assert(out@ =~= old(out)@ + nat_text(n as nat));
        } else {
            assert(out@ =~= old(out)@ + nat_text(n as nat));
        }
    }
}

fn push_padded_text(f: u128, k: u64, out: &mut Vec<char>)
    ensures
        final(out)@ == old(out)@ + padded_text(f as nat, k as nat),
    decreases k,
{
    if k == 0 {
        assert(old(out)@ + padded_text(f as nat, 0) =~= old(out)@);
        return;
    }
    push_padded_text(f / 10, k - 1, out);
    let c = digit_char_exec(f % 10);
    out.push(c);
    assert(out@ =~= old(out)@ + padded_text(f as nat, k as nat));
}

/// The text of `(-1 if neg) * n / 10^p`.
fn number_text_exec(neg: bool, n: u128, p: u64) -> (r: Vec<char>)
    requires
        p <= 30,
    ensures
        r@ == number_text(neg, n as nat, p as nat),
{
    proof {
        lemma_pow10_38();
        lemma_pow10_mono(p as nat, 38);
        lemma_pow10_pos(p as nat);
    }
    let pw = match pow10_exec(p) {
        Some(v) => v,
        None => {
            return Vec::new();
        },
    };
    let ip = n / pw;
    let mut f = n % pw;
    let mut k = p;
    while k > 0 && f % 10 == 0
        invariant
            k <= p,
            strip_zeros(f as nat, k as nat) == strip_zeros((n % pw) as nat, p as nat),
        decreases k,
    {
        f = f / 10;
        k -= 1;
    }
    let mut out: Vec<char> = Vec::new();
    if neg && n > 0 {
        out.push('-');
    }
    let ghost sign = out@;
    push_nat_text(ip, &mut out);
    if k > 0 {
        out.push('.');
        push_padded_text(f, k, &mut out);
        assert(out@ =~= sign + nat_text(ip as nat) + (seq!['.'] + padded_text(f as nat, k as nat)));
    } else {
        assert(out@ =~= sign + nat_text(ip as nat) + Seq::<char>::empty());
    }
    out
}

/// The shortest decimal text of `(-1 if neg) * n * 10^-p`, for a precision `p` that may be
/// negative (rounding to tens, hundreds, and so on).
pub open spec fn decimal_text(neg: bool, n: nat, p: int) -> Seq<char> {
    if p >= 0 {
        number_text(neg, n, p as nat)
    } else if n == 0 {
        seq!['0']
    } else {
        (if neg {
            seq!['-']
        } else {
            Seq::empty()
        }) + nat_text(n) + Seq::new((-p) as nat, |i: int| '0')
    }
}

fn decimal_text_exec(neg: bool, n: u128, p: i32) -> (r: Vec<char>)
    requires
        -30 <= p <= 30,
    ensures
        r@ == decimal_text(neg, n as nat, p as int),
{
    if p >= 0 {
        return number_text_exec(neg, n, p as u64);
    }
    if n == 0 {
        let r = vec!['0'];
        assert(r@ =~= seq!['0']);
        return r;
    }
    let mut out: Vec<char> = Vec::new();
    if neg {
        out.push('-');
    }
    let ghost sign = out@;
    push_nat_text(n, &mut out);
    let ghost head = out@;
    let k: i32 = -p;
    let mut i: i32 = 0;
    while i < k
        invariant
            0 <= i <= k,
            k == -p,
            out@ == head + Seq::new(i as nat, |j: int| '0'),
        decreases k - i,
    {
        out.push('0');
        i += 1;
        assert(out@ =~= head + Seq::new(i as nat, |j: int| '0'));
    }
    assert(out@ =~= sign + nat_text(n as nat) + Seq::new((-p) as nat, |j: int| '0'));
    out
}

/// The text without the `0` before the point of a number strictly between -1 and 1.
pub open spec fn drop_leading_zero(t: Seq<char>) -> Seq<char> {
    if t.len() >= 2 && t[0] == '0' && t[1] == '.' {
        t.drop_first()
    } else if t.len() >= 3 && t[0] == '-' && t[1] == '0' && t[2] == '.' {
        seq!['-'] + t.subrange(2, t.len() as int)
    } else {
        t
    }
}

fn drop_leading_zero_exec(t: &Vec<char>) -> (r: Vec<char>)
    ensures
        r@ == drop_leading_zero(t@),
{
    let mut r: Vec<char> = Vec::new();
    let start: usize;
    if t.len() >= 2 && t[0] == '0' && t[1] == '.' {
        start = 1;
    } else if t.len() >= 3 && t[0] == '-' && t[1] == '0' && t[2] == '.' {
        r.push('-');
        start = 2;
    } else {
        start = 0;
    }
    let ghost head = r@;
    let mut i = start;
    while i < t.len()
        invariant
            start <= i <= t@.len(),
            r@ == head + t@.subrange(start as int, i as int),
        decreases t.len() - i,
    {
        r.push(t[i]);
        i += 1;
        assert(r@ =~= head + t@.subrange(start as int, i as int));
    }
    assert(t@.subrange(0, t@.len() as int) =~= t@);
    assert(t@.drop_first() =~= t@.subrange(1, t@.len() as int));
    r
}

/// The units that a numeric value may carry.
pub open spec fn is_unit(u: Seq<char>) -> bool {
    u.len() == 0 || u == seq!['p', 'x'] || u == seq!['p', 't'] || u == seq!['p', 'c'] || u == seq!['m', 'm']
        || u == seq!['c', 'm'] || u == seq!['m'] || u == seq!['i', 'n'] || u == seq!['f', 't'] || u
        == seq!['e', 'm'] || u == seq!['e', 'x'] || u == seq!['%']
}

/// Pixels per unit as a fraction `a / b`, for the absolute units.
pub open spec fn px_ratio(u: Seq<char>) -> Option<(nat, nat)> {
    if u == seq!['c', 'm'] {
        Some((4800nat, 127nat))
    } else if u == seq!['m', 'm'] {
        Some((480nat, 127nat))
    } else if u == seq!['i', 'n'] {
        Some((96nat, 1nat))
    } else if u == seq!['p', 't'] {
        Some((4nat, 3nat))
    } else if u == seq!['p', 'c'] {
        Some((16nat, 1nat))
    } else if u == seq!['p', 'x'] {
        Some((1nat, 1nat))
    } else {
        None
    }
}

fn is_unit_exec(u: &Vec<char>) -> (r: bool)
    ensures
        r == is_unit(u@),
{
    let n = u.len();
    if n == 0 {
        return true;
    }
    if n == 1 {
        assert(u@ == seq![u@[0]]);
        return u[0] == 'm' || u[0] == '%';
    }
    if n == 2 {
        assert(u@ =~= seq![u@[0], u@[1]]);
        let a = u[0];
        let b = u[1];
        return (a == 'p' && (b == 'x' || b == 't' || b == 'c')) || (a == 'm' && b == 'm') || (a == 'c'
            && b == 'm') || (a == 'i' && b == 'n') || (a == 'f' && b == 't') || (a == 'e' && (b
            == 'm' || b == 'x'));
    }
    false
}

fn px_ratio_exec(u: &Vec<char>) -> (r: Option<(u128, u128)>)
    ensures
        r is Some <==> px_ratio(u@) is Some,
        r is Some ==> ({
            let (a, b) = r->0;
            let (x, y) = px_ratio(u@)->0;
            a == x && b == y && 1 <= a <= 4800 && 1 <= b <= 127
        }),
{
    if u.len() != 2 {
        return None;
    }
    assert(u@ =~= seq![u@[0], u@[1]]);
    let a = u[0];
    let b = u[1];
    if a == 'c' && b == 'm' {
        Some((4800, 127))
    } else if a == 'm' && b == 'm' {
        Some((480, 127))
    } else if a == 'i' && b == 'n' {
        Some((96, 1))
    } else if a == 'p' && b == 't' {
        Some((4, 3))
    } else if a == 'p' && b == 'c' {
        Some((16, 1))
    } else if a == 'p' && b == 'x' {
        Some((1, 1))
    } else {
        None
    }
}

/// Options of the numeric canonicalizer.
#[derive(Clone, Copy)]
pub struct Params {
    /// Decimals kept when rounding.
    pub float_precision: i32,
    /// Drop the `0` before the point of numbers strictly between -1 and 1.
    pub leading_zero: bool,
    /// Drop the `px` unit, the default.
    pub default_px: bool,
    /// Write absolute lengths in pixels where that is shorter.
    pub convert_to_px: bool,
}

impl Params {
    /// The default options: three decimals, and every simplification on.
    pub fn new() -> (r: Params)
        ensures
            r.float_precision == 3 && r.leading_zero && r.default_px && r.convert_to_px,
    {
        Params { float_precision: 3, leading_zero: true, default_px: true, convert_to_px: true }
    }
}

/// The canonical form of a value that is a number with an optional unit; `None` where the
/// value is no such number, or where its rounding passes 128-bit arithmetic: it then stays.
pub open spec fn numeric_value(v: Seq<char>, prm: Params) -> Option<Seq<char>> {
    match scan_number(v, 0, false, true) {
        None => None,
        Some(n) => {
            let unit = v.subrange(n.end, v.len() as int);
            let p = prm.float_precision as int;
            if !is_unit(unit) || !fits(n, 1, 1, p) {
                None
            } else {
                let plain = decimal_text(n.neg, rounded(n, 1, 1, p), p);
                let (t, u) = match px_ratio(unit) {
                    Some(r) => {
                        let px = decimal_text(n.neg, rounded(n, r.0, r.1, p), p);
                        if prm.convert_to_px && fits(n, r.0, r.1, p) && px.len() < v.len() {
                            (px, seq!['p', 'x'])
                        } else {
                            (plain, unit)
                        }
                    },
                    None => (plain, unit),
                };
                let t2 = if prm.leading_zero {
                    drop_leading_zero(t)
                } else {
                    t
                };
                let u2 = if prm.default_px && u == seq!['p', 'x'] {
                    Seq::empty()
                } else {
                    u
                };
                Some(t2 + u2)
            }
        },
    }
}

fn subrange_to_end(v: &Vec<char>, a: usize) -> (r: Vec<char>)
    requires
        a <= v@.len(),
    ensures
        r@ == v@.subrange(a as int, v@.len() as int),
{
    let mut r: Vec<char> = Vec::new();
    let mut k = a;
    while k < v.len()
        invariant
            a <= k <= v@.len(),
            r@ == v@.subrange(a as int, k as int),
        decreases v.len() - k,
    {
        r.push(v[k]);
        k += 1;
        assert(r@ =~= v@.subrange(a as int, k as int));
    }
    r
}

/// Rounds a numeric value, converts its unit and drops redundant characters.
pub fn numeric_value_exec(v: &Vec<char>, prm: &Params) -> (r: Option<Vec<char>>)
    ensures
        r is Some <==> numeric_value(v@, *prm) is Some,
        r is Some ==> r->0@ == numeric_value(v@, *prm)->0,
{
    let ghost sn = scan_number(v@, 0, false, true);
    let x = match scan_number_exec(v, 0, false, true) {
        None => {
            return None;
        },
        Some(x) => x,
    };
    if x.big {
        return None;
    }
    let ghost n = sn->0;
    let unit = subrange_to_end(v, x.end);
    if !is_unit_exec(&unit) {
        return None;
    }
    let p = prm.float_precision;
    let plain_n = match round_exec(&x, 1, 1, p, Ghost(n)) {
        None => {
            return None;
        },
        Some(m) => m,
    };
    let plain = decimal_text_exec(x.neg, plain_n, p);
    let mut t = plain;
    let mut is_px = false;
    let mut u = unit;
    match px_ratio_exec(&u) {
        Some((a, b)) => {
            match round_exec(&x, a, b, p, Ghost(n)) {
                Some(m) => {
                    let px = decimal_text_exec(x.neg, m, p);
                    if prm.convert_to_px && px.len() < v.len() {
                        t = px;
                        u = vec!['p', 'x'];
                        is_px = true;
                    }
                },
                None => {},
            }
        },
        None => {},
    }
    let t2 = if prm.leading_zero {
        drop_leading_zero_exec(&t)
    } else {
        t
    };
    let px_unit = is_px || (u.len() == 2 && u[0] == 'p' && u[1] == 'x');
    proof {
        if u@.len() == 2 {
            assert(u@ =~= seq![u@[0], u@[1]]);
        }
        if is_px {
            assert(u@ =~= seq!['p', 'x']);
        }
    }
    let mut out = t2;
    if !(prm.default_px && px_unit) {
        crate::text::append_chars(&mut out, &u);
    } else {
        assert(out@ =~= out@ + Seq::<char>::empty());
    }
    Some(out)
}

pub open spec fn is_sep(c: char) -> bool {
    crate::text::is_ws(c) || c == ','
}

/// The tokens of `v[i..]` between separators, `cur` being the token read so far.
pub open spec fn tokens_from(v: Seq<char>, i: int, cur: Seq<char>) -> Seq<Seq<char>>
    decreases v.len() - i,
{
    if i >= v.len() || i < 0 {
        if cur.len() > 0 {
            seq![cur]
        } else {
            Seq::empty()
        }
    } else if is_sep(v[i]) {
        (if cur.len() > 0 {
            seq![cur]
        } else {
            Seq::empty()
        }) + tokens_from(v, i + 1, Seq::empty())
    } else {
        tokens_from(v, i + 1, cur.push(v[i]))
    }
}

/// The tokens joined by single spaces.
pub open spec fn join(ts: Seq<Seq<char>>) -> Seq<char>
    decreases ts.len(),
{
    if ts.len() == 0 {
        Seq::empty()
    } else if ts.len() == 1 {
        ts[0]
    } else {
        join(ts.drop_last()) + seq![' '] + ts.last()
    }
}

/// A `viewBox` token rounded: a token that is no number counts as 0; one whose rounding passes
/// 128-bit arithmetic stays.
pub open spec fn round_token(t: Seq<char>, p: int) -> Seq<char> {
    match scan_number(t, 0, true, true) {
        Some(n) => if n.end == t.len() {
            if fits(n, 1, 1, p) {
                decimal_text(n.neg, rounded(n, 1, 1, p), p)
            } else {
                t
            }
        } else {
            seq!['0']
        },
        None => seq!['0'],
    }
}

/// A `viewBox` value with each of its numbers rounded, joined by single spaces.
pub open spec fn viewbox_value(v: Seq<char>, p: int) -> Seq<char> {
    let ts = tokens_from(v, 0, Seq::empty());
    join(Seq::new(ts.len(), |i: int| round_token(ts[i], p)))
}

fn round_token_exec(t: &Vec<char>, p: i32) -> (r: Vec<char>)
    ensures
        r@ == round_token(t@, p as int),
{
    match scan_number_exec(t, 0, true, true) {
        Some(x) => {
            let ghost n = scan_number(t@, 0, true, true)->0;
            if x.end != t.len() {
                let r = vec!['0'];
                assert(r@ =~= seq!['0']);
                r
            } else if x.big {
                crate::text::copy_chars(t)
            } else {
                match round_exec(&x, 1, 1, p, Ghost(n)) {
                    Some(m) => decimal_text_exec(x.neg, m, p),
                    None => crate::text::copy_chars(t),
                }
            }
        },
        None => {
            let r = vec!['0'];
            assert(r@ =~= seq!['0']);
            r
        },
    }
}

pub open spec fn round_all(ts: Seq<Seq<char>>, p: int) -> Seq<Seq<char>> {
    Seq::new(ts.len(), |i: int| round_token(ts[i], p))
}

proof fn lemma_tokens_step(v: Seq<char>, i: int, cur: Seq<char>)
    requires
        0 <= i < v.len(),
    ensures
        is_sep(v[i]) ==> tokens_from(v, i, cur) == (if cur.len() > 0 {
            seq![cur]
        } else {
            Seq::<Seq<char>>::empty()
        }) + tokens_from(v, i + 1, Seq::empty()),
        !is_sep(v[i]) ==> tokens_from(v, i, cur) == tokens_from(v, i + 1, cur.push(v[i])),
{
}

proof fn lemma_join_push(ts: Seq<Seq<char>>, t: Seq<char>)
    ensures
        join(ts.push(t)) == if ts.len() == 0 {
            t
        } else {
            join(ts) + seq![' '] + t
        },
{
    assert(ts.push(t).drop_last() =~= ts);
    if ts.len() == 0 {
        assert(ts.push(t) =~= seq![t]);
    }
}

/// Adds a finished token to the output.
fn emit_token(out: &mut Vec<char>, cur: &Vec<char>, p: i32, first: bool, Ghost(done): Ghost<Seq<Seq<char>>>)
    requires
        old(out)@ == join(round_all(done, p as int)),
        first <==> done.len() == 0,
    ensures
        final(out)@ == join(round_all(done.push(cur@), p as int)),
{
    let t = round_token_exec(cur, p);
    assert(round_all(done.push(cur@), p as int) =~= round_all(done, p as int).push(round_token(cur@, p as int)));
    proof {
        lemma_join_push(round_all(done, p as int), round_token(cur@, p as int));
    }
    if !first {
        out.push(' ');
        crate::text::append_chars(out, &t);
    } else {
        assert(round_all(done, p as int) =~= Seq::<Seq<char>>::empty());
        assert(old(out)@ =~= Seq::<char>::empty());
        crate::text::append_chars(out, &t);
        assert(out@ =~= t@);
    }
}

fn is_sep_exec(c: char) -> (r: bool)
    ensures
        r == is_sep(c),
{
    crate::text::is_whitespace(c) || c == ','
}

/// A `viewBox` value with each of its numbers rounded to `p` decimals.
pub fn viewbox_value_exec(v: &Vec<char>, p: i32) -> (r: Vec<char>)
    ensures
        r@ == viewbox_value(v@, p as int),
{
    let mut out: Vec<char> = Vec::new();
    let mut cur: Vec<char> = Vec::new();
    let ghost mut done: Seq<Seq<char>> = Seq::empty();
    let mut first = true;
    let mut i: usize = 0;
    assert(done + tokens_from(v@, 0, cur@) =~= tokens_from(v@, 0, Seq::empty()));
    assert(out@ =~= join(round_all(done, p as int)));
    while i < v.len()
        invariant
            i <= v@.len(),
            done + tokens_from(v@, i as int, cur@) == tokens_from(v@, 0, Seq::empty()),
            out@ == join(round_all(done, p as int)),
            first <==> done.len() == 0,
        decreases v.len() - i,
    {
        proof {
            lemma_tokens_step(v@, i as int, cur@);
        }
        if is_sep_exec(v[i]) {
            if cur.len() > 0 {
                emit_token(&mut out, &cur, p, first, Ghost(done));
                proof {
                    assert(done + (seq![cur@] + tokens_from(v@, i + 1, Seq::empty())) =~= done.push(cur@)
                        + tokens_from(v@, i + 1, Seq::empty()));
                    done = done.push(cur@);
                }
                first = false;
            } else {
                assert(done + (Seq::<Seq<char>>::empty() + tokens_from(v@, i + 1, Seq::empty())) =~= done
                    + tokens_from(v@, i + 1, Seq::empty()));
            }
            cur = Vec::new();
            assert(cur@ =~= Seq::<char>::empty());
        } else {
            cur.push(v[i]);
        }
        i += 1;
    }
    if cur.len() > 0 {
        emit_token(&mut out, &cur, p, first, Ghost(done));
        proof {
            assert(done + seq![cur@] =~= done.push(cur@));
            done = done.push(cur@);
        }
    } else {
        assert(done + Seq::<Seq<char>>::empty() =~= done);
    }
    out
}

pub open spec fn viewbox_name() -> Seq<char> {
    seq!['v', 'i', 'e', 'w', 'B', 'o', 'x']
}

pub open spec fn version_name() -> Seq<char> {
    seq!['v', 'e', 'r', 's', 'i', 'o', 'n']
}

/// One attribute after numeric canonicalization.
pub open spec fn numeric_attr(prm: Params, a: AttrV) -> AttrV {
    match a.value {
        Some(v) => if a.name == viewbox_name() {
            AttrV { name: a.name, value: Some(viewbox_value(v, prm.float_precision as int)) }
        } else if a.name == version_name() {
            a
        } else {
            match numeric_value(v, prm) {
                Some(t) => AttrV { name: a.name, value: Some(t) },
                None => a,
            }
        },
        None => a,
    }
}

impl View for Params {
    type V = Params;

    open spec fn view(&self) -> Params {
        *self
    }
}

impl crate::visit::ElementRewrite for Params {
    open spec fn rewrite_spec(v: Params, tag: Seq<char>, attrs: Seq<AttrV>) -> (Seq<char>, Seq<AttrV>) {
        (tag, Seq::new(attrs.len(), |i: int| numeric_attr(v, attrs[i])))
    }

    fn rewrite(&self, tag: &Vec<char>, attrs: &Vec<Attribute>) -> (r: (Vec<char>, Vec<Attribute>)) {
        proof {
            reveal_strlit("viewBox");
            reveal_strlit("version");
            assert("viewBox"@ =~= viewbox_name());
            assert("version"@ =~= version_name());
        }
        let mut out: Vec<Attribute> = Vec::new();
        let mut i: usize = 0;
        while i < attrs.len()
            invariant
                i <= attrs.len(),
                out@.len() == i,
                "viewBox"@ == viewbox_name(),
                "version"@ == version_name(),
                forall|k: int| 0 <= k < i ==> #[trigger] out@[k]@ == numeric_attr(*self, attrs@[k]@),
            decreases attrs.len() - i,
        {
            let a = &attrs[i];
            let na = match &a.value {
                Some(v) => {
                    if crate::text::eq_str(&a.name, "viewBox") {
                        Attribute { name: crate::text::copy_chars(&a.name), value: Some(viewbox_value_exec(v, self.float_precision)) }
                    } else if crate::text::eq_str(&a.name, "version") {
                        a.copy()
                    } else {
                        match numeric_value_exec(v, self) {
                            Some(t) => Attribute { name: crate::text::copy_chars(&a.name), value: Some(t) },
                            None => a.copy(),
                        }
                    }
                },
                None => a.copy(),
            };
            out.push(na);
            i += 1;
        }
        let ghost target = Seq::new(attrs@.len(), |k: int| numeric_attr(*self, attrs_view(attrs@)[k]));
        assert(attrs_view(out@) =~= target);
        (crate::text::copy_chars(tag), out)
    }
}

/// Rounds the numbers of every attribute of the document and simplifies their units.
pub fn apply(doc: &mut crate::model::Document, params: &Params)
    ensures
        crate::model::doc_view(*final(doc)) == crate::visit::rewrite_nodes::<Params>(*params, crate::model::doc_view(*old(doc))),
{
    crate::visit::apply_rewrite(params, doc);
}

/// `number` rounded to `precision` decimals, half away from zero, as shortest decimal text;
/// `None` where the text is no number or the rounding passes 128-bit arithmetic.
pub fn round(number: &Vec<char>, precision: i32) -> (r: Option<Vec<char>>)
    ensures
        r is Some <==> (scan_number(number@, 0, true, true) is Some && scan_number(number@, 0, true, true)->0.end == number@.len()
            && fits(scan_number(number@, 0, true, true)->0, 1, 1, precision as int)),
        r is Some ==> r->0@ == round_token(number@, precision as int),
{
    match scan_number_exec(number, 0, true, true) {
        Some(x) => {
            let ghost n = scan_number(number@, 0, true, true)->0;
            if x.end != number.len() || x.big {
                None
            } else {
                match round_exec(&x, 1, 1, precision, Ghost(n)) {
                    Some(m) => Some(decimal_text_exec(x.neg, m, precision)),
                    None => None,
                }
            }
        },
        None => None,
    }
}

} // verus!
