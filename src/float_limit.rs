use vstd::prelude::*;

use crate::lex::{digit_value, is_ascii_digit};
use crate::value::{count_char, exponent_mark, is_float_char, is_float_literal};

verus! {

/// The digits of the 32-bit float bound, `(2^25 - 1) * 2^103`: a decimal
/// value rounds to a finite `f32` exactly when it is below it (the midpoint
/// between `f32::MAX` and `2^128` rounds to even, away from `f32::MAX`).
pub open spec fn f32_limit() -> Seq<char> {
    "340282356779733661637539395458142568448"@
}

/// The digits of the 64-bit float bound, `(2^54 - 1) * 2^970`, by the same
/// rule for `f64`.
pub open spec fn f64_limit() -> Seq<char> {
    "179769313486231580793728971405303415079934132710037826936173778980444968292764750946649017977587207096330286416692887910946555547851940402630657488671505820681908902000708383676273854845817711531764475730270069855571366959622842914819860834936475292719074168444365510704342711559699508093042880177904174497792"@
}

pub(crate) fn f32_limit_text() -> (r: &'static str)
    ensures
        r@ == f32_limit(),
{
    "340282356779733661637539395458142568448"
}

pub(crate) fn f64_limit_text() -> (r: &'static str)
    ensures
        r@ == f64_limit(),
{
    "179769313486231580793728971405303415079934132710037826936173778980444968292764750946649017977587207096330286416692887910946555547851940402630657488671505820681908902000708383676273854845817711531764475730270069855571366959622842914819860834936475292719074168444365510704342711559699508093042880177904174497792"
}

/// Both bounds are digit strings without a leading zero.
pub proof fn lemma_limits_are_numbers()
    ensures
        all_digits(f32_limit()),
        f32_limit().len() > 0,
        f32_limit()[0] != '0',
        all_digits(f64_limit()),
        f64_limit().len() > 0,
        f64_limit()[0] != '0',
{
    reveal_strlit("340282356779733661637539395458142568448");
    reveal_strlit("179769313486231580793728971405303415079934132710037826936173778980444968292764750946649017977587207096330286416692887910946555547851940402630657488671505820681908902000708383676273854845817711531764475730270069855571366959622842914819860834936475292719074168444365510704342711559699508093042880177904174497792");
}

pub open spec fn pow10(n: nat) -> int
    decreases n,
{
    if n == 0 {
        1
    } else {
        10 * pow10((n - 1) as nat)
    }
}

pub open spec fn all_digits(a: Seq<char>) -> bool {
    forall|k: int| 0 <= k < a.len() ==> is_ascii_digit(#[trigger] a[k])
}

/// The number that a string of decimal digits spells.
pub open spec fn dval(a: Seq<char>) -> int
    decreases a.len(),
{
    if a.len() == 0 {
        0
    } else {
        dval(a.drop_last()) * 10 + digit_value(a.last())
    }
}

pub open spec fn zeros(n: nat) -> Seq<char> {
    Seq::new(n, |k: int| '0')
}

pub proof fn lemma_pow10_positive(n: nat)
    ensures
        pow10(n) >= 1,
    decreases n,
{
    if n > 0 {
        lemma_pow10_positive((n - 1) as nat);
    }
}

pub proof fn lemma_pow10_grows(m: nat, n: nat)
    requires
        m < n,
    ensures
        pow10(m) * 10 <= pow10(n),
    decreases n,
{
    lemma_pow10_positive(m);
    if n > m + 1 {
        lemma_pow10_grows(m, (n - 1) as nat);
    }
}

pub proof fn lemma_dval_bounds(a: Seq<char>)
    requires
        all_digits(a),
    ensures
        0 <= dval(a) < pow10(a.len()),
    decreases a.len(),
{
    if a.len() > 0 {
        let b = a.drop_last();
        assert(all_digits(b)) by {
            assert forall|k: int| 0 <= k < b.len() implies is_ascii_digit(#[trigger] b[k]) by {
                assert(b[k] == a[k]);
            }
        }
        lemma_dval_bounds(b);
        assert(is_ascii_digit(a[a.len() - 1]));
        let d = digit_value(a.last());
        assert(0 <= d <= 9);
        let p = pow10(b.len());
        assert(dval(b) * 10 + d < p * 10) by (nonlinear_arith)
            requires
                dval(b) < p,
                d <= 9,
        {
        }
    }
}

pub proof fn lemma_dval_concat(a: Seq<char>, b: Seq<char>)
    ensures
        dval(a + b) == dval(a) * pow10(b.len()) + dval(b),
    decreases b.len(),
{
    if b.len() == 0 {
        assert(a + b =~= a);
        assert(dval(b) == 0);
        assert(pow10(0) == 1);
    } else {
        let c = b.drop_last();
        assert((a + b).drop_last() =~= a + c);
        assert((a + b).last() == b.last());
        lemma_dval_concat(a, c);
        let p = pow10(c.len());
        assert(pow10(b.len()) == 10 * p);
        assert(dval(a + b) == dval(a + c) * 10 + digit_value(b.last()));
        assert(dval(b) == dval(c) * 10 + digit_value(b.last()));
        assert((dval(a) * p + dval(c)) * 10 + digit_value(b.last()) == dval(a) * (10 * p) + (dval(c) * 10
            + digit_value(b.last()))) by (nonlinear_arith);
    }
}

pub proof fn lemma_dval_zeros(n: nat)
    ensures
        dval(zeros(n)) == 0,
    decreases n,
{
    if n > 0 {
        assert(zeros(n).drop_last() =~= zeros((n - 1) as nat));
        lemma_dval_zeros((n - 1) as nat);
    }
}

/// A string of digits that does not start with `0` has no fewer digits than its value needs.
pub proof fn lemma_dval_lower(a: Seq<char>)
    requires
        all_digits(a),
        a.len() > 0,
        a[0] != '0',
    ensures
        dval(a) >= pow10((a.len() - 1) as nat),
{
    let head = a.subrange(0, 1);
    let rest = a.subrange(1, a.len() as int);
    assert(a =~= head + rest);
    lemma_dval_concat(head, rest);
    assert(head.drop_last() =~= Seq::<char>::empty());
    assert(dval(Seq::<char>::empty()) == 0);
    assert(head.last() == a[0]);
    assert(dval(head) == dval(head.drop_last()) * 10 + digit_value(head.last()));
    assert(dval(head) == digit_value(a[0]));
    assert(all_digits(rest)) by {
        assert forall|k: int| 0 <= k < rest.len() implies is_ascii_digit(#[trigger] rest[k]) by {
            assert(rest[k] == a[k + 1]);
        }
    }
    lemma_dval_bounds(rest);
    assert(is_ascii_digit(a[0]));
    assert(digit_value(a[0]) >= 1);
    lemma_pow10_positive(rest.len());
    assert(digit_value(a[0]) * pow10(rest.len()) >= pow10(rest.len())) by (nonlinear_arith)
        requires
            digit_value(a[0]) >= 1,
            pow10(rest.len()) >= 1,
    {
    }
}

/// Of two digit strings of one length, the one with the smaller digit at the
/// first place where they differ has the smaller value.
pub proof fn lemma_dval_lex(a: Seq<char>, b: Seq<char>, j: int)
    requires
        all_digits(a),
        all_digits(b),
        a.len() == b.len(),
        0 <= j < a.len(),
        a.subrange(0, j) == b.subrange(0, j),
        digit_value(a[j]) < digit_value(b[j]),
    ensures
        dval(a) < dval(b),
{
    let r = (a.len() - j - 1) as nat;
    let pa = a.subrange(0, j);
    let ta = a.subrange(j + 1, a.len() as int);
    let tb = b.subrange(j + 1, b.len() as int);
    let ha = pa.push(a[j]);
    let hb = pa.push(b[j]);
    assert(a =~= ha + ta);
    assert(b =~= hb + tb);
    lemma_dval_concat(ha, ta);
    lemma_dval_concat(hb, tb);
    assert(ha.drop_last() =~= pa);
    assert(hb.drop_last() =~= pa);
    assert(all_digits(ta)) by {
        assert forall|k: int| 0 <= k < ta.len() implies is_ascii_digit(#[trigger] ta[k]) by {
            assert(ta[k] == a[k + j + 1]);
        }
    }
    assert(all_digits(tb)) by {
        assert forall|k: int| 0 <= k < tb.len() implies is_ascii_digit(#[trigger] tb[k]) by {
            assert(tb[k] == b[k + j + 1]);
        }
    }
    lemma_dval_bounds(ta);
    lemma_dval_bounds(tb);
    let p = pow10(r);
    let x = dval(pa) * 10;
    assert(dval(ha) == x + digit_value(a[j]));
    assert(dval(hb) == x + digit_value(b[j]));
    assert((x + digit_value(a[j])) * p + dval(ta) < (x + digit_value(b[j])) * p + dval(tb)) by (nonlinear_arith)
        requires
            digit_value(a[j]) + 1 <= digit_value(b[j]),
            0 <= dval(ta) < p,
            0 <= dval(tb),
    {
    }
}

proof fn lemma_count_grows(t: Seq<char>, c: char, a: int, b1: int, b2: int)
    requires
        a <= b1 <= b2,
    ensures
        count_char(t, c, a, b1) <= count_char(t, c, a, b2),
    decreases b2 - b1,
{
    if b2 > b1 {
        lemma_count_grows(t, c, a, b1, b2 - 1);
    }
}

proof fn lemma_count_hit(t: Seq<char>, c: char, a: int, k: int, b: int)
    requires
        a <= k < b,
        t[k] == c,
    ensures
        count_char(t, c, a, b) >= count_char(t, c, a, k) + 1,
{
    lemma_count_grows(t, c, a, k + 1, b);
}

proof fn lemma_count_nonnegative(t: Seq<char>, c: char, a: int, b: int)
    ensures
        count_char(t, c, a, b) >= 0,
    decreases b - a,
{
    if b > a {
        lemma_count_nonnegative(t, c, a, b - 1);
    }
}

/// The first position of `.` in `m` from `k`, or `m.len()`.
pub open spec fn point_mark(m: Seq<char>, k: int) -> int
    decreases m.len() - k,
{
    if k < 0 || k >= m.len() {
        m.len() as int
    } else if m[k] == '.' {
        k
    } else {
        point_mark(m, k + 1)
    }
}

pub open spec fn mantissa_of(t: Seq<char>) -> Seq<char> {
    t.subrange(0, exponent_mark(t, 0))
}

/// The digits of the mantissa of a float literal, without its point.
pub open spec fn mantissa_digits(t: Seq<char>) -> Seq<char> {
    let m = mantissa_of(t);
    let p = point_mark(m, 0);
    if p < m.len() {
        m.subrange(0, p) + m.subrange(p + 1, m.len() as int)
    } else {
        m
    }
}

/// How many mantissa digits stand after the point.
pub open spec fn fraction_len(t: Seq<char>) -> int {
    let m = mantissa_of(t);
    let p = point_mark(m, 0);
    if p < m.len() {
        m.len() - p - 1
    } else {
        0
    }
}

/// The exponent of a float literal, 0 without one.
pub open spec fn exponent_value(t: Seq<char>) -> int {
    let e = exponent_mark(t, 0);
    if e < t.len() {
        dval(t.subrange(e + 1, t.len() as int))
    } else {
        0
    }
}

/// Whether the value of a float literal, its mantissa digits times ten to the
/// power of its exponent less its fraction length, is below the number that
/// `limit` spells. Both sides are scaled by the same power of ten so that
/// they stay whole numbers.
pub open spec fn literal_below(t: Seq<char>, limit: Seq<char>) -> bool {
    let x = exponent_value(t) - fraction_len(t);
    dval(mantissa_digits(t) + zeros(if x >= 0 {
        x as nat
    } else {
        0
    })) < dval(limit + zeros(if x < 0 {
        (-x) as nat
    } else {
        0
    }))
}

/// The mantissa digits of a float literal, its fraction length and where its
/// exponent mark stands.
fn split_literal(t: &Vec<char>) -> (r: (Vec<char>, usize, usize))
    requires
        is_float_literal(t@),
        forall|k: int| 0 <= k < t@.len() ==> is_float_char(#[trigger] t@[k]),
    ensures
        r.0@ == mantissa_digits(t@),
        r.1 as int == fraction_len(t@),
        r.2 as int == exponent_mark(t@, 0),
        r.2 <= t@.len(),
        all_digits(r.0@),
{
    let n = t.len();
    let mut e: usize = 0;
    while e < n && t[e] != 'e'
        invariant
            0 <= e <= n,
            n == t@.len(),
            exponent_mark(t@, 0) == exponent_mark(t@, e as int),
            forall|k: int| 0 <= k < e ==> t@[k] != 'e',
        decreases n - e,
    {
        e += 1;
    }
    let ghost m = t@.subrange(0, e as int);
    assert(m == mantissa_of(t@));
    let mut p: usize = 0;
    while p < e && t[p] != '.'
        invariant
            0 <= p <= e <= n,
            n == t@.len(),
            m == t@.subrange(0, e as int),
            point_mark(m, 0) == point_mark(m, p as int),
            forall|k: int| 0 <= k < p ==> t@[k] != '.',
        decreases e - p,
    {
        p += 1;
    }
    let mut md: Vec<char> = Vec::new();
    let mut k: usize = 0;
    while k < p
        invariant
            0 <= k <= p <= e <= n,
            n == t@.len(),
            m == t@.subrange(0, e as int),
            md@ == m.subrange(0, k as int),
        decreases p - k,
    {
        md.push(t[k]);
        assert(md@ =~= m.subrange(0, k + 1));
        k += 1;
    }
    let ghost int_part = md@;
    let frac: usize = if p < e {
        e - p - 1
    } else {
        0
    };
    if p < e {
        let mut k2: usize = p + 1;
        while k2 < e
            invariant
                p < k2 <= e <= n,
                n == t@.len(),
                m == t@.subrange(0, e as int),
                md@ == int_part + m.subrange(p + 1, k2 as int),
            decreases e - k2,
        {
            md.push(t[k2]);
            assert(md@ =~= int_part + m.subrange(p + 1, k2 + 1));
            k2 += 1;
        }
        assert(md@ =~= mantissa_digits(t@));
    } else {
        assert(md@ =~= mantissa_digits(t@));
    }
    proof {
        lemma_count_nonnegative(t@, '.', 0, p as int);
        assert forall|j: int| 0 <= j < md@.len() implies is_ascii_digit(#[trigger] md@[j]) by {
            let src = if j < p {
                j
            } else {
                j + 1
            };
            assert(md@[j] == t@[src]);
            assert(is_float_char(t@[src]));
            assert(t@[src] != 'e');
            if t@[src] == '.' {
                assert(t@[p as int] == '.');
                lemma_count_hit(t@, '.', 0, p as int, src);
                lemma_count_hit(t@, '.', 0, src, e as int);
            }
        }
    }
    (md, frac, e)
}

/// The exponent of a float literal whose mark stands at `e`, unless it exceeds `cap`.
fn exponent_upto(t: &Vec<char>, e: usize, cap: u128) -> (r: Option<u128>)
    requires
        is_float_literal(t@),
        forall|k: int| 0 <= k < t@.len() ==> is_float_char(#[trigger] t@[k]),
        e as int == exponent_mark(t@, 0),
        e <= t@.len(),
    ensures
        r matches Some(v) ==> v as int == exponent_value(t@) && v <= cap,
        r is None ==> exponent_value(t@) > cap,
{
    let n = t.len();
    if e >= n {
        return Some(0);
    }
    let ghost q = t@.subrange(e + 1, n as int);
    proof {
        assert forall|j: int| 0 <= j < q.len() implies is_ascii_digit(#[trigger] q[j]) by {
            assert(q[j] == t@[j + e + 1]);
            assert(is_float_char(t@[j + e + 1]));
            lemma_count_nonnegative(t@, '.', e + 1, j + e + 1);
            lemma_count_nonnegative(t@, 'e', e + 1, j + e + 1);
            if t@[j + e + 1] == '.' {
                lemma_count_hit(t@, '.', e + 1, j + e + 1, n as int);
            }
            if t@[j + e + 1] == 'e' {
                lemma_count_hit(t@, 'e', e + 1, j + e + 1, n as int);
            }
        }
    }
    let mut ev: u128 = 0;
    let mut k3: usize = e + 1;
    while k3 < n
        invariant
            e < k3 <= n,
            n == t@.len(),
            q == t@.subrange(e + 1, n as int),
            e as int == exponent_mark(t@, 0),
            all_digits(q),
            ev as int == dval(q.subrange(0, k3 - e - 1)),
            ev <= cap,
        decreases n - k3,
    {
        assert(t@[k3 as int] == q[k3 - e - 1]);
        let d = (t[k3] as u32 - '0' as u32) as u128;
        let ghost pre = q.subrange(0, k3 - e - 1);
        let ghost pre1 = q.subrange(0, k3 - e);
        proof {
            assert(pre1.drop_last() =~= pre);
            assert(pre1.last() == t@[k3 as int]);
            assert(d as int == digit_value(pre1.last()));
            assert(dval(pre1) == dval(pre) * 10 + d);
        }
        if d > cap || ev > (cap - d) / 10 {
            proof {
                assert(dval(pre1) > cap) by (nonlinear_arith)
                    requires
                        dval(pre1) == ev * 10 + d,
                        d > cap || ev > (cap - d) / 10,
                        ev >= 0,
                {
                }
                let rest = q.subrange(k3 - e, q.len() as int);
                assert(q =~= pre1 + rest);
                lemma_dval_concat(pre1, rest);
                assert(all_digits(rest)) by {
                    assert forall|j: int| 0 <= j < rest.len() implies is_ascii_digit(#[trigger] rest[j]) by {
                        assert(rest[j] == q[j + k3 - e]);
                    }
                }
                lemma_dval_bounds(rest);
                lemma_pow10_positive(rest.len());
                assert(dval(pre1) * pow10(rest.len()) >= dval(pre1)) by (nonlinear_arith)
                    requires
                        dval(pre1) >= 0,
                        pow10(rest.len()) >= 1,
                {
                }
                assert(exponent_value(t@) == dval(q));
            }
            return None;
        }
        assert(ev * 10 + d <= cap) by (nonlinear_arith)
            requires
                ev <= (cap - d) / 10,
                d <= cap,
        {
        }
        ev = ev * 10 + d;
        k3 += 1;
    }
    assert(q.subrange(0, q.len() as int) =~= q);
    Some(ev)
}

proof fn lemma_all_digits_padded(a: Seq<char>, z: nat)
    requires
        all_digits(a),
    ensures
        all_digits(a + zeros(z)),
{
    let b = a + zeros(z);
    assert forall|j: int| 0 <= j < b.len() implies is_ascii_digit(#[trigger] b[j]) by {
        if j < a.len() {
            assert(b[j] == a[j]);
        } else {
            assert(b[j] == '0');
        }
    }
}

/// Whether `a` followed by `za` zeros spells a smaller number than `b` followed
/// by `zb` zeros, for digit strings that do not start with `0`.
fn padded_below(a: &Vec<char>, from: usize, za: u128, b: &Vec<char>, zb: u128) -> (r: bool)
    requires
        from < a@.len(),
        all_digits(a@),
        a@[from as int] != '0',
        all_digits(b@),
        b@.len() > 0,
        b@[0] != '0',
        za <= 0xffff_ffff_ffff_ffff_ffff,
        zb <= 0xffff_ffff_ffff_ffff_ffff,
    ensures
        r == (dval(a@.subrange(from as int, a@.len() as int) + zeros(za as nat)) < dval(b@ + zeros(zb as nat))),
{
    let ghost lhs = a@.subrange(from as int, a@.len() as int) + zeros(za as nat);
    let ghost rhs = b@ + zeros(zb as nat);
    proof {
        assert(all_digits(a@.subrange(from as int, a@.len() as int))) by {
            let s = a@.subrange(from as int, a@.len() as int);
            assert forall|j: int| 0 <= j < s.len() implies is_ascii_digit(#[trigger] s[j]) by {
                assert(s[j] == a@[j + from]);
            }
        }
        lemma_all_digits_padded(a@.subrange(from as int, a@.len() as int), za as nat);
        lemma_all_digits_padded(b@, zb as nat);
        assert(lhs[0] == a@[from as int]);
        assert(rhs[0] == b@[0]);
        lemma_dval_bounds(lhs);
        lemma_dval_bounds(rhs);
        lemma_dval_lower(lhs);
        lemma_dval_lower(rhs);
    }
    let a_len = a.len();
    let alen = (a_len - from) as u128;
    let blen = b.len() as u128;
    let na = alen + za;
    let nb = blen + zb;
    if na < nb {
        proof {
            lemma_pow10_grows(lhs.len(), rhs.len());
            if lhs.len() < rhs.len() - 1 {
                lemma_pow10_grows(lhs.len(), (rhs.len() - 1) as nat);
            }
        }
        return true;
    }
    if na > nb {
        proof {
            if lhs.len() - 1 > rhs.len() {
                lemma_pow10_grows(rhs.len(), (lhs.len() - 1) as nat);
            }
        }
        return false;
    }
    let mut k: u128 = 0;
    while k < na
        invariant
            na == nb,
            na as int == lhs.len(),
            nb as int == rhs.len(),
            alen as int == a@.len() - from,
            blen as int == b@.len(),
            alen <= usize::MAX as u128,
            blen <= usize::MAX as u128,
            a@.len() <= usize::MAX,
            from < a@.len(),
            lhs == a@.subrange(from as int, a@.len() as int) + zeros(za as nat),
            rhs == b@ + zeros(zb as nat),
            all_digits(lhs),
            all_digits(rhs),
            0 <= k <= na,
            lhs.subrange(0, k as int) == rhs.subrange(0, k as int),
        decreases na - k,
    {
        let ca = if k < alen {
            let ku = k as usize;
            assert(ku as int == k as int);
            a[from + ku]
        } else {
            '0'
        };
        let cb = if k < blen {
            let ku = k as usize;
            assert(ku as int == k as int);
            b[ku]
        } else {
            '0'
        };
        assert(ca == lhs[k as int]);
        assert(cb == rhs[k as int]);
        if ca != cb {
            assert(is_ascii_digit(ca) && is_ascii_digit(cb));
            if ca < cb {
                proof {
                    lemma_dval_lex(lhs, rhs, k as int);
                }
                return true;
            } else {
                proof {
                    lemma_dval_lex(rhs, lhs, k as int);
                }
                return false;
            }
        }
        assert(lhs.subrange(0, k + 1) =~= rhs.subrange(0, k + 1));
        k += 1;
    }
    assert(lhs =~= lhs.subrange(0, na as int));
    assert(rhs =~= rhs.subrange(0, nb as int));
    false
}

/// Whether the float literal `t` is below the bound spelled by `limit`.
pub fn literal_below_limit(t: &Vec<char>, limit: &Vec<char>) -> (r: bool)
    requires
        is_float_literal(t@),
        forall|k: int| 0 <= k < t@.len() ==> is_float_char(#[trigger] t@[k]),
        all_digits(limit@),
        limit@.len() > 0,
        limit@[0] != '0',
    ensures
        r == literal_below(t@, limit@),
{
    let (md, frac, e) = split_literal(t);
    let dn = md.len();
    let mut z: usize = 0;
    while z < dn && md[z] == '0'
        invariant
            0 <= z <= dn,
            dn == md@.len(),
            forall|j: int| 0 <= j < z ==> md@[j] == '0',
        decreases dn - z,
    {
        z += 1;
    }
    let ghost a = md@.subrange(z as int, dn as int);
    let ghost x = exponent_value(t@) - fraction_len(t@);
    let ghost za: nat = if x >= 0 {
        x as nat
    } else {
        0
    };
    let ghost zb: nat = if x < 0 {
        (-x) as nat
    } else {
        0
    };
    let ghost rhs = limit@ + zeros(zb);
    proof {
        assert(md@ =~= zeros(z as nat) + a);
        assert(mantissa_digits(t@) + zeros(za) =~= zeros(z as nat) + (a + zeros(za)));
        lemma_dval_concat(zeros(z as nat), a + zeros(za));
        lemma_dval_zeros(z as nat);
        lemma_all_digits_padded(limit@, zb);
        lemma_dval_lower(rhs);
        lemma_pow10_positive((rhs.len() - 1) as nat);
    }
    if z == dn {
        proof {
            assert(a + zeros(za) =~= zeros(za));
            lemma_dval_zeros(za);
        }
        return true;
    }
    let ln = limit.len();
    let cap: u128 = (frac as u128) + (ln as u128);
    match exponent_upto(t, e, cap) {
        None => {
            proof {
                let lhs = a + zeros(za);
                assert(all_digits(a)) by {
                    assert forall|j: int| 0 <= j < a.len() implies is_ascii_digit(#[trigger] a[j]) by {
                        assert(a[j] == md@[j + z]);
                    }
                }
                lemma_all_digits_padded(a, za);
                assert(lhs[0] == md@[z as int]);
                lemma_dval_lower(lhs);
                lemma_dval_bounds(rhs);
                assert(lhs.len() > rhs.len());
                if lhs.len() - 1 > rhs.len() {
                    lemma_pow10_grows(rhs.len(), (lhs.len() - 1) as nat);
                }
            }
            false
        },
        Some(ev) => {
            let xi: i128 = (ev as i128) - (frac as i128);
            let za_e: u128 = if xi >= 0 {
                xi as u128
            } else {
                0
            };
            let zb_e: u128 = if xi < 0 {
                (-xi) as u128
            } else {
                0
            };
            assert(md@[z as int] != '0');
            padded_below(&md, z, za_e, limit, zb_e)
        },
    }
}

} // verus!
