//! Phase numbers are ordered by their decimal value: the order that sorts
//! the roadmap's phases compares the numbers as decimals, not as text.
use vstd::prelude::*;

use super::roadmap::{
    lemma_lex_asym, lex_lt, number_key, phase_lt, rzeros_end, sorted_phases,
    stable_sorted_order, zeros_end, PhaseEntryView,
};
use crate::text::{all_ascii_digits, char_pos, digits_value, is_ascii_digit};

verus! {

/// `10` to the power `n`.
pub open spec fn pow10(n: nat) -> nat
    decreases n,
{
    if n == 0 {
        1
    } else {
        10 * pow10((n - 1) as nat)
    }
}

/// The value of a digit character.
pub open spec fn digit_of(c: char) -> nat {
    ((c as u32) - ('0' as u32)) as nat
}

/// `n` zero digits.
pub open spec fn zeros(n: nat) -> Seq<char> {
    Seq::new(n, |i: int| '0')
}

proof fn lemma_pow10_pos(n: nat)
    ensures
        pow10(n) >= 1,
    decreases n,
{
    if n > 0 {
        lemma_pow10_pos((n - 1) as nat);
    }
}

proof fn lemma_pow10_add(a: nat, b: nat)
    ensures
        pow10(a + b) == pow10(a) * pow10(b),
    decreases b,
{
    if b > 0 {
        lemma_pow10_add(a, (b - 1) as nat);
        let p = pow10(a);
        let q = pow10((b - 1) as nat);
        assert((a + b - 1) as nat == a + (b - 1) as nat);
        assert(pow10(a + b) == 10 * pow10((a + b - 1) as nat));
        assert(pow10(a + (b - 1) as nat) == p * q);
        assert(pow10(b) == 10 * q);
        assert(10 * (p * q) == p * (10 * q)) by (nonlinear_arith);
    } else {
        assert(pow10(0) == 1);
        assert(pow10(a) * 1 == pow10(a));
        assert(a + b == a);
    }
}

proof fn lemma_pow10_mono(a: nat, b: nat)
    requires
        a <= b,
    ensures
        pow10(a) <= pow10(b),
    decreases b,
{
    if a < b {
        lemma_pow10_mono(a, (b - 1) as nat);
    }
}

/// The value of `x` followed by `y`.
pub proof fn lemma_digits_value_concat(x: Seq<char>, y: Seq<char>)
    ensures
        digits_value(x + y) == digits_value(x) * pow10(y.len()) + digits_value(y),
    decreases y.len(),
{
    if y.len() == 0 {
        assert(x + y =~= x);
        assert(pow10(0) == 1);
        assert(digits_value(y) == 0);
        assert(digits_value(x) * 1 == digits_value(x));
    } else {
        let y1 = y.drop_last();
        assert((x + y).drop_last() =~= x + y1);
        assert((x + y).last() == y.last());
        lemma_digits_value_concat(x, y1);
        let a = digits_value(x);
        let p = pow10(y1.len());
        let b = digits_value(y1);
        let d = digit_of(y.last());
        assert(pow10(y.len()) == 10 * p);
        assert(digits_value(x + y) == digits_value(x + y1) * 10 + d);
        assert(digits_value(y) == b * 10 + d);
        assert((a * p + b) * 10 + d == a * (10 * p) + (b * 10 + d)) by (nonlinear_arith);
    }
}

proof fn lemma_digits_value_zeros(n: nat)
    ensures
        digits_value(zeros(n)) == 0,
    decreases n,
{
    if n > 0 {
        assert(zeros(n).drop_last() =~= zeros((n - 1) as nat));
        lemma_digits_value_zeros((n - 1) as nat);
    }
}

/// A digit string of `n` digits is below `10^n`.
proof fn lemma_digits_value_bound(s: Seq<char>)
    requires
        all_ascii_digits(s),
    ensures
        digits_value(s) < pow10(s.len()),
    decreases s.len(),
{
    if s.len() > 0 {
        let s1 = s.drop_last();
        assert(all_ascii_digits(s1)) by {
            assert forall|i: int| 0 <= i < s1.len() implies is_ascii_digit(#[trigger] s1[i]) by {
                assert(s1[i] == s[i]);
            }
        }
        lemma_digits_value_bound(s1);
        assert(is_ascii_digit(s[s.len() - 1]));
        let a = digits_value(s1);
        let p = pow10(s1.len());
        let d = digit_of(s.last());
        assert(d <= 9);
        assert(a + 1 <= p);
        assert(a * 10 + d < 10 * p) by (nonlinear_arith)
            requires
                a + 1 <= p,
                d <= 9,
        ;
    }
}

/// A digit string split after its first digit.
proof fn lemma_digits_value_first(s: Seq<char>)
    requires
        s.len() > 0,
    ensures
        digits_value(s) == digit_of(s[0]) * pow10((s.len() - 1) as nat) + digits_value(
            s.drop_first(),
        ),
{
    assert(s =~= seq![s[0]] + s.drop_first());
    lemma_digits_value_concat(seq![s[0]], s.drop_first());
    assert(seq![s[0]].drop_last() =~= Seq::<char>::empty());
    assert(digits_value(seq![s[0]]) == digits_value(Seq::<char>::empty()) * 10 + digit_of(s[0]));
    assert(digits_value(Seq::<char>::empty()) == 0);
}

proof fn lemma_digits_drop_first(s: Seq<char>)
    requires
        all_ascii_digits(s),
        s.len() > 0,
    ensures
        all_ascii_digits(s.drop_first()),
{
    assert forall|i: int| 0 <= i < s.drop_first().len() implies is_ascii_digit(
        #[trigger] s.drop_first()[i],
    ) by {
        assert(s.drop_first()[i] == s[i + 1]);
    }
}

/// Of two digit strings of the same length, the one that comes first as
/// text is the smaller number.
proof fn lemma_lex_is_value(x: Seq<char>, y: Seq<char>)
    requires
        all_ascii_digits(x),
        all_ascii_digits(y),
        x.len() == y.len(),
    ensures
        lex_lt(x, y) <==> digits_value(x) < digits_value(y),
        x == y <==> digits_value(x) == digits_value(y),
    decreases x.len(),
{
    if x.len() == 0 {
        assert(x =~= y);
    } else {
        lemma_digits_drop_first(x);
        lemma_digits_drop_first(y);
        lemma_digits_value_first(x);
        lemma_digits_value_first(y);
        lemma_digits_value_bound(x.drop_first());
        lemma_digits_value_bound(y.drop_first());
        assert(is_ascii_digit(x[0]) && is_ascii_digit(y[0]));
        let p = pow10((x.len() - 1) as nat);
        let dx = digit_of(x[0]);
        let dy = digit_of(y[0]);
        let rx = digits_value(x.drop_first());
        let ry = digits_value(y.drop_first());
        if x[0] == y[0] {
            lemma_lex_is_value(x.drop_first(), y.drop_first());
            if x.drop_first() == y.drop_first() {
                assert(x =~= seq![x[0]] + x.drop_first());
                assert(y =~= seq![y[0]] + y.drop_first());
            }
            if x == y {
                assert(x.drop_first() == y.drop_first());
            }
        } else if x[0] < y[0] {
            assert(dx + 1 <= dy);
            assert(dx * p + rx < dy * p + ry) by (nonlinear_arith)
                requires
                    dx + 1 <= dy,
                    rx < p,
            ;
        } else {
            assert(dy + 1 <= dx);
            assert(dy * p + ry < dx * p + rx) by (nonlinear_arith)
                requires
                    dy + 1 <= dx,
                    ry < p,
            ;
        }
    }
}

/// No leading zero.
pub open spec fn no_leading_zero(s: Seq<char>) -> bool {
    s.len() == 0 || s[0] != '0'
}

/// No trailing zero.
pub open spec fn no_trailing_zero(s: Seq<char>) -> bool {
    s.len() == 0 || s.last() != '0'
}

/// Integer digit strings without leading zeros: fewer digits, or as many and
/// first as text, is exactly the smaller number.
proof fn lemma_int_order(x: Seq<char>, y: Seq<char>)
    requires
        all_ascii_digits(x),
        all_ascii_digits(y),
        no_leading_zero(x),
        no_leading_zero(y),
    ensures
        (x.len() < y.len() || (x.len() == y.len() && lex_lt(x, y))) <==> digits_value(x)
            < digits_value(y),
        x == y <==> digits_value(x) == digits_value(y),
{
    lemma_digits_value_bound(x);
    lemma_digits_value_bound(y);
    if x.len() < y.len() {
        lemma_digits_value_first(y);
        assert(is_ascii_digit(y[0]));
        assert(digit_of(y[0]) >= 1);
        lemma_pow10_mono(x.len(), (y.len() - 1) as nat);
        let p = pow10((y.len() - 1) as nat);
        let d = digit_of(y[0]);
        assert(d * p >= p) by (nonlinear_arith)
            requires
                d >= 1,
        ;
    } else if x.len() > y.len() {
        lemma_digits_value_first(x);
        assert(is_ascii_digit(x[0]));
        assert(digit_of(x[0]) >= 1);
        lemma_pow10_mono(y.len(), (x.len() - 1) as nat);
        let p = pow10((x.len() - 1) as nat);
        let d = digit_of(x[0]);
        assert(d * p >= p) by (nonlinear_arith)
            requires
                d >= 1,
        ;
    } else {
        lemma_lex_is_value(x, y);
    }
}

/// `x` padded with zeros to `m` digits.
pub open spec fn pad(x: Seq<char>, m: nat) -> Seq<char> {
    x + zeros((m - x.len()) as nat)
}

/// A string of zeros comes before a digit string of the same length that
/// holds a nonzero digit and ends in one.
proof fn lemma_zeros_before(y: Seq<char>, m: nat)
    requires
        all_ascii_digits(y),
        y.len() > 0,
        no_trailing_zero(y),
        y.len() <= m,
    ensures
        lex_lt(zeros(m), pad(y, m)),
    decreases y.len(),
{
    assert(is_ascii_digit(y[0]));
    assert(pad(y, m)[0] == y[0]);
    if y[0] == '0' {
        assert(y.len() >= 2);
        lemma_digits_drop_first(y);
        assert(y.drop_first().last() == y.last());
        lemma_zeros_before(y.drop_first(), (m - 1) as nat);
        assert(zeros(m).drop_first() =~= zeros((m - 1) as nat));
        assert(pad(y, m).drop_first() =~= pad(y.drop_first(), (m - 1) as nat));
    }
}

/// No digit string comes before zeros of the same length.
proof fn lemma_nothing_before_zeros(x: Seq<char>)
    requires
        all_ascii_digits(x),
    ensures
        !lex_lt(x, zeros(x.len())),
    decreases x.len(),
{
    if x.len() > 0 {
        assert(is_ascii_digit(x[0]));
        if x[0] == '0' {
            lemma_digits_drop_first(x);
            lemma_nothing_before_zeros(x.drop_first());
            assert(zeros(x.len()).drop_first() =~= zeros((x.len() - 1) as nat));
        }
    }
}

/// Fraction digits without trailing zeros come in the same order as text
/// whether or not both are padded with zeros to a common length.
proof fn lemma_pad_order(x: Seq<char>, y: Seq<char>, m: nat)
    requires
        all_ascii_digits(x),
        all_ascii_digits(y),
        no_trailing_zero(x),
        no_trailing_zero(y),
        x.len() <= m,
        y.len() <= m,
    ensures
        lex_lt(pad(x, m), pad(y, m)) <==> lex_lt(x, y),
    decreases m,
{
    if x.len() > 0 && y.len() > 0 {
        assert(pad(x, m)[0] == x[0]);
        assert(pad(y, m)[0] == y[0]);
        if x[0] == y[0] {
            lemma_digits_drop_first(x);
            lemma_digits_drop_first(y);
            if x.len() > 1 {
                assert(x.drop_first().last() == x.last());
            }
            if y.len() > 1 {
                assert(y.drop_first().last() == y.last());
            }
            lemma_pad_order(x.drop_first(), y.drop_first(), (m - 1) as nat);
            assert(pad(x, m).drop_first() =~= pad(x.drop_first(), (m - 1) as nat));
            assert(pad(y, m).drop_first() =~= pad(y.drop_first(), (m - 1) as nat));
        }
    } else if x.len() == 0 && y.len() > 0 {
        assert(pad(x, m) =~= zeros(m));
        lemma_zeros_before(y, m);
    } else if x.len() > 0 && y.len() == 0 {
        assert(pad(y, m) =~= zeros(m));
        assert(pad(x, m).len() == m);
        assert(all_ascii_digits(pad(x, m))) by {
            assert forall|i: int| 0 <= i < pad(x, m).len() implies is_ascii_digit(
                #[trigger] pad(x, m)[i],
            ) by {
                if i < x.len() {
                    assert(pad(x, m)[i] == x[i]);
                } else {
                    assert(pad(x, m)[i] == '0');
                }
            }
        }
        lemma_nothing_before_zeros(pad(x, m));
    } else {
        assert(pad(x, m) =~= pad(y, m));
        lemma_lex_asym(pad(x, m), pad(y, m));
    }
}

proof fn lemma_zeros_end(s: Seq<char>, i: int)
    requires
        0 <= i <= s.len(),
    ensures
        i <= zeros_end(s, i) <= s.len(),
        forall|t: int| i <= t < zeros_end(s, i) ==> s[t] == '0',
        zeros_end(s, i) < s.len() ==> s[zeros_end(s, i)] != '0',
    decreases s.len() - i,
{
    if i < s.len() && s[i] == '0' {
        lemma_zeros_end(s, i + 1);
    }
}

proof fn lemma_rzeros_end(s: Seq<char>, j: int)
    requires
        0 <= j <= s.len(),
    ensures
        0 <= rzeros_end(s, j) <= j,
        forall|t: int| rzeros_end(s, j) <= t < j ==> s[t] == '0',
        rzeros_end(s, j) > 0 ==> s[rzeros_end(s, j) - 1] != '0',
    decreases j,
{
    if 0 < j && s[j - 1] == '0' {
        lemma_rzeros_end(s, j - 1);
    }
}

/// Leading zeros do not change a number: the integer key digits have the
/// value of the integer digits, and no leading zero.
proof fn lemma_strip_leading(s: Seq<char>)
    requires
        all_ascii_digits(s),
    ensures
        digits_value(s.skip(zeros_end(s, 0))) == digits_value(s),
        no_leading_zero(s.skip(zeros_end(s, 0))),
        all_ascii_digits(s.skip(zeros_end(s, 0))),
{
    lemma_zeros_end(s, 0);
    let z = zeros_end(s, 0);
    assert(s =~= zeros(z as nat) + s.skip(z));
    lemma_digits_value_concat(zeros(z as nat), s.skip(z));
    lemma_digits_value_zeros(z as nat);
    assert forall|i: int| 0 <= i < s.skip(z).len() implies is_ascii_digit(#[trigger] s.skip(z)[i]) by {
        assert(s.skip(z)[i] == s[z + i]);
    }
}

/// Trailing zeros of a fraction do not change its value at a common
/// scale: the fraction key digits padded to `m` have the value of the
/// fraction digits scaled to `m` places.
proof fn lemma_strip_trailing(s: Seq<char>, m: nat)
    requires
        all_ascii_digits(s),
        s.len() <= m,
    ensures
        digits_value(pad(s.take(rzeros_end(s, s.len() as int)), m)) == digits_value(s) * pow10(
            (m - s.len()) as nat,
        ),
        no_trailing_zero(s.take(rzeros_end(s, s.len() as int))),
        all_ascii_digits(s.take(rzeros_end(s, s.len() as int))),
        s.take(rzeros_end(s, s.len() as int)).len() <= m,
{
    lemma_rzeros_end(s, s.len() as int);
    let r = rzeros_end(s, s.len() as int);
    let k = s.take(r);
    assert(s =~= k + zeros((s.len() - r) as nat));
    assert(pad(k, m) =~= k + zeros((m - r) as nat));
    lemma_digits_value_concat(k, zeros((m - r) as nat));
    lemma_digits_value_concat(k, zeros((s.len() - r) as nat));
    lemma_digits_value_zeros((m - r) as nat);
    lemma_digits_value_zeros((s.len() - r) as nat);
    lemma_pow10_add((s.len() - r) as nat, (m - s.len()) as nat);
    assert(((s.len() - r) as nat + (m - s.len()) as nat) as nat == (m - r) as nat);
    let a = digits_value(k);
    let p = pow10((s.len() - r) as nat);
    let q = pow10((m - s.len()) as nat);
    assert(a * (p * q) == (a * p) * q) by (nonlinear_arith);
    if r > 0 {
        assert(k.last() == s[r - 1]);
    }
    assert forall|i: int| 0 <= i < k.len() implies is_ascii_digit(#[trigger] k[i]) by {
        assert(k[i] == s[i]);
    }
}

/// The integer digits of a phase number (before the first `.`).
pub open spec fn int_digits(n: Seq<char>) -> Seq<char> {
    n.take(char_pos(n, '.', 0))
}

/// The fraction digits of a phase number (after the first `.`; none when
/// there is no `.`).
pub open spec fn frac_digits(n: Seq<char>) -> Seq<char> {
    if char_pos(n, '.', 0) < n.len() {
        n.skip(char_pos(n, '.', 0) + 1)
    } else {
        Seq::empty()
    }
}

/// A phase number: ASCII digits with at most one `.`, as in `2` or `2.1`.
pub open spec fn is_phase_number(n: Seq<char>) -> bool {
    all_ascii_digits(int_digits(n)) && all_ascii_digits(frac_digits(n))
}

/// The value of the phase number `n` times `10^m`, for `m` at least its
/// number of fraction digits.
pub open spec fn scaled_value(n: Seq<char>, m: nat) -> nat {
    digits_value(int_digits(n)) * pow10(m) + digits_value(frac_digits(n)) * pow10(
        (m - frac_digits(n).len()) as nat,
    )
}

/// `a` is a smaller decimal number than `b`.
pub open spec fn decimal_less(a: Seq<char>, b: Seq<char>) -> bool {
    let m = if frac_digits(a).len() >= frac_digits(b).len() {
        frac_digits(a).len()
    } else {
        frac_digits(b).len()
    };
    scaled_value(a, m) < scaled_value(b, m)
}

proof fn lemma_pad_digits(x: Seq<char>, m: nat)
    requires
        all_ascii_digits(x),
        x.len() <= m,
    ensures
        all_ascii_digits(pad(x, m)),
        pad(x, m).len() == m,
{
    assert forall|i: int| 0 <= i < pad(x, m).len() implies is_ascii_digit(#[trigger] pad(x, m)[i]) by {
        if i < x.len() {
            assert(pad(x, m)[i] == x[i]);
        } else {
            assert(pad(x, m)[i] == '0');
        }
    }
}

proof fn lemma_pair_order(ia: nat, fa: nat, ib: nat, fb: nat, p: nat)
    requires
        fa < p,
        fb < p,
    ensures
        (ia * p + fa < ib * p + fb) <==> (ia < ib || (ia == ib && fa < fb)),
{
    if ia < ib {
        assert(ia * p + fa < ib * p + fb) by (nonlinear_arith)
            requires
                ia + 1 <= ib,
                fa < p,
        ;
    } else if ia > ib {
        assert(ib * p + fb < ia * p + fa) by (nonlinear_arith)
            requires
                ib + 1 <= ia,
                fb < p,
        ;
    }
}

/// The order in which the roadmap's phases are sorted is the order of
/// their numbers as decimals: for two phase numbers (digits with an
/// optional `.`), one phase comes before another exactly when its number
/// is the smaller decimal (so `9` before `10`, `2` before `2.1` before `3`,
/// and `2.05` before `2.1`).
pub proof fn law_phase_order_is_numeric(a: PhaseEntryView, b: PhaseEntryView)
    requires
        is_phase_number(a.number),
        is_phase_number(b.number),
    ensures
        phase_lt(a, b) <==> decimal_less(a.number, b.number),
{
    let ia = int_digits(a.number);
    let fa = frac_digits(a.number);
    let ib = int_digits(b.number);
    let fb = frac_digits(b.number);
    let m: nat = if fa.len() >= fb.len() {
        fa.len()
    } else {
        fb.len()
    };
    let ka = number_key(a.number);
    let kb = number_key(b.number);
    assert(ka == (ia.skip(zeros_end(ia, 0)), fa.take(rzeros_end(fa, fa.len() as int))));
    assert(kb == (ib.skip(zeros_end(ib, 0)), fb.take(rzeros_end(fb, fb.len() as int))));
    lemma_strip_leading(ia);
    lemma_strip_leading(ib);
    lemma_strip_trailing(fa, m);
    lemma_strip_trailing(fb, m);
    lemma_int_order(ka.0, kb.0);
    lemma_pad_order(ka.1, kb.1, m);
    lemma_pad_digits(ka.1, m);
    lemma_pad_digits(kb.1, m);
    lemma_lex_is_value(pad(ka.1, m), pad(kb.1, m));
    lemma_digits_value_bound(pad(ka.1, m));
    lemma_digits_value_bound(pad(kb.1, m));
    let pa = digits_value(pad(ka.1, m));
    let pb = digits_value(pad(kb.1, m));
    lemma_pair_order(digits_value(ia), pa, digits_value(ib), pb, pow10(m));
    assert(scaled_value(a.number, m) == digits_value(ia) * pow10(m) + pa);
    assert(scaled_value(b.number, m) == digits_value(ib) * pow10(m) + pb);
}

/// The phases that `parse_roadmap` returns come in order of their numbers'
/// decimal values: no phase number is a smaller decimal than the one
/// before it.
pub proof fn law_roadmap_phases_numerically_sorted(
    content: Seq<char>,
    phases: Seq<PhaseEntryView>,
    i: int,
)
    requires
        sorted_phases(content, phases),
        0 <= i < phases.len() - 1,
        is_phase_number(phases[i].number),
        is_phase_number(phases[i + 1].number),
    ensures
        !decimal_less(phases[i + 1].number, phases[i].number),
{
    let v = super::roadmap::phases_in_order(content);
    let order = choose|order: Seq<int>|
        stable_sorted_order(v, order) && phases == order.map_values(|k: int| v[k]);
    assert(phases[i] == v[order[i]]);
    assert(phases[i + 1] == v[order[i + 1]]);
    assert(!phase_lt(v[order[i + 1]], v[order[i]]));
    law_phase_order_is_numeric(phases[i + 1], phases[i]);
}

} // verus!
