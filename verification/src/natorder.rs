//! Natural (alphanumeric) ordering of strings.
//!
//! Strings are compared as alternating runs of digits and non-digits: a run
//! of digits is compared by its numeric value, any other character by its
//! code point, so that `"host2"` sorts before `"host10"`.

use vstd::prelude::*;

verus! {

/// Outcome of comparing one string against another under the natural order.
#[derive(Clone, Copy, Debug, PartialEq, Eq, Structural)]
pub enum Rank {
    Less,
    Equal,
    Greater,
}

/// Whether `c` is an ASCII decimal digit.
pub open spec fn is_digit(c: char) -> bool {
    48 <= c as u32 <= 57
}

/// Numeric value of the digit `c`.
pub open spec fn digit_val(c: char) -> nat
    recommends
        is_digit(c),
{
    (c as u32 - 48) as nat
}

/// Whether every character of `s` is a digit.
pub open spec fn all_digits(s: Seq<char>) -> bool {
    forall|i: int| 0 <= i < s.len() ==> is_digit(s[i])
}

/// Length of the maximal run of digits at the front of `s`.
pub open spec fn digit_run_len(s: Seq<char>) -> nat
    decreases s.len(),
{
    if s.len() == 0 || !is_digit(s[0]) {
        0
    } else {
        1 + digit_run_len(s.skip(1))
    }
}

pub proof fn lemma_digit_run_len_le(s: Seq<char>)
    ensures
        digit_run_len(s) <= s.len(),
    decreases s.len(),
{
    if s.len() != 0 && is_digit(s[0]) {
        lemma_digit_run_len_le(s.skip(1));
    }
}

/// Ten raised to `n`.
pub open spec fn pow10(n: nat) -> nat
    decreases n,
{
    if n == 0 {
        1
    } else {
        10 * pow10((n - 1) as nat)
    }
}

/// Numeric value of a run of digits, most significant digit first.
pub open spec fn run_value(s: Seq<char>) -> nat
    decreases s.len(),
{
    if s.len() == 0 {
        0
    } else {
        digit_val(s[0]) * pow10((s.len() - 1) as nat) + run_value(s.skip(1))
    }
}

/// Number of `'0'` characters at the front of `s`.
pub open spec fn leading_zeros(s: Seq<char>) -> nat
    decreases s.len(),
{
    if s.len() == 0 || s[0] != '0' {
        0
    } else {
        1 + leading_zeros(s.skip(1))
    }
}

pub proof fn lemma_leading_zeros_le(s: Seq<char>)
    ensures
        leading_zeros(s) <= s.len(),
    decreases s.len(),
{
    if s.len() != 0 && s[0] == '0' {
        lemma_leading_zeros_le(s.skip(1));
    }
}

/// Plain code-point comparison of two character sequences.
pub open spec fn lex_cmp(a: Seq<char>, b: Seq<char>) -> Rank
    decreases a.len(),
{
    if a.len() == 0 && b.len() == 0 {
        Rank::Equal
    } else if a.len() == 0 {
        Rank::Less
    } else if b.len() == 0 {
        Rank::Greater
    } else if (a[0] as u32) < (b[0] as u32) {
        Rank::Less
    } else if (a[0] as u32) > (b[0] as u32) {
        Rank::Greater
    } else {
        lex_cmp(a.skip(1), b.skip(1))
    }
}

/// Comparison of two digit runs by numeric value.
///
/// Leading zeros are stripped, then a longer remainder means a larger value,
/// and remainders of equal length are compared digit by digit. Runs of equal
/// value are ordered by their length, so that distinct runs never compare
/// equal and the order stays total on whole strings.
pub open spec fn digit_run_cmp(x: Seq<char>, y: Seq<char>) -> Rank {
    let xs = x.skip(leading_zeros(x) as int);
    let ys = y.skip(leading_zeros(y) as int);
    if xs.len() < ys.len() {
        Rank::Less
    } else if xs.len() > ys.len() {
        Rank::Greater
    } else if lex_cmp(xs, ys) != Rank::Equal {
        lex_cmp(xs, ys)
    } else if x.len() < y.len() {
        Rank::Less
    } else if x.len() > y.len() {
        Rank::Greater
    } else {
        Rank::Equal
    }
}

/// The natural order on strings.
///
/// Where both strings continue with a digit, their maximal digit runs are
/// compared as numbers; otherwise the next characters are compared by code
/// point; equal parts are skipped.
pub open spec fn nat_cmp(a: Seq<char>, b: Seq<char>) -> Rank
    decreases a.len() + b.len(),
    via nat_cmp_decreases
{
    if a.len() == 0 && b.len() == 0 {
        Rank::Equal
    } else if a.len() == 0 {
        Rank::Less
    } else if b.len() == 0 {
        Rank::Greater
    } else if is_digit(a[0]) && is_digit(b[0]) {
        let x = a.take(digit_run_len(a) as int);
        let y = b.take(digit_run_len(b) as int);
        if digit_run_cmp(x, y) == Rank::Equal {
            nat_cmp(a.skip(digit_run_len(a) as int), b.skip(digit_run_len(b) as int))
        } else {
            digit_run_cmp(x, y)
        }
    } else if (a[0] as u32) < (b[0] as u32) {
        Rank::Less
    } else if (a[0] as u32) > (b[0] as u32) {
        Rank::Greater
    } else {
        nat_cmp(a.skip(1), b.skip(1))
    }
}

#[via_fn]
proof fn nat_cmp_decreases(a: Seq<char>, b: Seq<char>) {
    lemma_digit_run_len_le(a);
    lemma_digit_run_len_le(b);
}

/// `a` sorts strictly before `b` in the natural order.
pub open spec fn nat_lt(a: Seq<char>, b: Seq<char>) -> bool {
    nat_cmp(a, b) == Rank::Less
}

/// The opposite outcome, as reported when the operands change places.
pub open spec fn rank_flip(r: Rank) -> Rank {
    match r {
        Rank::Less => Rank::Greater,
        Rank::Equal => Rank::Equal,
        Rank::Greater => Rank::Less,
    }
}

/// Distinct characters have distinct code points.
proof fn lemma_char_cast_injective(a: char, b: char)
    requires
        a as u32 == b as u32,
    ensures
        a == b,
{
    vstd::utf8::char_u32_cast(a, a as u32);
    vstd::utf8::char_u32_cast(b, b as u32);
}

proof fn lemma_lex_eq_iff(a: Seq<char>, b: Seq<char>)
    ensures
        lex_cmp(a, b) == Rank::Equal <==> a == b,
    decreases a.len(),
{
    if a.len() == 0 && b.len() == 0 {
        assert(a =~= b);
    } else if a.len() != 0 && b.len() != 0 {
        lemma_lex_eq_iff(a.skip(1), b.skip(1));
        if lex_cmp(a, b) == Rank::Equal {
            lemma_char_cast_injective(a[0], b[0]);
            assert(a[0] == b[0]);
            assert(a.skip(1) == b.skip(1));
            assert(a.skip(1).len() == b.skip(1).len());
            assert forall|i: int| 0 <= i < a.len() implies a[i] == b[i] by {
                if i > 0 {
                    assert(a.skip(1)[i - 1] == a[i]);
                    assert(b.skip(1)[i - 1] == b[i]);
                }
            }
            assert(a =~= b);
        }
        if a == b {
            assert(a.skip(1) =~= b.skip(1));
        }
    }
}

proof fn lemma_lex_flip(a: Seq<char>, b: Seq<char>)
    ensures
        lex_cmp(b, a) == rank_flip(lex_cmp(a, b)),
    decreases a.len(),
{
    if a.len() != 0 && b.len() != 0 {
        lemma_lex_flip(a.skip(1), b.skip(1));
    }
}

proof fn lemma_lex_trans(a: Seq<char>, b: Seq<char>, c: Seq<char>)
    requires
        lex_cmp(a, b) == Rank::Less,
        lex_cmp(b, c) == Rank::Less,
    ensures
        lex_cmp(a, c) == Rank::Less,
    decreases a.len(),
{
    if a.len() != 0 && b.len() != 0 && c.len() != 0 {
        if (a[0] as u32) == (b[0] as u32) && (b[0] as u32) == (c[0] as u32) {
            lemma_lex_trans(a.skip(1), b.skip(1), c.skip(1));
        }
    }
}

/// The characters of the run that `leading_zeros` counts are all `'0'`.
proof fn lemma_leading_zeros_chars(s: Seq<char>)
    ensures
        leading_zeros(s) <= s.len(),
        forall|i: int| 0 <= i < leading_zeros(s) ==> s[i] == '0',
        leading_zeros(s) < s.len() ==> s[leading_zeros(s) as int] != '0',
    decreases s.len(),
{
    if s.len() != 0 && s[0] == '0' {
        lemma_leading_zeros_chars(s.skip(1));
        assert forall|i: int| 0 <= i < leading_zeros(s) implies s[i] == '0' by {
            if i > 0 {
                assert(s.skip(1)[i - 1] == s[i]);
            }
        }
    }
}

proof fn lemma_digit_run_cmp_eq_iff(x: Seq<char>, y: Seq<char>)
    ensures
        digit_run_cmp(x, y) == Rank::Equal <==> x == y,
{
    lemma_leading_zeros_chars(x);
    lemma_leading_zeros_chars(y);
    let lx = leading_zeros(x) as int;
    let ly = leading_zeros(y) as int;
    let xs = x.skip(lx);
    let ys = y.skip(ly);
    lemma_lex_eq_iff(xs, ys);
    if digit_run_cmp(x, y) == Rank::Equal {
        assert(xs == ys);
        assert(x.len() == y.len());
        assert(lx == ly);
        assert(x =~= y) by {
            assert(forall|i: int| lx <= i < x.len() ==> x[i] == xs[i - lx] && y[i] == ys[i - ly]);
        }
    }
    if x == y {
        assert(xs =~= ys);
    }
}

proof fn lemma_digit_run_cmp_flip(x: Seq<char>, y: Seq<char>)
    ensures
        digit_run_cmp(y, x) == rank_flip(digit_run_cmp(x, y)),
{
    let xs = x.skip(leading_zeros(x) as int);
    let ys = y.skip(leading_zeros(y) as int);
    lemma_lex_flip(xs, ys);
    lemma_lex_eq_iff(xs, ys);
    lemma_lex_eq_iff(ys, xs);
}

proof fn lemma_digit_run_cmp_trans(x: Seq<char>, y: Seq<char>, z: Seq<char>)
    requires
        digit_run_cmp(x, y) == Rank::Less,
        digit_run_cmp(y, z) == Rank::Less,
    ensures
        digit_run_cmp(x, z) == Rank::Less,
{
    let xs = x.skip(leading_zeros(x) as int);
    let ys = y.skip(leading_zeros(y) as int);
    let zs = z.skip(leading_zeros(z) as int);
    lemma_lex_eq_iff(xs, ys);
    lemma_lex_eq_iff(ys, zs);
    lemma_lex_eq_iff(xs, zs);
    lemma_lex_flip(xs, ys);
    lemma_lex_flip(ys, zs);
    lemma_lex_flip(xs, zs);
    if xs.len() == ys.len() && ys.len() == zs.len() && lex_cmp(xs, ys) == Rank::Less
        && lex_cmp(ys, zs) == Rank::Less {
        lemma_lex_trans(xs, ys, zs);
    }
}

/// The natural order ranks two strings equal exactly when they are the same
/// string: it never merges distinct keys.
pub proof fn lemma_nat_cmp_eq_iff(a: Seq<char>, b: Seq<char>)
    ensures
        nat_cmp(a, b) == Rank::Equal <==> a == b,
    decreases a.len() + b.len(),
{
    lemma_digit_run_len_le(a);
    lemma_digit_run_len_le(b);
    if a.len() == 0 && b.len() == 0 {
        assert(a =~= b);
    } else if a.len() != 0 && b.len() != 0 {
        if is_digit(a[0]) && is_digit(b[0]) {
            let rla = digit_run_len(a) as int;
            let rlb = digit_run_len(b) as int;
            let x = a.take(rla);
            let y = b.take(rlb);
            lemma_digit_run_cmp_eq_iff(x, y);
            if nat_cmp(a, b) == Rank::Equal {
                assert(digit_run_cmp(x, y) == Rank::Equal);
                assert(x == y);
                assert(x.len() == rla && y.len() == rlb);
                lemma_nat_cmp_eq_iff(a.skip(rla), b.skip(rlb));
                assert(a.skip(rla) == b.skip(rlb));
                assert forall|i: int| 0 <= i < a.len() implies a[i] == b[i] by {
                    if i < rla {
                        assert(x[i] == a[i] && y[i] == b[i]);
                    } else {
                        assert(a.skip(rla)[i - rla] == a[i]);
                        assert(b.skip(rlb)[i - rlb] == b[i]);
                    }
                }
                assert(a =~= b);
            }
            if a == b {
                assert(x =~= y);
                lemma_nat_cmp_eq_iff(a.skip(rla), b.skip(rlb));
                assert(a.skip(rla) =~= b.skip(rlb));
            }
        } else if (a[0] as u32) == (b[0] as u32) {
            lemma_char_cast_injective(a[0], b[0]);
            lemma_nat_cmp_eq_iff(a.skip(1), b.skip(1));
            if nat_cmp(a, b) == Rank::Equal {
                assert(a.skip(1) == b.skip(1));
                assert forall|i: int| 0 <= i < a.len() implies a[i] == b[i] by {
                    if i > 0 {
                        assert(a.skip(1)[i - 1] == a[i]);
                        assert(b.skip(1)[i - 1] == b[i]);
                    }
                }
                assert(a =~= b);
            }
            if a == b {
                assert(a.skip(1) =~= b.skip(1));
            }
        } else {
            assert(nat_cmp(a, b) != Rank::Equal);
            assert(a != b);
        }
    }
}

/// Swapping the operands of the natural comparison flips its outcome.
pub proof fn lemma_nat_cmp_flip(a: Seq<char>, b: Seq<char>)
    ensures
        nat_cmp(b, a) == rank_flip(nat_cmp(a, b)),
    decreases a.len() + b.len(),
{
    lemma_digit_run_len_le(a);
    lemma_digit_run_len_le(b);
    if a.len() != 0 && b.len() != 0 {
        if is_digit(a[0]) && is_digit(b[0]) {
            let rla = digit_run_len(a) as int;
            let rlb = digit_run_len(b) as int;
            lemma_digit_run_cmp_flip(a.take(rla), b.take(rlb));
            if digit_run_cmp(a.take(rla), b.take(rlb)) == Rank::Equal {
                lemma_nat_cmp_flip(a.skip(rla), b.skip(rlb));
            }
        } else if (a[0] as u32) == (b[0] as u32) {
            lemma_nat_cmp_flip(a.skip(1), b.skip(1));
        }
    }
}

/// The natural order is transitive.
pub proof fn lemma_nat_cmp_trans(a: Seq<char>, b: Seq<char>, c: Seq<char>)
    requires
        nat_cmp(a, b) == Rank::Less,
        nat_cmp(b, c) == Rank::Less,
    ensures
        nat_cmp(a, c) == Rank::Less,
    decreases a.len() + b.len() + c.len(),
{
    lemma_digit_run_len_le(a);
    lemma_digit_run_len_le(b);
    lemma_digit_run_len_le(c);
    if a.len() == 0 {
        assert(b.len() != 0);
        assert(c.len() != 0);
    } else {
        assert(b.len() != 0);
        assert(c.len() != 0);
        let da = is_digit(a[0]);
        let db = is_digit(b[0]);
        let dc = is_digit(c[0]);
        if da && db && dc {
            let rla = digit_run_len(a) as int;
            let rlb = digit_run_len(b) as int;
            let rlc = digit_run_len(c) as int;
            let xa = a.take(rla);
            let xb = b.take(rlb);
            let xc = c.take(rlc);
            if digit_run_cmp(xa, xb) == Rank::Equal {
                lemma_digit_run_cmp_eq_iff(xa, xb);
                assert(xa == xb);
                assert(xa.len() == rla && xb.len() == rlb);
                if digit_run_cmp(xb, xc) == Rank::Equal {
                    lemma_digit_run_cmp_eq_iff(xb, xc);
                    lemma_digit_run_cmp_eq_iff(xa, xc);
                    lemma_nat_cmp_trans(a.skip(rla), b.skip(rlb), c.skip(rlc));
                } else {
                    assert(digit_run_cmp(xb, xc) == Rank::Less);
                    assert(digit_run_cmp(xa, xc) == Rank::Less);
                }
            } else {
                assert(digit_run_cmp(xa, xb) == Rank::Less);
                if digit_run_cmp(xb, xc) == Rank::Equal {
                    lemma_digit_run_cmp_eq_iff(xb, xc);
                    assert(digit_run_cmp(xa, xc) == Rank::Less);
                } else {
                    assert(digit_run_cmp(xb, xc) == Rank::Less);
                    lemma_digit_run_cmp_trans(xa, xb, xc);
                }
            }
        } else if da && db && !dc {
            assert((b[0] as u32) < (c[0] as u32));
            assert((c[0] as u32) > 57);
            assert((a[0] as u32) < (c[0] as u32));
        } else if da && !db {
            assert((a[0] as u32) < (b[0] as u32));
            assert((b[0] as u32) > 57);
            if dc {
                assert((b[0] as u32) < (c[0] as u32) && (c[0] as u32) <= 57);
                assert(false);
            } else {
                if (b[0] as u32) == (c[0] as u32) {
                    assert((a[0] as u32) < (c[0] as u32));
                } else {
                    assert((b[0] as u32) < (c[0] as u32));
                    assert((a[0] as u32) < (c[0] as u32));
                }
            }
        } else if !da && db {
            assert((a[0] as u32) < (b[0] as u32));
            assert((a[0] as u32) < 48);
            if dc {
                assert((a[0] as u32) < (c[0] as u32));
            } else {
                assert((b[0] as u32) < (c[0] as u32));
                assert((a[0] as u32) < (c[0] as u32));
            }
        } else {
            assert(!da && !db);
            if dc {
                assert((b[0] as u32) < (c[0] as u32));
                assert((b[0] as u32) < 48);
                assert((a[0] as u32) <= (b[0] as u32));
                assert((a[0] as u32) < (c[0] as u32));
            } else {
                if (a[0] as u32) == (b[0] as u32) && (b[0] as u32) == (c[0] as u32) {
                    lemma_nat_cmp_trans(a.skip(1), b.skip(1), c.skip(1));
                } else {
                    assert((a[0] as u32) < (c[0] as u32));
                }
            }
        }
    }
}

proof fn lemma_pow10_mono(m: nat, n: nat)
    requires
        m <= n,
    ensures
        pow10(m) <= pow10(n),
        pow10(m) >= 1,
    decreases n,
{
    if n > 0 {
        if m == n {
            lemma_pow10_mono((m - 1) as nat, (n - 1) as nat);
        } else {
            lemma_pow10_mono(m, (n - 1) as nat);
        }
    }
}

proof fn lemma_all_digits_skip(s: Seq<char>, k: int)
    requires
        all_digits(s),
        0 <= k <= s.len(),
    ensures
        all_digits(s.skip(k)),
{
    assert forall|i: int| 0 <= i < s.skip(k).len() implies is_digit(s.skip(k)[i]) by {
        assert(s.skip(k)[i] == s[i + k]);
    }
}

proof fn lemma_digit_run_len_all(s: Seq<char>)
    requires
        all_digits(s),
    ensures
        digit_run_len(s) == s.len(),
    decreases s.len(),
{
    if s.len() != 0 {
        lemma_all_digits_skip(s, 1);
        lemma_digit_run_len_all(s.skip(1));
    }
}

/// Stripping leading zeros does not change a run's numeric value.
proof fn lemma_run_value_strip(s: Seq<char>)
    ensures
        run_value(s.skip(leading_zeros(s) as int)) == run_value(s),
    decreases s.len(),
{
    if s.len() != 0 && s[0] == '0' {
        lemma_leading_zeros_le(s);
        lemma_leading_zeros_le(s.skip(1));
        lemma_run_value_strip(s.skip(1));
        let lz = leading_zeros(s) as int;
        assert(lz - 1 == leading_zeros(s.skip(1)));
        assert(s.skip(1).skip(lz - 1) =~= s.skip(lz));
        assert(run_value(s.skip(lz)) == run_value(s.skip(1)));
        assert(digit_val(s[0]) == 0);
        assert(run_value(s) == digit_val(s[0]) * pow10((s.len() - 1) as nat) + run_value(s.skip(1)));
        assert(digit_val(s[0]) * pow10((s.len() - 1) as nat) == 0) by (nonlinear_arith)
            requires
                digit_val(s[0]) == 0,
        ;
    } else {
        assert(s.skip(0) =~= s);
    }
}

proof fn lemma_run_value_upper(s: Seq<char>)
    requires
        all_digits(s),
    ensures
        run_value(s) < pow10(s.len()),
    decreases s.len(),
{
    if s.len() == 0 {
    } else {
        lemma_all_digits_skip(s, 1);
        lemma_run_value_upper(s.skip(1));
        let p = pow10((s.len() - 1) as nat);
        let d = digit_val(s[0]);
        assert(d <= 9);
        assert(d * p <= 9 * p) by (nonlinear_arith)
            requires
                d <= 9,
                p >= 0,
        ;
        assert(run_value(s) == d * p + run_value(s.skip(1)));
        assert(pow10(s.len()) == 10 * p);
    }
}

proof fn lemma_run_value_lower(s: Seq<char>)
    requires
        s.len() > 0,
        is_digit(s[0]),
        s[0] != '0',
    ensures
        run_value(s) >= pow10((s.len() - 1) as nat),
{
    if s[0] as u32 == '0' as u32 {
        lemma_char_cast_injective(s[0], '0');
        assert(false);
    }
    let p = pow10((s.len() - 1) as nat);
    let d = digit_val(s[0]);
    assert(d >= 1);
    assert(d * p >= 1 * p) by (nonlinear_arith)
        requires
            d >= 1,
            p >= 0,
    ;
}

/// On digit runs of equal length, code-point order is numeric order.
proof fn lemma_lex_value(x: Seq<char>, y: Seq<char>)
    requires
        all_digits(x),
        all_digits(y),
        x.len() == y.len(),
        lex_cmp(x, y) == Rank::Less,
    ensures
        run_value(x) < run_value(y),
    decreases x.len(),
{
    let p = pow10((x.len() - 1) as nat);
    let dx = digit_val(x[0]);
    let dy = digit_val(y[0]);
    lemma_all_digits_skip(x, 1);
    lemma_all_digits_skip(y, 1);
    if (x[0] as u32) < (y[0] as u32) {
        assert(dx < dy);
        lemma_run_value_upper(x.skip(1));
        assert(run_value(x) == dx * p + run_value(x.skip(1)));
        assert(run_value(x.skip(1)) < p);
        assert(dx * p + p <= dy * p) by (nonlinear_arith)
            requires
                dx < dy,
                p >= 0,
        ;
        assert(dy * p <= run_value(y));
    } else {
        assert((x[0] as u32) == (y[0] as u32));
        assert(dx == dy);
        lemma_lex_value(x.skip(1), y.skip(1));
    }
}

/// A digit run of smaller numeric value ranks below one of larger value.
proof fn lemma_digit_run_cmp_by_value(x: Seq<char>, y: Seq<char>)
    requires
        all_digits(x),
        all_digits(y),
        run_value(x) < run_value(y),
    ensures
        digit_run_cmp(x, y) == Rank::Less,
{
    lemma_leading_zeros_chars(x);
    lemma_leading_zeros_chars(y);
    let lx = leading_zeros(x) as int;
    let ly = leading_zeros(y) as int;
    let xs = x.skip(lx);
    let ys = y.skip(ly);
    lemma_all_digits_skip(x, lx);
    lemma_all_digits_skip(y, ly);
    lemma_run_value_strip(x);
    lemma_run_value_strip(y);
    if xs.len() < ys.len() {
    } else if xs.len() > ys.len() {
        assert(xs.len() > 0);
        assert(xs[0] == x[lx]);
        lemma_run_value_lower(xs);
        lemma_run_value_upper(ys);
        lemma_pow10_mono(ys.len(), (xs.len() - 1) as nat);
        assert(false);
    } else {
        lemma_lex_eq_iff(xs, ys);
        if lex_cmp(xs, ys) == Rank::Equal {
            assert(run_value(xs) == run_value(ys));
            assert(false);
        } else if lex_cmp(xs, ys) == Rank::Greater {
            lemma_lex_flip(ys, xs);
            assert(lex_cmp(ys, xs) == Rank::Less);
            lemma_lex_value(ys, xs);
            assert(false);
        }
    }
}

/// Every character inside the counted run is a digit.
proof fn lemma_digit_run_chars(s: Seq<char>)
    ensures
        forall|i: int| 0 <= i < digit_run_len(s) ==> is_digit(s[i]),
    decreases s.len(),
{
    lemma_digit_run_len_le(s);
    if s.len() != 0 && is_digit(s[0]) {
        lemma_digit_run_chars(s.skip(1));
        assert forall|i: int| 0 <= i < digit_run_len(s) implies is_digit(s[i]) by {
            if i > 0 {
                assert(s.skip(1)[i - 1] == s[i]);
            }
        }
    }
}

proof fn lemma_digit_run_len_concat(u: Seq<char>, v: Seq<char>)
    ensures
        digit_run_len(u + v) == if digit_run_len(u) < u.len() {
            digit_run_len(u)
        } else {
            u.len() + digit_run_len(v)
        },
    decreases u.len(),
{
    lemma_digit_run_len_le(u);
    if u.len() == 0 {
        assert(u + v =~= v);
    } else {
        assert((u + v)[0] == u[0]);
        if is_digit(u[0]) {
            assert((u + v).skip(1) =~= u.skip(1) + v);
            lemma_digit_run_len_concat(u.skip(1), v);
        }
    }
}

/// Strings that differ only in one embedded maximal digit run are ordered by
/// the runs' numeric values: the shared prefix must not end in a digit and
/// the shared suffix must not begin with one, so that the runs are maximal.
pub proof fn lemma_numeric_run_order(p: Seq<char>, x: Seq<char>, y: Seq<char>, s: Seq<char>)
    requires
        all_digits(x),
        all_digits(y),
        x.len() > 0,
        y.len() > 0,
        run_value(x) < run_value(y),
        p.len() > 0 ==> !is_digit(p.last()),
        s.len() > 0 ==> !is_digit(s[0]),
    ensures
        nat_lt(p + x + s, p + y + s),
    decreases p.len(),
{
    let a = p + x + s;
    let b = p + y + s;
    lemma_digit_run_len_all(x);
    lemma_digit_run_len_all(y);
    if p.len() == 0 {
        assert(a =~= x + s);
        assert(b =~= y + s);
        lemma_digit_run_len_concat(x, s);
        lemma_digit_run_len_concat(y, s);
        assert(digit_run_len(x + s) == x.len());
        assert(digit_run_len(y + s) == y.len());
        assert((x + s).take(x.len() as int) =~= x);
        assert((y + s).take(y.len() as int) =~= y);
        lemma_digit_run_cmp_by_value(x, y);
        assert(nat_cmp(a, b) == digit_run_cmp(x, y));
    } else if !is_digit(p[0]) {
        assert(a[0] == p[0] && b[0] == p[0]);
        assert(a.skip(1) =~= p.skip(1) + x + s);
        assert(b.skip(1) =~= p.skip(1) + y + s);
        if p.len() > 1 {
            assert(p.skip(1).last() == p.last());
        }
        lemma_numeric_run_order(p.skip(1), x, y, s);
        assert(nat_cmp(a, b) == nat_cmp(a.skip(1), b.skip(1)));
    } else {
        let k = digit_run_len(p) as int;
        lemma_digit_run_len_le(p);
        lemma_digit_run_chars(p);
        assert(k < p.len()) by {
            if k == p.len() {
                assert(is_digit(p[p.len() - 1]));
            }
        }
        lemma_digit_run_len_concat(p, x);
        lemma_digit_run_len_concat(p + x, s);
        lemma_digit_run_len_concat(p, y);
        lemma_digit_run_len_concat(p + y, s);
        assert(a =~= (p + x) + s);
        assert(b =~= (p + y) + s);
        assert(digit_run_len(p + x) == k);
        assert(digit_run_len(a) == k);
        assert(digit_run_len(b) == k);
        assert(a.take(k) =~= p.take(k));
        assert(b.take(k) =~= p.take(k));
        lemma_digit_run_cmp_eq_iff(a.take(k), b.take(k));
        assert(digit_run_cmp(a.take(k), b.take(k)) == Rank::Equal);
        assert(a.skip(k) =~= p.skip(k) + x + s);
        assert(b.skip(k) =~= p.skip(k) + y + s);
        assert(p.skip(k).last() == p.last());
        assert(k >= 1);
        lemma_numeric_run_order(p.skip(k), x, y, s);
        assert(nat_cmp(a, b) == nat_cmp(a.skip(k), b.skip(k)));
    }
}

proof fn lemma_digit_run_len_from_range(s: Seq<char>, k: int)
    requires
        0 <= k <= s.len(),
        forall|i: int| 0 <= i < k ==> is_digit(s[i]),
        k < s.len() ==> !is_digit(s[k]),
    ensures
        digit_run_len(s) == k,
    decreases s.len(),
{
    if k > 0 {
        assert forall|i: int| 0 <= i < k - 1 implies is_digit(s.skip(1)[i]) by {
            assert(s.skip(1)[i] == s[i + 1]);
        }
        if k - 1 < s.skip(1).len() {
            assert(s.skip(1)[k - 1] == s[k]);
        }
        lemma_digit_run_len_from_range(s.skip(1), k - 1);
    }
}

proof fn lemma_leading_zeros_from_range(s: Seq<char>, k: int)
    requires
        0 <= k <= s.len(),
        forall|i: int| 0 <= i < k ==> s[i] == '0',
        k < s.len() ==> s[k] != '0',
    ensures
        leading_zeros(s) == k,
    decreases s.len(),
{
    if k > 0 {
        assert forall|i: int| 0 <= i < k - 1 implies s.skip(1)[i] == '0' by {
            assert(s.skip(1)[i] == s[i + 1]);
        }
        if k - 1 < s.skip(1).len() {
            assert(s.skip(1)[k - 1] == s[k]);
        }
        lemma_leading_zeros_from_range(s.skip(1), k - 1);
    }
}

/// Whether `c` is an ASCII decimal digit.
fn digit_char(c: char) -> (b: bool)
    ensures
        b == is_digit(c),
{
    let u = c as u32;
    48 <= u && u <= 57
}

/// The characters of `s`, in order.
fn chars_of(s: &str) -> (v: Vec<char>)
    ensures
        v@ == s@,
{
    let n = s.unicode_len();
    let mut v: Vec<char> = Vec::new();
    let mut i: usize = 0;
    while i < n
        invariant
            i <= n,
            n == s@.len(),
            v@ == s@.take(i as int),
        decreases n - i,
    {
        let c = s.get_char(i);
        v.push(c);
        proof {
            assert(s@.take(i + 1 as int) =~= s@.take(i as int).push(s@[i as int]));
        }
        i += 1;
    }
    proof {
        assert(s@.take(n as int) =~= s@);
    }
    v
}

/// One past the end of the digit run that starts at `start`.
fn run_end(v: &Vec<char>, start: usize) -> (e: usize)
    requires
        start <= v.len(),
    ensures
        start <= e <= v.len(),
        e - start == digit_run_len(v@.skip(start as int)),
{
    let mut e = start;
    while e < v.len() && digit_char(v[e])
        invariant
            start <= e <= v.len(),
            forall|i: int| start <= i < e ==> is_digit(v@[i]),
        decreases v.len() - e,
    {
        e += 1;
    }
    proof {
        let s = v@.skip(start as int);
        assert forall|i: int| 0 <= i < e - start implies is_digit(s[i]) by {
            assert(s[i] == v@[i + start]);
        }
        if e - start < s.len() {
            assert(s[e - start] == v@[e as int]);
        }
        lemma_digit_run_len_from_range(s, e - start);
    }
    e
}

/// One past the end of the zeros at the front of `v[start..limit]`.
fn zeros_end(v: &Vec<char>, start: usize, limit: usize) -> (e: usize)
    requires
        start <= limit <= v.len(),
    ensures
        start <= e <= limit,
        e - start == leading_zeros(v@.subrange(start as int, limit as int)),
{
    let mut e = start;
    while e < limit && v[e] == '0'
        invariant
            start <= e <= limit,
            limit <= v.len(),
            forall|i: int| start <= i < e ==> v@[i] == '0',
        decreases limit - e,
    {
        e += 1;
    }
    proof {
        let s = v@.subrange(start as int, limit as int);
        assert forall|i: int| 0 <= i < e - start implies s[i] == '0' by {
            assert(s[i] == v@[i + start]);
        }
        if e - start < s.len() {
            assert(s[e - start] == v@[e as int]);
        }
        lemma_leading_zeros_from_range(s, e - start);
    }
    e
}

/// Code-point comparison of `a[i0..i1]` against `b[j0..j1]`.
fn lex_rank(a: &Vec<char>, i0: usize, i1: usize, b: &Vec<char>, j0: usize, j1: usize) -> (r: Rank)
    requires
        i0 <= i1 <= a.len(),
        j0 <= j1 <= b.len(),
    ensures
        r == lex_cmp(a@.subrange(i0 as int, i1 as int), b@.subrange(j0 as int, j1 as int)),
{
    let mut i = i0;
    let mut j = j0;
    loop
        invariant
            i0 <= i <= i1 <= a.len(),
            j0 <= j <= j1 <= b.len(),
            lex_cmp(a@.subrange(i0 as int, i1 as int), b@.subrange(j0 as int, j1 as int))
                == lex_cmp(a@.subrange(i as int, i1 as int), b@.subrange(j as int, j1 as int)),
        decreases i1 - i,
    {
        let ghost x = a@.subrange(i as int, i1 as int);
        let ghost y = b@.subrange(j as int, j1 as int);
        if i == i1 && j == j1 {
            return Rank::Equal;
        }
        if i == i1 {
            return Rank::Less;
        }
        if j == j1 {
            return Rank::Greater;
        }
        proof {
            assert(x[0] == a@[i as int]);
            assert(y[0] == b@[j as int]);
        }
        let ua = a[i] as u32;
        let ub = b[j] as u32;
        if ua < ub {
            return Rank::Less;
        }
        if ua > ub {
            return Rank::Greater;
        }
        proof {
            assert(x.skip(1) =~= a@.subrange(i + 1 as int, i1 as int));
            assert(y.skip(1) =~= b@.subrange(j + 1 as int, j1 as int));
        }
        i += 1;
        j += 1;
    }
}

/// Numeric comparison of the digit runs `a[i0..i1]` and `b[j0..j1]`.
fn digit_run_rank(
    a: &Vec<char>,
    i0: usize,
    i1: usize,
    b: &Vec<char>,
    j0: usize,
    j1: usize,
) -> (r: Rank)
    requires
        i0 <= i1 <= a.len(),
        j0 <= j1 <= b.len(),
    ensures
        r == digit_run_cmp(a@.subrange(i0 as int, i1 as int), b@.subrange(j0 as int, j1 as int)),
{
    let ghost x = a@.subrange(i0 as int, i1 as int);
    let ghost y = b@.subrange(j0 as int, j1 as int);
    let za = zeros_end(a, i0, i1);
    let zb = zeros_end(b, j0, j1);
    proof {
        assert(x.skip(leading_zeros(x) as int) =~= a@.subrange(za as int, i1 as int));
        assert(y.skip(leading_zeros(y) as int) =~= b@.subrange(zb as int, j1 as int));
    }
    let xl = i1 - za;
    let yl = j1 - zb;
    if xl < yl {
        return Rank::Less;
    }
    if xl > yl {
        return Rank::Greater;
    }
    let lr = lex_rank(a, za, i1, b, zb, j1);
    if lr != Rank::Equal {
        return lr;
    }
    if i1 - i0 < j1 - j0 {
        Rank::Less
    } else if i1 - i0 > j1 - j0 {
        Rank::Greater
    } else {
        Rank::Equal
    }
}

fn rank_chars(a: &Vec<char>, b: &Vec<char>) -> (r: Rank)
    ensures
        r == nat_cmp(a@, b@),
{
    let mut i: usize = 0;
    let mut j: usize = 0;
    proof {
        assert(a@.skip(0) =~= a@);
        assert(b@.skip(0) =~= b@);
    }
    loop
        invariant
            i <= a.len(),
            j <= b.len(),
            nat_cmp(a@, b@) == nat_cmp(a@.skip(i as int), b@.skip(j as int)),
        decreases a.len() - i + b.len() - j,
    {
        let ghost sa = a@.skip(i as int);
        let ghost sb = b@.skip(j as int);
        if i == a.len() && j == b.len() {
            return Rank::Equal;
        }
        if i == a.len() {
            return Rank::Less;
        }
        if j == b.len() {
            return Rank::Greater;
        }
        proof {
            assert(sa[0] == a@[i as int]);
            assert(sb[0] == b@[j as int]);
        }
        let da = digit_char(a[i]);
        let db = digit_char(b[j]);
        if da && db {
            let ra = run_end(a, i);
            let rb = run_end(b, j);
            let ghost rla = digit_run_len(sa) as int;
            let ghost rlb = digit_run_len(sb) as int;
            proof {
                lemma_digit_run_len_le(sa);
                lemma_digit_run_len_le(sb);
                assert(sa.take(rla) =~= a@.subrange(i as int, ra as int));
                assert(sb.take(rlb) =~= b@.subrange(j as int, rb as int));
            }
            let c = digit_run_rank(a, i, ra, b, j, rb);
            if c == Rank::Equal {
                proof {
                    assert(sa.skip(rla) =~= a@.skip(ra as int));
                    assert(sb.skip(rlb) =~= b@.skip(rb as int));
                }
                i = ra;
                j = rb;
            } else {
                return c;
            }
        } else {
            let ua = a[i] as u32;
            let ub = b[j] as u32;
            if ua < ub {
                return Rank::Less;
            }
            if ua > ub {
                return Rank::Greater;
            }
            proof {
                assert(sa.skip(1) =~= a@.skip(i + 1 as int));
                assert(sb.skip(1) =~= b@.skip(j + 1 as int));
            }
            i += 1;
            j += 1;
        }
    }
}

/// Compares two strings under the natural order.
pub fn natural_compare(a: &str, b: &str) -> (r: Rank)
    ensures
        r == nat_cmp(a@, b@),
{
    let av = chars_of(a);
    let bv = chars_of(b);
    rank_chars(&av, &bv)
}

/// Whether two strings hold the same characters.
pub fn str_eq(a: &str, b: &str) -> (r: bool)
    ensures
        r == (a@ == b@),
{
    let c = natural_compare(a, b);
    proof {
        lemma_nat_cmp_eq_iff(a@, b@);
    }
    c == Rank::Equal
}

/// A string wrapper whose keys sort in natural (alphanumeric) order, so that
/// `"host2"` stands before `"host10"`.
#[derive(Debug, PartialEq, Eq)]
pub struct NatString {
    text: String,
}

impl View for NatString {
    type V = Seq<char>;

    closed spec fn view(&self) -> Seq<char> {
        self.text@
    }
}

impl Clone for NatString {
    fn clone(&self) -> (r: Self)
        ensures
            r@ == self@,
    {
        NatString { text: self.text.clone() }
    }
}

impl NatString {
    pub fn new(s: String) -> (r: Self)
        ensures
            r@ == s@,
    {
        NatString { text: s }
    }

    pub fn as_str(&self) -> (r: &str)
        ensures
            r@ == self@,
    {
        self.text.as_str()
    }

    /// Where this key stands relative to `other` in the natural order.
    pub fn natural_cmp(&self, other: &NatString) -> (r: Rank)
        ensures
            r == nat_cmp(self@, other@),
    {
        natural_compare(self.text.as_str(), other.text.as_str())
    }

    /// Whether this key sorts strictly before `other`.
    pub fn is_before(&self, other: &NatString) -> (r: bool)
        ensures
            r == nat_lt(self@, other@),
    {
        let c = self.natural_cmp(other);
        c == Rank::Less
    }
}

} // verus!
