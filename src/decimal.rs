use vstd::prelude::*;

verus! {

/// Above this bound the mantissa takes no further digits.
pub const MANTISSA_ROOM: u64 = 100_000_000_000_000_000;

/// The exponent written after `e` saturates at this value.
pub const EXPONENT_LIMIT: u64 = 1_000_000_000;

pub open spec fn is_digit_char(c: char) -> bool {
    '0' <= c && c <= '9'
}

pub open spec fn digit_value(c: char) -> nat {
    (c as int - '0' as int) as nat
}

pub open spec fn pow10(n: nat) -> nat
    decreases n,
{
    if n == 0 {
        1
    } else {
        10 * pow10((n - 1) as nat)
    }
}

/// Index just past the run of digits that starts at `i`.
pub open spec fn run_end(s: Seq<char>, i: int) -> int
    decreases s.len() - i,
{
    if 0 <= i < s.len() && is_digit_char(s[i]) {
        run_end(s, i + 1)
    } else {
        i
    }
}

/// One more digit for a mantissa/exponent pair: taken while there is room,
/// dropped otherwise (a dropped digit of the integer part scales by ten).
pub open spec fn push_digit(st: (nat, int), d: nat, frac: bool) -> (nat, int) {
    if st.0 < MANTISSA_ROOM {
        (st.0 * 10 + d, if frac { st.1 - 1 } else { st.1 })
    } else {
        (st.0, if frac { st.1 } else { st.1 + 1 })
    }
}

/// The digits `s[from..to]` pushed one by one onto `st`.
pub open spec fn push_digits(s: Seq<char>, from: int, to: int, st: (nat, int), frac: bool) -> (nat, int)
    decreases to - from,
{
    if to <= from {
        st
    } else {
        push_digit(push_digits(s, from, to - 1, st, frac), digit_value(s[to - 1]), frac)
    }
}

/// Value of the digits `s[from..to]`, saturating at `EXPONENT_LIMIT`.
pub open spec fn exponent_digits(s: Seq<char>, from: int, to: int) -> nat
    decreases to - from,
{
    if to <= from {
        0
    } else {
        let x = exponent_digits(s, from, to - 1);
        if x * 10 + digit_value(s[to - 1]) >= EXPONENT_LIMIT {
            EXPONENT_LIMIT as nat
        } else {
            x * 10 + digit_value(s[to - 1])
        }
    }
}

pub open spec fn is_exp_mark(c: char) -> bool {
    c == 'e' || c == 'E'
}

/// Where the fractional digits of `s` start and end (empty when no `.` follows the integer part).
pub open spec fn frac_bounds(s: Seq<char>) -> (int, int) {
    let i_end = run_end(s, 0);
    if i_end < s.len() && s[i_end] == '.' {
        (i_end + 1, run_end(s, i_end + 1))
    } else {
        (i_end, i_end)
    }
}

/// The exponent written after `e`/`E` with its optional sign, or zero.
pub open spec fn written_exponent(s: Seq<char>) -> int {
    let p = frac_bounds(s).1;
    if p < s.len() && is_exp_mark(s[p]) {
        let q = p + 1;
        let neg = q < s.len() && s[q] == '-';
        let signed = q < s.len() && (s[q] == '-' || s[q] == '+');
        let x_start = if signed { q + 1 } else { q };
        let x = exponent_digits(s, x_start, run_end(s, x_start));
        if neg { -x } else { x as int }
    } else {
        0
    }
}

/// Mantissa and power of ten that a version-like string stands for:
/// leading digits, then optionally `.` and digits, then optionally `e`/`E`,
/// a sign and digits; anything after is ignored.
pub open spec fn loose_decimal(s: Seq<char>) -> (nat, int) {
    let i_end = run_end(s, 0);
    let st1 = push_digits(s, 0, i_end, (0, 0), false);
    let (f_start, f_end) = frac_bounds(s);
    let st2 = push_digits(s, f_start, f_end, st1, true);
    (st2.0, st2.1 + written_exponent(s))
}

/// A decimal number `mantissa * 10^exponent`.
#[derive(Clone, Copy, Debug, PartialEq, Eq)]
pub struct LooseDecimal {
    pub mantissa: u64,
    pub exponent: i128,
}

impl LooseDecimal {
    pub open spec fn wf(&self) -> bool {
        &&& self.mantissa < 10 * MANTISSA_ROOM
        &&& -0x1_0000_0000_0000_0000_0000 < self.exponent < 0x1_0000_0000_0000_0000_0000
    }
}

pub fn isdigit(c: char) -> (r: bool)
    ensures
        r == is_digit_char(c),
{
    '0' <= c && c <= '9'
}

fn digit_of(c: char) -> (r: u64)
    requires
        is_digit_char(c),
    ensures
        r == digit_value(c),
        r <= 9,
{
    (c as u32 - '0' as u32) as u64
}

/// Pushes the run of digits of `cs` that starts at `start`; returns where it ends.
fn push_run(cs: &Vec<char>, start: usize, m: &mut u64, e: &mut i128, frac: bool) -> (end: usize)
    requires
        start <= cs@.len(),
        *old(m) < 10 * MANTISSA_ROOM,
        -(0x1_0000_0000_0000_0000 as int) * 2 <= *old(e) <= 0x1_0000_0000_0000_0000 * 2,
        -(0x1_0000_0000_0000_0000 as int) * 2 + start <= *old(e) <= 0x1_0000_0000_0000_0000 * 2 - start,
    ensures
        end == run_end(cs@, start as int),
        start <= end <= cs@.len(),
        (*final(m) as nat, *final(e) as int) == push_digits(cs@, start as int, end as int, (*old(m) as nat, *old(e) as int), frac),
        *final(m) < 10 * MANTISSA_ROOM,
        *old(e) - (end - start) <= *final(e) <= *old(e) + (end - start),
{
    let ghost st0 = (*m as nat, *e as int);
    let mut i: usize = start;
    while i < cs.len() && isdigit(cs[i])
        invariant
            start <= i <= cs@.len(),
            run_end(cs@, start as int) == run_end(cs@, i as int),
            (*m as nat, *e as int) == push_digits(cs@, start as int, i as int, st0, frac),
            *m < 10 * MANTISSA_ROOM,
            st0.1 - (i - start) <= *e <= st0.1 + (i - start),
            -(0x1_0000_0000_0000_0000 as int) * 2 + start <= st0.1 <= 0x1_0000_0000_0000_0000 * 2 - start,
        decreases cs@.len() - i,
    {
        let d = digit_of(cs[i]);
        if *m < MANTISSA_ROOM {
            *m = *m * 10 + d;
            if frac {
                *e = *e - 1;
            }
        } else if !frac {
            *e = *e + 1;
        }
        i = i + 1;
    }
    i
}

/// Value of the run of digits of `cs` that starts at `start`, saturating at `EXPONENT_LIMIT`.
fn exponent_run(cs: &Vec<char>, start: usize) -> (r: u64)
    requires
        start <= cs@.len(),
    ensures
        r == exponent_digits(cs@, start as int, run_end(cs@, start as int)),
        r <= EXPONENT_LIMIT,
{
    let mut x: u64 = 0;
    let mut i: usize = start;
    while i < cs.len() && isdigit(cs[i])
        invariant
            start <= i <= cs@.len(),
            run_end(cs@, start as int) == run_end(cs@, i as int),
            x == exponent_digits(cs@, start as int, i as int),
            x <= EXPONENT_LIMIT,
        decreases cs@.len() - i,
    {
        let d = digit_of(cs[i]);
        if x * 10 + d >= EXPONENT_LIMIT {
            x = EXPONENT_LIMIT;
        } else {
            x = x * 10 + d;
        }
        i = i + 1;
    }
    x
}

/// Reads a version-like number: a leading run of digits, an optional `.` and
/// digits, an optional `e`/`E` with a sign and digits. Trailing text is
/// ignored; an empty or non-numeric string reads as zero. Once the mantissa
/// has eighteen digits further digits are dropped, and the written exponent
/// saturates at `EXPONENT_LIMIT`.
pub fn parse_loose_decimal(s: &str) -> (r: LooseDecimal)
    ensures
        (r.mantissa as nat, r.exponent as int) == loose_decimal(s@),
        r == decimal_of(s@),
        r.wf(),
{
    let cs = crate::decimal::chars_of(s);
    let ghost sq = cs@;
    let mut m: u64 = 0;
    let mut e: i128 = 0;
    let i_end = push_run(&cs, 0, &mut m, &mut e, false);
    let mut p = i_end;
    if i_end < cs.len() && cs[i_end] == '.' {
        p = push_run(&cs, i_end + 1, &mut m, &mut e, true);
    }
    assert(p == frac_bounds(sq).1);
    if p < cs.len() && (cs[p] == 'e' || cs[p] == 'E') {
        let q = p + 1;
        let mut x_start = q;
        let mut neg = false;
        if q < cs.len() && cs[q] == '-' {
            neg = true;
            x_start = q + 1;
        } else if q < cs.len() && cs[q] == '+' {
            x_start = q + 1;
        }
        let x = exponent_run(&cs, x_start);
        if neg {
            e = e - x as i128;
        } else {
            e = e + x as i128;
        }
    }
    LooseDecimal { mantissa: m, exponent: e }
}

/// `m1 * 10^e1 < m2 * 10^e2`.
pub open spec fn decimal_lt(m1: nat, e1: int, m2: nat, e2: int) -> bool {
    if e1 >= e2 {
        m1 * pow10((e1 - e2) as nat) < m2
    } else {
        m1 < m2 * pow10((e2 - e1) as nat)
    }
}

/// The decimal that `loose_decimal` gives for `s`.
pub open spec fn decimal_of(s: Seq<char>) -> LooseDecimal {
    LooseDecimal { mantissa: loose_decimal(s).0 as u64, exponent: loose_decimal(s).1 as i128 }
}

pub open spec fn value_lt(a: LooseDecimal, b: LooseDecimal) -> bool {
    decimal_lt(a.mantissa as nat, a.exponent as int, b.mantissa as nat, b.exponent as int)
}

pub proof fn lemma_pow10_positive(n: nat)
    ensures
        pow10(n) >= 1,
    decreases n,
{
    if n > 0 {
        lemma_pow10_positive((n - 1) as nat);
    }
}

pub proof fn lemma_pow10_add(a: nat, b: nat)
    ensures
        pow10(a + b) == pow10(a) * pow10(b),
    decreases a,
{
    if a > 0 {
        let a1 = (a - 1) as nat;
        lemma_pow10_add(a1, b);
        let x = pow10(a1);
        let y = pow10(b);
        assert(a + b == (a1 + b) + 1);
        assert(pow10(a + b) == 10 * pow10(a1 + b));
        assert(pow10(a) == 10 * x);
        assert(10 * (x * y) == (10 * x) * y) by (nonlinear_arith);
    } else {
        assert(pow10(0) == 1);
        assert(a + b == b);
    }
}

pub proof fn lemma_pow10_monotonic(a: nat, b: nat)
    requires
        a <= b,
    ensures
        pow10(a) <= pow10(b),
    decreases b,
{
    if a < b {
        lemma_pow10_monotonic(a, (b - 1) as nat);
        lemma_pow10_positive((b - 1) as nat);
    }
}

/// Both sides of the comparison brought to the common power `base`.
proof fn lemma_lt_at_base(m1: nat, e1: int, m2: nat, e2: int, base: int)
    requires
        base <= e1,
        base <= e2,
    ensures
        decimal_lt(m1, e1, m2, e2) <==> m1 * pow10((e1 - base) as nat) < m2 * pow10((e2 - base) as nat),
{
    if e1 >= e2 {
        let d = (e1 - e2) as nat;
        let c = (e2 - base) as nat;
        lemma_pow10_add(d, c);
        lemma_pow10_positive(c);
        let pd = pow10(d);
        let pc = pow10(c);
        assert(m1 * (pd * pc) == (m1 * pd) * pc) by (nonlinear_arith);
        assert((m1 * pd < m2) <==> ((m1 * pd) * pc < m2 * pc)) by (nonlinear_arith)
            requires pc >= 1;
        assert((d + c) as int == e1 - base);
    } else {
        let d = (e2 - e1) as nat;
        let c = (e1 - base) as nat;
        lemma_pow10_add(d, c);
        lemma_pow10_positive(c);
        let pd = pow10(d);
        let pc = pow10(c);
        assert(m2 * (pd * pc) == (m2 * pd) * pc) by (nonlinear_arith);
        assert((m1 < m2 * pd) <==> (m1 * pc < (m2 * pd) * pc)) by (nonlinear_arith)
            requires pc >= 1;
        assert((d + c) as int == e2 - base);
    }
}

/// The order of decimal values is transitive through a non-greater middle value.
pub proof fn lemma_lt_after_le(a: LooseDecimal, b: LooseDecimal, c: LooseDecimal)
    requires
        !value_lt(b, a),
        value_lt(b, c),
    ensures
        value_lt(a, c),
{
    let base = vstd::math::min(vstd::math::min(a.exponent as int, b.exponent as int), c.exponent as int);
    lemma_lt_at_base(b.mantissa as nat, b.exponent as int, a.mantissa as nat, a.exponent as int, base);
    lemma_lt_at_base(b.mantissa as nat, b.exponent as int, c.mantissa as nat, c.exponent as int, base);
    lemma_lt_at_base(a.mantissa as nat, a.exponent as int, c.mantissa as nat, c.exponent as int, base);
}

/// The order of decimal values is asymmetric.
pub proof fn lemma_lt_asymmetric(a: LooseDecimal, b: LooseDecimal)
    requires
        value_lt(a, b),
    ensures
        !value_lt(b, a),
{
    let base = vstd::math::min(a.exponent as int, b.exponent as int);
    lemma_lt_at_base(a.mantissa as nat, a.exponent as int, b.mantissa as nat, b.exponent as int, base);
    lemma_lt_at_base(b.mantissa as nat, b.exponent as int, a.mantissa as nat, a.exponent as int, base);
}

fn pow10_exec(n: u32) -> (r: u128)
    requires
        n <= 19,
    ensures
        r == pow10(n as nat),
        r <= 10_000_000_000_000_000_000,
{
    let mut p: u128 = 1;
    let mut k: u32 = 0;
    while k < n
        invariant
            k <= n <= 19,
            p == pow10(k as nat),
        decreases n - k,
    {
        proof {
            lemma_pow10_monotonic(k as nat, 18);
            assert(pow10(18) == 1_000_000_000_000_000_000nat) by {
                reveal_with_fuel(pow10, 19);
            }
        }
        p = p * 10;
        k = k + 1;
    }
    proof {
        lemma_pow10_monotonic(n as nat, 19);
        assert(pow10(19) == 10_000_000_000_000_000_000nat) by {
            reveal_with_fuel(pow10, 20);
        }
    }
    p
}

/// `m1 * 10^d < m2`, for a nonnegative `d` that fits the exponent bounds.
fn scaled_less(m1: u64, d: i128, m2: u64) -> (r: bool)
    requires
        d >= 0,
    ensures
        r == (m1 * pow10(d as nat) < m2),
{
    if d >= 20 {
        proof {
            lemma_pow10_monotonic(20, d as nat);
            assert(pow10(20) == 100_000_000_000_000_000_000nat) by {
                reveal_with_fuel(pow10, 21);
            }
            let p = pow10(d as nat);
            if m1 >= 1 {
                assert(m1 * p >= p) by (nonlinear_arith)
                    requires m1 >= 1, p >= 1;
            }
        }
        m1 == 0 && 0 < m2
    } else {
        let p = pow10_exec(d as u32);
        assert((m1 as u128) * p <= 0xffff_ffff_ffff_ffff * 10_000_000_000_000_000_000) by (nonlinear_arith)
            requires m1 <= 0xffff_ffff_ffff_ffff, p <= 10_000_000_000_000_000_000;
        (m1 as u128) * p < m2 as u128
    }
}

/// `m1 < m2 * 10^d`, for a nonnegative `d`.
fn less_than_scaled(m1: u64, m2: u64, d: i128) -> (r: bool)
    requires
        d >= 0,
    ensures
        r == (m1 < m2 * pow10(d as nat)),
{
    if d >= 20 {
        proof {
            lemma_pow10_monotonic(20, d as nat);
            assert(pow10(20) == 100_000_000_000_000_000_000nat) by {
                reveal_with_fuel(pow10, 21);
            }
            let p = pow10(d as nat);
            if m2 >= 1 {
                assert(m2 * p >= p) by (nonlinear_arith)
                    requires m2 >= 1, p >= 1;
            }
        }
        m2 != 0
    } else {
        let p = pow10_exec(d as u32);
        assert((m2 as u128) * p <= 0xffff_ffff_ffff_ffff * 10_000_000_000_000_000_000) by (nonlinear_arith)
            requires m2 <= 0xffff_ffff_ffff_ffff, p <= 10_000_000_000_000_000_000;
        (m1 as u128) < (m2 as u128) * p
    }
}

/// The number written by the digits `d`, starting from `m0` already read.
pub open spec fn fold_digits(m0: nat, d: Seq<char>) -> nat
    decreases d.len(),
{
    if d.len() == 0 {
        m0
    } else {
        fold_digits(m0, d.drop_last()) * 10 + digit_value(d.last())
    }
}

/// The number that the decimal digits `d` write.
pub open spec fn digits_value(d: Seq<char>) -> nat {
    fold_digits(0, d)
}

pub open spec fn all_digits(d: Seq<char>) -> bool {
    forall|k: int| 0 <= k < d.len() ==> is_digit_char(#[trigger] d[k])
}

proof fn lemma_run_end_digits(s: Seq<char>, a: int, b: int)
    requires
        0 <= a <= b <= s.len(),
        forall|k: int| a <= k < b ==> is_digit_char(#[trigger] s[k]),
        b == s.len() || !is_digit_char(s[b]),
    ensures
        run_end(s, a) == b,
    decreases b - a,
{
    if a < b {
        lemma_run_end_digits(s, a + 1, b);
    }
}

proof fn lemma_fold_digits_append(m0: nat, a: Seq<char>, b: Seq<char>)
    ensures
        fold_digits(m0, a + b) == fold_digits(fold_digits(m0, a), b),
    decreases b.len(),
{
    if b.len() > 0 {
        lemma_fold_digits_append(m0, a, b.drop_last());
        assert((a + b).drop_last() =~= a + b.drop_last());
        assert((a + b).last() == b.last());
    } else {
        assert(a + b =~= a);
    }
}

proof fn lemma_fold_digits_grows(m0: nat, d: Seq<char>)
    ensures
        fold_digits(m0, d) >= m0,
    decreases d.len(),
{
    if d.len() > 0 {
        lemma_fold_digits_grows(m0, d.drop_last());
    }
}

proof fn lemma_push_digits_exact(s: Seq<char>, from: int, to: int, m0: nat, e0: int, frac: bool)
    requires
        0 <= from <= to <= s.len(),
        fold_digits(m0, s.subrange(from, to)) < 10 * MANTISSA_ROOM,
    ensures
        push_digits(s, from, to, (m0, e0), frac) == (
            fold_digits(m0, s.subrange(from, to)),
            if frac { e0 - (to - from) } else { e0 },
        ),
    decreases to - from,
{
    if to > from {
        let d = s.subrange(from, to);
        assert(d.drop_last() =~= s.subrange(from, to - 1));
        lemma_push_digits_exact(s, from, to - 1, m0, e0, frac);
    }
}

proof fn lemma_exponent_digits_exact(s: Seq<char>, from: int, to: int)
    requires
        0 <= from <= to <= s.len(),
        digits_value(s.subrange(from, to)) < EXPONENT_LIMIT,
    ensures
        exponent_digits(s, from, to) == digits_value(s.subrange(from, to)),
    decreases to - from,
{
    if to > from {
        let d = s.subrange(from, to);
        assert(d.drop_last() =~= s.subrange(from, to - 1));
        lemma_exponent_digits_exact(s, from, to - 1);
    }
}

/// A string `int.frac` `e`/`E` `sign` `exp` reads as exactly
/// `(int frac) * 10^(±exp - len(frac))`, while its digits fit the mantissa
/// and exponent bounds.
pub proof fn lemma_parse_exact(i: Seq<char>, f: Seq<char>, mark: char, sign: Seq<char>, x: Seq<char>)
    requires
        all_digits(i),
        all_digits(f),
        all_digits(x),
        is_exp_mark(mark),
        sign == Seq::<char>::empty() || sign == seq!['+'] || sign == seq!['-'],
        digits_value(i + f) < 10 * MANTISSA_ROOM,
        digits_value(x) < EXPONENT_LIMIT,
    ensures
        loose_decimal(i + seq!['.'] + f + seq![mark] + sign + x) == (
            digits_value(i + f),
            (if sign == seq!['-'] { -digits_value(x) } else { digits_value(x) as int }) - f.len(),
        ),
{
    let s = i + seq!['.'] + f + seq![mark] + sign + x;
    let a = i.len() as int;
    let b = f.len() as int;
    let c = sign.len() as int;
    let p = a + 1 + b;
    let q = p + 1;
    assert(s.subrange(0, a) =~= i);
    assert(s.subrange(a + 1, p) =~= f);
    assert(s.subrange(q + c, s.len() as int) =~= x);
    assert(s[a] == '.');
    assert(s[p] == mark);
    assert forall|k: int| 0 <= k < a implies is_digit_char(#[trigger] s[k]) by {
        assert(s[k] == i[k]);
    }
    lemma_run_end_digits(s, 0, a);
    assert forall|k: int| a + 1 <= k < p implies is_digit_char(#[trigger] s[k]) by {
        assert(s[k] == f[k - a - 1]);
    }
    lemma_run_end_digits(s, a + 1, p);
    assert forall|k: int| q + c <= k < s.len() implies is_digit_char(#[trigger] s[k]) by {
        assert(s[k] == x[k - q - c]);
    }
    lemma_run_end_digits(s, q + c, s.len() as int);
    assert(frac_bounds(s) == (a + 1, p));

    lemma_fold_digits_append(0, i, f);
    lemma_fold_digits_grows(digits_value(i), f);
    lemma_push_digits_exact(s, 0, a, 0, 0, false);
    lemma_push_digits_exact(s, a + 1, p, digits_value(i), 0, true);
    lemma_exponent_digits_exact(s, q + c, s.len() as int);
    if c == 1 {
        assert(s[q] == sign[0]);
    } else if x.len() > 0 {
        assert(s[q] == x[0]);
    }
}

/// `m` read with `t` digits dropped stands for `n`: `m * 10^t <= n < (m + 1) * 10^t`,
/// and digits are dropped only from a full mantissa.
pub open spec fn truncates(m: nat, t: nat, n: nat) -> bool {
    &&& m * pow10(t) <= n < (m + 1) * pow10(t)
    &&& t > 0 ==> m >= MANTISSA_ROOM
}

proof fn lemma_push_digits_truncates(
    s: Seq<char>,
    from: int,
    to: int,
    m0: nat,
    e0: int,
    t0: nat,
    n0: nat,
    frac: bool,
)
    requires
        0 <= from <= to <= s.len(),
        forall|k: int| from <= k < to ==> is_digit_char(#[trigger] s[k]),
        truncates(m0, t0, n0),
    ensures
        ({
            let st = push_digits(s, from, to, (m0, e0), frac);
            let t = st.1 - (if frac { e0 - (to - from) } else { e0 }) + t0;
            &&& t >= 0
            &&& truncates(st.0, t as nat, fold_digits(n0, s.subrange(from, to)))
        }),
    decreases to - from,
{
    if to > from {
        let d = s.subrange(from, to);
        assert(d.drop_last() =~= s.subrange(from, to - 1));
        lemma_push_digits_truncates(s, from, to - 1, m0, e0, t0, n0, frac);
        let st = push_digits(s, from, to - 1, (m0, e0), frac);
        let t = (st.1 - (if frac { e0 - (to - 1 - from) } else { e0 }) + t0) as nat;
        let n = fold_digits(n0, s.subrange(from, to - 1));
        let dv = digit_value(s[to - 1]);
        assert(dv <= 9);
        let p = pow10(t);
        lemma_pow10_positive(t);
        if st.0 < MANTISSA_ROOM {
            assert(t == 0);
            assert(p == 1);
            assert(st.0 == n) by (nonlinear_arith)
                requires st.0 * p <= n, n < (st.0 + 1) * p, p == 1;
            assert(pow10(0) == 1);
            assert((st.0 * 10 + dv) * 1 == n * 10 + dv);
        } else {
            assert(pow10(t + 1) == 10 * p);
            let m = st.0;
            assert(m * (10 * p) <= n * 10 + dv && n * 10 + dv < (m + 1) * (10 * p)) by (nonlinear_arith)
                requires m * p <= n, n < (m + 1) * p, dv <= 9;
        }
    } else {
        assert(s.subrange(from, to) =~= Seq::<char>::empty());
    }
}

/// A string `int.frac` `e`/`E` `sign` `exp` with an exponent below
/// `EXPONENT_LIMIT` reads as `m * 10^(±exp - len(frac) + t)`, where
/// `m * 10^t <= (int frac) < (m + 1) * 10^t` and digits were dropped (`t > 0`)
/// only from a mantissa of at least `MANTISSA_ROOM`: a relative error below
/// one part in `MANTISSA_ROOM`.
pub proof fn lemma_parse_close(i: Seq<char>, f: Seq<char>, mark: char, sign: Seq<char>, x: Seq<char>)
    requires
        all_digits(i),
        all_digits(f),
        all_digits(x),
        is_exp_mark(mark),
        sign == Seq::<char>::empty() || sign == seq!['+'] || sign == seq!['-'],
        digits_value(x) < EXPONENT_LIMIT,
    ensures
        exists|t: nat|
            #[trigger] truncates(loose_decimal(i + seq!['.'] + f + seq![mark] + sign + x).0, t, digits_value(i + f))
            && loose_decimal(i + seq!['.'] + f + seq![mark] + sign + x).1
                == (if sign == seq!['-'] { -digits_value(x) } else { digits_value(x) as int }) - f.len() + t,
{
    let s = i + seq!['.'] + f + seq![mark] + sign + x;
    let a = i.len() as int;
    let b = f.len() as int;
    let c = sign.len() as int;
    let p = a + 1 + b;
    let q = p + 1;
    assert(s.subrange(0, a) =~= i);
    assert(s.subrange(a + 1, p) =~= f);
    assert(s.subrange(q + c, s.len() as int) =~= x);
    assert(s[a] == '.');
    assert(s[p] == mark);
    assert forall|k: int| 0 <= k < a implies is_digit_char(#[trigger] s[k]) by {
        assert(s[k] == i[k]);
    }
    lemma_run_end_digits(s, 0, a);
    assert forall|k: int| a + 1 <= k < p implies is_digit_char(#[trigger] s[k]) by {
        assert(s[k] == f[k - a - 1]);
    }
    lemma_run_end_digits(s, a + 1, p);
    assert forall|k: int| q + c <= k < s.len() implies is_digit_char(#[trigger] s[k]) by {
        assert(s[k] == x[k - q - c]);
    }
    lemma_run_end_digits(s, q + c, s.len() as int);
    assert(frac_bounds(s) == (a + 1, p));
    assert(pow10(0) == 1);
    assert(truncates(0, 0, 0));
    lemma_push_digits_truncates(s, 0, a, 0, 0, 0, 0, false);
    let st1 = push_digits(s, 0, a, (0, 0), false);
    let t1 = st1.1;
    lemma_push_digits_truncates(s, a + 1, p, st1.0, st1.1, t1 as nat, digits_value(i), true);
    lemma_fold_digits_append(0, i, f);
    lemma_exponent_digits_exact(s, q + c, s.len() as int);
    if c == 1 {
        assert(s[q] == sign[0]);
    } else if x.len() > 0 {
        assert(s[q] == x[0]);
    }
    let st2 = push_digits(s, a + 1, p, st1, true);
    let t = (st2.1 - (st1.1 - b) + t1) as nat;
    assert(truncates(st2.0, t, digits_value(i + f)));
    assert(loose_decimal(s).0 == st2.0);
    assert(truncates(loose_decimal(s).0, t, digits_value(i + f)));
}

/// No decimal is smaller than itself.
pub proof fn lemma_lt_irreflexive(a: LooseDecimal)
    ensures
        !value_lt(a, a),
{
    assert(((a.exponent as int) - (a.exponent as int)) as nat == 0);
    assert(pow10(0) == 1);
    assert(a.mantissa as nat * 1 == a.mantissa as nat);
}

/// Whether `a` stands for a smaller number than `b`.
pub fn version_less(a: &LooseDecimal, b: &LooseDecimal) -> (r: bool)
    requires
        a.wf(),
        b.wf(),
    ensures
        r == value_lt(*a, *b),
{
    if a.exponent >= b.exponent {
        scaled_less(a.mantissa, a.exponent - b.exponent, b.mantissa)
    } else {
        less_than_scaled(a.mantissa, b.mantissa, b.exponent - a.exponent)
    }
}

/// The characters of `s`, in order.
pub fn chars_of(s: &str) -> (r: Vec<char>)
    ensures
        r@ == s@,
{
    broadcast use vstd::string::axiom_spec_iter;
    let mut r: Vec<char> = Vec::new();
    for c in it: s.chars()
        invariant
            it.seq() == s@,
            r@ == it.seq().take(it.index() as int),
    {
        r.push(c);
    }
    r
}

} // verus!
