//! Recognition of decimal floating-point literals.
//!
//! Beat positions and tempo values in a project are decimal literals. The
//! library checks them against the grammar that `str::parse::<f64>` accepts
//! (as documented for `f64`'s `FromStr`):
//!
//! ```text
//! Float  ::= Sign? ( 'inf' | 'infinity' | 'nan' | Number )
//! Number ::= ( Digit+ | Digit+ '.' Digit* | Digit* '.' Digit+ ) Exp?
//! Exp    ::= ('e' | 'E') Sign? Digit+
//! Sign   ::= [+-]
//! Digit  ::= [0-9]
//! ```
//!
//! with `inf`, `infinity` and `nan` matched case-insensitively. Every string
//! of that grammar parses; any other string is rejected with "cannot parse
//! float from empty string" when empty and "invalid float literal" otherwise.

use vstd::prelude::*;

use crate::text::{
    ascii_lower, chars_equal, chars_of, decimal, push_decimal_wide, push_zero_padded, to_ascii_lower,
    zero_padded,
};

verus! {

pub open spec fn is_digit(c: char) -> bool {
    '0' <= c && c <= '9'
}

pub open spec fn all_digits(s: Seq<char>) -> bool {
    forall|k: int| 0 <= k < s.len() ==> is_digit(#[trigger] s[k])
}

/// Index of the first `c1` or `c2` in `s` at or after `k`, if any.
pub open spec fn find_from(s: Seq<char>, c1: char, c2: char, k: int) -> Option<int>
    decreases s.len() - k,
{
    if k < 0 || k >= s.len() {
        None
    } else if s[k] == c1 || s[k] == c2 {
        Some(k)
    } else {
        find_from(s, c1, c2, k + 1)
    }
}

/// `Digit+ | Digit+ '.' Digit* | Digit* '.' Digit+`
pub open spec fn mantissa_ok(m: Seq<char>) -> bool {
    match find_from(m, '.', '.', 0) {
        Some(p) => all_digits(m.subrange(0, p)) && all_digits(m.subrange(p + 1, m.len() as int))
            && (p > 0 || m.len() > p + 1),
        None => m.len() > 0 && all_digits(m),
    }
}

/// `Sign? Digit+`
pub open spec fn exponent_ok(x: Seq<char>) -> bool {
    let d = if x.len() > 0 && (x[0] == '+' || x[0] == '-') {
        x.subrange(1, x.len() as int)
    } else {
        x
    };
    d.len() > 0 && all_digits(d)
}

/// `Number` of the grammar above.
pub open spec fn number_ok(s: Seq<char>) -> bool {
    match find_from(s, 'e', 'E', 0) {
        Some(k) => mantissa_ok(s.subrange(0, k)) && exponent_ok(s.subrange(k + 1, s.len() as int)),
        None => mantissa_ok(s),
    }
}

/// `Float` of the grammar above.
pub open spec fn float_literal(s: Seq<char>) -> bool {
    let b = if s.len() > 0 && (s[0] == '+' || s[0] == '-') {
        s.subrange(1, s.len() as int)
    } else {
        s
    };
    let l = ascii_lower(b);
    l == "inf"@ || l == "infinity"@ || l == "nan"@ || number_ok(b)
}

/// The message `str::parse::<f64>` fails with on `s`, or `None` when `s`
/// parses.
pub open spec fn float_error(s: Seq<char>) -> Option<Seq<char>> {
    if float_literal(s) {
        None
    } else if s.len() == 0 {
        Some("cannot parse float from empty string"@)
    } else {
        Some("invalid float literal"@)
    }
}

fn digit(c: char) -> (r: bool)
    ensures
        r == is_digit(c),
{
    '0' <= c && c <= '9'
}

fn digits_in(s: &Vec<char>, from: usize, to: usize) -> (r: bool)
    requires
        from <= to <= s@.len(),
    ensures
        r == all_digits(s@.subrange(from as int, to as int)),
{
    let mut k = from;
    while k < to
        invariant
            from <= k <= to <= s@.len(),
            forall|m: int| from <= m < k ==> is_digit(s@[m]),
        decreases to - k,
    {
        if !digit(s[k]) {
            assert(s@.subrange(from as int, to as int)[k - from] == s@[k as int]);
            return false;
        }
        k = k + 1;
    }
    assert forall|m: int| 0 <= m < to - from implies is_digit(
        #[trigger] s@.subrange(from as int, to as int)[m],
    ) by {
        assert(s@.subrange(from as int, to as int)[m] == s@[from + m]);
    }
    true
}

/// First index in `s[from..to]` holding `c1` or `c2`.
fn find_in(s: &Vec<char>, c1: char, c2: char, from: usize, to: usize) -> (r: Option<usize>)
    requires
        from <= to <= s@.len(),
    ensures
        r matches Some(k) ==> from <= k < to,
        match r {
            Some(k) => find_from(s@.subrange(from as int, to as int), c1, c2, 0) == Some(
                k - from,
            ),
            None => find_from(s@.subrange(from as int, to as int), c1, c2, 0) is None,
        },
{
    let ghost sub = s@.subrange(from as int, to as int);
    let mut k = from;
    while k < to
        invariant
            from <= k <= to <= s@.len(),
            sub == s@.subrange(from as int, to as int),
            find_from(sub, c1, c2, 0) == find_from(sub, c1, c2, k - from),
        decreases to - k,
    {
        assert(sub[k - from] == s@[k as int]);
        if s[k] == c1 || s[k] == c2 {
            return Some(k);
        }
        k = k + 1;
    }
    None
}

fn mantissa_in(s: &Vec<char>, from: usize, to: usize) -> (r: bool)
    requires
        from <= to <= s@.len(),
    ensures
        r == mantissa_ok(s@.subrange(from as int, to as int)),
{
    let ghost m = s@.subrange(from as int, to as int);
    match find_in(s, '.', '.', from, to) {
        Some(p) => {
            assert(m.subrange(0, p - from) =~= s@.subrange(from as int, p as int));
            assert(m.subrange(p - from + 1, m.len() as int) =~= s@.subrange(p + 1, to as int));
            digits_in(s, from, p) && digits_in(s, p + 1, to) && (p > from || to > p + 1)
        },
        None => to > from && digits_in(s, from, to),
    }
}

fn exponent_in(s: &Vec<char>, from: usize, to: usize) -> (r: bool)
    requires
        from <= to <= s@.len(),
    ensures
        r == exponent_ok(s@.subrange(from as int, to as int)),
{
    let ghost x = s@.subrange(from as int, to as int);
    if to > from && (s[from] == '+' || s[from] == '-') {
        assert(x[0] == s@[from as int]);
        assert(x.subrange(1, x.len() as int) =~= s@.subrange(from + 1, to as int));
        to > from + 1 && digits_in(s, from + 1, to)
    } else {
        proof {
            if to > from {
                assert(x[0] == s@[from as int]);
            }
        }
        to > from && digits_in(s, from, to)
    }
}

fn lower_is(l: &Vec<char>, lit: &str) -> (r: bool)
    ensures
        r == (l@ == lit@),
{
    chars_equal(l, &chars_of(lit))
}

/// Whether `s` is a literal that `str::parse::<f64>` accepts.
pub fn is_float_literal(s: &str) -> (r: bool)
    ensures
        r == float_literal(s@),
{
    let cs = chars_of(s);
    let n = cs.len();
    let from: usize = if n > 0 && (cs[0] == '+' || cs[0] == '-') {
        1
    } else {
        0
    };
    let ghost b = cs@.subrange(from as int, n as int);
    proof {
        if from == 0 {
            assert(b =~= cs@);
        }
    }
    let mut body: Vec<char> = Vec::new();
    crate::text::extend_from_range(&mut body, &cs, from, n);
    assert(body@ =~= b);
    let l = to_ascii_lower(&body);
    if lower_is(&l, "inf") || lower_is(&l, "infinity") || lower_is(&l, "nan") {
        return true;
    }
    let r = match find_in(&cs, 'e', 'E', from, n) {
        Some(k) => {
            assert(b.subrange(0, k - from) =~= cs@.subrange(from as int, k as int));
            assert(b.subrange(k - from + 1, b.len() as int) =~= cs@.subrange(k + 1, n as int));
            mantissa_in(&cs, from, k) && exponent_in(&cs, k + 1, n)
        },
        None => mantissa_in(&cs, from, n),
    };
    r
}

/// The message `str::parse::<f64>` fails with on `s`, or `None` when `s`
/// parses as a number.
pub fn float_parse_error(s: &str) -> (r: Option<String>)
    ensures
        match r {
            Some(m) => float_error(s@) == Some(m@),
            None => float_error(s@) is None,
        },
{
    if is_float_literal(s) {
        None
    } else if s.is_empty() {
        Some("cannot parse float from empty string".to_owned())
    } else {
        Some("invalid float literal".to_owned())
    }
}

// ----- Exact decimal rendering of byte counts -------------------------------

/// `2^s`.
pub open spec fn p2(s: nat) -> nat
    decreases s,
{
    if s == 0 {
        1
    } else {
        2 * p2((s - 1) as nat)
    }
}

pub proof fn lemma_p2_monotone(s: nat, k: nat)
    requires
        k <= s,
    ensures
        p2(k) <= p2(s),
        p2(s) >= 1,
    decreases s,
{
    if s > k {
        lemma_p2_monotone((s - 1) as nat, k);
    } else if s > 0 {
        lemma_p2_monotone((s - 1) as nat, (s - 1) as nat);
    }
}

pub proof fn lemma_p2_grows(s: nat)
    ensures
        p2(s) >= 1,
        s >= 11 ==> p2(s) >= 2048,
{
    lemma_p2_monotone(s, 0);
    if s >= 11 {
        lemma_p2_monotone(s, 11);
        reveal_with_fuel(p2, 12);
    }
}

/// `x / m` rounded to the nearest integer, ties to even.
pub open spec fn rounded_quotient(x: nat, m: nat) -> nat {
    let q = x / m;
    let r = x % m;
    if 2 * r > m || (2 * r == m && q % 2 == 1) {
        q + 1
    } else {
        q
    }
}

/// Number of low bits dropped when `b` is rounded to 53 significant bits.
pub open spec fn f64_shift(b: nat, s: nat) -> nat
    decreases 64 - s,
{
    if s >= 64 || b / p2(s) < 9007199254740992 {
        s
    } else {
        f64_shift(b, s + 1)
    }
}

/// The value of `b as f64`: `b` rounded to 53 significant bits, ties to even.
pub open spec fn f64_value(b: nat) -> nat {
    let s = f64_shift(b, 0);
    rounded_quotient(b, p2(s)) * p2(s)
}

/// `f / m` shown with `digits` decimals (`scale == 10^digits`), rounded to
/// nearest with ties to even, as `{:.digits}` formats the exact value.
pub open spec fn fixed_text(f: nat, m: nat, scale: nat, digits: nat) -> Seq<char> {
    let n = rounded_quotient(f * scale, m);
    decimal(n / scale) + seq!['.'] + zero_padded(n % scale, digits)
}

/// The value of `b as f64`, exactly.
pub fn f64_of(b: u64) -> (r: u128)
    ensures
        r as nat == f64_value(b as nat),
        r <= 0x1_0000_0000_0000_1000,
{
    let mut s: u64 = 0;
    let mut p: u64 = 1;
    while b / p >= 9007199254740992
        invariant
            p as nat == p2(s as nat),
            p < 2048 || b / p < 9007199254740992,
            f64_shift(b as nat, s as nat) == f64_shift(b as nat, 0),
            1 <= p <= 4096,
        decreases 4096 - p,
    {
        proof {
            assert(p < 2048) by (nonlinear_arith)
                requires
                    b / p >= 9007199254740992,
                    p >= 1,
            {
            }
            lemma_p2_grows(s as nat);
        }
        s = s + 1;
        p = p * 2;
        proof {
            assert(p < 2048 || b / p < 9007199254740992) by (nonlinear_arith)
                requires
                    p <= 4096,
                    p >= 2,
                    b <= 0xffff_ffff_ffff_ffffu64,
            {
            }
        }
    }
    let q = b / p;
    let r = b % p;
    let q2 = if 2 * r > p || (2 * r == p && q % 2 == 1) {
        q + 1
    } else {
        q
    };
    proof {
        assert(q as int * p as int <= b as int) by (nonlinear_arith)
            requires
                q == b / p,
                p >= 1,
        {
        }
        assert(q2 as int * p as int <= b as int + p as int) by (nonlinear_arith)
            requires
                q2 <= q + 1,
                q as int * p as int <= b as int,
        {
        }
    }
    (q2 as u128) * (p as u128)
}

/// Appends `f / m` with `digits` decimals, as `fixed_text` describes.
fn push_fixed(out: &mut Vec<char>, f: u128, m: u128, scale: u128, digits: usize)
    requires
        f <= 0x1_0000_0000_0000_1000,
        m >= 1,
        1 <= scale <= 100,
        digits <= 2,
        m <= 0x1_0000_0000_0000,
    ensures
        final(out)@ == old(out)@ + fixed_text(f as nat, m as nat, scale as nat, digits as nat),
{
    assert(f * scale <= 0x1_0000_0000_0000_1000 * 100) by (nonlinear_arith)
        requires
            f <= 0x1_0000_0000_0000_1000,
            scale <= 100,
    {
    }
    let x = f * scale;
    let q = x / m;
    assert(q <= x) by (nonlinear_arith)
        requires
            q == x / m,
            m >= 1,
    {
    }
    let r = x % m;
    let n = if 2 * r > m || (2 * r == m && q % 2 == 1) {
        q + 1
    } else {
        q
    };
    push_decimal_wide(out, n / scale);
    out.push('.');
    push_zero_padded(out, (n % scale) as u64, digits);
    assert(final(out)@ =~= old(out)@ + fixed_text(f as nat, m as nat, scale as nat, digits as nat));
}

/// A byte count in human units: `B` below 1 KiB, then `KB` with one decimal,
/// `MB` and `GB` with two, computed on `bytes as f64` as `{:.N}` shows it.
pub open spec fn human_size_text(bytes: nat) -> Seq<char> {
    let f = f64_value(bytes);
    if f >= 1073741824 {
        fixed_text(f, 1073741824, 100, 2) + " GB"@
    } else if f >= 1048576 {
        fixed_text(f, 1048576, 100, 2) + " MB"@
    } else if f >= 1024 {
        fixed_text(f, 1024, 10, 1) + " KB"@
    } else {
        decimal(bytes) + " B"@
    }
}

proof fn lemma_f64_exact(b: nat)
    requires
        b < 9007199254740992,
    ensures
        f64_value(b) == b,
{
    assert(p2(0) == 1);
    assert(f64_shift(b, 0) == 0);
}

proof fn lemma_fixed_whole(k: nat, m: nat, scale: nat, digits: nat)
    requires
        m >= 1,
        scale >= 1,
        digits >= 1,
    ensures
        fixed_text(k * m, m, scale, digits) == decimal(k) + seq!['.'] + zero_padded(0, digits),
{
    let x = k * m * scale;
    assert(x == (k * scale) * m) by (nonlinear_arith)
        requires
            x == k * m * scale,
    ;
    assert(x / m == k * scale && x % m == 0) by (nonlinear_arith)
        requires
            x == (k * scale) * m,
            m >= 1,
    {
        vstd::arithmetic::div_mod::lemma_fundamental_div_mod_converse(x as int, m as int, (k * scale) as int, 0);
    }
    assert(rounded_quotient(x, m) == k * scale);
    assert((k * scale) / scale == k && (k * scale) % scale == 0) by (nonlinear_arith)
        requires
            scale >= 1,
    {
        vstd::arithmetic::div_mod::lemma_fundamental_div_mod_converse((k * scale) as int, scale as int, k as int, 0);
    }
}

/// Law: sizes are shown in the unit they reach. Below 1 KiB a size is its
/// byte count followed by ` B`; a whole number `k` of KiB (below 1 MiB) shows
/// as `k.0 KB`, of MiB (below 1 GiB) as `k.00 MB`, and of GiB as `k.00 GB`.
pub proof fn law_sizes_show_in_their_unit(k: nat)
    ensures
        k < 1024 ==> human_size_text(k) == decimal(k) + " B"@,
        1 <= k < 1024 ==> human_size_text(k * 1024) == decimal(k) + ".0 KB"@,
        1 <= k < 1024 ==> human_size_text(k * 1048576) == decimal(k) + ".00 MB"@,
        1 <= k < 8388608 ==> human_size_text(k * 1073741824) == decimal(k) + ".00 GB"@,
{
    reveal_strlit(".0 KB");
    reveal_strlit(".00 MB");
    reveal_strlit(".00 GB");
    reveal_strlit(" KB");
    reveal_strlit(" MB");
    reveal_strlit(" GB");
    if k < 1024 {
        lemma_f64_exact(k);
    }
    if 1 <= k < 1024 {
        assert(k * 1024 < 1048576 && k * 1024 >= 1024) by (nonlinear_arith)
            requires
                1 <= k < 1024,
        ;
        lemma_f64_exact(k * 1024);
        lemma_fixed_whole(k, 1024, 10, 1);
        assert(zero_padded(0, 1) == seq!['0']);
        assert(decimal(k) + seq!['.'] + seq!['0'] + " KB"@ =~= decimal(k) + ".0 KB"@);
        assert(k * 1048576 < 1073741824 && k * 1048576 >= 1048576) by (nonlinear_arith)
            requires
                1 <= k < 1024,
        ;
        lemma_f64_exact(k * 1048576);
        lemma_fixed_whole(k, 1048576, 100, 2);
        assert(zero_padded(0, 2) =~= seq!['0', '0']);
        assert(decimal(k) + seq!['.'] + seq!['0', '0'] + " MB"@ =~= decimal(k) + ".00 MB"@);
    }
    if 1 <= k < 8388608 {
        assert(k * 1073741824 < 9007199254740992 && k * 1073741824 >= 1073741824) by (nonlinear_arith)
            requires
                1 <= k < 8388608,
        ;
        lemma_f64_exact(k * 1073741824);
        lemma_fixed_whole(k, 1073741824, 100, 2);
        assert(zero_padded(0, 2) =~= seq!['0', '0']);
        assert(decimal(k) + seq!['.'] + seq!['0', '0'] + " GB"@ =~= decimal(k) + ".00 GB"@);
    }
}

/// Appends the human-readable size of `bytes`.
pub fn push_human_size(out: &mut Vec<char>, bytes: u64)
    ensures
        final(out)@ == old(out)@ + human_size_text(bytes as nat),
{
    let f = f64_of(bytes);
    let ghost start = out@;
    if f >= 1073741824 {
        push_fixed(out, f, 1073741824, 100, 2);
        crate::text::push_text(out, " GB");
    } else if f >= 1048576 {
        push_fixed(out, f, 1048576, 100, 2);
        crate::text::push_text(out, " MB");
    } else if f >= 1024 {
        push_fixed(out, f, 1024, 10, 1);
        crate::text::push_text(out, " KB");
    } else {
        crate::text::push_decimal(out, bytes);
        crate::text::push_text(out, " B");
    }
}

} // verus!
