//! Query preprocessing for the advanced search syntax: human-friendly size
//! filters (`size:>10mb`) and date filters (`mtime:>2026-01-01`) are rewritten
//! into the plain numeric forms the index query parser understands
//! (`size:>10485760`, `mtime:>1767225600`).
use chrono::Datelike;
use vstd::prelude::*;
use crate::text::{digit_char, lemma_digit_char, char_alphanumeric, is_alphanumeric, string_of, all_digits, decimal, digit_val, digits_value, is_digit, is_ws, is_whitespace, push_char, push_decimal, chars_of};
use crate::engine::sensitive::rules::{compile_regex, regex_compiles, regex_find, regex_first_match, CompiledRegex};

verus! {

// ---------------------------------------------------------------------------
// Arithmetic on decimal digit runs
// ---------------------------------------------------------------------------

/// `b` to the power `e`.
pub open spec fn pow_nat(b: nat, e: nat) -> nat
    decreases e,
{
    if e == 0 {
        1
    } else {
        b * pow_nat(b, (e - 1) as nat)
    }
}

proof fn lemma_pow_pos(b: nat, e: nat)
    requires
        b > 0,
    ensures
        pow_nat(b, e) > 0,
    decreases e,
{
    if e > 0 {
        lemma_pow_pos(b, (e - 1) as nat);
        let p = pow_nat(b, (e - 1) as nat);
        assert(b * p > 0) by (nonlinear_arith)
            requires
                b > 0,
                p > 0,
        ;
    }
}

/// Reading digits from the left: the first digit weighs `10^(len-1)`.
proof fn lemma_digits_value_first(s: Seq<char>)
    requires
        s.len() > 0,
    ensures
        digits_value(s) == digit_val(s[0]) * pow_nat(10, (s.len() - 1) as nat) + digits_value(
            s.drop_first(),
        ),
    decreases s.len(),
{
    if s.len() == 1 {
        assert(s.drop_last() =~= Seq::<char>::empty());
        assert(s.drop_first() =~= Seq::<char>::empty());
        assert(digits_value(Seq::<char>::empty()) == 0);
        assert(digits_value(s) == digits_value(s.drop_last()) * 10 + digit_val(s.last()));
        assert(pow_nat(10, 0) == 1);
        assert(s.last() == s[0]);
    } else {
        let t = s.drop_last();
        lemma_digits_value_first(t);
        assert(t.drop_first() =~= s.drop_first().drop_last());
        assert(s.drop_first().last() == s.last());
        let a = digit_val(s[0]);
        let p = pow_nat(10, (t.len() - 1) as nat);
        let r = digits_value(t.drop_first());
        assert(pow_nat(10, (s.len() - 1) as nat) == 10 * p);
        assert(t[0] == s[0]);
        assert(digits_value(s) == digits_value(t) * 10 + digit_val(s.last()));
        let u = s.drop_first();
        assert(digits_value(u) == digits_value(u.drop_last()) * 10 + digit_val(u.last()));
        assert((a * p + r) * 10 == a * (10 * p) + r * 10) by (nonlinear_arith);
    }
}

/// A run of `n` digits is below `10^n`.
proof fn lemma_digits_value_bound(s: Seq<char>)
    requires
        all_digits(s),
    ensures
        digits_value(s) < pow_nat(10, s.len()),
    decreases s.len(),
{
    if s.len() > 0 {
        let t = s.drop_last();
        assert(all_digits(t)) by {
            assert forall|i: int| 0 <= i < t.len() implies is_digit(#[trigger] t[i]) by {
                assert(t[i] == s[i]);
            }
        }
        lemma_digits_value_bound(t);
        assert(is_digit(s[s.len() - 1]));
        let v = digits_value(t);
        let p = pow_nat(10, t.len());
        let d = digit_val(s.last());
        assert(v * 10 + d < 10 * p) by (nonlinear_arith)
            requires
                v < p,
                d < 10,
        ;
    } else {
        assert(digits_value(s) == 0);
    }
}

/// A prefix of a digit run never reads larger than the whole run, as long
/// as the whole run is read from the same start.
proof fn lemma_digits_value_prefix(s: Seq<char>, k: int)
    requires
        0 <= k <= s.len(),
    ensures
        digits_value(s.take(k)) <= digits_value(s),
    decreases s.len() - k,
{
    if k < s.len() {
        lemma_digits_value_prefix(s, k + 1);
        assert(s.take(k + 1).drop_last() =~= s.take(k));
        let v = digits_value(s.take(k));
        assert(v <= v * 10 + digit_val(s.take(k + 1).last()));
    } else {
        assert(s.take(k) =~= s);
    }
}

/// `(f*c + g) * m / (10*c) == (f*m + g*m/c) / 10`: one step of the
/// right-to-left evaluation of `floor(0.d1..dn * m)`.
proof fn lemma_frac_step(f: nat, g: nat, m: nat, c: nat)
    requires
        c > 0,
    ensures
        ((f * c + g) * m) / (10 * c) == (f * m + (g * m) / c) / 10,
{
    let x: int = ((f * c + g) * m) as int;
    assert(x == (g * m) as int + (f * m) as int * (c as int)) by (nonlinear_arith)
        requires
            x == ((f * c + g) * m) as int,
    ;
    vstd::arithmetic::div_mod::lemma_hoist_over_denominator((g * m) as int, (f * m) as int, c);
    vstd::arithmetic::div_mod::lemma_div_denominator(x, c as int, 10);
    assert((c as int) * 10 == 10 * (c as int));
}

/// `(a*p + b) * m / p == a*m + b*m/p`.
proof fn lemma_split_int_frac(a: nat, b: nat, m: nat, p: nat)
    requires
        p > 0,
    ensures
        ((a * p + b) * m) / p == a * m + (b * m) / p,
{
    assert(((a * p + b) * m) as int == (b * m) as int + (a * m) as int * (p as int))
        by (nonlinear_arith);
    vstd::arithmetic::div_mod::lemma_hoist_over_denominator((b * m) as int, (a * m) as int, p);
}

// ---------------------------------------------------------------------------
// The size-filter grammar
// ---------------------------------------------------------------------------

/// `c` equals the ASCII lowercase letter `l` under the simple case folding of
/// the `(?i)` flag (which also folds `ſ` to `s` and the Kelvin sign to `k`).
pub open spec fn letter_ci(c: char, l: char) -> bool {
    ||| c == l
    ||| (l as u32) >= 32 && (c as u32) == (l as u32) - 32
    ||| (l == 's' && c == '\u{17f}')
    ||| (l == 'k' && c == '\u{212a}')
}

fn letter_ci_exec(c: char, l: char) -> (b: bool)
    ensures
        b == letter_ci(c, l),
{
    c == l || ((l as u32) >= 32 && (c as u32) == (l as u32) - 32) || (l == 's' && c == '\u{17f}')
        || (l == 'k' && c == '\u{212a}')
}

/// One of the unit letters `b k m g t p` (case-insensitive).
pub open spec fn is_unit_letter(c: char) -> bool {
    letter_ci(c, 'b') || letter_ci(c, 'k') || letter_ci(c, 'm') || letter_ci(c, 'g') || letter_ci(
        c,
        't',
    ) || letter_ci(c, 'p')
}

/// Power of 1024 that a unit letter stands for.
pub open spec fn unit_exp(c: char) -> nat {
    if letter_ci(c, 'k') {
        1
    } else if letter_ci(c, 'm') {
        2
    } else if letter_ci(c, 'g') {
        3
    } else if letter_ci(c, 't') {
        4
    } else if letter_ci(c, 'p') {
        5
    } else {
        0
    }
}

/// The pattern of the `\d` class.
pub open spec fn decimal_pattern() -> Seq<char> {
    seq!['\\', 'd']
}

/// A character of the `\d` class: an ASCII digit, or a non-ASCII character
/// in which the regex `\d` (Unicode decimal numbers) finds a match.
pub open spec fn is_dec(c: char) -> bool {
    ||| is_digit(c)
    ||| (c as u32) >= 128 && regex_compiles(decimal_pattern()) && regex_first_match(
        decimal_pattern(),
        seq![c],
    ) is Some
}

/// Every character of `s` is of the `\d` class.
pub open spec fn all_dec(s: Seq<char>) -> bool {
    forall|i: int| 0 <= i < s.len() ==> is_dec(#[trigger] s[i])
}

/// `dre` is the compiled `\d` regex, or `None` where it does not compile.
pub open spec fn decimal_regex(dre: Option<CompiledRegex>) -> bool {
    match dre {
        Some(r) => r.pattern() == decimal_pattern() && regex_compiles(decimal_pattern()),
        None => !regex_compiles(decimal_pattern()),
    }
}

/// End of the run of `\d` characters starting at `i`.
pub open spec fn digits_end(s: Seq<char>, i: int) -> int
    decreases s.len() - i,
{
    if 0 <= i < s.len() && is_dec(s[i]) {
        digits_end(s, i + 1)
    } else {
        i
    }
}

/// End of the run of whitespace starting at `i`.
pub open spec fn ws_end(s: Seq<char>, i: int) -> int
    decreases s.len() - i,
{
    if 0 <= i < s.len() && is_ws(s[i]) {
        ws_end(s, i + 1)
    } else {
        i
    }
}

/// Length of the comparison operator at `a`: `>=`/`<=` (2), `>`/`<` (1),
/// `=` (1, only where `allow_eq`), else 0.
pub open spec fn op_len(s: Seq<char>, a: int, allow_eq: bool) -> int {
    if 0 <= a < s.len() && (s[a] == '>' || s[a] == '<') {
        if a + 1 < s.len() && s[a + 1] == '=' {
            2
        } else {
            1
        }
    } else if allow_eq && 0 <= a < s.len() && s[a] == '=' {
        1
    } else {
        0
    }
}

/// `size:` (case-insensitive) at `p`.
pub open spec fn size_prefix_at(s: Seq<char>, p: int) -> bool {
    &&& 0 <= p
    &&& p + 5 <= s.len()
    &&& letter_ci(s[p], 's')
    &&& letter_ci(s[p + 1], 'i')
    &&& letter_ci(s[p + 2], 'z')
    &&& letter_ci(s[p + 3], 'e')
    &&& s[p + 4] == ':'
}

/// A character that continues a word: an ASCII letter, digit or `_`, or a
/// non-ASCII alphanumeric character.
pub open spec fn is_word_char(c: char) -> bool {
    let u = c as u32;
    ||| (48 <= u <= 57) || (65 <= u <= 90) || (97 <= u <= 122) || u == 95
    ||| (u >= 0x80 && char_alphanumeric(c))
}

fn is_word_char_exec(c: char) -> (b: bool)
    ensures
        b == is_word_char(c),
{
    let u = c as u32;
    (48 <= u && u <= 57) || (65 <= u && u <= 90) || (97 <= u && u <= 122) || u == 95 || (u
        >= 0x80 && is_alphanumeric(c))
}

/// A size filter starting at `p`: `size:`, an optional operator
/// (`>=`, `<=`, `>`, `<`, `=`), a number `\d+(\.\d+)?`, and optionally a
/// unit `[bkmgtp]b?` (case-insensitive). A unit right after the number is
/// always taken; one that follows after spaces only where it ends at a word
/// boundary. Without a unit the filter ends right after the number, so the
/// spaces and words that follow are left alone.
/// The result gives the bounds `(op_start, num_start, num_end, unit_start,
/// end)`: the operator is `s[op_start..num_start]`, the number
/// `s[num_start..num_end]` and the unit `s[unit_start..end]`.
pub open spec fn size_match(s: Seq<char>, p: int) -> Option<(int, int, int, int, int)> {
    if size_prefix_at(s, p) {
        let a = p + 5;
        let b = a + op_len(s, a, true);
        if b < s.len() && is_dec(s[b]) {
            let c = digits_end(s, b);
            let d = if c + 1 < s.len() && s[c] == '.' && is_dec(s[c + 1]) {
                digits_end(s, c + 1)
            } else {
                c
            };
            let e = ws_end(s, d);
            let f = if e < s.len() && is_unit_letter(s[e]) {
                e + 1
            } else {
                e
            };
            let g = if f < s.len() && letter_ci(s[f], 'b') {
                f + 1
            } else {
                f
            };
            if g > e && (e == d || g == s.len() || !is_word_char(s[g])) {
                Some((a, b, d, e, g))
            } else {
                Some((a, b, d, d, d))
            }
        } else {
            None
        }
    } else {
        None
    }
}

/// The well-formed numbers of a size filter: `\d+(\.\d+)?`.
pub open spec fn is_size_number(num: Seq<char>) -> bool {
    let c = digits_end(num, 0);
    &&& c >= 1
    &&& c == num.len() || (num[c] == '.' && c + 1 < num.len() && all_dec(num.skip(c + 1)))
}

/// The well-formed units of a size filter: `[bkmgtp]?b?` (case-insensitive).
pub open spec fn is_size_unit(unit: Seq<char>) -> bool {
    &&& unit.len() <= 2
    &&& unit.len() >= 1 ==> is_unit_letter(unit[0])
    &&& unit.len() == 2 ==> letter_ci(unit[1], 'b')
}

/// Integer digits of a size number.
pub open spec fn int_part(num: Seq<char>) -> Seq<char> {
    num.take(digits_end(num, 0))
}

/// Fraction digits of a size number (empty when there is no `.`).
pub open spec fn frac_part(num: Seq<char>) -> Seq<char> {
    let c = digits_end(num, 0);
    if c < num.len() {
        num.skip(c + 1)
    } else {
        Seq::empty()
    }
}

/// Multiplier of a unit: `1024^k` for `k, m, g, t, p`; 1 for no unit or
/// a unit starting with `b`.
pub open spec fn unit_multiplier(unit: Seq<char>) -> nat {
    if unit.len() == 0 {
        1
    } else {
        pow_nat(1024, unit_exp(unit[0]))
    }
}

/// Byte count of a size: `floor(number * multiplier)`, saturated at
/// `u64::MAX`. A number written with other than ASCII digits does not read
/// as a number and counts as 0.
pub open spec fn size_bytes(num: Seq<char>, unit: Seq<char>) -> nat {
    let fp = frac_part(num);
    let scale = pow_nat(10, fp.len());
    let exact = ((digits_value(int_part(num)) * scale + digits_value(fp)) * unit_multiplier(unit))
        / scale;
    if !(all_digits(int_part(num)) && all_digits(fp)) {
        0
    } else if exact > u64::MAX {
        u64::MAX as nat
    } else {
        exact
    }
}

proof fn lemma_digits_end(s: Seq<char>, i: int)
    requires
        0 <= i <= s.len(),
    ensures
        i <= digits_end(s, i) <= s.len(),
        forall|k: int| i <= k < digits_end(s, i) ==> is_dec(#[trigger] s[k]),
        digits_end(s, i) < s.len() ==> !is_dec(s[digits_end(s, i)]),
    decreases s.len() - i,
{
    if i < s.len() && is_dec(s[i]) {
        lemma_digits_end(s, i + 1);
    }
}

proof fn lemma_ws_end(s: Seq<char>, i: int)
    requires
        0 <= i <= s.len(),
    ensures
        i <= ws_end(s, i) <= s.len(),
    decreases s.len() - i,
{
    if i < s.len() && is_ws(s[i]) {
        lemma_ws_end(s, i + 1);
    }
}

pub proof fn lemma_size_match_bounds(s: Seq<char>, p: int)
    ensures
        size_match(s, p) matches Some(m) ==> {
            &&& p + 5 == m.0 && m.0 <= m.1 < m.2 <= m.3 <= m.4 <= s.len()
            &&& is_size_number(s.subrange(m.1, m.2))
            &&& is_size_unit(s.subrange(m.3, m.4))
            &&& m.1 - m.0 == op_len(s, m.0, true)
        },
{
    if size_match(s, p) is Some {
        let a = p + 5;
        let b = a + op_len(s, a, true);
        lemma_digits_end(s, b);
        let c = digits_end(s, b);
        let d = if c + 1 < s.len() && s[c] == '.' && is_dec(s[c + 1]) {
            lemma_digits_end(s, c + 1);
            digits_end(s, c + 1)
        } else {
            c
        };
        lemma_ws_end(s, d);
        let m = size_match(s, p).unwrap();
        let num = s.subrange(b, d);
        lemma_num_shape(s, b, c, d);
    }
}

/// The number captured between `b` and `d` has the `\d+(\.\d+)?` shape and
/// splits at `c` into integer and fraction digits.
proof fn lemma_num_shape(s: Seq<char>, b: int, c: int, d: int)
    requires
        0 <= b < s.len(),
        is_dec(s[b]),
        c == digits_end(s, b),
        d == (if c + 1 < s.len() && s[c] == '.' && is_dec(s[c + 1]) {
            digits_end(s, c + 1)
        } else {
            c
        }),
    ensures
        is_size_number(s.subrange(b, d)),
        digits_end(s.subrange(b, d), 0) == c - b,
        int_part(s.subrange(b, d)) =~= s.subrange(b, c),
        frac_part(s.subrange(b, d)) =~= (if d > c {
            s.subrange(c + 1, d)
        } else {
            Seq::empty()
        }),
{
    lemma_digits_end(s, b);
    let num = s.subrange(b, d);
    if c + 1 < s.len() && s[c] == '.' && is_dec(s[c + 1]) {
        lemma_digits_end(s, c + 1);
    }
    // digits_end on the captured run stops exactly at c - b
    assert forall|k: int| 0 <= k <= c - b implies digits_end(num, k) == c - b by {
        lemma_digits_end_sub(s, b, c, d, k);
    }
    if d > c {
        assert(num.skip(c - b + 1) =~= s.subrange(c + 1, d));
    }
}

proof fn lemma_digits_end_sub(s: Seq<char>, b: int, c: int, d: int, k: int)
    requires
        0 <= b <= c <= d <= s.len(),
        forall|j: int| b <= j < c ==> is_dec(#[trigger] s[j]),
        c < d ==> !is_dec(s[c]),
        0 <= k <= c - b,
    ensures
        digits_end(s.subrange(b, d), k) == c - b,
    decreases c - b - k,
{
    let num = s.subrange(b, d);
    if k < c - b {
        assert(num[k] == s[b + k]);
        lemma_digits_end_sub(s, b, c, d, k + 1);
    } else {
        if k < num.len() {
            assert(num[k] == s[c]);
        }
    }
}

/// Copies `v[a..b]`.
fn sub_vec(v: &Vec<char>, a: usize, b: usize) -> (r: Vec<char>)
    requires
        a <= b <= v.len(),
    ensures
        r@ == v@.subrange(a as int, b as int),
{
    let mut r: Vec<char> = Vec::new();
    let mut i = a;
    while i < b
        invariant
            a <= i <= b <= v.len(),
            r@ == v@.subrange(a as int, i as int),
        decreases b - i,
    {
        r.push(v[i]);
        i = i + 1;
    }
    r
}

fn is_digit_exec(c: char) -> (b: bool)
    ensures
        b == is_digit(c),
{
    let u = c as u32;
    48 <= u && u <= 57
}

/// Executable `is_dec`: ASCII digits are read directly, other non-ASCII
/// characters are put to the compiled `\d` regex.
fn is_dec_exec(c: char, dre: &Option<CompiledRegex>) -> (b: bool)
    requires
        decimal_regex(*dre),
    ensures
        b == is_dec(c),
{
    if is_digit_exec(c) {
        return true;
    }
    if (c as u32) < 128 {
        return false;
    }
    match dre {
        Some(r) => {
            let mut one = String::new();
            push_char(&mut one, c);
            proof {
                assert(one@ =~= seq![c]);
            }
            regex_find(r, one.as_str()).is_some()
        },
        None => false,
    }
}

/// Compiles the `\d` regex (`None` where it does not compile).
fn decimal_regex_exec() -> (dre: Option<CompiledRegex>)
    ensures
        decimal_regex(dre),
{
    let mut pattern = String::new();
    push_char(&mut pattern, '\\');
    push_char(&mut pattern, 'd');
    proof {
        assert(pattern@ =~= decimal_pattern());
    }
    match compile_regex(pattern.as_str()) {
        Ok(r) => Some(r),
        Err(_) => None,
    }
}

/// Executable `digits_end`.
fn digits_end_exec(v: &Vec<char>, i: usize, dre: &Option<CompiledRegex>) -> (j: usize)
    requires
        i <= v.len(),
        decimal_regex(*dre),
    ensures
        j == digits_end(v@, i as int),
        i <= j <= v.len(),
{
    let mut j = i;
    while j < v.len() && is_dec_exec(v[j], dre)
        invariant
            i <= j <= v.len(),
            decimal_regex(*dre),
            digits_end(v@, j as int) == digits_end(v@, i as int),
        decreases v.len() - j,
    {
        j = j + 1;
    }
    j
}

/// Whether `v[a..b]` is all ASCII digits.
fn ascii_digits_exec(v: &Vec<char>, a: usize, b: usize) -> (r: bool)
    requires
        a <= b <= v.len(),
    ensures
        r == all_digits(v@.subrange(a as int, b as int)),
{
    let mut i = a;
    while i < b
        invariant
            a <= i <= b <= v.len(),
            forall|k: int| a <= k < i ==> is_digit(#[trigger] v@[k]),
        decreases b - i,
    {
        if !is_digit_exec(v[i]) {
            proof {
                assert(v@.subrange(a as int, b as int)[i - a] == v@[i as int]);
            }
            return false;
        }
        i = i + 1;
    }
    proof {
        assert forall|k: int| 0 <= k < b - a implies is_digit(
            #[trigger] v@.subrange(a as int, b as int)[k],
        ) by {
            assert(v@.subrange(a as int, b as int)[k] == v@[a + k]);
        }
    }
    true
}

/// Executable `ws_end`.
fn ws_end_exec(v: &Vec<char>, i: usize) -> (j: usize)
    requires
        i <= v.len(),
    ensures
        j == ws_end(v@, i as int),
        i <= j <= v.len(),
{
    let mut j = i;
    while j < v.len() && is_whitespace(v[j])
        invariant
            i <= j <= v.len(),
            ws_end(v@, j as int) == ws_end(v@, i as int),
        decreases v.len() - j,
    {
        j = j + 1;
    }
    j
}

fn is_unit_letter_exec(c: char) -> (b: bool)
    ensures
        b == is_unit_letter(c),
{
    letter_ci_exec(c, 'b') || letter_ci_exec(c, 'k') || letter_ci_exec(c, 'm') || letter_ci_exec(
        c,
        'g',
    ) || letter_ci_exec(c, 't') || letter_ci_exec(c, 'p')
}

/// Convert a size number with a unit into bytes: `floor(num * 1024^k)`
/// where the unit picks `k` (`b`/none 0, `k` 1, `m` 2, `g` 3, `t` 4, `p` 5),
/// saturated at `u64::MAX`. The fraction is evaluated exactly.
fn to_bytes(num: &Vec<char>, unit: &Vec<char>, dre: &Option<CompiledRegex>) -> (n: u64)
    requires
        is_size_number(num@),
        is_size_unit(unit@),
        decimal_regex(*dre),
    ensures
        n == size_bytes(num@, unit@),
{
    let c = digits_end_exec(num, 0, dre);
    proof {
        lemma_digits_end(num@, 0);
        assert(int_part(num@) =~= num@.subrange(0, c as int));
        if c < num.len() {
            assert(frac_part(num@) =~= num@.subrange(c + 1, num.len() as int));
        } else {
            assert(frac_part(num@) =~= num@.subrange(num.len() as int, num.len() as int));
        }
    }
    let ascii_int = ascii_digits_exec(num, 0, c);
    let ascii_frac = if c < num.len() {
        ascii_digits_exec(num, c + 1, num.len())
    } else {
        ascii_digits_exec(num, num.len(), num.len())
    };
    if !(ascii_int && ascii_frac) {
        return 0;
    }
    proof {
        assert forall|q: int| 0 <= q < c implies is_digit(#[trigger] num@[q]) by {
            assert(num@.subrange(0, c as int)[q] == num@[q]);
        }
    }
    // multiplier
    let k: u64 = if unit.len() == 0 {
        0
    } else {
        let u = unit[0];
        if letter_ci_exec(u, 'k') {
            1
        } else if letter_ci_exec(u, 'm') {
            2
        } else if letter_ci_exec(u, 'g') {
            3
        } else if letter_ci_exec(u, 't') {
            4
        } else if letter_ci_exec(u, 'p') {
            5
        } else {
            0
        }
    };
    let mut m: u64 = 1;
    let mut j: u64 = 0;
    proof {
        lemma_pow_1024_values();
    }
    while j < k
        invariant
            j <= k <= 5,
            m == pow_nat(1024, j as nat),
            m <= pow_nat(1024, 5),
        decreases k - j,
    {
        proof {
            lemma_pow_1024_values();
            assert(m * 1024 <= pow_nat(1024, 5)) by {
                lemma_pow_mono_1024(j as nat);
            }
        }
        m = m * 1024;
        j = j + 1;
    }
    assert(m == unit_multiplier(unit@));
    proof {
        lemma_pow_1024_values();
    }
    // integer part, saturating once it passes u64::MAX
    let ghost ip = num@.take(c as int);
    let mut iv: u128 = 0;
    let mut big = false;
    let mut i: usize = 0;
    while i < c
        invariant
            c == digits_end(num@, 0),
            c <= num.len(),
            forall|q: int| 0 <= q < c ==> is_digit(#[trigger] num@[q]),
            i <= c,
            ip == num@.take(c as int),
            !big ==> iv == digits_value(ip.take(i as int)) && iv <= u64::MAX,
            big ==> digits_value(ip.take(i as int)) > u64::MAX,
        decreases c - i,
    {
        let d = (num[i] as u32 - 48) as u128;
        proof {
            assert(ip.take(i + 1).drop_last() =~= ip.take(i as int));
            assert(ip.take(i + 1).last() == num@[i as int]);
        }
        if !big {
            iv = iv * 10 + d;
            if iv > u64::MAX as u128 {
                big = true;
            }
        } else {
            proof {
                let v = digits_value(ip.take(i as int));
                assert(v <= v * 10 + digit_val(num@[i as int]));
            }
        }
        i = i + 1;
    }
    assert(ip.take(c as int) =~= ip);
    assert(ip =~= int_part(num@));
    // fraction part, evaluated from the last digit: y = floor(0.f1..fn * m)
    let ghost fp = frac_part(num@);
    let mut y: u64 = 0;
    if c < num.len() {
        let ghost l = fp.len();
        assert(fp =~= num@.skip(c + 1));
        let mut t: usize = num.len();
        proof {
            assert(fp.skip(t - c - 1) =~= Seq::<char>::empty());
            assert(digits_value(Seq::<char>::empty()) == 0);
            assert(pow_nat(10, 0) == 1);
        }
        while t > c + 1
            invariant
                c + 1 <= t <= num.len(),
                c < num.len(),
                fp =~= num@.skip(c + 1),
                all_digits(fp),
                m == unit_multiplier(unit@),
                1 <= m <= 1125899906842624,
                y == (digits_value(fp.skip(t - c - 1)) * m) / (pow_nat(10, (num.len() - t) as nat) as int),
                y < m,
            decreases t,
        {
            t = t - 1;
            proof {
                assert(fp[t - c - 1] == num@[t as int]);
                assert(is_digit(fp[t - c - 1]));
            }
            let f = (num[t] as u32 - 48) as u64;
            proof {
                let g = fp.skip(t - c - 1);
                let g1 = fp.skip(t - c);
                assert(g.drop_first() =~= g1);
                assert(g[0] == num@[t as int]);
                assert(is_digit(g[0]));
                lemma_digits_value_first(g);
                let cc = pow_nat(10, (num.len() - t - 1) as nat);
                lemma_pow_pos(10, (num.len() - t - 1) as nat);
                assert(pow_nat(10, (num.len() - t) as nat) == 10 * cc);
                lemma_frac_step(f as nat, digits_value(g1), m as nat, cc);
                assert(all_digits(g)) by {
                    assert forall|q: int| 0 <= q < g.len() implies is_digit(#[trigger] g[q]) by {
                        assert(g[q] == fp[q + (t - c - 1)]);
                    }
                }
                lemma_digits_value_bound(g);
                assert(g.len() == num.len() - t);
                lemma_mul_div_lt(digits_value(g), pow_nat(10, g.len()), m as nat);
            }
            assert((m as int) * (f as int) + (y as int) <= 10 * (m as int)) by (nonlinear_arith)
                requires
                    f <= 9,
                    y < m,
            ;
            assert(10 * (m as int) <= u64::MAX);
            let prod: u64 = m * f;
            y = (prod + y) / 10;
            proof {
                assert(prod == f * m) by (nonlinear_arith)
                    requires
                        prod == m * f,
                ;
            }
        }
        proof {
            assert(fp.skip(0) =~= fp);
            assert(num.len() - t == fp.len());
        }
    } else {
        proof {
            assert(fp.len() == 0);
            assert(digits_value(fp) == 0);
            assert(pow_nat(10, 0) == 1);
        }
    }
    // y == floor(frac * m) now
    proof {
        lemma_pow_pos(1024, j as nat);
        assert(y <= m);
        lemma_pow_pos(10, fp.len());
        lemma_split_int_frac(digits_value(ip), digits_value(fp), m as nat, pow_nat(10, fp.len()));
    }
    if big {
        proof {
            let a = digits_value(ip);
            let b = digits_value(fp);
            let p = pow_nat(10, fp.len());
            lemma_digits_value_prefix(ip, i as int);
            assert(a * m >= a) by (nonlinear_arith)
                requires
                    m >= 1,
            ;
            assert(a * m + (b * m) / (p as int) >= a * m) by {
                assert((b * m) / (p as int) >= 0);
            }
        }
        u64::MAX
    } else {
        proof {
            assert(ip.take(c as int) =~= ip);
        }
        proof {
            assert((iv as int) * (m as int) + (y as int) <= u128::MAX) by (nonlinear_arith)
                requires
                    iv <= u64::MAX,
                    m <= 1125899906842624,
                    y <= m,
            ;
        }
        let total: u128 = iv * (m as u128) + (y as u128);
        if total > u64::MAX as u128 {
            u64::MAX
        } else {
            total as u64
        }
    }
}

proof fn lemma_pow_1024_values()
    ensures
        pow_nat(1024, 0) == 1,
        pow_nat(1024, 1) == 1024,
        pow_nat(1024, 2) == 1048576,
        pow_nat(1024, 3) == 1073741824,
        pow_nat(1024, 4) == 1099511627776,
        pow_nat(1024, 5) == 1125899906842624,
{
    assert(pow_nat(1024, 0) == 1);
    assert(pow_nat(1024, 1) == 1024 * pow_nat(1024, 0));
    assert(pow_nat(1024, 2) == 1024 * pow_nat(1024, 1));
    assert(pow_nat(1024, 3) == 1024 * pow_nat(1024, 2));
    assert(pow_nat(1024, 4) == 1024 * pow_nat(1024, 3));
    assert(pow_nat(1024, 5) == 1024 * pow_nat(1024, 4));
}

proof fn lemma_pow_mono_1024(j: nat)
    requires
        j < 5,
    ensures
        pow_nat(1024, j) * 1024 <= pow_nat(1024, 5),
{
    lemma_pow_1024_values();
}

/// `v < p` implies `v * m / p < m`.
proof fn lemma_mul_div_lt(v: nat, p: nat, m: nat)
    requires
        v < p,
        m > 0,
    ensures
        (v * m) / p < m,
{
    assert(v * m < p * m) by (nonlinear_arith)
        requires
            v < p,
            m > 0,
    ;
    vstd::arithmetic::div_mod::lemma_multiply_divide_lt((v * m) as int, p as int, m as int);
}

/// The operator kept in a rewritten size filter: `=` is dropped (equality is
/// the default), the others are kept.
pub open spec fn size_op_out(op: Seq<char>) -> Seq<char> {
    if op =~= seq!['='] {
        Seq::empty()
    } else {
        op
    }
}

/// `size:` followed by the kept operator and the byte count.
pub open spec fn size_replacement(s: Seq<char>, m: (int, int, int, int, int)) -> Seq<char> {
    seq!['s', 'i', 'z', 'e', ':'] + size_op_out(s.subrange(m.0, m.1)) + decimal(
        size_bytes(s.subrange(m.1, m.2), s.subrange(m.3, m.4)),
    )
}

/// Rewrite every size filter of `s[i..]`, scanning left to right and
/// resuming after each filter (leftmost-first, non-overlapping).
pub open spec fn rewrite_sizes_from(s: Seq<char>, i: int) -> Seq<char>
    decreases s.len() - i,
{
    if 0 <= i < s.len() {
        match size_match(s, i) {
            Some(m) => {
                proof {
                    lemma_size_match_bounds(s, i);
                }
                size_replacement(s, m) + rewrite_sizes_from(s, m.4)
            },
            None => seq![s[i]] + rewrite_sizes_from(s, i + 1),
        }
    } else {
        Seq::empty()
    }
}

/// Executable `size_match`.
fn size_match_at(v: &Vec<char>, p: usize, dre: &Option<CompiledRegex>) -> (r: Option<(usize, usize, usize, usize, usize)>)
    requires
        p <= v.len(),
        decimal_regex(*dre),
    ensures
        match r {
            Some(t) => size_match(v@, p as int) == Some(
                (t.0 as int, t.1 as int, t.2 as int, t.3 as int, t.4 as int),
            ),
            None => size_match(v@, p as int) is None,
        },
{
    let n = v.len();
    if !(n >= 5 && p <= n - 5) {
        return None;
    }
    if !(letter_ci_exec(v[p], 's') && letter_ci_exec(v[p + 1], 'i') && letter_ci_exec(v[p + 2], 'z')
        && letter_ci_exec(v[p + 3], 'e') && v[p + 4] == ':') {
        return None;
    }
    let a = p + 5;
    let b = if a < n && (v[a] == '>' || v[a] == '<') {
        if a + 1 < n && v[a + 1] == '=' {
            a + 2
        } else {
            a + 1
        }
    } else if a < n && v[a] == '=' {
        a + 1
    } else {
        a
    };
    if !(b < n && is_dec_exec(v[b], dre)) {
        return None;
    }
    let c = digits_end_exec(v, b, dre);
    let d = if c < n && c + 1 < n && v[c] == '.' && is_dec_exec(v[c + 1], dre) {
        digits_end_exec(v, c + 1, dre)
    } else {
        c
    };
    let e = ws_end_exec(v, d);
    let f = if e < n && is_unit_letter_exec(v[e]) {
        e + 1
    } else {
        e
    };
    let g = if f < n && letter_ci_exec(v[f], 'b') {
        f + 1
    } else {
        f
    };
    if g > e && (e == d || g == n || !is_word_char_exec(v[g])) {
        Some((a, b, d, e, g))
    } else {
        Some((a, b, d, d, d))
    }
}

/// Appends all of `w`.
fn push_all(out: &mut Vec<char>, w: &Vec<char>)
    ensures
        final(out)@ == old(out)@ + w@,
{
    let mut i: usize = 0;
    while i < w.len()
        invariant
            i <= w.len(),
            out@ == old(out)@ + w@.take(i as int),
        decreases w.len() - i,
    {
        out.push(w[i]);
        i = i + 1;
        proof {
            assert(w@.take(i as int) =~= w@.take(i - 1).push(w@[i - 1]));
        }
    }
    assert(w@.take(w.len() as int) =~= w@);
}

/// Appends the decimal rendering of `n` to a character buffer.
fn push_decimal_chars(out: &mut Vec<char>, n: u64)
    ensures
        final(out)@ == old(out)@ + decimal(n as nat),
{
    let mut s = String::new();
    push_decimal(&mut s, n);
    let w = chars_of(s.as_str());
    push_all(out, &w);
}

/// Rewrite the size filters of `input`: `size:>10mb` becomes
/// `size:>10485760`, `size:=2kb` becomes `size:2048`.
fn map_sizes(input: &Vec<char>, dre: &Option<CompiledRegex>) -> (out: Vec<char>)
    requires
        decimal_regex(*dre),
    ensures
        out@ == rewrite_sizes_from(input@, 0),
{
    let mut out: Vec<char> = Vec::new();
    let mut i: usize = 0;
    while i < input.len()
        invariant
            i <= input.len(),
            decimal_regex(*dre),
            out@ + rewrite_sizes_from(input@, i as int) == rewrite_sizes_from(input@, 0),
        decreases input.len() - i,
    {
        match size_match_at(input, i, dre) {
            Some(m) => {
                proof {
                    lemma_size_match_bounds(input@, i as int);
                }
                let ghost before = out@;
                out.push('s');
                out.push('i');
                out.push('z');
                out.push('e');
                out.push(':');
                let is_eq = m.1 - m.0 == 1 && input[m.0] == '=';
                if !is_eq {
                    let mut q = m.0;
                    while q < m.1
                        invariant
                            m.0 <= q <= m.1 <= input.len(),
                            out@ == before + seq!['s', 'i', 'z', 'e', ':'] + input@.subrange(
                                m.0 as int,
                                q as int,
                            ),
                        decreases m.1 - q,
                    {
                        out.push(input[q]);
                        q = q + 1;
                        proof {
                            assert(input@.subrange(m.0 as int, q as int) =~= input@.subrange(
                                m.0 as int,
                                q - 1,
                            ).push(input@[q - 1]));
                        }
                    }
                }
                proof {
                    let op = input@.subrange(m.0 as int, m.1 as int);
                    if is_eq {
                        assert(op =~= seq!['=']);
                        assert(out@ =~= before + seq!['s', 'i', 'z', 'e', ':'] + size_op_out(op));
                    } else {
                        assert(!(op =~= seq!['='])) by {
                            if op =~= seq!['='] {
                                assert(op[0] == input@[m.0 as int]);
                            }
                        }
                        assert(out@ =~= before + seq!['s', 'i', 'z', 'e', ':'] + size_op_out(op));
                    }
                }
                let num = sub_vec(input, m.1, m.2);
                let unit = sub_vec(input, m.3, m.4);
                let bytes = to_bytes(&num, &unit, dre);
                push_decimal_chars(&mut out, bytes);
                proof {
                    assert(out@ =~= before + size_replacement(input@, (m.0 as int, m.1 as int, m.2 as int, m.3 as int, m.4 as int)));
                }
                i = m.4;
            },
            None => {
                out.push(input[i]);
                i = i + 1;
            },
        }
    }
    out
}

// ---------------------------------------------------------------------------
// The date-filter grammar
// ---------------------------------------------------------------------------

/// Gregorian leap year.
pub open spec fn is_leap(y: int) -> bool {
    (y % 4 == 0 && y % 100 != 0) || y % 400 == 0
}

/// Days in month `m` of year `y`.
pub open spec fn month_days(y: int, m: int) -> int {
    if m == 2 {
        if is_leap(y) {
            29
        } else {
            28
        }
    } else if m == 4 || m == 6 || m == 9 || m == 11 {
        30
    } else {
        31
    }
}

/// A real calendar day.
pub open spec fn valid_date(y: int, m: int, d: int) -> bool {
    1 <= m <= 12 && 1 <= d <= month_days(y, m)
}

/// Days in year `y`.
pub open spec fn year_days(y: int) -> int {
    if is_leap(y) {
        366
    } else {
        365
    }
}

/// Days from 1970-01-01 to January 1st of `y` (for `y >= 1970`).
pub open spec fn days_before_year(y: int) -> int
    decreases y - 1970,
{
    if y <= 1970 {
        0
    } else {
        days_before_year(y - 1) + year_days(y - 1)
    }
}

/// Days from January 1st to the first of month `m` in year `y`.
pub open spec fn days_before_month(y: int, m: int) -> int
    decreases m,
{
    if m <= 1 {
        0
    } else {
        days_before_month(y, m - 1) + month_days(y, m - 1)
    }
}

/// Days since the Unix epoch of the day `y-m-d`.
pub open spec fn unix_day(y: int, m: int, d: int) -> int {
    days_before_year(y) + days_before_month(y, m) + d - 1
}

/// The shape `\d{4}-\d{2}-\d{2}` at position `b`.
pub open spec fn date_shape_at(s: Seq<char>, b: int) -> bool {
    &&& 0 <= b
    &&& b + 10 <= s.len()
    &&& is_dec(s[b]) && is_dec(s[b + 1]) && is_dec(s[b + 2]) && is_dec(s[b + 3])
    &&& s[b + 4] == '-'
    &&& is_dec(s[b + 5]) && is_dec(s[b + 6])
    &&& s[b + 7] == '-'
    &&& is_dec(s[b + 8]) && is_dec(s[b + 9])
}

/// The same shape written with ASCII digits only.
pub open spec fn ascii_date_at(s: Seq<char>, b: int) -> bool {
    &&& 0 <= b
    &&& b + 10 <= s.len()
    &&& is_digit(s[b]) && is_digit(s[b + 1]) && is_digit(s[b + 2]) && is_digit(s[b + 3])
    &&& s[b + 4] == '-'
    &&& is_digit(s[b + 5]) && is_digit(s[b + 6])
    &&& s[b + 7] == '-'
    &&& is_digit(s[b + 8]) && is_digit(s[b + 9])
}

/// Year, month and day written in a `dddd-dd-dd` string.
pub open spec fn ymd_of(s: Seq<char>) -> (int, int, int) {
    (
        digits_value(s.subrange(0, 4)) as int,
        digits_value(s.subrange(5, 7)) as int,
        digits_value(s.subrange(8, 10)) as int,
    )
}

/// Unix timestamp (seconds) of midnight UTC of a `dddd-dd-dd` date; `None`
/// for a date not written in ASCII digits, an impossible date or one before
/// 1970.
pub open spec fn date_epoch(s: Seq<char>) -> Option<nat> {
    let (y, m, d) = ymd_of(s);
    if ascii_date_at(s, 0) && valid_date(y, m, d) && y >= 1970 {
        Some((unix_day(y, m, d) * 86400) as nat)
    } else {
        None
    }
}

/// `chrono::NaiveDate::parse_from_str(s, "%Y-%m-%d")` on a `dddd-dd-dd`
/// string, returning the parsed year, month and day. The contract states
/// that chrono accepts exactly the real proleptic-Gregorian calendar days
/// and hands back the written numbers.
#[verifier::external_body]
fn parse_ymd(s: &str) -> (r: Option<(i32, u32, u32)>)
    requires
        s@.len() == 10,
        ascii_date_at(s@, 0),
    ensures
        r == (if valid_date(ymd_of(s@).0, ymd_of(s@).1, ymd_of(s@).2) {
            Some((ymd_of(s@).0 as i32, ymd_of(s@).1 as u32, ymd_of(s@).2 as u32))
        } else {
            None
        }),
{
    chrono::NaiveDate::parse_from_str(s, "%Y-%m-%d").ok().map(|d| (d.year(), d.month(), d.day()))
}

proof fn lemma_days_before_year_bound(y: int)
    requires
        y >= 1970,
    ensures
        0 <= days_before_year(y) <= (y - 1970) * 366,
    decreases y - 1970,
{
    if y > 1970 {
        lemma_days_before_year_bound(y - 1);
    }
}

proof fn lemma_days_before_month_bound(y: int, m: int)
    requires
        1 <= m <= 12,
    ensures
        0 <= days_before_month(y, m) <= (m - 1) * 31,
    decreases m,
{
    if m > 1 {
        lemma_days_before_month_bound(y, m - 1);
    }
}

fn is_leap_exec(y: u64) -> (b: bool)
    ensures
        b == is_leap(y as int),
{
    (y % 4 == 0 && y % 100 != 0) || y % 400 == 0
}

fn month_days_exec(y: u64, m: u64) -> (n: u64)
    ensures
        n == month_days(y as int, m as int),
{
    if m == 2 {
        if is_leap_exec(y) {
            29
        } else {
            28
        }
    } else if m == 4 || m == 6 || m == 9 || m == 11 {
        30
    } else {
        31
    }
}

/// Unix timestamp of midnight UTC of a `dddd-dd-dd` date (`None` for an
/// invalid date or a date before 1970).
fn date_to_epoch(ymd: &Vec<char>) -> (r: Option<u64>)
    requires
        ymd.len() == 10,
        date_shape_at(ymd@, 0),
    ensures
        r == (match date_epoch(ymd@) {
            Some(t) => Some(t as u64),
            None => None,
        }),
        r matches Some(t) ==> t < 400_000_000_000,
        date_epoch(ymd@) matches Some(t) ==> t < 400_000_000_000,
{
    if !ascii_date_exec(ymd, 0) {
        return None;
    }
    let text = string_of(ymd.as_slice());
    let parsed = parse_ymd(text.as_str());
    let (y, m, d) = match parsed {
        Some(t) => t,
        None => return None,
    };
    proof {
        let q = ymd_of(ymd@);
        lemma_digits_value_bound(ymd@.subrange(0, 4));
        assert(all_digits(ymd@.subrange(0, 4)));
        assert(pow_nat(10, 4) == 10000) by {
            assert(pow_nat(10, 0) == 1);
            assert(pow_nat(10, 1) == 10 * pow_nat(10, 0));
            assert(pow_nat(10, 2) == 10 * pow_nat(10, 1));
            assert(pow_nat(10, 3) == 10 * pow_nat(10, 2));
            assert(pow_nat(10, 4) == 10 * pow_nat(10, 3));
        }
        assert(0 <= q.0 < 10000);
    }
    if y < 1970 {
        return None;
    }
    let yy = y as u64;
    let mm = m as u64;
    let dd = d as u64;
    let mut days: u64 = 0;
    let mut cur: u64 = 1970;
    while cur < yy
        invariant
            1970 <= cur <= yy < 10000,
            days == days_before_year(cur as int),
            days <= (cur - 1970) * 366,
        decreases yy - cur,
    {
        days = days + if is_leap_exec(cur) {
            366
        } else {
            365
        };
        cur = cur + 1;
    }
    let mut k: u64 = 1;
    while k < mm
        invariant
            1 <= k <= mm <= 12,
            1970 <= yy < 10000,
            days == days_before_year(yy as int) + days_before_month(yy as int, k as int),
            days <= (yy - 1970) * 366 + (k - 1) * 31,
        decreases mm - k,
    {
        days = days + month_days_exec(yy, k);
        k = k + 1;
    }
    days = days + dd - 1;
    Some(days * 86400)
}

/// `mtime:` (case-insensitive) at `p`.
pub open spec fn mtime_prefix_at(s: Seq<char>, p: int) -> bool {
    &&& 0 <= p
    &&& p + 6 <= s.len()
    &&& letter_ci(s[p], 'm')
    &&& letter_ci(s[p + 1], 't')
    &&& letter_ci(s[p + 2], 'i')
    &&& letter_ci(s[p + 3], 'm')
    &&& letter_ci(s[p + 4], 'e')
    &&& s[p + 5] == ':'
}

/// A date filter at `p`, following `mtime:(>=|<=|>|<)?(\d{4}-\d{2}-\d{2})`
/// (case-insensitive). The result gives `(op_start, date_start, end)`.
pub open spec fn mtime_match(s: Seq<char>, p: int) -> Option<(int, int, int)> {
    if mtime_prefix_at(s, p) {
        let a = p + 6;
        let b = a + op_len(s, a, false);
        if date_shape_at(s, b) {
            Some((a, b, b + 10))
        } else {
            None
        }
    } else {
        None
    }
}

/// `mtime:` followed by the operator and the Unix timestamp of the date
/// (0 when the date is impossible or before 1970).
pub open spec fn mtime_replacement(s: Seq<char>, m: (int, int, int)) -> Seq<char> {
    let epoch = match date_epoch(s.subrange(m.1, m.2)) {
        Some(t) => t,
        None => 0,
    };
    seq!['m', 't', 'i', 'm', 'e', ':'] + s.subrange(m.0, m.1) + decimal(epoch)
}

pub proof fn lemma_mtime_match_bounds(s: Seq<char>, p: int)
    ensures
        mtime_match(s, p) matches Some(m) ==> p + 6 == m.0 <= m.1 && m.1 + 10 == m.2 <= s.len()
            && m.1 - m.0 == op_len(s, m.0, false),
{
}

/// Rewrite every date filter of `s[i..]`, leftmost-first.
pub open spec fn rewrite_mtimes_from(s: Seq<char>, i: int) -> Seq<char>
    decreases s.len() - i,
{
    if 0 <= i < s.len() {
        match mtime_match(s, i) {
            Some(m) => {
                proof {
                    lemma_mtime_match_bounds(s, i);
                }
                mtime_replacement(s, m) + rewrite_mtimes_from(s, m.2)
            },
            None => seq![s[i]] + rewrite_mtimes_from(s, i + 1),
        }
    } else {
        Seq::empty()
    }
}

fn date_shape_exec(v: &Vec<char>, b: usize, dre: &Option<CompiledRegex>) -> (r: bool)
    requires
        b <= v.len(),
        decimal_regex(*dre),
    ensures
        r == date_shape_at(v@, b as int),
{
    if !(v.len() >= 10 && b <= v.len() - 10) {
        return false;
    }
    is_dec_exec(v[b], dre) && is_dec_exec(v[b + 1], dre) && is_dec_exec(v[b + 2], dre)
        && is_dec_exec(v[b + 3], dre) && v[b + 4] == '-' && is_dec_exec(v[b + 5], dre)
        && is_dec_exec(v[b + 6], dre) && v[b + 7] == '-' && is_dec_exec(v[b + 8], dre)
        && is_dec_exec(v[b + 9], dre)
}

fn ascii_date_exec(v: &Vec<char>, b: usize) -> (r: bool)
    requires
        b <= v.len(),
    ensures
        r == ascii_date_at(v@, b as int),
{
    if !(v.len() >= 10 && b <= v.len() - 10) {
        return false;
    }
    is_digit_exec(v[b]) && is_digit_exec(v[b + 1]) && is_digit_exec(v[b + 2]) && is_digit_exec(
        v[b + 3],
    ) && v[b + 4] == '-' && is_digit_exec(v[b + 5]) && is_digit_exec(v[b + 6]) && v[b + 7] == '-'
        && is_digit_exec(v[b + 8]) && is_digit_exec(v[b + 9])
}

/// Executable `mtime_match`.
fn mtime_match_at(v: &Vec<char>, p: usize, dre: &Option<CompiledRegex>) -> (r: Option<(usize, usize, usize)>)
    requires
        p <= v.len(),
        decimal_regex(*dre),
    ensures
        match r {
            Some(t) => mtime_match(v@, p as int) == Some((t.0 as int, t.1 as int, t.2 as int)),
            None => mtime_match(v@, p as int) is None,
        },
{
    let n = v.len();
    if !(n >= 6 && p <= n - 6) {
        return None;
    }
    if !(letter_ci_exec(v[p], 'm') && letter_ci_exec(v[p + 1], 't') && letter_ci_exec(v[p + 2], 'i')
        && letter_ci_exec(v[p + 3], 'm') && letter_ci_exec(v[p + 4], 'e') && v[p + 5] == ':') {
        return None;
    }
    let a = p + 6;
    let b = if a < n && (v[a] == '>' || v[a] == '<') {
        if a + 1 < n && v[a + 1] == '=' {
            a + 2
        } else {
            a + 1
        }
    } else {
        a
    };
    if date_shape_exec(v, b, dre) {
        Some((a, b, b + 10))
    } else {
        None
    }
}

/// Rewrite the date filters of `input`: `mtime:>2026-01-01` becomes
/// `mtime:>1767225600`.
fn map_mtimes(input: &Vec<char>, dre: &Option<CompiledRegex>) -> (out: Vec<char>)
    requires
        decimal_regex(*dre),
    ensures
        out@ == rewrite_mtimes_from(input@, 0),
{
    let mut out: Vec<char> = Vec::new();
    let mut i: usize = 0;
    while i < input.len()
        invariant
            i <= input.len(),
            decimal_regex(*dre),
            out@ + rewrite_mtimes_from(input@, i as int) == rewrite_mtimes_from(input@, 0),
        decreases input.len() - i,
    {
        match mtime_match_at(input, i, dre) {
            Some(m) => {
                let ghost before = out@;
                out.push('m');
                out.push('t');
                out.push('i');
                out.push('m');
                out.push('e');
                out.push(':');
                let mut q = m.0;
                while q < m.1
                    invariant
                        m.0 <= q <= m.1 <= input.len(),
                        out@ == before + seq!['m', 't', 'i', 'm', 'e', ':'] + input@.subrange(
                            m.0 as int,
                            q as int,
                        ),
                    decreases m.1 - q,
                {
                    out.push(input[q]);
                    q = q + 1;
                    proof {
                        assert(input@.subrange(m.0 as int, q as int) =~= input@.subrange(
                            m.0 as int,
                            q - 1,
                        ).push(input@[q - 1]));
                    }
                }
                let ymd = sub_vec(input, m.1, m.2);
                proof {
                    assert forall|k: int| 0 <= k < 10 implies ymd@[k] == input@[m.1 + k] by {}
                }
                proof {
                    assert(ymd@ =~= input@.subrange(m.1 as int, m.2 as int));
                }
                let epoch = match date_to_epoch(&ymd) {
                    Some(t) => t,
                    None => 0,
                };
                push_decimal_chars(&mut out, epoch);
                proof {
                    assert(out@ =~= before + mtime_replacement(
                        input@,
                        (m.0 as int, m.1 as int, m.2 as int),
                    ));
                }
                i = m.2;
            },
            None => {
                out.push(input[i]);
                i = i + 1;
            },
        }
    }
    out
}

/// The whole preprocessing: size filters are rewritten first, then date
/// filters, on the result.
pub open spec fn preprocess_spec(raw: Seq<char>) -> Seq<char> {
    rewrite_mtimes_from(rewrite_sizes_from(raw, 0), 0)
}

/// Convert `size:>10mb` / `size:<1gb` / `mtime:>2026-01-01` into the
/// numeric forms the index query parser accepts. Everything else in the
/// query is kept as written.
pub fn preprocess(raw: &str) -> (out: String)
    ensures
        out@ == preprocess_spec(raw@),
{
    let v = chars_of(raw);
    let dre = decimal_regex_exec();
    let sized = map_sizes(&v, &dre);
    let dated = map_mtimes(&sized, &dre);
    string_of(dated.as_slice())
}

proof fn lemma_sizes_identity(s: Seq<char>, i: int)
    requires
        0 <= i <= s.len(),
        forall|p: int| i <= p < s.len() ==> (#[trigger] size_match(s, p)) is None,
    ensures
        rewrite_sizes_from(s, i) == s.skip(i),
    decreases s.len() - i,
{
    if i < s.len() {
        assert(size_match(s, i) is None);
        lemma_sizes_identity(s, i + 1);
        assert(seq![s[i]] + s.skip(i + 1) =~= s.skip(i));
    } else {
        assert(s.skip(i) =~= Seq::<char>::empty());
    }
}

proof fn lemma_mtimes_identity(s: Seq<char>, i: int)
    requires
        0 <= i <= s.len(),
        forall|p: int| i <= p < s.len() ==> (#[trigger] mtime_match(s, p)) is None,
    ensures
        rewrite_mtimes_from(s, i) == s.skip(i),
    decreases s.len() - i,
{
    if i < s.len() {
        assert(mtime_match(s, i) is None);
        lemma_mtimes_identity(s, i + 1);
        assert(seq![s[i]] + s.skip(i + 1) =~= s.skip(i));
    } else {
        assert(s.skip(i) =~= Seq::<char>::empty());
    }
}

/// A query that holds no size filter and no date filter comes out of
/// preprocessing exactly as it went in.
pub proof fn law_preprocess_keeps_plain_queries(raw: Seq<char>)
    requires
        forall|p: int| 0 <= p < raw.len() ==> (#[trigger] size_match(raw, p)) is None,
        forall|p: int| 0 <= p < raw.len() ==> (#[trigger] mtime_match(raw, p)) is None,
    ensures
        preprocess_spec(raw) == raw,
{
    lemma_sizes_identity(raw, 0);
    assert(raw.skip(0) =~= raw);
    lemma_mtimes_identity(raw, 0);
}

// ---------------------------------------------------------------------------
// What a date filter becomes
// ---------------------------------------------------------------------------

/// Days in month `m` of year `y` of the Gregorian calendar.
pub open spec fn gregorian_month_length(y: int, m: int) -> int {
    let leap = y % 400 == 0 || (y % 4 == 0 && y % 100 != 0);
    let lengths: Seq<int> = seq![31, if leap { 29 } else { 28 }, 31, 30, 31, 30, 31, 31, 30, 31, 30, 31];
    lengths[m - 1]
}

/// The calendar day after `y-m-d`.
pub open spec fn next_day(y: int, m: int, d: int) -> (int, int, int) {
    if d < gregorian_month_length(y, m) {
        (y, m, d + 1)
    } else if m < 12 {
        (y, m + 1, 1)
    } else {
        (y + 1, 1, 1)
    }
}

/// The start of a date filter: `mtime:` and the comparison `o` (none, `>`,
/// `>=`, `<`, `<=` for `o` from 0 to 4).
pub open spec fn filter_head(o: int) -> Seq<char> {
    seq!['m', 't', 'i', 'm', 'e', ':'] + size_op_text(o)
}

/// The query `mtime:` with comparison `o` and the date `yyyy-mm-dd` of
/// year `y`, month `m` and day `d`, each written with leading zeros.
pub open spec fn date_filter(o: int, y: int, m: int, d: int) -> Seq<char> {
    filter_head(o) + seq![
        digit_char(((y / 1000) % 10) as nat),
        digit_char(((y / 100) % 10) as nat),
        digit_char(((y / 10) % 10) as nat),
        digit_char((y % 10) as nat),
        '-',
        digit_char(((m / 10) % 10) as nat),
        digit_char((m % 10) as nat),
        '-',
        digit_char(((d / 10) % 10) as nat),
        digit_char((d % 10) as nat),
    ]
}

proof fn lemma_digits_value_2(a: nat, b: nat)
    requires
        a < 10,
        b < 10,
    ensures
        digits_value(seq![digit_char(a), digit_char(b)]) == 10 * a + b,
{
    lemma_digit_char(a);
    lemma_digit_char(b);
    let s = seq![digit_char(a), digit_char(b)];
    assert(s.drop_last() =~= seq![digit_char(a)]);
    assert(seq![digit_char(a)].drop_last() =~= Seq::<char>::empty());
    assert(digits_value(Seq::<char>::empty()) == 0);
    assert(seq![digit_char(a)].last() == digit_char(a));
    assert(digits_value(seq![digit_char(a)]) == a);
    assert(s.last() == digit_char(b));
}

proof fn lemma_digits_value_4(a: nat, b: nat, c: nat, e: nat)
    requires
        a < 10,
        b < 10,
        c < 10,
        e < 10,
    ensures
        digits_value(seq![digit_char(a), digit_char(b), digit_char(c), digit_char(e)]) == 1000 * a
            + 100 * b + 10 * c + e,
{
    lemma_digit_char(c);
    lemma_digit_char(e);
    lemma_digits_value_2(a, b);
    let s = seq![digit_char(a), digit_char(b), digit_char(c), digit_char(e)];
    let s3 = seq![digit_char(a), digit_char(b), digit_char(c)];
    assert(s.drop_last() =~= s3);
    assert(s3.drop_last() =~= seq![digit_char(a), digit_char(b)]);
    assert(s3.last() == digit_char(c));
    assert(s.last() == digit_char(e));
    assert(digits_value(s3) == (10 * a + b) * 10 + c);
    assert(digits_value(s) == digits_value(s3) * 10 + e);
}

proof fn lemma_month_lengths_agree(y: int, m: int)
    requires
        1 <= m <= 12,
    ensures
        gregorian_month_length(y, m) == month_days(y, m),
{
}

proof fn lemma_days_before_december(y: int)
    ensures
        days_before_month(y, 12) + 31 == year_days(y),
{
    reveal_with_fuel(days_before_month, 13);
}

proof fn lemma_split_year(y: int)
    requires
        0 <= y <= 9999,
    ensures
        1000 * ((y / 1000) % 10) + 100 * ((y / 100) % 10) + 10 * ((y / 10) % 10) + y % 10 == y,
{
    let a = y / 10;
    let b = a / 10;
    let c = b / 10;
    vstd::arithmetic::div_mod::lemma_fundamental_div_mod(y, 10);
    vstd::arithmetic::div_mod::lemma_fundamental_div_mod(a, 10);
    vstd::arithmetic::div_mod::lemma_fundamental_div_mod(b, 10);
    vstd::arithmetic::div_mod::lemma_div_denominator(y, 10, 10);
    vstd::arithmetic::div_mod::lemma_div_denominator(a, 10, 10);
    vstd::arithmetic::div_mod::lemma_div_denominator(y, 100, 10);
    assert(y / 100 == b);
    assert(y / 1000 == c);
    assert(0 <= c < 10);
    vstd::arithmetic::div_mod::lemma_small_mod(c as nat, 10);
}

proof fn lemma_split_two(m: int)
    requires
        0 <= m <= 99,
    ensures
        10 * ((m / 10) % 10) + m % 10 == m,
{
}

/// The characters of a date filter: the head, then digits and dashes.
proof fn lemma_date_filter_chars(o: int, y: int, m: int, d: int)
    requires
        0 <= o <= 4,
        0 <= y <= 9999,
        0 <= m <= 99,
        0 <= d <= 99,
    ensures
        6 <= filter_head(o).len() <= 8,
        date_filter(o, y, m, d).len() == filter_head(o).len() + 10,
        date_filter(o, y, m, d).take(filter_head(o).len() as int) == filter_head(o),
        forall|k: int| 0 <= k < filter_head(o).len() ==> date_filter(o, y, m, d)[k] == #[trigger] filter_head(o)[k],
        date_filter(o, y, m, d)[filter_head(o).len() as int + 4] == '-',
        date_filter(o, y, m, d)[filter_head(o).len() as int + 7] == '-',
        forall|k: int|
            filter_head(o).len() <= k < filter_head(o).len() + 10 && k != filter_head(o).len() + 4
                && k != filter_head(o).len() + 7 ==> is_digit(#[trigger] date_filter(o, y, m, d)[k]),
{
    let q = date_filter(o, y, m, d);
    let h = filter_head(o);
    lemma_digit_char(((y / 1000) % 10) as nat);
    lemma_digit_char(((y / 100) % 10) as nat);
    lemma_digit_char(((y / 10) % 10) as nat);
    lemma_digit_char((y % 10) as nat);
    lemma_digit_char(((m / 10) % 10) as nat);
    lemma_digit_char((m % 10) as nat);
    lemma_digit_char(((d / 10) % 10) as nat);
    lemma_digit_char((d % 10) as nat);
    assert(q.take(h.len() as int) =~= h);
}

/// No character of a date filter can start `size:`, so the size pass
/// leaves it as it is.
proof fn lemma_date_filter_no_sizes(o: int, y: int, m: int, d: int)
    requires
        0 <= o <= 4,
        0 <= y <= 9999,
        0 <= m <= 99,
        0 <= d <= 99,
    ensures
        rewrite_sizes_from(date_filter(o, y, m, d), 0) == date_filter(o, y, m, d),
{
    let q = date_filter(o, y, m, d);
    let h = filter_head(o);
    lemma_date_filter_chars(o, y, m, d);
    assert forall|p: int| 0 <= p < q.len() implies !letter_ci(#[trigger] q[p], 's') by {
        if p < h.len() {
            assert(q[p] == h[p]);
            if p >= 6 {
                assert(h[p] == size_op_text(o)[p - 6]);
            }
        } else if p != h.len() + 4 && p != h.len() + 7 {
            assert(is_digit(q[p]));
        }
    }
    assert forall|p: int| 0 <= p < q.len() implies (#[trigger] size_match(q, p)) is None by {
        assert(!letter_ci(q[p], 's'));
    }
    lemma_sizes_identity(q, 0);
    assert(q.skip(0) =~= q);
}

/// The date written in a date filter reads back as its year, month and day.
proof fn lemma_date_filter_date(o: int, y: int, m: int, d: int)
    requires
        0 <= o <= 4,
        0 <= y <= 9999,
        0 <= m <= 99,
        0 <= d <= 99,
    ensures
        ascii_date_at(date_filter(o, y, m, d).subrange(filter_head(o).len() as int, filter_head(o).len() as int + 10), 0),
        ymd_of(date_filter(o, y, m, d).subrange(filter_head(o).len() as int, filter_head(o).len() as int + 10)) == (y, m, d),
{
    let h = filter_head(o).len() as int;
    let q = date_filter(o, y, m, d);
    let ds = q.subrange(h, h + 10);
    let y3 = ((y / 1000) % 10) as nat;
    let y2 = ((y / 100) % 10) as nat;
    let y1 = ((y / 10) % 10) as nat;
    let y0 = (y % 10) as nat;
    let m1 = ((m / 10) % 10) as nat;
    let m0 = (m % 10) as nat;
    let d1 = ((d / 10) % 10) as nat;
    let d0 = (d % 10) as nat;
    lemma_date_filter_chars(o, y, m, d);
    assert(ds =~= seq![
        digit_char(y3), digit_char(y2), digit_char(y1), digit_char(y0), '-',
        digit_char(m1), digit_char(m0), '-', digit_char(d1), digit_char(d0),
    ]);
    lemma_digit_char(y3);
    lemma_digit_char(y2);
    lemma_digit_char(y1);
    lemma_digit_char(y0);
    lemma_digit_char(m1);
    lemma_digit_char(m0);
    lemma_digit_char(d1);
    lemma_digit_char(d0);
    assert(ds.subrange(0, 4) =~= seq![digit_char(y3), digit_char(y2), digit_char(y1), digit_char(y0)]);
    assert(ds.subrange(5, 7) =~= seq![digit_char(m1), digit_char(m0)]);
    assert(ds.subrange(8, 10) =~= seq![digit_char(d1), digit_char(d0)]);
    lemma_digits_value_4(y3, y2, y1, y0);
    lemma_digits_value_2(m1, m0);
    lemma_digits_value_2(d1, d0);
    lemma_split_year(y);
    lemma_split_two(m);
    lemma_split_two(d);
}

/// A date filter comes out of preprocessing as its head (`mtime:` and the
/// comparison) and the Unix time of midnight UTC of its date, or 0 for a
/// date that does not exist or lies before 1970.
proof fn lemma_date_filter_rewrite(o: int, y: int, m: int, d: int)
    requires
        0 <= o <= 4,
        0 <= y <= 9999,
        0 <= m <= 99,
        0 <= d <= 99,
    ensures
        preprocess_spec(date_filter(o, y, m, d)) == filter_head(o) + decimal(
            if valid_date(y, m, d) && y >= 1970 {
                (unix_day(y, m, d) * 86400) as nat
            } else {
                0
            },
        ),
{
    let q = date_filter(o, y, m, d);
    let hd = filter_head(o);
    let h = hd.len() as int;
    lemma_date_filter_no_sizes(o, y, m, d);
    lemma_date_filter_chars(o, y, m, d);
    lemma_date_filter_date(o, y, m, d);
    assert(q[0] == hd[0] && q[1] == hd[1] && q[2] == hd[2] && q[3] == hd[3] && q[4] == hd[4] && q[5] == hd[5]);
    assert(mtime_prefix_at(q, 0));
    let op = size_op_text(o);
    if op.len() > 0 {
        assert(q[6] == hd[6] && hd[6] == op[0]);
    }
    if op.len() > 1 {
        assert(q[7] == hd[7] && hd[7] == op[1]);
    }
    assert(is_digit(q[h]) && is_digit(q[h + 1]) && is_digit(q[h + 2]) && is_digit(q[h + 3]));
    assert(is_digit(q[h + 5]) && is_digit(q[h + 6]) && is_digit(q[h + 8]) && is_digit(q[h + 9]));
    assert(op_len(q, 6, false) == op.len());
    assert(date_shape_at(q, h));
    assert(mtime_match(q, 0) == Some((6int, h, h + 10)));
    assert(rewrite_mtimes_from(q, h + 10) =~= Seq::<char>::empty());
    assert(q.subrange(6, h) =~= op);
    assert(seq!['m', 't', 'i', 'm', 'e', ':'] + op =~= hd);
}

/// The first day of the Unix epoch, 1970-01-01, becomes 0, whatever the
/// comparison.
pub proof fn law_date_filter_epoch_start(o: int)
    requires
        0 <= o <= 4,
    ensures
        preprocess_spec(date_filter(o, 1970, 1, 1)) == filter_head(o) + decimal(0),
{
    lemma_date_filter_rewrite(o, 1970, 1, 1);
}

/// Consecutive calendar days from 1970 on become Unix times exactly one day
/// (86400 seconds) apart, across month and year ends; the comparison is
/// kept as written.
pub proof fn law_date_filter_next_day(o: int, y: int, m: int, d: int)
    requires
        0 <= o <= 4,
        1970 <= y,
        1 <= m <= 12,
        1 <= d <= gregorian_month_length(y, m),
        next_day(y, m, d).0 <= 9999,
    ensures
        exists|n: nat|
            preprocess_spec(date_filter(o, y, m, d)) == filter_head(o) + #[trigger] decimal(n)
                && preprocess_spec(
                date_filter(o, next_day(y, m, d).0, next_day(y, m, d).1, next_day(y, m, d).2),
            ) == filter_head(o) + decimal(n + 86400),
{
    let (y2, m2, d2) = next_day(y, m, d);
    lemma_month_lengths_agree(y, m);
    lemma_month_lengths_agree(y2, m2);
    lemma_date_filter_rewrite(o, y, m, d);
    lemma_date_filter_rewrite(o, y2, m2, d2);
    lemma_days_before_december(y);
    assert(valid_date(y, m, d));
    assert(valid_date(y2, m2, d2));
    assert(unix_day(y2, m2, d2) == unix_day(y, m, d) + 1);
    lemma_days_before_year_bound(y);
    lemma_days_before_month_bound(y, m);
    assert(unix_day(y, m, d) >= 0);
    let n = (unix_day(y, m, d) * 86400) as nat;
    assert(((unix_day(y, m, d) + 1) * 86400) as nat == n + 86400);
    assert(preprocess_spec(date_filter(o, y2, m2, d2)) == filter_head(o) + decimal(n + 86400));
}

/// A date that is not a calendar day, or lies before 1970, becomes 0.
pub proof fn law_date_filter_outside_calendar(o: int, y: int, m: int, d: int)
    requires
        0 <= o <= 4,
        0 <= y <= 9999,
        0 <= m <= 99,
        0 <= d <= 99,
        y < 1970 || !(1 <= m <= 12 && 1 <= d <= gregorian_month_length(y, m)),
    ensures
        preprocess_spec(date_filter(o, y, m, d)) == filter_head(o) + decimal(0),
{
    lemma_date_filter_rewrite(o, y, m, d);
    if 1 <= m <= 12 {
        lemma_month_lengths_agree(y, m);
    }
}

// ---------------------------------------------------------------------------
// What a size filter becomes
// ---------------------------------------------------------------------------

/// The comparison written in a size filter: none, `>`, `>=`, `<`, `<=` or
/// `=` for `o` from 0 to 5.
pub open spec fn size_op_text(o: int) -> Seq<char> {
    if o == 1 {
        seq!['>']
    } else if o == 2 {
        seq!['>', '=']
    } else if o == 3 {
        seq!['<']
    } else if o == 4 {
        seq!['<', '=']
    } else if o == 5 {
        seq!['=']
    } else {
        Seq::empty()
    }
}

/// A size unit: none, `kb`, `mb`, `gb`, `tb` or `pb` for `k` from 0 to 5.
pub open spec fn size_unit_text(k: int) -> Seq<char> {
    if k == 1 {
        seq!['k', 'b']
    } else if k == 2 {
        seq!['m', 'b']
    } else if k == 3 {
        seq!['g', 'b']
    } else if k == 4 {
        seq!['t', 'b']
    } else if k == 5 {
        seq!['p', 'b']
    } else {
        Seq::empty()
    }
}

/// Bytes per unit: 1, then 1024, 1024², … 1024⁵.
pub open spec fn size_unit_bytes(k: int) -> nat {
    if k == 1 {
        1024
    } else if k == 2 {
        1048576
    } else if k == 3 {
        1073741824
    } else if k == 4 {
        1099511627776
    } else if k == 5 {
        1125899906842624
    } else {
        1
    }
}

/// The query `size:` with comparison `o`, the whole number `n` and unit `k`.
pub open spec fn size_filter(o: int, n: nat, k: int) -> Seq<char> {
    seq!['s', 'i', 'z', 'e', ':'] + size_op_text(o) + decimal(n) + size_unit_text(k)
}

proof fn lemma_digits_end_is(s: Seq<char>, i: int, j: int)
    requires
        0 <= i <= j <= s.len(),
        forall|k: int| i <= k < j ==> is_digit(#[trigger] s[k]),
        j == s.len() || !is_dec(s[j]),
    ensures
        digits_end(s, i) == j,
    decreases j - i,
{
    if i < j {
        assert(is_digit(s[i]));
        lemma_digits_end_is(s, i + 1, j);
    }
}

proof fn lemma_size_filter_bytes(n: nat, k: int)
    requires
        0 <= k <= 5,
    ensures
        size_bytes(decimal(n), size_unit_text(k)) == (if n * size_unit_bytes(k) > u64::MAX {
            u64::MAX as nat
        } else {
            n * size_unit_bytes(k)
        }),
{
    let num = decimal(n);
    crate::text::lemma_decimal_value(n);
    assert forall|q: int| 0 <= q < num.len() implies is_digit(#[trigger] num[q]) by {}
    lemma_digits_end_is(num, 0, num.len() as int);
    assert(num.take(num.len() as int) =~= num);
    assert(int_part(num) == num);
    assert(frac_part(num) == Seq::<char>::empty());
    assert(all_digits(Seq::<char>::empty()));
    assert(digits_value(Seq::<char>::empty()) == 0);
    assert(pow_nat(10, 0) == 1);
    lemma_pow_1024_values();
    assert(unit_multiplier(size_unit_text(k)) == size_unit_bytes(k));
}

/// The characters of a size filter cannot start a date filter.
proof fn lemma_no_mtimes_in(r: Seq<char>)
    requires
        forall|p: int| 0 <= p < r.len() ==> !letter_ci(#[trigger] r[p], 'm'),
    ensures
        rewrite_mtimes_from(r, 0) == r,
{
    assert forall|p: int| 0 <= p < r.len() implies (#[trigger] mtime_match(r, p)) is None by {
        assert(!letter_ci(r[p], 'm'));
    }
    lemma_mtimes_identity(r, 0);
    assert(r.skip(0) =~= r);
}

/// A size filter with a whole number and a unit comes out of preprocessing
/// as `size:`, its comparison (`=` dropped, as equality is the default) and
/// the number times the unit's bytes, capped at `u64::MAX`.
pub proof fn law_size_filter_bytes(o: int, n: nat, k: int)
    requires
        0 <= o <= 5,
        0 <= k <= 5,
    ensures
        preprocess_spec(size_filter(o, n, k)) == seq!['s', 'i', 'z', 'e', ':'] + (if o == 5 {
            Seq::<char>::empty()
        } else {
            size_op_text(o)
        }) + decimal(
            if n * size_unit_bytes(k) > u64::MAX {
                u64::MAX as nat
            } else {
                n * size_unit_bytes(k)
            },
        ),
{
    let q = size_filter(o, n, k);
    let op = size_op_text(o);
    let num = decimal(n);
    let unit = size_unit_text(k);
    crate::text::lemma_decimal_value(n);
    let b: int = 5 + op.len() as int;
    let d: int = b + num.len();
    let e: int = d + unit.len();
    assert(q.len() == e);
    assert forall|p: int| b <= p < d implies is_digit(#[trigger] q[p]) by {
        assert(q[p] == num[p - b]);
    }
    if unit.len() > 0 {
        assert(q[d] == unit[0]);
        assert(q[d + 1] == unit[1]);
    }
    lemma_digits_end_is(q, b, d);
    assert(q[0] == 's' && q[1] == 'i' && q[2] == 'z' && q[3] == 'e' && q[4] == ':');
    if op.len() > 0 {
        assert(q[5] == op[0]);
    }
    if op.len() > 1 {
        assert(q[6] == op[1]);
    }
    assert(is_digit(q[b]));
    assert(op_len(q, 5, true) == op.len());
    assert(ws_end(q, d) == d);
    let m = (5int, b, d, d, e);
    assert(size_match(q, 0) == Some(m));
    lemma_size_match_bounds(q, 0);
    assert(rewrite_sizes_from(q, e) =~= Seq::<char>::empty());
    assert(q.subrange(5, b) =~= op);
    assert(q.subrange(b, d) =~= num);
    assert(q.subrange(d, e) =~= unit);
    lemma_size_filter_bytes(n, k);
    if o == 5 {
        assert(op =~= seq!['=']);
    } else {
        assert(!(op =~= seq!['=']));
    }
    let bytes: nat = if n * size_unit_bytes(k) > u64::MAX {
        u64::MAX as nat
    } else {
        n * size_unit_bytes(k)
    };
    let kept: Seq<char> = if o == 5 { Seq::empty() } else { op };
    let r = seq!['s', 'i', 'z', 'e', ':'] + kept + decimal(bytes);
    assert(rewrite_sizes_from(q, 0) =~= r);
    crate::text::lemma_decimal_value(bytes);
    assert forall|p: int| 0 <= p < r.len() implies !letter_ci(#[trigger] r[p], 'm') by {
        if p >= 5 + kept.len() {
            assert(r[p] == decimal(bytes)[p - 5 - kept.len()]);
            assert(is_digit(decimal(bytes)[p - 5 - kept.len()]));
        } else if p >= 5 {
            assert(r[p] == kept[p - 5]);
        }
    }
    lemma_no_mtimes_in(r);
}


/// The query `size:` with comparison `o`, the number `n.f` (one fraction
/// digit `f`) and unit `k`.
pub open spec fn size_filter_tenths(o: int, n: nat, f: nat, k: int) -> Seq<char> {
    seq!['s', 'i', 'z', 'e', ':'] + size_op_text(o) + decimal(n) + seq!['.', digit_char(f)]
        + size_unit_text(k)
}

proof fn lemma_size_tenths_bytes(n: nat, f: nat, k: int)
    requires
        f < 10,
        0 <= k <= 5,
    ensures
        size_bytes(decimal(n) + seq!['.', digit_char(f)], size_unit_text(k)) == (if ((10 * n + f)
            * size_unit_bytes(k)) / 10 > u64::MAX {
            u64::MAX as nat
        } else {
            ((10 * n + f) * size_unit_bytes(k)) / 10
        }),
{
    let dn = decimal(n);
    let num = dn + seq!['.', digit_char(f)];
    crate::text::lemma_decimal_value(n);
    lemma_digit_char(f);
    assert forall|q: int| 0 <= q < dn.len() implies is_digit(#[trigger] num[q]) by {
        assert(num[q] == dn[q]);
    }
    assert(num[dn.len() as int] == '.');
    lemma_digits_end_is(num, 0, dn.len() as int);
    assert(int_part(num) =~= dn);
    assert(frac_part(num) =~= seq![digit_char(f)]);
    assert(seq![digit_char(f)].drop_last() =~= Seq::<char>::empty());
    assert(digits_value(Seq::<char>::empty()) == 0);
    assert(digits_value(seq![digit_char(f)]) == f);
    assert(all_digits(seq![digit_char(f)]));
    assert(pow_nat(10, 1) == 10) by {
        assert(pow_nat(10, 0) == 1);
    }
    lemma_pow_1024_values();
    assert(unit_multiplier(size_unit_text(k)) == size_unit_bytes(k));
}

/// A size filter with one fraction digit comes out of preprocessing as
/// `size:`, its comparison (`=` dropped) and the exact number of bytes,
/// rounded down: `floor(n.f × unit)`, capped at `u64::MAX`.
pub proof fn law_size_filter_tenths(o: int, n: nat, f: nat, k: int)
    requires
        0 <= o <= 5,
        f < 10,
        0 <= k <= 5,
    ensures
        preprocess_spec(size_filter_tenths(o, n, f, k)) == seq!['s', 'i', 'z', 'e', ':'] + (if o
            == 5 {
            Seq::<char>::empty()
        } else {
            size_op_text(o)
        }) + decimal(
            if ((10 * n + f) * size_unit_bytes(k)) / 10 > u64::MAX {
                u64::MAX as nat
            } else {
                ((10 * n + f) * size_unit_bytes(k)) / 10
            },
        ),
{
    let q = size_filter_tenths(o, n, f, k);
    let op = size_op_text(o);
    let dn = decimal(n);
    let num = dn + seq!['.', digit_char(f)];
    let unit = size_unit_text(k);
    crate::text::lemma_decimal_value(n);
    lemma_digit_char(f);
    let b: int = 5 + op.len() as int;
    let c: int = b + dn.len();
    let d: int = c + 2;
    let e: int = d + unit.len();
    assert(q.len() == e);
    assert forall|p: int| b <= p < c implies is_digit(#[trigger] q[p]) by {
        assert(q[p] == dn[p - b]);
    }
    assert(q[c] == '.');
    assert(q[c + 1] == digit_char(f));
    if unit.len() > 0 {
        assert(q[d] == unit[0]);
        assert(q[d + 1] == unit[1]);
    }
    lemma_digits_end_is(q, b, c);
    lemma_digits_end_is(q, c + 1, d);
    assert(q[0] == 's' && q[1] == 'i' && q[2] == 'z' && q[3] == 'e' && q[4] == ':');
    if op.len() > 0 {
        assert(q[5] == op[0]);
    }
    if op.len() > 1 {
        assert(q[6] == op[1]);
    }
    assert(is_digit(q[b]));
    assert(op_len(q, 5, true) == op.len());
    assert(ws_end(q, d) == d);
    let m = (5int, b, d, d, e);
    assert(size_match(q, 0) == Some(m));
    lemma_size_match_bounds(q, 0);
    assert(rewrite_sizes_from(q, e) =~= Seq::<char>::empty());
    assert(q.subrange(5, b) =~= op);
    assert(q.subrange(b, d) =~= num);
    assert(q.subrange(d, e) =~= unit);
    lemma_size_tenths_bytes(n, f, k);
    if o == 5 {
        assert(op =~= seq!['=']);
    } else {
        assert(!(op =~= seq!['=']));
    }
    let bytes: nat = if ((10 * n + f) * size_unit_bytes(k)) / 10 > u64::MAX {
        u64::MAX as nat
    } else {
        ((10 * n + f) * size_unit_bytes(k)) / 10
    };
    let kept: Seq<char> = if o == 5 { Seq::empty() } else { op };
    let r = seq!['s', 'i', 'z', 'e', ':'] + kept + decimal(bytes);
    assert(rewrite_sizes_from(q, 0) =~= r);
    crate::text::lemma_decimal_value(bytes);
    assert forall|p: int| 0 <= p < r.len() implies !letter_ci(#[trigger] r[p], 'm') by {
        if p >= 5 + kept.len() {
            assert(r[p] == decimal(bytes)[p - 5 - kept.len()]);
            assert(is_digit(decimal(bytes)[p - 5 - kept.len()]));
        } else if p >= 5 {
            assert(r[p] == kept[p - 5]);
        }
    }
    lemma_no_mtimes_in(r);
}

} // verus!
