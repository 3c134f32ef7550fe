//! Character-level string helpers shared by the query, rule and snippet logic.
use vstd::prelude::*;
use vstd::string::StringExecFns;

verus! {

/// Appends one character to a string.
#[verifier::external_body]
pub(crate) fn push_char(s: &mut String, c: char)
    ensures
        final(s)@ == old(s)@.push(c),
{
    s.push(c);
}

/// Appends a string slice.
pub fn push_str(s: &mut String, t: &str)
    ensures
        final(s)@ == old(s)@ + t@,
{
    s.append(t);
}

/// The characters of `s`, in order.
pub fn chars_of(s: &str) -> (v: Vec<char>)
    ensures
        v@ == s@,
{
    let mut v: Vec<char> = Vec::new();
    for c in it: s.chars()
        invariant
            v@ == it.seq().take(it.index() as int),
    {
        v.push(c);
    }
    v
}

/// A string holding exactly the characters of `v`.
pub fn string_of(v: &[char]) -> (s: String)
    ensures
        s@ == v@,
{
    let mut s = String::new();
    let mut i: usize = 0;
    while i < v.len()
        invariant
            i <= v.len(),
            s@ == v@.take(i as int),
        decreases v.len() - i,
    {
        push_char(&mut s, v[i]);
        i = i + 1;
    }
    s
}

} // verus!

verus! {

/// Unicode `White_Space`: the characters `char::is_whitespace` accepts and
/// the regex class `\s` matches.
pub open spec fn is_ws(c: char) -> bool {
    let u = c as u32;
    ||| 9 <= u <= 13
    ||| u == 32
    ||| u == 0x85
    ||| u == 0xA0
    ||| u == 0x1680
    ||| 0x2000 <= u <= 0x200A
    ||| u == 0x2028
    ||| u == 0x2029
    ||| u == 0x202F
    ||| u == 0x205F
    ||| u == 0x3000
}

/// Executable `is_ws`.
pub fn is_whitespace(c: char) -> (b: bool)
    ensures
        b == is_ws(c),
{
    let u = c as u32;
    (9 <= u && u <= 13) || u == 32 || u == 0x85 || u == 0xA0 || u == 0x1680 || (0x2000 <= u
        && u <= 0x200A) || u == 0x2028 || u == 0x2029 || u == 0x202F || u == 0x205F || u
        == 0x3000
}

/// An ASCII decimal digit.
pub open spec fn is_digit(c: char) -> bool {
    48 <= (c as u32) <= 57
}

/// The numeric value of an ASCII digit.
pub open spec fn digit_val(c: char) -> nat {
    ((c as u32) - 48) as nat
}

/// The ASCII digit for `d < 10`.
pub open spec fn digit_char(d: nat) -> char {
    ((d + 48) as u32) as char
}

/// The decimal rendering of `n`, without leading zeros (`0` is `"0"`).
pub open spec fn decimal(n: nat) -> Seq<char>
    decreases n,
{
    if n < 10 {
        seq![digit_char(n)]
    } else {
        decimal(n / 10).push(digit_char(n % 10))
    }
}

/// The value of a run of ASCII digits (the empty run is 0).
pub open spec fn digits_value(s: Seq<char>) -> nat
    decreases s.len(),
{
    if s.len() == 0 {
        0
    } else {
        digits_value(s.drop_last()) * 10 + digit_val(s.last())
    }
}

/// Every character of `s` is an ASCII digit.
pub open spec fn all_digits(s: Seq<char>) -> bool {
    forall|i: int| 0 <= i < s.len() ==> is_digit(#[trigger] s[i])
}

pub proof fn lemma_digit_char(d: nat)
    requires
        d < 10,
    ensures
        is_digit(digit_char(d)),
        digit_val(digit_char(d)) == d,
{
    vstd::utf8::char_u32_cast(digit_char(d), (d + 48) as u32);
}

/// The decimal rendering consists of digits and reads back as the number.
pub proof fn lemma_decimal_value(n: nat)
    ensures
        all_digits(decimal(n)),
        digits_value(decimal(n)) == n,
        decimal(n).len() >= 1,
        n > 0 ==> digit_val(decimal(n)[0]) != 0,
    decreases n,
{
    if n < 10 {
        lemma_digit_char(n);
        assert(decimal(n).drop_last() =~= Seq::<char>::empty());
        assert(digits_value(Seq::<char>::empty()) == 0);
        assert(digits_value(decimal(n)) == digits_value(decimal(n).drop_last()) * 10 + digit_val(decimal(n).last()));
    } else {
        lemma_decimal_value(n / 10);
        lemma_digit_char(n % 10);
        let s = decimal(n);
        assert(s.drop_last() =~= decimal(n / 10));
        assert(s.last() == digit_char(n % 10));
        assert(s[0] == decimal(n / 10)[0]);
        assert(n == (n / 10) * 10 + n % 10);
        assert(digits_value(s) == digits_value(s.drop_last()) * 10 + digit_val(s.last()));
    }
}

/// Appends the decimal rendering of `n`.
pub fn push_decimal(out: &mut String, n: u64)
    ensures
        final(out)@ == old(out)@ + decimal(n as nat),
    decreases n,
{
    if n >= 10 {
        push_decimal(out, n / 10);
    }
    let d: u8 = (n % 10) as u8;
    let c = (48u8 + d) as char;
    proof {
        assert(c == digit_char((n % 10) as nat));
    }
    push_char(out, c);
    proof {
        if n >= 10 {
            assert(decimal(n as nat) =~= decimal((n / 10) as nat).push(c));
        } else {
            assert(decimal(n as nat) =~= seq![c]);
        }
    }
}

} // verus!

verus! {

// ---------------------------------------------------------------------------
// UTF-8 byte offsets of character positions
// ---------------------------------------------------------------------------

/// Bytes taken by `c` in UTF-8.
pub open spec fn utf8_width(c: char) -> nat {
    let u = c as u32;
    if u < 0x80 {
        1
    } else if u < 0x800 {
        2
    } else if u < 0x10000 {
        3
    } else {
        4
    }
}

/// Executable `utf8_width` (what `char::len_utf8` returns).
pub fn utf8_width_exec(c: char) -> (n: usize)
    ensures
        n == utf8_width(c),
{
    let u = c as u32;
    if u < 0x80 {
        1
    } else if u < 0x800 {
        2
    } else if u < 0x10000 {
        3
    } else {
        4
    }
}

/// UTF-8 length in bytes of a character sequence.
pub open spec fn byte_len(s: Seq<char>) -> nat {
    vstd::utf8::encode_utf8(s).len()
}

pub proof fn lemma_encode_scalar_len(c: char)
    ensures
        vstd::utf8::encode_scalar(c as u32).len() == utf8_width(c),
{
    vstd::utf8::char_is_scalar(c);
}

/// UTF-8 encoding distributes over concatenation.
pub proof fn lemma_encode_concat(a: Seq<char>, b: Seq<char>)
    ensures
        vstd::utf8::encode_utf8(a + b) == vstd::utf8::encode_utf8(a) + vstd::utf8::encode_utf8(b),
    decreases a.len(),
{
    if a.len() == 0 {
        assert(a + b =~= b);
    } else {
        lemma_encode_concat(a.drop_first(), b);
        assert((a + b).drop_first() =~= a.drop_first() + b);
        assert((a + b)[0] == a[0]);
    }
}

/// Byte offset of char position `i + 1` is that of `i` plus the width of
/// the `i`-th character.
pub proof fn lemma_byte_len_step(s: Seq<char>, i: int)
    requires
        0 <= i < s.len(),
    ensures
        byte_len(s.take(i + 1)) == byte_len(s.take(i)) + utf8_width(s[i]),
{
    lemma_encode_concat(s.take(i), seq![s[i]]);
    assert(s.take(i + 1) =~= s.take(i) + seq![s[i]]);
    lemma_encode_concat(seq![s[i]], Seq::empty());
    assert(seq![s[i]].drop_first() =~= Seq::<char>::empty());
    lemma_encode_scalar_len(s[i]);
}

/// Byte offsets grow with the char position and never pass the whole length.
pub proof fn lemma_byte_len_mono(s: Seq<char>, i: int, j: int)
    requires
        0 <= i <= j <= s.len(),
    ensures
        byte_len(s.take(i)) + (j - i) <= byte_len(s.take(j)) <= byte_len(s),
    decreases j - i,
{
    if i < j {
        lemma_byte_len_mono(s, i, j - 1);
        lemma_byte_len_step(s, j - 1);
    }
    lemma_encode_concat(s.take(j), s.skip(j));
    assert(s.take(j) + s.skip(j) =~= s);
}

/// The byte offset of a char position is a char boundary of the encoding.
pub proof fn lemma_boundary_at(s: Seq<char>, i: int)
    requires
        0 <= i <= s.len(),
    ensures
        vstd::utf8::is_char_boundary(vstd::utf8::encode_utf8(s), byte_len(s.take(i)) as int),
    decreases s.len(),
{
    let bytes = vstd::utf8::encode_utf8(s);
    vstd::utf8::encode_utf8_valid_utf8(s);
    if i == 0 {
        assert(s.take(0) =~= Seq::<char>::empty());
    } else {
        vstd::utf8::encode_utf8_first_scalar(s);
        let t = s.drop_first();
        assert(vstd::utf8::pop_first_scalar(bytes) =~= vstd::utf8::encode_utf8(t));
        lemma_boundary_at(t, i - 1);
        assert(s.take(i) =~= seq![s[0]] + t.take(i - 1));
        lemma_encode_concat(seq![s[0]], t.take(i - 1));
        lemma_encode_concat(seq![s[0]], Seq::empty());
        assert(seq![s[0]].drop_first() =~= Seq::<char>::empty());
        lemma_encode_scalar_len(s[0]);
        lemma_byte_len_mono(s, i, i);
    }
}

/// The characters that start at byte offset `byte_len(s.take(i))`.
pub fn str_rest<'a>(text: &'a str, Ghost(i): Ghost<int>, bi: usize) -> (rest: &'a str)
    requires
        0 <= i <= text@.len(),
        bi == byte_len(text@.take(i)),
    ensures
        rest@ == text@.skip(i),
{
    let ghost s = text@;
    proof {
        lemma_boundary_at(s, i);
        lemma_encode_concat(s.take(i), s.skip(i));
        assert(s.take(i) + s.skip(i) =~= s);
    }
    let (_, rest) = text.split_at(bi);
    proof {
        let b = vstd::utf8::encode_utf8(s);
        assert(vstd::utf8::encode_utf8(rest@) =~= b.subrange(bi as int, b.len() as int));
        assert(vstd::utf8::encode_utf8(s.skip(i)) =~= b.subrange(bi as int, b.len() as int));
        vstd::utf8::encode_utf8_decode_utf8(rest@);
        vstd::utf8::encode_utf8_decode_utf8(s.skip(i));
    }
    rest
}

/// The `i`-th character of `text`, read at its byte offset `bi`.
pub fn char_at_byte(text: &str, Ghost(i): Ghost<int>, bi: usize) -> (c: char)
    requires
        0 <= i < text@.len(),
        bi == byte_len(text@.take(i)),
    ensures
        c == text@[i],
{
    broadcast use vstd::string::group_string_axioms;

    let rest = str_rest(text, Ghost(i), bi);
    let mut it = rest.chars();
    let r = it.next();
    assert(rest@.len() > 0);
    match r {
        Some(c) => c,
        None => {
            assert(false);
            ' '
        },
    }
}

} // verus!

verus! {

// ---------------------------------------------------------------------------
// Case mapping (std's Unicode tables)
// ---------------------------------------------------------------------------

/// What `char::to_lowercase` yields for `c`.
pub uninterp spec fn char_lowercase(c: char) -> Seq<char>;

/// ASCII lowercase of `c` (identity outside `A..=Z`).
pub open spec fn ascii_lower(c: char) -> char {
    if 65 <= (c as u32) <= 90 {
        ((c as u32) + 32) as char
    } else {
        c
    }
}

/// Executable `ascii_lower` (`char::to_ascii_lowercase`).
pub fn ascii_lower_exec(c: char) -> (r: char)
    ensures
        r == ascii_lower(c),
{
    let u = c as u32;
    if 65 <= u && u <= 90 {
        let b: u8 = (u + 32) as u8;
        let r = b as char;
        proof {
            vstd::utf8::char_u32_cast(r, (u + 32) as u32);
        }
        r
    } else {
        c
    }
}

/// `char::to_lowercase`, appended to `out`. The std documentation promises
/// one or more characters, and plain ASCII letters map to their ASCII
/// lowercase.
#[verifier::external_body]
pub(crate) fn push_lowercase(out: &mut String, c: char)
    ensures
        final(out)@ == old(out)@ + char_lowercase(c),
        final(out)@.len() >= old(out)@.len() + 1,
        (c as u32) < 0x80 ==> final(out)@ == old(out)@.push(ascii_lower(c)),
{
    out.extend(c.to_lowercase());
}

/// The first `i` characters of `text`, cut at their byte offset `bi`.
pub fn str_prefix<'a>(text: &'a str, Ghost(i): Ghost<int>, bi: usize) -> (head: &'a str)
    requires
        0 <= i <= text@.len(),
        bi == byte_len(text@.take(i)),
    ensures
        head@ == text@.take(i),
{
    let ghost s = text@;
    proof {
        lemma_boundary_at(s, i);
        lemma_encode_concat(s.take(i), s.skip(i));
        assert(s.take(i) + s.skip(i) =~= s);
    }
    let (head, _) = text.split_at(bi);
    proof {
        let b = vstd::utf8::encode_utf8(s);
        assert(vstd::utf8::encode_utf8(head@) =~= b.subrange(0, bi as int));
        assert(vstd::utf8::encode_utf8(s.take(i)) =~= b.subrange(0, bi as int));
        vstd::utf8::encode_utf8_decode_utf8(head@);
        vstd::utf8::encode_utf8_decode_utf8(s.take(i));
    }
    head
}

// ---------------------------------------------------------------------------
// Substring search, lowercase, slicing on character boundaries
// ---------------------------------------------------------------------------

/// `needle` occurs in `hay` at byte position `i`.
pub open spec fn occurs_at(hay: Seq<u8>, needle: Seq<u8>, i: int) -> bool {
    0 <= i && i + needle.len() <= hay.len() && hay.subrange(i, i + needle.len()) == needle
}

/// First byte position at or after `i` where `needle` occurs in `hay`.
pub open spec fn occurrence_from(hay: Seq<u8>, needle: Seq<u8>, i: int) -> Option<int>
    decreases hay.len() + 1 - i,
{
    if i < 0 || i + needle.len() > hay.len() {
        None
    } else if occurs_at(hay, needle, i) {
        Some(i)
    } else {
        occurrence_from(hay, needle, i + 1)
    }
}

pub proof fn lemma_occurrence_from(hay: Seq<u8>, needle: Seq<u8>, i: int)
    ensures
        occurrence_from(hay, needle, i) matches Some(k) ==> i <= k && occurs_at(hay, needle, k),
    decreases hay.len() + 1 - i,
{
    if !(i < 0 || i + needle.len() > hay.len()) && !occurs_at(hay, needle, i) {
        lemma_occurrence_from(hay, needle, i + 1);
    }
}

/// First byte position where `needle` occurs in `hay` (`Some(0)` for an
/// empty needle).
pub open spec fn first_occurrence(hay: Seq<u8>, needle: Seq<u8>) -> Option<int> {
    occurrence_from(hay, needle, 0)
}

/// UTF-8 bytes of a character sequence.
pub open spec fn utf8(s: Seq<char>) -> Seq<u8> {
    vstd::utf8::encode_utf8(s)
}

/// Whether `needle` occurs in `hay` at byte position `i`.
fn bytes_occur_at(hay: &[u8], needle: &[u8], i: usize) -> (b: bool)
    requires
        i + needle.len() <= hay.len(),
    ensures
        b == occurs_at(hay@, needle@, i as int),
{
    let mut j: usize = 0;
    while j < needle.len()
        invariant
            j <= needle@.len(),
            i + needle.len() <= hay.len(),
            forall|k: int| 0 <= k < j ==> hay@[i + k] == needle@[k],
        decreases needle.len() - j,
    {
        if hay[i + j] != needle[j] {
            proof {
                assert(hay@.subrange(i as int, i + needle@.len())[j as int] != needle@[j as int]);
            }
            return false;
        }
        j = j + 1;
    }
    proof {
        assert(hay@.subrange(i as int, i + needle@.len()) =~= needle@);
    }
    true
}

/// The byte index of the first occurrence of `needle` in `hay` (what
/// `str::find` with a string pattern returns).
pub(crate) fn str_find(hay: &str, needle: &str) -> (r: Option<usize>)
    ensures
        r == (match first_occurrence(utf8(hay@), utf8(needle@)) {
            Some(i) => Some(i as usize),
            None => None,
        }),
{
    let h = hay.as_bytes();
    let n = needle.as_bytes();
    let ghost hb = utf8(hay@);
    let ghost nb = utf8(needle@);
    if n.len() > h.len() {
        return None;
    }
    let last = h.len() - n.len();
    let mut i: usize = 0;
    proof {
        assert(h@ == hb);
        assert(n@ == nb);
    }
    loop
        invariant
            hb == utf8(hay@),
            nb == utf8(needle@),
            h@ == hb,
            n@ == nb,
            last == hb.len() - nb.len(),
            i <= last,
            occurrence_from(hb, nb, i as int) == first_occurrence(hb, nb),
        decreases last - i,
    {
        if bytes_occur_at(h, n, i) {
            assert(occurrence_from(hb, nb, i as int) == Some(i as int));
            return Some(i);
        }
        if i == last {
            assert(occurrence_from(hb, nb, i + 1) is None);
            return None;
        }
        i = i + 1;
    }
}

/// Whether `needle` occurs in `hay` (what `str::contains` with a string
/// pattern returns).
pub(crate) fn str_contains(hay: &str, needle: &str) -> (b: bool)
    ensures
        b == first_occurrence(utf8(hay@), utf8(needle@)) is Some,
{
    str_find(hay, needle).is_some()
}

/// What `str::to_lowercase` returns for `s`.
pub uninterp spec fn str_lowercase(s: Seq<char>) -> Seq<char>;

/// `str::to_lowercase`.
#[verifier::external_body]
pub(crate) fn str_to_lowercase(s: &str) -> (r: String)
    ensures
        r@ == str_lowercase(s@),
{
    s.to_lowercase()
}

/// The largest character boundary of `bytes` at or below `i` (what the
/// loop `while i > 0 && !is_char_boundary(i) { i -= 1 }` stops at).
pub open spec fn floor_boundary(bytes: Seq<u8>, i: int) -> int
    decreases i,
{
    if i <= 0 {
        0
    } else if vstd::utf8::is_char_boundary(bytes, i) {
        i
    } else {
        floor_boundary(bytes, i - 1)
    }
}

pub proof fn lemma_floor_boundary(bytes: Seq<u8>, i: int)
    requires
        vstd::utf8::valid_utf8(bytes),
    ensures
        0 <= floor_boundary(bytes, i) <= if i < 0 { 0 } else { i },
        floor_boundary(bytes, i) <= bytes.len(),
        vstd::utf8::is_char_boundary(bytes, floor_boundary(bytes, i)),
    decreases i,
{
    if i <= 0 {
        vstd::utf8::is_char_boundary_start_end_of_seq(bytes);
    } else if !vstd::utf8::is_char_boundary(bytes, i) {
        lemma_floor_boundary(bytes, i - 1);
    } else {
        assert(i <= bytes.len());
    }
}

/// Snapping down to a boundary is monotone.
pub proof fn lemma_floor_mono(b: Seq<u8>, i: int, j: int)
    requires
        i <= j,
    ensures
        floor_boundary(b, i) <= floor_boundary(b, j),
    decreases j - i,
{
    if i < j {
        lemma_floor_mono(b, i, j - 1);
        if j > 0 && !vstd::utf8::is_char_boundary(b, j) {
        } else if j > 0 {
            lemma_floor_le(b, j - 1);
        }
    }
}

/// Snapping down never goes up.
pub proof fn lemma_floor_le(b: Seq<u8>, i: int)
    ensures
        floor_boundary(b, i) <= if i < 0 { 0 } else { i },
    decreases i,
{
    if i > 0 && !vstd::utf8::is_char_boundary(b, i) {
        lemma_floor_le(b, i - 1);
    }
}

/// Snap a byte index down to the nearest UTF-8 character boundary of `s`.
pub fn floor_char_boundary(s: &str, i: usize) -> (r: usize)
    ensures
        r == floor_boundary(utf8(s@), i as int),
        r <= i,
        r <= utf8(s@).len(),
        vstd::utf8::is_char_boundary(utf8(s@), r as int),
{
    proof {
        vstd::utf8::encode_utf8_valid_utf8(s@);
        lemma_floor_boundary(utf8(s@), i as int);
    }
    let start = i;
    let mut i = i;
    while i > 0 && !s.is_char_boundary(i)
        invariant
            floor_boundary(utf8(s@), i as int) == floor_boundary(utf8(s@), start as int),
            i <= start,
        decreases i,
    {
        i = i - 1;
    }
    i
}

/// The characters encoded by `s`'s bytes `[from, to)`, both character
/// boundaries.
pub fn slice_bytes(s: &str, from: usize, to: usize) -> (r: String)
    requires
        from <= to,
        vstd::utf8::is_char_boundary(utf8(s@), from as int),
        vstd::utf8::is_char_boundary(utf8(s@), to as int),
    ensures
        r@ == vstd::utf8::decode_utf8(utf8(s@).subrange(from as int, to as int)),
        utf8(r@) == utf8(s@).subrange(from as int, to as int),
{
    let ghost b = utf8(s@);
    proof {
        vstd::utf8::encode_utf8_valid_utf8(s@);
    }
    let (head, _) = s.split_at(to);
    proof {
        assert(utf8(head@) =~= b.subrange(0, to as int));
        // boundaries of the prefix are those of the whole text below `to`
        vstd::utf8::valid_utf8_split(b, to as int);
        lemma_boundary_prefix(b, to as int, from as int);
    }
    let (_, mid) = head.split_at(from);
    proof {
        assert(utf8(mid@) =~= b.subrange(from as int, to as int));
        vstd::utf8::encode_utf8_decode_utf8(mid@);
    }
    mid.to_owned()
}

/// A character boundary below a boundary `k` stays a boundary of the
/// prefix `bytes[0..k]`.
pub proof fn lemma_boundary_prefix(bytes: Seq<u8>, k: int, j: int)
    requires
        vstd::utf8::valid_utf8(bytes),
        vstd::utf8::is_char_boundary(bytes, k),
        vstd::utf8::is_char_boundary(bytes, j),
        0 <= j <= k,
    ensures
        vstd::utf8::is_char_boundary(bytes.subrange(0, k), j),
    decreases bytes.len(),
{
    vstd::utf8::valid_utf8_split(bytes, k);
    if j == 0 {
    } else {
        let l = vstd::utf8::length_of_first_scalar(bytes);
        let tail = vstd::utf8::pop_first_scalar(bytes);
        let pre = bytes.subrange(0, k);
        assert(k >= l) by {
            reveal_with_fuel(vstd::utf8::is_char_boundary, 2);
        }
        assert(j >= l) by {
            reveal_with_fuel(vstd::utf8::is_char_boundary, 2);
        }
        assert(vstd::utf8::is_char_boundary(tail, k - l));
        assert(vstd::utf8::is_char_boundary(tail, j - l));
        lemma_boundary_prefix(tail, k - l, j - l);
        assert(tail.subrange(0, k - l) =~= vstd::utf8::pop_first_scalar(pre));
        assert(vstd::utf8::length_of_first_scalar(pre) == l);
    }
}

// ---------------------------------------------------------------------------
// Trimming and splitting
// ---------------------------------------------------------------------------

/// `s` without leading whitespace.
pub open spec fn trim_start(s: Seq<char>) -> Seq<char>
    decreases s.len(),
{
    if s.len() > 0 && is_ws(s[0]) {
        trim_start(s.drop_first())
    } else {
        s
    }
}

/// `s` without trailing whitespace.
pub open spec fn trim_end(s: Seq<char>) -> Seq<char>
    decreases s.len(),
{
    if s.len() > 0 && is_ws(s.last()) {
        trim_end(s.drop_last())
    } else {
        s
    }
}

/// `s` without leading and trailing whitespace (what `str::trim` returns).
pub open spec fn trim_ws(s: Seq<char>) -> Seq<char> {
    trim_end(trim_start(s))
}

proof fn lemma_trim_start_skip(s: Seq<char>, a: int)
    requires
        0 <= a <= s.len(),
        forall|k: int| 0 <= k < a ==> is_ws(#[trigger] s[k]),
        a == s.len() || !is_ws(s[a]),
    ensures
        trim_start(s) == s.skip(a),
    decreases a,
{
    if a == 0 {
        assert(s.skip(0) =~= s);
    } else {
        let t = s.drop_first();
        assert forall|k: int| 0 <= k < a - 1 implies is_ws(#[trigger] t[k]) by {
            assert(t[k] == s[k + 1]);
        }
        if a < s.len() {
            assert(t[a - 1] == s[a]);
        }
        lemma_trim_start_skip(t, a - 1);
        assert(t.skip(a - 1) =~= s.skip(a));
    }
}

proof fn lemma_trim_end_take(s: Seq<char>, b: int)
    requires
        0 <= b <= s.len(),
        forall|k: int| b <= k < s.len() ==> is_ws(#[trigger] s[k]),
        b == 0 || !is_ws(s[b - 1]),
    ensures
        trim_end(s) == s.take(b),
    decreases s.len() - b,
{
    if b == s.len() {
        assert(s.take(b) =~= s);
    } else {
        let t = s.drop_last();
        assert(is_ws(s[s.len() - 1]));
        assert forall|k: int| b <= k < t.len() implies is_ws(#[trigger] t[k]) by {
            assert(t[k] == s[k]);
        }
        if b > 0 {
            assert(t[b - 1] == s[b - 1]);
        }
        lemma_trim_end_take(t, b);
        assert(t.take(b) =~= s.take(b));
    }
}

/// `v[a..b]` without leading and trailing whitespace.
pub fn trim_range(v: &Vec<char>, a: usize, b: usize) -> (r: Vec<char>)
    requires
        a <= b <= v.len(),
    ensures
        r@ == trim_ws(v@.subrange(a as int, b as int)),
{
    let ghost s = v@.subrange(a as int, b as int);
    let mut i = a;
    while i < b && is_whitespace(v[i])
        invariant
            a <= i <= b <= v.len(),
            forall|k: int| a <= k < i ==> is_ws(#[trigger] v@[k]),
        decreases b - i,
    {
        i = i + 1;
    }
    proof {
        assert forall|k: int| 0 <= k < i - a implies is_ws(#[trigger] s[k]) by {
            assert(s[k] == v@[a + k]);
        }
        if i < b {
            assert(s[i - a] == v@[i as int]);
        }
        lemma_trim_start_skip(s, i - a);
    }
    let mut j = b;
    while j > i && is_whitespace(v[j - 1])
        invariant
            a <= i <= j <= b <= v.len(),
            forall|k: int| j <= k < b ==> is_ws(#[trigger] v@[k]),
        decreases j,
    {
        j = j - 1;
    }
    let ghost t = s.skip(i - a);
    proof {
        assert forall|k: int| j - i <= k < t.len() implies is_ws(#[trigger] t[k]) by {
            assert(t[k] == v@[i + k]);
        }
        if j > i {
            assert(t[j - i - 1] == v@[j - 1]);
        }
        lemma_trim_end_take(t, j - i);
    }
    let mut r: Vec<char> = Vec::new();
    let mut k = i;
    while k < j
        invariant
            i <= k <= j <= v.len(),
            r@ == v@.subrange(i as int, k as int),
        decreases j - k,
    {
        r.push(v[k]);
        k = k + 1;
    }
    proof {
        assert(t.take(j - i) =~= v@.subrange(i as int, j as int));
    }
    r
}

/// Index of the first `c` in `s` at or after `i`.
pub open spec fn index_from(s: Seq<char>, c: char, i: int) -> Option<int>
    decreases s.len() - i,
{
    if i < 0 || i >= s.len() {
        None
    } else if s[i] == c {
        Some(i)
    } else {
        index_from(s, c, i + 1)
    }
}

/// The pieces of `s` between occurrences of `sep` (what `str::split(sep)`
/// yields: one piece more than there are separators).
pub open spec fn split_on(s: Seq<char>, sep: char) -> Seq<Seq<char>>
    decreases s.len(),
{
    match index_from(s, sep, 0) {
        Some(k) => if 0 <= k < s.len() {
            seq![s.take(k)] + split_on(s.skip(k + 1), sep)
        } else {
            seq![s]
        },
        None => seq![s],
    }
}

pub proof fn lemma_index_from(s: Seq<char>, c: char, i: int)
    requires
        0 <= i,
    ensures
        index_from(s, c, i) matches Some(k) ==> i <= k < s.len() && s[k] == c && forall|q: int|
            i <= q < k ==> s[q] != c,
        index_from(s, c, i) is None ==> forall|q: int| i <= q < s.len() ==> s[q] != c,
    decreases s.len() - i,
{
    if i < s.len() && s[i] != c {
        lemma_index_from(s, c, i + 1);
    }
}

// ---------------------------------------------------------------------------
// Character classes from std's Unicode tables
// ---------------------------------------------------------------------------

/// What `char::is_alphanumeric` returns for `c`.
pub uninterp spec fn char_alphanumeric(c: char) -> bool;

/// `char::is_alphanumeric`.
#[verifier::external_body]
pub(crate) fn is_alphanumeric(c: char) -> (b: bool)
    ensures
        b == char_alphanumeric(c),
{
    c.is_alphanumeric()
}

// ---------------------------------------------------------------------------
// Words
// ---------------------------------------------------------------------------

/// The maximal runs of non-whitespace characters of `s[i..]`, the first one
/// starting with `cur` (what `str::split_whitespace` yields).
pub open spec fn words_from(s: Seq<char>, i: int, cur: Seq<char>) -> Seq<Seq<char>>
    decreases s.len() - i,
{
    if i < 0 || i >= s.len() {
        if cur.len() > 0 {
            seq![cur]
        } else {
            Seq::empty()
        }
    } else if !is_ws(s[i]) {
        words_from(s, i + 1, cur.push(s[i]))
    } else if cur.len() > 0 {
        seq![cur] + words_from(s, i + 1, Seq::empty())
    } else {
        words_from(s, i + 1, Seq::empty())
    }
}

/// The words of `s`.
pub open spec fn words(s: Seq<char>) -> Seq<Seq<char>> {
    words_from(s, 0, Seq::empty())
}

/// `parts` joined with single spaces.
pub open spec fn join_spaces(parts: Seq<Seq<char>>) -> Seq<char>
    decreases parts.len(),
{
    if parts.len() == 0 {
        Seq::empty()
    } else if parts.len() == 1 {
        parts[0]
    } else {
        join_spaces(parts.drop_last()) + seq![' '] + parts.last()
    }
}

/// Whitespace collapsed: the words of `s` joined with single spaces.
pub open spec fn collapse_ws(s: Seq<char>) -> Seq<char> {
    join_spaces(words(s))
}

proof fn lemma_join_push(parts: Seq<Seq<char>>, w: Seq<char>)
    ensures
        join_spaces(parts.push(w)) == if parts.len() == 0 {
            w
        } else {
            join_spaces(parts) + seq![' '] + w
        },
{
    assert(parts.push(w).drop_last() =~= parts);
}

/// `s`'s words joined with single spaces (`split_whitespace` + `join(" ")`).
pub fn collapse_whitespace(s: &str) -> (r: String)
    ensures
        r@ == collapse_ws(s@),
{
    let v = chars_of(s);
    let mut out: Vec<char> = Vec::new();
    let mut cur: Vec<char> = Vec::new();
    let ghost mut done: Seq<Seq<char>> = Seq::empty();
    let mut i: usize = 0;
    while i < v.len()
        invariant
            i <= v.len(),
            v@ == s@,
            done + words_from(v@, i as int, cur@) == words(v@),
            out@ == join_spaces(done),
            done.len() == 0 <==> out@.len() == 0,
            forall|k: int| 0 <= k < done.len() ==> (#[trigger] done[k]).len() > 0,
        decreases v.len() - i,
    {
        let c = v[i];
        if !is_whitespace(c) {
            proof {
                assert(words_from(v@, i as int, cur@) == words_from(v@, i + 1, cur@.push(c)));
            }
            cur.push(c);
        } else if cur.len() == 0 {
            proof {
                assert(words_from(v@, i as int, cur@) == words_from(v@, i + 1, Seq::empty()));
                assert(cur@ =~= Seq::<char>::empty());
            }
        } else {
            proof {
                lemma_join_push(done, cur@);
            }
            if out.len() > 0 {
                out.push(' ');
            }
            let mut k: usize = 0;
            let ghost base = out@;
            while k < cur.len()
                invariant
                    k <= cur.len(),
                    out@ == base + cur@.take(k as int),
                decreases cur.len() - k,
            {
                out.push(cur[k]);
                k = k + 1;
                proof {
                    assert(cur@.take(k as int) =~= cur@.take(k - 1).push(cur@[k - 1]));
                }
            }
            proof {
                assert(cur@.take(cur.len() as int) =~= cur@);
                if done.len() == 0 {
                    assert(out@ =~= cur@);
                } else {
                    assert(out@ =~= join_spaces(done) + seq![' '] + cur@);
                }
                assert(words_from(v@, i as int, cur@) == seq![cur@] + words_from(
                    v@,
                    i + 1,
                    Seq::empty(),
                ));
                assert(done.push(cur@) + words_from(v@, i + 1, Seq::empty()) =~= done
                    + words_from(v@, i as int, cur@));
                done = done.push(cur@);
            }
            cur = Vec::new();
            proof {
                assert(cur@ =~= Seq::<char>::empty());
            }
        }
        i = i + 1;
    }
    if cur.len() > 0 {
        proof {
            lemma_join_push(done, cur@);
        }
        if out.len() > 0 {
            out.push(' ');
        }
        let mut k: usize = 0;
        let ghost base = out@;
        while k < cur.len()
            invariant
                k <= cur.len(),
                out@ == base + cur@.take(k as int),
            decreases cur.len() - k,
        {
            out.push(cur[k]);
            k = k + 1;
            proof {
                assert(cur@.take(k as int) =~= cur@.take(k - 1).push(cur@[k - 1]));
            }
        }
        proof {
            assert(cur@.take(cur.len() as int) =~= cur@);
            if done.len() == 0 {
                assert(out@ =~= cur@);
            } else {
                assert(out@ =~= join_spaces(done) + seq![' '] + cur@);
            }
            assert(done.push(cur@) =~= done + words_from(v@, i as int, cur@));
            done = done.push(cur@);
        }
    } else {
        proof {
            assert(done =~= done + words_from(v@, i as int, cur@));
        }
    }
    string_of(out.as_slice())
}

} // verus!

verus! {

/// `a` and `b` hold the same characters.
pub fn same_text(a: &str, b: &str) -> (r: bool)
    ensures
        r == (a@ == b@),
{
    let x = a.to_owned();
    let y = b.to_owned();
    x.eq(&y)
}

/// `s` begins with `p`.
pub fn starts_with(s: &str, p: &str) -> (r: bool)
    ensures
        r == (p@.len() <= s@.len() && s@.take(p@.len() as int) == p@),
{
    let v = chars_of(s);
    let w = chars_of(p);
    if w.len() > v.len() {
        return false;
    }
    let mut k: usize = 0;
    while k < w.len()
        invariant
            w.len() <= v.len(),
            v@ == s@,
            w@ == p@,
            k <= w.len(),
            forall|q: int| 0 <= q < k ==> v@[q] == w@[q],
        decreases w.len() - k,
    {
        if v[k] != w[k] {
            proof {
                assert(v@.take(w@.len() as int)[k as int] != w@[k as int]);
            }
            return false;
        }
        k = k + 1;
    }
    proof {
        assert(v@.take(w@.len() as int) =~= w@);
    }
    true
}

/// `s` ends with `p`.
pub fn ends_with(s: &str, p: &str) -> (r: bool)
    ensures
        r == (p@.len() <= s@.len() && s@.skip(s@.len() - p@.len()) == p@),
{
    let v = chars_of(s);
    let w = chars_of(p);
    if w.len() > v.len() {
        return false;
    }
    let off = v.len() - w.len();
    let mut k: usize = 0;
    while k < w.len()
        invariant
            off + w.len() == v.len(),
            v@ == s@,
            w@ == p@,
            k <= w.len(),
            forall|q: int| 0 <= q < k ==> v@[off + q] == w@[q],
        decreases w.len() - k,
    {
        if v[off + k] != w[k] {
            proof {
                assert(v@.skip(off as int)[k as int] != w@[k as int]);
            }
            return false;
        }
        k = k + 1;
    }
    proof {
        assert(v@.skip(off as int) =~= w@);
    }
    true
}

} // verus!
