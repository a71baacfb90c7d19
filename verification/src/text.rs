//! Character-level string helpers used throughout the library.

use vstd::prelude::*;

verus! {

/// `true` when `pre` is a prefix of `s`.
pub open spec fn is_prefix(pre: Seq<char>, s: Seq<char>) -> bool {
    pre.len() <= s.len() && s.subrange(0, pre.len() as int) == pre
}

/// `true` when `needle` occurs in `hay` at position `i`.
pub open spec fn occurs_at(hay: Seq<char>, needle: Seq<char>, i: int) -> bool {
    0 <= i && i + needle.len() <= hay.len() && hay.subrange(i, i + needle.len()) == needle
}

/// `true` when `needle` occurs somewhere in `hay`.
pub open spec fn has_substring(hay: Seq<char>, needle: Seq<char>) -> bool {
    exists|i: int| occurs_at(hay, needle, i)
}

/// ASCII lower-casing of one character; every other character is kept.
pub open spec fn ascii_lower(c: char) -> char {
    if 'A' <= c && c <= 'Z' {
        ((c as int) + 32) as char
    } else {
        c
    }
}

/// ASCII lower-casing of a whole sequence.
pub open spec fn ascii_lower_seq(s: Seq<char>) -> Seq<char> {
    s.map_values(|c: char| ascii_lower(c))
}

/// The character of a decimal digit.
pub open spec fn digit_char(d: int) -> char {
    (48 + d) as char
}

/// Decimal representation of a natural number, most significant digit first.
pub open spec fn dec_nat(n: nat) -> Seq<char>
    decreases n,
{
    if n < 10 {
        seq![digit_char(n as int)]
    } else {
        dec_nat(n / 10).push(digit_char((n % 10) as int))
    }
}

/// Decimal representation of an integer, with a leading `-` when negative.
pub open spec fn dec_int(i: int) -> Seq<char> {
    if i < 0 {
        seq!['-'] + dec_nat((-i) as nat)
    } else {
        dec_nat(i as nat)
    }
}

/// The characters of `s`, in order.
pub fn chars_of(s: &str) -> (v: Vec<char>)
    ensures
        v@ == s@,
{
    let mut v: Vec<char> = Vec::new();
    for c in it: s.chars()
        invariant
            v@ == it.seq().take(it.index() as int),
            it.seq() == s@,
    {
        v.push(c);
    }
    v
}

/// Appends one character to `s` (`String::push`).
#[verifier::external_body]
pub(crate) fn push_char(s: &mut String, c: char)
    ensures
        final(s)@ == old(s)@.push(c),
{
    s.push(c);
}

/// Appends the whole of `t` to `s`.
pub fn push_str(s: &mut String, t: &str)
    ensures
        final(s)@ == old(s)@ + t@,
{
    let cs = chars_of(t);
    let mut i: usize = 0;
    while i < cs.len()
        invariant
            0 <= i <= cs.len(),
            cs@ == t@,
            s@ == old(s)@ + t@.take(i as int),
        decreases cs.len() - i,
    {
        push_char(s, cs[i]);
        assert(t@.take(i + 1) == t@.take(i as int).push(t@[i as int]));
        i = i + 1;
    }
    assert(t@.take(cs.len() as int) == t@);
}

/// A fresh string holding `t`.
pub fn string_of(t: &str) -> (s: String)
    ensures
        s@ == t@,
{
    let mut s = String::new();
    push_str(&mut s, t);
    s
}

/// A fresh string holding the characters of `v`.
pub fn string_from_chars(v: &Vec<char>) -> (s: String)
    ensures
        s@ == v@,
{
    let mut s = String::new();
    let mut i: usize = 0;
    while i < v.len()
        invariant
            0 <= i <= v.len(),
            s@ == v@.take(i as int),
        decreases v.len() - i,
    {
        push_char(&mut s, v[i]);
        assert(v@.take(i + 1) == v@.take(i as int).push(v@[i as int]));
        i = i + 1;
    }
    assert(v@.take(v.len() as int) == v@);
    s
}

/// Character-wise equality of two character vectors.
pub fn chars_eq(a: &Vec<char>, b: &Vec<char>) -> (r: bool)
    ensures
        r == (a@ == b@),
{
    if a.len() != b.len() {
        return false;
    }
    let mut i: usize = 0;
    while i < a.len()
        invariant
            a.len() == b.len(),
            0 <= i <= a.len(),
            forall|k: int| 0 <= k < i ==> a@[k] == b@[k],
        decreases a.len() - i,
    {
        if a[i] != b[i] {
            return false;
        }
        i = i + 1;
    }
    assert(a@ =~= b@);
    true
}

/// Equality of two strings, character by character.
pub fn str_eq(a: &str, b: &str) -> (r: bool)
    ensures
        r == (a@ == b@),
{
    let ca = chars_of(a);
    let cb = chars_of(b);
    chars_eq(&ca, &cb)
}

/// `true` when `pre` is a prefix of `s`.
pub fn starts_with(s: &str, pre: &str) -> (r: bool)
    ensures
        r == is_prefix(pre@, s@),
{
    let cs = chars_of(s);
    let cp = chars_of(pre);
    if cp.len() > cs.len() {
        return false;
    }
    let mut i: usize = 0;
    while i < cp.len()
        invariant
            cp.len() <= cs.len(),
            cs@ == s@,
            cp@ == pre@,
            0 <= i <= cp.len(),
            forall|k: int| 0 <= k < i ==> cs@[k] == cp@[k],
        decreases cp.len() - i,
    {
        if cs[i] != cp[i] {
            assert(s@.subrange(0, pre@.len() as int)[i as int] != pre@[i as int]);
            return false;
        }
        i = i + 1;
    }
    assert(s@.subrange(0, pre@.len() as int) =~= pre@);
    true
}

/// `true` when `needle` occurs at position `i` of `hay`.
fn chars_occur_at(hay: &Vec<char>, needle: &Vec<char>, i: usize) -> (r: bool)
    requires
        i + needle.len() <= hay.len(),
    ensures
        r == occurs_at(hay@, needle@, i as int),
{
    let mut k: usize = 0;
    while k < needle.len()
        invariant
            i + needle.len() <= hay.len(),
            0 <= k <= needle.len(),
            forall|j: int| 0 <= j < k ==> hay@[i + j] == needle@[j],
        decreases needle.len() - k,
    {
        if hay[i + k] != needle[k] {
            assert(hay@.subrange(i as int, i + needle.len())[k as int] != needle@[k as int]);
            return false;
        }
        k = k + 1;
    }
    assert(hay@.subrange(i as int, i + needle.len()) =~= needle@);
    true
}

/// `true` when `needle` occurs somewhere in `hay`.
pub fn chars_contain(hay: &Vec<char>, needle: &Vec<char>) -> (r: bool)
    ensures
        r == has_substring(hay@, needle@),
{
    if needle.len() > hay.len() {
        return false;
    }
    if needle.len() == 0 {
        assert(hay@.subrange(0, 0) =~= needle@);
        assert(occurs_at(hay@, needle@, 0));
        return true;
    }
    let last = hay.len() - needle.len();
    let mut i: usize = 0;
    while i <= last
        invariant
            last == hay.len() - needle.len(),
            0 < needle.len() <= hay.len(),
            0 <= i <= last + 1,
            forall|j: int| 0 <= j < i ==> !occurs_at(hay@, needle@, j),
        decreases last + 1 - i,
    {
        if chars_occur_at(hay, needle, i) {
            return true;
        }
        i = i + 1;
    }
    false
}

/// `true` when `needle` occurs somewhere in `hay`.
pub fn contains(hay: &str, needle: &str) -> (r: bool)
    ensures
        r == has_substring(hay@, needle@),
{
    let h = chars_of(hay);
    let n = chars_of(needle);
    chars_contain(&h, &n)
}

/// ASCII lower-casing of one character.
pub fn lower_char(c: char) -> (r: char)
    ensures
        r == ascii_lower(c),
{
    if 'A' <= c && c <= 'Z' {
        let b: u8 = (c as u8) + 32;
        b as char
    } else {
        c
    }
}

/// ASCII lower-casing of the characters of `s` (`str::to_ascii_lowercase`).
pub fn to_ascii_lowercase(s: &str) -> (r: Vec<char>)
    ensures
        r@ == ascii_lower_seq(s@),
{
    let cs = chars_of(s);
    let mut out: Vec<char> = Vec::new();
    let mut i: usize = 0;
    while i < cs.len()
        invariant
            0 <= i <= cs.len(),
            cs@ == s@,
            out@ == ascii_lower_seq(s@.take(i as int)),
        decreases cs.len() - i,
    {
        let l = lower_char(cs[i]);
        out.push(l);
        assert(ascii_lower_seq(s@.take(i + 1)) =~= ascii_lower_seq(s@.take(i as int)).push(l));
        i = i + 1;
    }
    assert(s@.take(cs.len() as int) == s@);
    out
}

/// Appends the decimal form of `n` to `s`.
pub fn push_u64(s: &mut String, n: u64)
    ensures
        final(s)@ == old(s)@ + dec_nat(n as nat),
    decreases n,
{
    if n >= 10 {
        push_u64(s, n / 10);
    }
    let d: u8 = (n % 10) as u8;
    let c: char = (48u8 + d) as char;
    assert(c == digit_char((n % 10) as int));
    push_char(s, c);
    assert(dec_nat(n as nat) == if n < 10 {
        seq![digit_char(n as int)]
    } else {
        dec_nat((n / 10) as nat).push(digit_char((n % 10) as int))
    });
}

/// Appends the decimal form of `i` to `s`, with a leading `-` when negative.
pub fn push_i64(s: &mut String, i: i64)
    ensures
        final(s)@ == old(s)@ + dec_int(i as int),
{
    if i < 0 {
        push_char(s, '-');
        let m: u64 = if i == i64::MIN {
            9223372036854775808u64
        } else {
            (-i) as u64
        };
        push_u64(s, m);
        assert(old(s)@ + dec_int(i as int) =~= old(s)@.push('-') + dec_nat(m as nat));
    } else {
        push_u64(s, i as u64);
    }
}

/// The decimal form of `i` (`i64::to_string`).
pub fn i64_to_string(i: i64) -> (s: String)
    ensures
        s@ == dec_int(i as int),
{
    let mut s = String::new();
    push_i64(&mut s, i);
    s
}


/// `s` with every occurrence of `pat` replaced by `rep`, matches taken from
/// left to right without overlap (`str::replace`).
pub open spec fn replace_spec(s: Seq<char>, pat: Seq<char>, rep: Seq<char>) -> Seq<char>
    decreases s.len(),
{
    if pat.len() == 0 || s.len() < pat.len() {
        s
    } else if s.take(pat.len() as int) == pat {
        rep + replace_spec(s.skip(pat.len() as int), pat, rep)
    } else {
        seq![s[0]] + replace_spec(s.skip(1), pat, rep)
    }
}

/// Replaces every occurrence of the non-empty `pat` in `s` by `rep`.
pub fn replace_all(s: &str, pat: &str, rep: &str) -> (r: String)
    requires
        pat@.len() > 0,
    ensures
        r@ == replace_spec(s@, pat@, rep@),
{
    let cs = chars_of(s);
    let cp = chars_of(pat);
    let mut out = String::new();
    let mut i: usize = 0;
    assert(s@.skip(0) =~= s@);
    assert(out@ + s@ =~= s@);
    while i < cs.len()
        invariant
            cs@ == s@,
            cp@ == pat@,
            pat@.len() > 0,
            0 <= i <= cs@.len(),
            replace_spec(s@, pat@, rep@) == out@ + replace_spec(s@.skip(i as int), pat@, rep@),
        decreases cs@.len() - i,
    {
        let ghost rest = s@.skip(i as int);
        let ghost before = out@;
        if cp.len() <= cs.len() - i && chars_occur_at(&cs, &cp, i) {
            assert(rest.take(pat@.len() as int) =~= s@.subrange(i as int, i + pat@.len()));
            push_str(&mut out, rep);
            assert(rest.skip(pat@.len() as int) =~= s@.skip(i + pat@.len()));
            assert(out@ + replace_spec(s@.skip(i + pat@.len()), pat@, rep@) =~= before + (rep@
                + replace_spec(rest.skip(pat@.len() as int), pat@, rep@)));
            i = i + cp.len();
        } else {
            proof {
                if rest.len() >= pat@.len() {
                    assert(rest.take(pat@.len() as int) =~= s@.subrange(i as int, i + pat@.len()));
                }
            }
            push_char(&mut out, cs[i]);
            assert(rest.skip(1) =~= s@.skip(i + 1));
            assert(out@ + replace_spec(s@.skip(i + 1), pat@, rep@) =~= before + (seq![rest[0]]
                + replace_spec(rest.skip(1), pat@, rep@)));
            i = i + 1;
        }
    }
    assert(s@.skip(cs@.len() as int) =~= Seq::<char>::empty());
    assert(out@ + Seq::<char>::empty() =~= out@);
    out
}

/// The pieces joined with `sep` between consecutive ones (`[T]::join`).
pub open spec fn join_spec(pieces: Seq<Seq<char>>, sep: Seq<char>) -> Seq<char>
    decreases pieces.len(),
{
    if pieces.len() == 0 {
        Seq::empty()
    } else if pieces.len() == 1 {
        pieces[0]
    } else {
        join_spec(pieces.drop_last(), sep) + sep + pieces.last()
    }
}

/// Joins the pieces with `sep` between consecutive ones.
pub fn join(pieces: &Vec<&str>, sep: &str) -> (r: String)
    ensures
        r@ == join_spec(pieces@.map_values(|p: &str| p@), sep@),
{
    let ghost ps = pieces@.map_values(|p: &str| p@);
    let mut out = String::new();
    let mut i: usize = 0;
    while i < pieces.len()
        invariant
            0 <= i <= pieces@.len(),
            ps == pieces@.map_values(|p: &str| p@),
            out@ == join_spec(ps.take(i as int), sep@),
        decreases pieces@.len() - i,
    {
        if i > 0 {
            push_str(&mut out, sep);
        }
        push_str(&mut out, pieces[i]);
        assert(ps.take(i as int + 1).drop_last() =~= ps.take(i as int));
        if i == 0 {
            assert(Seq::<char>::empty() + pieces@[0]@ =~= pieces@[0]@);
        }
        i = i + 1;
    }
    assert(ps.take(pieces@.len() as int) =~= ps);
    out
}


/// `true` for the ASCII decimal digits.
pub open spec fn is_digit(c: char) -> bool {
    '0' <= c && c <= '9'
}

/// Every character of `d` is a decimal digit.
pub open spec fn all_digits(d: Seq<char>) -> bool {
    forall|i: int| 0 <= i < d.len() ==> is_digit(#[trigger] d[i])
}

/// The value of a string of decimal digits.
pub open spec fn digits_value(s: Seq<char>) -> int
    decreases s.len(),
{
    if s.len() == 0 {
        0
    } else {
        digits_value(s.drop_last()) * 10 + (s.last() as int - 48)
    }
}

/// What `str::parse::<i32>` accepts: an optional `+` or `-` followed by one
/// or more decimal digits, whose value fits in an `i32`.
pub open spec fn parse_i32_spec(s: Seq<char>) -> Option<i32> {
    let signed = s.len() > 0 && (s[0] == '-' || s[0] == '+');
    let digits = if signed {
        s.skip(1)
    } else {
        s
    };
    let v = if signed && s[0] == '-' {
        -digits_value(digits)
    } else {
        digits_value(digits)
    };
    if digits.len() == 0 || !all_digits(digits) {
        None
    } else if i32::MIN <= v <= i32::MAX {
        Some(v as i32)
    } else {
        None
    }
}

/// Parses an `i32` as `str::parse::<i32>` does: an optional `+` or `-`
/// sign followed by decimal digits, `None` on anything else or on a value
/// out of range.
pub(crate) fn parse_i32(s: &str) -> (r: Option<i32>)
    ensures
        r == parse_i32_spec(s@),
{
    let cs = chars_of(s);
    let signed = cs.len() > 0 && (cs[0] == '-' || cs[0] == '+');
    let negative = signed && cs[0] == '-';
    let start: usize = if signed {
        1
    } else {
        0
    };
    let ghost digits = if signed {
        s@.skip(1)
    } else {
        s@
    };
    assert(s@.skip(0) =~= s@);
    assert(digits == s@.skip(start as int));
    if cs.len() == start {
        assert(digits.len() == 0);
        return None;
    }
    let mut m: i64 = 0;
    let mut i: usize = start;
    while i < cs.len()
        invariant
            cs@ == s@,
            signed == (s@.len() > 0 && (s@[0] == '-' || s@[0] == '+')),
            digits == (if signed {
                s@.skip(1)
            } else {
                s@
            }),
            start <= i <= cs@.len(),
            digits == s@.skip(start as int),
            0 <= m <= 2_147_483_648,
            forall|j: int| 0 <= j < i - start ==> is_digit(#[trigger] digits[j]),
            m == digits_value(digits.take(i - start)),
        decreases cs@.len() - i,
    {
        let c = cs[i];
        let ghost k = (i - start) as int;
        assert(digits[k] == c);
        if !('0' <= c && c <= '9') {
            proof {
                lemma_parse_rejects(s@, k);
            }
            return None;
        }
        assert(digits.take(k + 1).drop_last() =~= digits.take(k));
        let d = (c as u32 - '0' as u32) as i64;
        let next = m * 10 + d;
        assert(next == digits_value(digits.take(k + 1)));
        if next > 2_147_483_648 {
            proof {
                lemma_digits_monotone(digits, k + 1);
                if forall|j: int| 0 <= j < digits.len() ==> is_digit(#[trigger] digits[j]) {
                    assert(digits_value(digits) > 2_147_483_648);
                }
            }
            return None;
        }
        m = next;
        i = i + 1;
    }
    assert(digits.take(digits.len() as int) =~= digits);
    if negative {
        Some((-m) as i32)
    } else if m <= 2_147_483_647 {
        Some(m as i32)
    } else {
        None
    }
}

/// A string whose digits part has a non-digit does not parse.
proof fn lemma_parse_rejects(s: Seq<char>, k: int)
    requires
        ({
            let signed = s.len() > 0 && (s[0] == '-' || s[0] == '+');
            let digits = if signed {
                s.skip(1)
            } else {
                s
            };
            0 <= k < digits.len() && !is_digit(digits[k])
        }),
    ensures
        parse_i32_spec(s) is None,
{
    let signed = s.len() > 0 && (s[0] == '-' || s[0] == '+');
    let digits = if signed {
        s.skip(1)
    } else {
        s
    };
    assert(!is_digit(digits[k]));
}

/// The value of a digit string is at least the value of any of its
/// prefixes, once every digit is a digit.
proof fn lemma_digits_monotone(s: Seq<char>, k: int)
    requires
        0 <= k <= s.len(),
    ensures
        (forall|j: int| 0 <= j < s.len() ==> is_digit(#[trigger] s[j])) ==> digits_value(s) >= digits_value(
            s.take(k),
        ),
    decreases s.len() - k,
{
    if k == s.len() {
        assert(s.take(k) =~= s);
    } else if forall|j: int| 0 <= j < s.len() ==> is_digit(#[trigger] s[j]) {
        lemma_digits_monotone(s, k + 1);
        assert(s.take(k + 1).drop_last() =~= s.take(k));
        lemma_digits_grow(s, k);
    }
}

/// The value of a digit prefix is never negative.
proof fn lemma_digits_grow(s: Seq<char>, k: int)
    requires
        0 <= k <= s.len(),
    ensures
        (forall|j: int| 0 <= j < k ==> is_digit(#[trigger] s[j])) ==> digits_value(s.take(k)) >= 0,
    decreases k,
{
    if k > 0 && (forall|j: int| 0 <= j < k ==> is_digit(#[trigger] s[j])) {
        assert(s.take(k).drop_last() =~= s.take(k - 1));
        lemma_digits_grow(s, k - 1);
        assert(s.take(k).last() == s[k - 1]);
    }
}


/// Lexicographic order on character sequences (the order of `String::cmp`,
/// whose byte order agrees with the order of the characters): `a` sorts
/// strictly before `b`.
pub open spec fn seq_lt(a: Seq<char>, b: Seq<char>) -> bool
    decreases a.len(),
{
    if a.len() == 0 {
        b.len() > 0
    } else if b.len() == 0 {
        false
    } else if a[0] != b[0] {
        a[0] < b[0]
    } else {
        seq_lt(a.skip(1), b.skip(1))
    }
}

/// No name sorts strictly before itself, and of two names at most one sorts
/// before the other.
pub proof fn lemma_seq_lt_asymmetric(a: Seq<char>, b: Seq<char>)
    ensures
        seq_lt(a, b) ==> !seq_lt(b, a),
    decreases a.len(),
{
    if a.len() > 0 && b.len() > 0 && a[0] == b[0] {
        lemma_seq_lt_asymmetric(a.skip(1), b.skip(1));
    }
}

/// Of two different names, one sorts strictly before the other.
pub proof fn lemma_seq_lt_total(a: Seq<char>, b: Seq<char>)
    ensures
        a != b ==> seq_lt(a, b) || seq_lt(b, a),
    decreases a.len(),
{
    if a.len() > 0 && b.len() > 0 && a[0] == b[0] {
        lemma_seq_lt_total(a.skip(1), b.skip(1));
        if a.skip(1) == b.skip(1) {
            assert(a =~= seq![a[0]] + a.skip(1));
            assert(b =~= seq![b[0]] + b.skip(1));
        }
    } else if a.len() == 0 && b.len() == 0 {
        assert(a =~= b);
    }
}

/// Sorting before is transitive.
pub proof fn lemma_seq_lt_transitive(a: Seq<char>, b: Seq<char>, c: Seq<char>)
    requires
        seq_lt(a, b),
        seq_lt(b, c),
    ensures
        seq_lt(a, c),
    decreases a.len(),
{
    if a.len() > 0 && a[0] == b[0] && b[0] == c[0] {
        lemma_seq_lt_transitive(a.skip(1), b.skip(1), c.skip(1));
    }
}

/// Whether `a` sorts strictly before `b`.
pub fn str_lt(a: &str, b: &str) -> (r: bool)
    ensures
        r == seq_lt(a@, b@),
{
    let ca = chars_of(a);
    let cb = chars_of(b);
    let mut i: usize = 0;
    assert(a@.skip(0) =~= a@ && b@.skip(0) =~= b@);
    while i < ca.len() && i < cb.len()
        invariant
            ca@ == a@,
            cb@ == b@,
            0 <= i <= ca@.len(),
            i <= cb@.len(),
            seq_lt(a@, b@) == seq_lt(a@.skip(i as int), b@.skip(i as int)),
        decreases ca@.len() - i,
    {
        let ghost sa = a@.skip(i as int);
        let ghost sb = b@.skip(i as int);
        assert(sa[0] == ca@[i as int] && sb[0] == cb@[i as int]);
        if ca[i] != cb[i] {
            return ca[i] < cb[i];
        }
        assert(sa.skip(1) =~= a@.skip(i + 1));
        assert(sb.skip(1) =~= b@.skip(i + 1));
        i = i + 1;
    }
    i < cb.len()
}

// ── White space ───────────────────────────────────────────────────────────────

/// Unicode white space (the `White_Space` property that `str::trim` strips).
pub open spec fn is_white_space(c: char) -> bool {
    ('\u{9}' <= c && c <= '\u{d}') || c == ' ' || c == '\u{85}' || c == '\u{a0}' || c == '\u{1680}'
        || ('\u{2000}' <= c && c <= '\u{200a}') || c == '\u{2028}' || c == '\u{2029}' || c
        == '\u{202f}' || c == '\u{205f}' || c == '\u{3000}'
}

fn white_space(c: char) -> (r: bool)
    ensures
        r == is_white_space(c),
{
    ('\u{9}' <= c && c <= '\u{d}') || c == ' ' || c == '\u{85}' || c == '\u{a0}' || c == '\u{1680}'
        || ('\u{2000}' <= c && c <= '\u{200a}') || c == '\u{2028}' || c == '\u{2029}' || c
        == '\u{202f}' || c == '\u{205f}' || c == '\u{3000}'
}

/// Number of leading white-space characters of `s`.
pub open spec fn leading_ws(s: Seq<char>) -> int
    decreases s.len(),
{
    if s.len() > 0 && is_white_space(s[0]) {
        1 + leading_ws(s.skip(1))
    } else {
        0
    }
}

/// Number of trailing white-space characters of `s`.
pub open spec fn trailing_ws(s: Seq<char>) -> int
    decreases s.len(),
{
    if s.len() > 0 && is_white_space(s.last()) {
        1 + trailing_ws(s.drop_last())
    } else {
        0
    }
}

/// `s` without leading and trailing white space (`str::trim`).
pub open spec fn trim_spec(s: Seq<char>) -> Seq<char> {
    let a = leading_ws(s);
    if a == s.len() {
        Seq::empty()
    } else {
        s.subrange(a, s.len() - trailing_ws(s))
    }
}

pub proof fn lemma_ws_bounds(s: Seq<char>)
    ensures
        0 <= leading_ws(s) <= s.len(),
        0 <= trailing_ws(s) <= s.len(),
        leading_ws(s) < s.len() ==> leading_ws(s) + trailing_ws(s) <= s.len(),
        forall|i: int| 0 <= i < leading_ws(s) ==> is_white_space(#[trigger] s[i]),
        leading_ws(s) < s.len() ==> !is_white_space(s[leading_ws(s)]),
        forall|i: int| s.len() - trailing_ws(s) <= i < s.len() ==> is_white_space(#[trigger] s[i]),
        trailing_ws(s) < s.len() ==> !is_white_space(s[s.len() - trailing_ws(s) - 1]),
    decreases s.len(),
{
    if s.len() > 0 {
        lemma_ws_bounds(s.skip(1));
        lemma_ws_bounds(s.drop_last());
        if is_white_space(s[0]) {
            assert forall|i: int| 0 <= i < leading_ws(s) implies is_white_space(#[trigger] s[i]) by {
                if i > 0 {
                    assert(s[i] == s.skip(1)[i - 1]);
                }
            }
            if leading_ws(s) < s.len() {
                assert(s[leading_ws(s)] == s.skip(1)[leading_ws(s) - 1]);
            }
        }
        if is_white_space(s.last()) {
            assert forall|i: int| s.len() - trailing_ws(s) <= i < s.len() implies is_white_space(
                #[trigger] s[i],
            ) by {
                if i < s.len() - 1 {
                    assert(s[i] == s.drop_last()[i]);
                }
            }
            if trailing_ws(s) < s.len() {
                assert(s[s.len() - trailing_ws(s) - 1] == s.drop_last()[s.len() - trailing_ws(s) - 1]);
            }
        }
        if leading_ws(s) < s.len() {
            if is_white_space(s[0]) {
                // the first non-white character is also the first of the tail
                assert(leading_ws(s.skip(1)) < s.skip(1).len());
            } else {
                assert(leading_ws(s) == 0);
            }
        }
    }
}

/// The first `end` characters of `cs`, trimmed.
pub fn trim_prefix(cs: &Vec<char>, end: usize) -> (r: Vec<char>)
    requires
        end <= cs@.len(),
    ensures
        r@ == trim_spec(cs@.take(end as int)),
{
    let ghost seg = cs@.take(end as int);
    proof {
        lemma_ws_bounds(seg);
    }
    let mut a: usize = 0;
    while a < end && white_space(cs[a])
        invariant
            seg == cs@.take(end as int),
            end <= cs@.len(),
            0 <= a <= end,
            a <= leading_ws(seg),
            forall|i: int| 0 <= i < leading_ws(seg) ==> is_white_space(#[trigger] seg[i]),
            leading_ws(seg) < seg.len() ==> !is_white_space(seg[leading_ws(seg)]),
            0 <= leading_ws(seg) <= seg.len(),
        decreases end - a,
    {
        assert(seg[a as int] == cs@[a as int]);
        a = a + 1;
    }
    if a < end {
        assert(seg[a as int] == cs@[a as int]);
    }
    assert(a == leading_ws(seg));
    let mut out: Vec<char> = Vec::new();
    if a < end {
        let mut b: usize = end;
        while b > a && white_space(cs[b - 1])
            invariant
                seg == cs@.take(end as int),
                end <= cs@.len(),
                a < end,
                a <= b <= end,
                end - b <= trailing_ws(seg),
                a == leading_ws(seg),
                !is_white_space(seg[a as int]),
                forall|i: int| seg.len() - trailing_ws(seg) <= i < seg.len() ==> is_white_space(
                    #[trigger] seg[i],
                ),
                trailing_ws(seg) < seg.len() ==> !is_white_space(seg[seg.len() - trailing_ws(seg) - 1]),
                leading_ws(seg) + trailing_ws(seg) <= seg.len(),
            decreases b - a,
        {
            assert(seg[b - 1] == cs@[b - 1]);
            b = b - 1;
        }
        if b > a {
            assert(seg[b - 1] == cs@[b - 1]);
        }
        assert(end - b == trailing_ws(seg));
        let mut k: usize = a;
        while k < b
            invariant
                seg == cs@.take(end as int),
                a <= k <= b,
                b <= end <= cs@.len(),
                out@ == seg.subrange(a as int, k as int),
            decreases b - k,
        {
            out.push(cs[k]);
            assert(seg.subrange(a as int, k + 1) =~= seg.subrange(a as int, k as int).push(cs@[k as int]));
            k = k + 1;
        }
    } else {
        assert(out@ =~= trim_spec(seg));
    }
    out
}

/// `s` without leading and trailing white space.
pub fn trim(s: &str) -> (r: String)
    ensures
        r@ == trim_spec(s@),
{
    let cs = chars_of(s);
    let out = trim_prefix(&cs, cs.len());
    assert(cs@.take(cs@.len() as int) =~= s@);
    string_from_chars(&out)
}

} // verus!
