//! Character-sequence utilities shared by the search-target grammar and the
//! header-line parser: splitting on a separator, whitespace trimming,
//! ASCII-case-insensitive comparison, and decimal encoding/parsing.
//!
//! Every executable function is specified against a spec-level function on
//! `Seq<char>`; the parsers and encoders of the other modules state their
//! contracts in terms of these spec functions.

use vstd::prelude::*;
use vstd::string::StrSliceExecFns;
use vstd::string::StringExecFns;

verus! {

// ---------------------------------------------------------------------------
// Digits and decimal numbers
// ---------------------------------------------------------------------------

/// `c` is an ASCII decimal digit.
pub open spec fn is_digit(c: char) -> bool {
    48 <= (c as u32) && (c as u32) <= 57
}

/// Numeric value of an ASCII digit.
pub open spec fn digit_val(c: char) -> nat {
    ((c as u32) - 48) as nat
}

/// The ASCII digit with value `d` (meaningful for `d < 10`).
pub open spec fn char_of_digit(d: nat) -> char {
    ((48 + d) as u8) as char
}

/// Every character of `s` is an ASCII digit.
pub open spec fn all_digits(s: Seq<char>) -> bool {
    forall|i: int| 0 <= i < s.len() ==> is_digit(s[i])
}

/// Decimal digits of `n`, most significant first, without leading zeros.
pub open spec fn dec_chars(n: nat) -> Seq<char>
    decreases n,
{
    if n < 10 {
        seq![char_of_digit(n)]
    } else {
        dec_chars(n / 10) + seq![char_of_digit(n % 10)]
    }
}

/// Value of a sequence of ASCII digits, most significant first.
pub open spec fn dec_val(s: Seq<char>) -> nat
    decreases s.len(),
{
    if s.len() == 0 {
        0
    } else {
        dec_val(s.drop_last()) * 10 + digit_val(s.last())
    }
}

/// The non-negative integers accepted by Rust's `u32` parser: an optional
/// leading `+`, then at least one ASCII digit, with a value that fits in
/// `u32`.
pub open spec fn spec_parse_u32(s: Seq<char>) -> Option<u32> {
    let ds = if s.len() > 0 && s[0] == '+' {
        s.skip(1)
    } else {
        s
    };
    if ds.len() > 0 && all_digits(ds) && dec_val(ds) <= u32::MAX {
        Some(dec_val(ds) as u32)
    } else {
        None
    }
}

pub proof fn lemma_dec_chars_digits(n: nat)
    ensures
        dec_chars(n).len() >= 1,
        all_digits(dec_chars(n)),
    decreases n,
{
    if n < 10 {
    } else {
        lemma_dec_chars_digits(n / 10);
        assert forall|i: int| 0 <= i < dec_chars(n).len() implies is_digit(dec_chars(n)[i]) by {
            if i < dec_chars(n / 10).len() {
                assert(dec_chars(n)[i] == dec_chars(n / 10)[i]);
            } else {
                assert(dec_chars(n)[i] == char_of_digit(n % 10));
            }
        }
    }
}

/// The digit characters carry their values: encoding then reading one digit
/// is the identity.
pub proof fn lemma_digit_roundtrip(d: nat)
    requires
        d < 10,
    ensures
        is_digit(char_of_digit(d)),
        digit_val(char_of_digit(d)) == d,
{
    let b = (48 + d) as u8;
    assert(b == 48 + d);
    let c = b as char;
    assert(c as u32 == 48 + d);
}

/// Parsing inverts decimal encoding.
pub proof fn lemma_dec_val_of_dec_chars(n: nat)
    ensures
        dec_val(dec_chars(n)) == n,
    decreases n,
{
    if n < 10 {
        lemma_digit_roundtrip(n);
        assert(dec_chars(n) == seq![char_of_digit(n)]);
        assert(dec_chars(n).drop_last() =~= Seq::<char>::empty());
        assert(dec_val(Seq::<char>::empty()) == 0);
        assert(dec_chars(n).last() == char_of_digit(n));
    } else {
        lemma_digit_roundtrip(n % 10);
        lemma_dec_val_of_dec_chars(n / 10);
        lemma_dec_chars_digits(n / 10);
        assert(dec_chars(n).drop_last() =~= dec_chars(n / 10));
        assert(dec_chars(n).last() == char_of_digit(n % 10));
        assert(n / 10 * 10 + n % 10 == n) by {
            vstd::arithmetic::div_mod::lemma_fundamental_div_mod(n as int, 10);
        }
    }
}

/// A decimal encoding that fits in `u32` parses back to its value.
pub proof fn lemma_parse_of_dec_chars(n: nat)
    requires
        n <= u32::MAX,
    ensures
        spec_parse_u32(dec_chars(n)) == Some(n as u32),
{
    lemma_dec_chars_digits(n);
    lemma_dec_val_of_dec_chars(n);
    assert(!is_digit('+')) by {
        assert('+' as u32 == 43);
    }
    assert(dec_chars(n)[0] != '+');
}

/// A digit-string prefix never exceeds the value of the whole string.
pub proof fn lemma_dec_val_take_le(s: Seq<char>, k: int)
    requires
        0 <= k <= s.len(),
    ensures
        dec_val(s.take(k)) <= dec_val(s),
    decreases s.len() - k,
{
    if k == s.len() {
        assert(s.take(k) =~= s);
    } else {
        assert(s.take(k + 1).drop_last() =~= s.take(k));
        assert(dec_val(s.take(k + 1)) == dec_val(s.take(k)) * 10 + digit_val(s.take(k + 1).last()));
        lemma_dec_val_take_le(s, k + 1);
    }
}

/// Numeric value of an ASCII digit character, `None` for any other character.
fn digit_of_char(c: char) -> (r: Option<u32>)
    ensures
        r is Some <==> is_digit(c),
        r matches Some(d) ==> d == digit_val(c) && d < 10,
{
    let u = c as u32;
    if 48 <= u && u <= 57 {
        Some(u - 48)
    } else {
        None
    }
}

/// Parses a `u32` the way Rust's `str::parse::<u32>` does for non-negative
/// input: an optional `+`, then one or more ASCII digits, rejecting overflow.
pub fn parse_u32_str(s: &str) -> (r: Option<u32>)
    ensures
        r == spec_parse_u32(s@),
{
    let n = s.unicode_len();
    let mut start: usize = 0;
    if n > 0 && s.get_char(0) == '+' {
        start = 1;
    }
    let ghost ds = if s@.len() > 0 && s@[0] == '+' {
        s@.skip(1)
    } else {
        s@
    };
    assert(ds.len() == n - start);
    assert(forall|j: int| 0 <= j < ds.len() ==> ds[j] == s@[j + start]);
    if start == n {
        return None;
    }
    let mut acc: u32 = 0;
    let mut i: usize = start;
    while i < n
        invariant
            start <= i <= n,
            n == s@.len(),
            start == 1 ==> n > 0 && s@[0] == '+',
            start == 0 ==> !(s@.len() > 0 && s@[0] == '+'),
            ds == (if s@.len() > 0 && s@[0] == '+' { s@.skip(1) } else { s@ }),
            ds.len() == n - start,
            forall|j: int| 0 <= j < ds.len() ==> ds[j] == s@[j + start],
            all_digits(ds.take(i - start)),
            acc == dec_val(ds.take(i - start)),
        decreases n - i,
    {
        let c = s.get_char(i);
        assert(c == ds[i - start]);
        let d = match digit_of_char(c) {
            Some(d) => d,
            None => {
                assert(!is_digit(ds[i - start]));
                return None;
            },
        };
        proof {
            assert(ds.take(i - start + 1).drop_last() =~= ds.take(i - start));
            assert(ds.take(i - start + 1).last() == ds[i - start]);
        }
        if acc > u32::MAX / 10 {
            proof {
                assert(dec_val(ds.take(i - start + 1)) > u32::MAX);
                lemma_dec_val_take_le(ds, i - start + 1);
            }
            return None;
        }
        let shifted = acc * 10;
        if d > u32::MAX - shifted {
            proof {
                assert(dec_val(ds.take(i - start + 1)) > u32::MAX);
                lemma_dec_val_take_le(ds, i - start + 1);
            }
            return None;
        }
        acc = shifted + d;
        i += 1;
    }
    proof {
        assert(ds.take(n - start) =~= ds);
    }
    Some(acc)
}

/// Formats `v` in decimal, most significant digit first.
pub fn u64_to_dec(v: u64) -> (r: String)
    ensures
        r@ == dec_chars(v as nat),
    decreases v,
{
    let digits = "0123456789";
    proof {
        reveal_strlit("0123456789");
    }
    if v < 10 {
        let d = digits.substring_char(v as usize, v as usize + 1);
        assert(d@ =~= seq![char_of_digit(v as nat)]);
        String::from_str(d)
    } else {
        let high = u64_to_dec(v / 10);
        let low = digits.substring_char((v % 10) as usize, (v % 10) as usize + 1);
        assert(low@ =~= seq![char_of_digit((v % 10) as nat)]);
        let r = high.concat(low);
        proof {
            vstd::arithmetic::div_mod::lemma_fundamental_div_mod(v as int, 10);
        }
        r
    }
}

// ---------------------------------------------------------------------------
// Comparison, prefixes, search
// ---------------------------------------------------------------------------

/// `p` is a prefix of `s`.
pub open spec fn has_prefix(s: Seq<char>, p: Seq<char>) -> bool {
    p.len() <= s.len() && s.take(p.len() as int) == p
}

/// Character-for-character equality of two string slices.
pub fn str_eq(a: &str, b: &str) -> (r: bool)
    ensures
        r == (a@ == b@),
{
    let n = a.unicode_len();
    if n != b.unicode_len() {
        return false;
    }
    let mut i: usize = 0;
    while i < n
        invariant
            i <= n,
            n == a@.len(),
            n == b@.len(),
            forall|j: int| 0 <= j < i ==> a@[j] == b@[j],
        decreases n - i,
    {
        if a.get_char(i) != b.get_char(i) {
            return false;
        }
        i += 1;
    }
    proof {
        assert(a@ =~= b@);
    }
    true
}

/// Whether `s` starts with `p`.
pub fn has_prefix_str(s: &str, p: &str) -> (r: bool)
    ensures
        r == has_prefix(s@, p@),
{
    let n = s.unicode_len();
    let m = p.unicode_len();
    if m > n {
        return false;
    }
    let mut i: usize = 0;
    while i < m
        invariant
            i <= m <= n,
            n == s@.len(),
            m == p@.len(),
            forall|j: int| 0 <= j < i ==> s@[j] == p@[j],
        decreases m - i,
    {
        if s.get_char(i) != p.get_char(i) {
            assert(s@.take(m as int)[i as int] != p@[i as int]);
            return false;
        }
        i += 1;
    }
    proof {
        assert(s@.take(m as int) =~= p@);
    }
    true
}

/// ASCII lower-casing of one character.
pub open spec fn lower_char(c: char) -> char {
    if 65 <= (c as u32) && (c as u32) <= 90 {
        (((c as u32) + 32) as u8) as char
    } else {
        c
    }
}

/// Equality up to ASCII case.
pub open spec fn eq_ignore_case(a: Seq<char>, b: Seq<char>) -> bool {
    a.len() == b.len() && forall|i: int| 0 <= i < a.len() ==> lower_char(a[i]) == lower_char(b[i])
}

fn lower_char_exec(c: char) -> (r: char)
    ensures
        r == lower_char(c),
{
    let u = c as u32;
    if 65 <= u && u <= 90 {
        ((u + 32) as u8) as char
    } else {
        c
    }
}

/// Whether `a` and `b` are equal up to ASCII case.
pub fn eq_ignore_case_str(a: &str, b: &str) -> (r: bool)
    ensures
        r == eq_ignore_case(a@, b@),
{
    let n = a.unicode_len();
    if n != b.unicode_len() {
        return false;
    }
    let mut i: usize = 0;
    while i < n
        invariant
            i <= n,
            n == a@.len(),
            n == b@.len(),
            forall|j: int| 0 <= j < i ==> lower_char(a@[j]) == lower_char(b@[j]),
        decreases n - i,
    {
        if lower_char_exec(a.get_char(i)) != lower_char_exec(b.get_char(i)) {
            return false;
        }
        i += 1;
    }
    true
}

// ---------------------------------------------------------------------------
// Splitting on a separator
// ---------------------------------------------------------------------------

/// The separator occurs in `s` at position `i`.
pub open spec fn match_at(s: Seq<char>, sep: Seq<char>, i: int) -> bool {
    0 <= i && i + sep.len() <= s.len() && s.subrange(i, i + sep.len()) == sep
}

/// Splitting `s` on the (non-empty) separator `sep`, leftmost match first, as
/// Rust's `str::split` does: `n` occurrences of the separator give `n + 1`
/// fields, empty fields included.
pub open spec fn spec_split(s: Seq<char>, sep: Seq<char>) -> Seq<Seq<char>>
    decreases s.len(),
{
    if sep.len() == 0 || s.len() == 0 {
        seq![s]
    } else if has_prefix(s, sep) {
        seq![Seq::<char>::empty()] + spec_split(s.skip(sep.len() as int), sep)
    } else {
        let rest = spec_split(s.skip(1), sep);
        seq![seq![s[0]] + rest[0]] + rest.skip(1)
    }
}

pub proof fn lemma_split_len(s: Seq<char>, sep: Seq<char>)
    ensures
        spec_split(s, sep).len() >= 1,
    decreases s.len(),
{
    if sep.len() == 0 || s.len() == 0 {
    } else if has_prefix(s, sep) {
        lemma_split_len(s.skip(sep.len() as int), sep);
    } else {
        lemma_split_len(s.skip(1), sep);
    }
}

/// A sequence without the separator character is a single field.
pub proof fn lemma_split_no_sep(s: Seq<char>, c: char)
    requires
        forall|i: int| 0 <= i < s.len() ==> s[i] != c,
    ensures
        spec_split(s, seq![c]) == seq![s],
    decreases s.len(),
{
    let sep = seq![c];
    if s.len() == 0 {
    } else {
        assert(!has_prefix(s, sep)) by {
            if has_prefix(s, sep) {
                assert(s.take(1)[0] == s[0]);
            }
        }
        assert(forall|i: int| 0 <= i < s.skip(1).len() ==> s.skip(1)[i] != c);
        lemma_split_no_sep(s.skip(1), c);
        let rest = spec_split(s.skip(1), sep);
        assert(rest == seq![s.skip(1)]);
        assert(seq![s[0]] + s.skip(1) =~= s);
        assert(rest.skip(1) =~= Seq::<Seq<char>>::empty());
        assert(spec_split(s, sep) =~= seq![s]);
    }
}

/// Splitting a concatenation `a ++ c ++ b` where `a` is free of the separator
/// yields `a` followed by the fields of `b`.
pub proof fn lemma_split_concat(a: Seq<char>, c: char, b: Seq<char>)
    requires
        forall|i: int| 0 <= i < a.len() ==> a[i] != c,
    ensures
        spec_split(a + seq![c] + b, seq![c]) == seq![a] + spec_split(b, seq![c]),
    decreases a.len(),
{
    let sep = seq![c];
    let s = a + seq![c] + b;
    if a.len() == 0 {
        assert(s.take(1) =~= sep);
        assert(has_prefix(s, sep));
        assert(s.skip(1) =~= b);
        assert(spec_split(s, sep) == seq![Seq::<char>::empty()] + spec_split(b, sep));
        assert(Seq::<char>::empty() =~= a);
        assert(seq![Seq::<char>::empty()] + spec_split(b, sep) =~= seq![a] + spec_split(b, sep));
    } else {
        assert(s[0] == a[0]);
        assert(a[0] != c);
        assert(!has_prefix(s, sep)) by {
            if has_prefix(s, sep) {
                assert(s.take(1)[0] == s[0]);
            }
        }
        assert(s.skip(1) =~= a.skip(1) + seq![c] + b);
        assert(forall|i: int| 0 <= i < a.skip(1).len() ==> a.skip(1)[i] != c);
        lemma_split_concat(a.skip(1), c, b);
        let rest = spec_split(s.skip(1), sep);
        lemma_split_len(b, sep);
        assert(rest == seq![a.skip(1)] + spec_split(b, sep));
        assert(rest[0] == a.skip(1));
        assert(seq![s[0]] + rest[0] =~= a);
        assert(rest.skip(1) =~= spec_split(b, sep));
        assert(spec_split(s, sep) =~= seq![a] + spec_split(b, sep));
    }
}

/// Whether `sep` occurs in `s` at position `i`.
fn matches_at_exec(s: &str, sep: &str, i: usize) -> (r: bool)
    requires
        i + sep@.len() <= s@.len(),
    ensures
        r == match_at(s@, sep@, i as int),
{
    let n = s.unicode_len();
    let m = sep.unicode_len();
    let mut j: usize = 0;
    while j < m
        invariant
            j <= m,
            m == sep@.len(),
            n == s@.len(),
            i + m <= n,
            forall|k: int| 0 <= k < j ==> s@[i + k] == sep@[k],
        decreases m - j,
    {
        if s.get_char(i + j) != sep.get_char(j) {
            assert(s@.subrange(i as int, i + m) != sep@) by {
                assert(s@.subrange(i as int, i + m)[j as int] == s@[i + j]);
            }
            return false;
        }
        j += 1;
    }
    proof {
        assert(s@.subrange(i as int, i + m) =~= sep@);
    }
    true
}

/// Splits `s` on `sep`, leftmost match first, as `str::split` does.
pub fn split_str(s: &str, sep: &str) -> (r: Vec<String>)
    requires
        sep@.len() >= 1,
    ensures
        r.deep_view() == spec_split(s@, sep@),
{
    let n = s.unicode_len();
    let m = sep.unicode_len();
    let mut out: Vec<String> = Vec::new();
    let mut cur = String::new();
    let mut i: usize = 0;
    proof {
        lemma_split_len(s@, sep@);
        assert(s@.skip(0) =~= s@);
        assert(out.deep_view() =~= Seq::<Seq<char>>::empty());
        assert(out.deep_view() + seq![cur@ + spec_split(s@.skip(0), sep@)[0]] + spec_split(
            s@.skip(0),
            sep@,
        ).skip(1) =~= spec_split(s@, sep@));
    }
    loop
        invariant
            i <= n,
            n == s@.len(),
            m == sep@.len(),
            m >= 1,
            spec_split(s@, sep@) == out.deep_view() + seq![cur@ + spec_split(
                s@.skip(i as int),
                sep@,
            )[0]] + spec_split(s@.skip(i as int), sep@).skip(1),
        ensures
            i == n,
            spec_split(s@, sep@) == out.deep_view() + seq![cur@ + spec_split(
                s@.skip(i as int),
                sep@,
            )[0]] + spec_split(s@.skip(i as int), sep@).skip(1),
        decreases n - i,
    {
        let ghost prev = s@.skip(i as int);
        let ghost ocur = cur@;
        let ghost oout = out.deep_view();
        proof {
            lemma_split_len(prev, sep@);
        }
        if m <= n - i && matches_at_exec(s, sep, i) {
            proof {
                assert(prev.take(m as int) =~= s@.subrange(i as int, i + m));
                assert(has_prefix(prev, sep@));
                assert(prev.skip(m as int) =~= s@.skip(i + m));
            }
            out.push(cur);
            cur = String::new();
            i += m;
            proof {
                let tail = spec_split(s@.skip(i as int), sep@);
                lemma_split_len(s@.skip(i as int), sep@);
                assert(spec_split(prev, sep@) == seq![Seq::<char>::empty()] + tail);
                assert(out.deep_view() =~= oout.push(ocur));
                assert((seq![Seq::<char>::empty()] + tail)[0] == Seq::<char>::empty());
                assert(ocur + Seq::<char>::empty() =~= ocur);
                assert((seq![Seq::<char>::empty()] + tail).skip(1) =~= tail);
                assert(seq![tail[0]] + tail.skip(1) =~= tail);
                assert(out.deep_view() + seq![cur@ + tail[0]] + tail.skip(1) =~= oout + seq![ocur
                    + spec_split(prev, sep@)[0]] + spec_split(prev, sep@).skip(1));
            }
        } else if i < n {
            proof {
                assert(!has_prefix(prev, sep@)) by {
                    if has_prefix(prev, sep@) {
                        assert(i + m <= n);
                        assert(prev.take(m as int) =~= s@.subrange(i as int, i + m));
                    }
                }
                assert(prev.len() > 0);
            }
            let piece = s.substring_char(i, i + 1);
            proof {
                assert(piece@ =~= seq![s@[i as int]]);
            }
            cur.append(piece);
            i += 1;
            proof {
                assert(prev.skip(1) =~= s@.skip(i as int));
                let rest = spec_split(s@.skip(i as int), sep@);
                lemma_split_len(s@.skip(i as int), sep@);
                assert(spec_split(prev, sep@) == seq![seq![prev[0]] + rest[0]] + rest.skip(1));
                assert(prev[0] == s@[i - 1]);
                assert(cur@ =~= ocur + seq![prev[0]]);
                assert(cur@ + rest[0] =~= ocur + (seq![prev[0]] + rest[0]));
                assert((seq![seq![prev[0]] + rest[0]] + rest.skip(1)).skip(1) =~= rest.skip(1));
                assert(out.deep_view() + seq![cur@ + rest[0]] + rest.skip(1) =~= oout + seq![ocur
                    + spec_split(prev, sep@)[0]] + spec_split(prev, sep@).skip(1));
            }
        } else {
            break ;
        }
    }
    let ghost tail = spec_split(s@.skip(n as int), sep@);
    let ghost oout = out.deep_view();
    let ghost ocur = cur@;
    proof {
        assert(i == n);
        assert(spec_split(s@, sep@) == oout + seq![ocur + tail[0]] + tail.skip(1));
        assert(s@.skip(n as int) =~= Seq::<char>::empty());
        assert(tail == seq![Seq::<char>::empty()]);
        assert(ocur + tail[0] =~= ocur);
    }
    out.push(cur);
    proof {
        assert(out.deep_view() =~= oout.push(ocur));
        assert(oout + seq![ocur + tail[0]] + tail.skip(1) =~= out.deep_view());
        assert(spec_split(s@, sep@) == out.deep_view());
    }
    out
}

// ---------------------------------------------------------------------------
// Whitespace trimming
// ---------------------------------------------------------------------------

/// ASCII whitespace, the characters `str::trim` removes from header values.
pub open spec fn is_space(c: char) -> bool {
    c == ' ' || c == '\t' || c == '\n' || c == '\r' || c == '\u{b}' || c == '\u{c}'
}

pub open spec fn trim_start_spec(s: Seq<char>) -> Seq<char>
    decreases s.len(),
{
    if s.len() > 0 && is_space(s[0]) {
        trim_start_spec(s.drop_first())
    } else {
        s
    }
}

pub open spec fn trim_end_spec(s: Seq<char>) -> Seq<char>
    decreases s.len(),
{
    if s.len() > 0 && is_space(s.last()) {
        trim_end_spec(s.drop_last())
    } else {
        s
    }
}

/// `s` without leading and trailing ASCII whitespace.
pub open spec fn trim_spec(s: Seq<char>) -> Seq<char> {
    trim_end_spec(trim_start_spec(s))
}

proof fn lemma_trim_start_skip(s: Seq<char>, a: int)
    requires
        0 <= a <= s.len(),
        forall|j: int| 0 <= j < a ==> is_space(s[j]),
        a < s.len() ==> !is_space(s[a]),
    ensures
        trim_start_spec(s) == s.skip(a),
    decreases a,
{
    if a == 0 {
        assert(s.skip(0) =~= s);
    } else {
        assert(is_space(s[0]));
        assert(s.drop_first() =~= s.skip(1));
        assert(forall|j: int| 0 <= j < a - 1 ==> is_space(s.skip(1)[j]));
        lemma_trim_start_skip(s.skip(1), a - 1);
        assert(s.skip(1).skip(a - 1) =~= s.skip(a));
    }
}

proof fn lemma_trim_end_take(s: Seq<char>, b: int)
    requires
        0 <= b <= s.len(),
        forall|j: int| b <= j < s.len() ==> is_space(s[j]),
        b > 0 ==> !is_space(s[b - 1]),
    ensures
        trim_end_spec(s) == s.take(b),
    decreases s.len(),
{
    if b == s.len() {
        assert(s.take(b) =~= s);
        if s.len() > 0 {
            assert(!is_space(s.last()));
        }
    } else {
        assert(is_space(s.last()));
        assert(s.drop_last() =~= s.take(s.len() - 1));
        lemma_trim_end_take(s.take(s.len() - 1), b);
        assert(s.take(s.len() - 1).take(b) =~= s.take(b));
    }
}

fn is_space_exec(c: char) -> (r: bool)
    ensures
        r == is_space(c),
{
    c == ' ' || c == '\t' || c == '\n' || c == '\r' || c == '\u{b}' || c == '\u{c}'
}

/// `s` without leading and trailing ASCII whitespace, as `str::trim` on
/// header values.
pub fn trim_str(s: &str) -> (r: String)
    ensures
        r@ == trim_spec(s@),
{
    let n = s.unicode_len();
    let mut a: usize = 0;
    while a < n && is_space_exec(s.get_char(a))
        invariant
            a <= n,
            n == s@.len(),
            forall|j: int| 0 <= j < a ==> is_space(s@[j]),
        decreases n - a,
    {
        a += 1;
    }
    proof {
        lemma_trim_start_skip(s@, a as int);
    }
    let mut b: usize = n;
    while b > a && is_space_exec(s.get_char(b - 1))
        invariant
            a <= b <= n,
            n == s@.len(),
            forall|j: int| b <= j < n ==> is_space(s@[j]),
        decreases b,
    {
        b -= 1;
    }
    let ghost t = s@.skip(a as int);
    proof {
        assert(forall|j: int| b - a <= j < t.len() ==> is_space(t[j]));
        if b > a {
            assert(!is_space(t[b - a - 1]));
        }
        lemma_trim_end_take(t, b - a);
        assert(t.take(b - a) =~= s@.subrange(a as int, b as int));
    }
    let r = s.substring_char(a, b);
    String::from_str(r)
}

// ---------------------------------------------------------------------------
// Finding a character
// ---------------------------------------------------------------------------

/// Index of the first occurrence of `c` in `s`.
pub open spec fn find_char(s: Seq<char>, c: char) -> Option<int>
    decreases s.len(),
{
    if s.len() == 0 {
        None
    } else if s[0] == c {
        Some(0)
    } else {
        match find_char(s.drop_first(), c) {
            Some(i) => Some(i + 1),
            None => None,
        }
    }
}

pub proof fn lemma_find_char(s: Seq<char>, c: char)
    ensures
        match find_char(s, c) {
            Some(i) => 0 <= i < s.len() && s[i] == c && forall|j: int| 0 <= j < i ==> s[j] != c,
            None => forall|j: int| 0 <= j < s.len() ==> s[j] != c,
        },
    decreases s.len(),
{
    if s.len() == 0 {
    } else if s[0] == c {
    } else {
        lemma_find_char(s.drop_first(), c);
        assert(forall|j: int| 1 <= j < s.len() ==> s[j] == s.drop_first()[j - 1]);
        match find_char(s.drop_first(), c) {
            Some(i) => {
                assert(s[i + 1] == c);
                assert forall|j: int| 0 <= j < i + 1 implies s[j] != c by {
                    if j >= 1 {
                        assert(s.drop_first()[j - 1] != c);
                    }
                }
            },
            None => {
                assert forall|j: int| 0 <= j < s.len() implies s[j] != c by {
                    if j >= 1 {
                        assert(s.drop_first()[j - 1] != c);
                    }
                }
            },
        }
    }
}

/// Index of the first occurrence of `c` in `s`, if any.
pub fn find_char_str(s: &str, c: char) -> (r: Option<usize>)
    ensures
        match r {
            Some(i) => find_char(s@, c) == Some(i as int),
            None => find_char(s@, c) is None,
        },
{
    let n = s.unicode_len();
    let mut i: usize = 0;
    while i < n
        invariant
            i <= n,
            n == s@.len(),
            forall|j: int| 0 <= j < i ==> s@[j] != c,
        decreases n - i,
    {
        if s.get_char(i) == c {
            proof {
                lemma_find_char(s@, c);
                match find_char(s@, c) {
                    Some(k) => {
                        if k < i {
                            assert(s@[k] == c);
                        }
                        if k > i {
                            assert(s@[i as int] != c);
                        }
                    },
                    None => {
                        assert(s@[i as int] != c);
                    },
                }
            }
            return Some(i);
        }
        i += 1;
    }
    proof {
        lemma_find_char(s@, c);
        match find_char(s@, c) {
            Some(k) => {
                assert(s@[k] == c);
            },
            None => {},
        }
    }
    None
}

} // verus!
