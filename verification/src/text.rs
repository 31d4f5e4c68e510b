//! Character-level helpers the rest of the library builds its names from.
//!
//! Text is modelled as `Seq<char>`, the view vstd gives `String` and `&str`.

use vstd::prelude::*;

verus! {

// ---------------------------------------------------------------------------
// Specifications
// ---------------------------------------------------------------------------

/// `c` with `A`..`Z` folded to `a`..`z` and everything else unchanged.
pub open spec fn lower_char(c: char) -> char {
    if 'A' <= c && c <= 'Z' {
        ((c as u32) + 32) as char
    } else {
        c
    }
}

/// ASCII lowercase of a whole sequence, as `str::to_ascii_lowercase` does.
pub open spec fn lower(s: Seq<char>) -> Seq<char> {
    s.map_values(|c: char| lower_char(c))
}

pub open spec fn is_ascii_digit(c: char) -> bool {
    '0' <= c && c <= '9'
}

pub open spec fn is_ascii_alnum(c: char) -> bool {
    ||| is_ascii_digit(c)
    ||| ('a' <= c && c <= 'z')
    ||| ('A' <= c && c <= 'Z')
}

/// A path separator, either way round.
pub open spec fn is_sep(c: char) -> bool {
    c == '/' || c == '\\'
}

/// One past the position of the last character of `s` satisfying `p`, or `0`
/// when none does.
pub open spec fn last_pos(s: Seq<char>, p: spec_fn(char) -> bool) -> int
    decreases s.len(),
{
    if s.len() == 0 {
        0
    } else if p(s.last()) {
        s.len() as int
    } else {
        last_pos(s.drop_last(), p)
    }
}

/// What `last_pos` is, stated without recursion.
pub open spec fn is_last_pos(s: Seq<char>, p: spec_fn(char) -> bool, k: int) -> bool {
    &&& 0 <= k <= s.len()
    &&& (k == 0 || p(s[k - 1]))
    &&& forall|j: int| k <= j < s.len() ==> !p(#[trigger] s[j])
}

pub open spec fn sep_pred() -> spec_fn(char) -> bool {
    |c: char| is_sep(c)
}

pub open spec fn char_pred(x: char) -> spec_fn(char) -> bool {
    |c: char| c == x
}

/// Where the last path segment of `s` starts.
pub open spec fn leaf_start(s: Seq<char>) -> int {
    last_pos(s, sep_pred())
}

/// The text after the last `/` or `\`, or all of `s` when it has neither:
/// what `rsplit(['/', '\\']).next()` gives.
pub open spec fn leaf(s: Seq<char>) -> Seq<char> {
    s.subrange(leaf_start(s), s.len() as int)
}

/// The position of the last `x` in `s`, as `rfind` gives it.
pub open spec fn rfind(s: Seq<char>, x: char) -> Option<int> {
    let k = last_pos(s, char_pred(x));
    if k == 0 {
        None
    } else {
        Some(k - 1)
    }
}

pub open spec fn starts_with(s: Seq<char>, prefix: Seq<char>) -> bool {
    prefix.len() <= s.len() && s.subrange(0, prefix.len() as int) == prefix
}

pub open spec fn ends_with(s: Seq<char>, suffix: Seq<char>) -> bool {
    suffix.len() <= s.len() && s.subrange(s.len() - suffix.len(), s.len() as int) == suffix
}

/// `needle` occurs in `s` starting at `i`.
pub open spec fn occurs_at(s: Seq<char>, needle: Seq<char>, i: int) -> bool {
    0 <= i && i + needle.len() <= s.len() && s.subrange(i, i + needle.len()) == needle
}

pub open spec fn contains(s: Seq<char>, needle: Seq<char>) -> bool {
    exists|i: int| occurs_at(s, needle, i)
}

/// The decimal digit for `d < 10`.
pub open spec fn digit_char(d: nat) -> char {
    (('0' as u32) + d) as char
}

/// The decimal spelling of `n`, with no leading zeros (`0` is `"0"`).
pub open spec fn decimal(n: nat) -> Seq<char>
    decreases n,
{
    if n < 10 {
        seq![digit_char(n)]
    } else {
        decimal(n / 10).push(digit_char(n % 10))
    }
}

// ---------------------------------------------------------------------------
// Lemmas
// ---------------------------------------------------------------------------

pub proof fn lemma_last_pos(s: Seq<char>, p: spec_fn(char) -> bool)
    ensures
        is_last_pos(s, p, last_pos(s, p)),
    decreases s.len(),
{
    if s.len() > 0 && !p(s.last()) {
        let t = s.drop_last();
        lemma_last_pos(t, p);
        assert forall|j: int| last_pos(s, p) <= j < s.len() implies !p(#[trigger] s[j]) by {
            if j < s.len() - 1 {
                assert(s[j] == t[j]);
            }
        }
    }
}

pub proof fn lemma_last_pos_unique(s: Seq<char>, p: spec_fn(char) -> bool, k: int)
    requires
        is_last_pos(s, p, k),
    ensures
        k == last_pos(s, p),
{
    lemma_last_pos(s, p);
    let m = last_pos(s, p);
    if k < m {
        assert(!p(s[m - 1]));
    } else if m < k {
        assert(!p(s[k - 1]));
    }
}

// ---------------------------------------------------------------------------
// Executable helpers
// ---------------------------------------------------------------------------

/// `String::push`: the contract claims the text gains `c` at its end and
/// nothing else.
#[verifier::external_body]
fn push_char(s: &mut String, c: char)
    ensures
        final(s)@ == old(s)@.push(c),
{
    s.push(c);
}

/// The characters of a string slice, in order.
pub fn chars_of(s: &str) -> (out: Vec<char>)
    ensures
        out@ == s@,
{
    let mut out: Vec<char> = Vec::new();
    for c in it: s.chars()
        invariant
            out@ == it.seq().take(it.index() as int),
            it.seq() == s@,
    {
        out.push(c);
    }
    out
}

/// The string spelled by `chars`.
pub fn string_of(chars: &Vec<char>) -> (out: String)
    ensures
        out@ == chars@,
{
    let mut out = String::new();
    let mut i: usize = 0;
    while i < chars.len()
        invariant
            i <= chars.len(),
            out@ == chars@.take(i as int),
        decreases chars.len() - i,
    {
        push_char(&mut out, chars[i]);
        assert(chars@.take(i + 1) =~= chars@.take(i as int).push(chars@[i as int]));
        i += 1;
    }
    assert(chars@.take(chars.len() as int) =~= chars@);
    out
}

/// `a` followed by `b`.
pub fn concat_chars(a: &Vec<char>, b: &Vec<char>) -> (out: Vec<char>)
    ensures
        out@ == a@ + b@,
{
    let mut out = a.clone();
    let mut i: usize = 0;
    while i < b.len()
        invariant
            i <= b.len(),
            out@ == a@ + b@.take(i as int),
        decreases b.len() - i,
    {
        out.push(b[i]);
        assert(b@.take(i + 1) =~= b@.take(i as int).push(b@[i as int]));
        i += 1;
    }
    assert(b@.take(b.len() as int) =~= b@);
    out
}

/// The characters `from..to` of `s`.
pub fn sub_chars(s: &Vec<char>, from: usize, to: usize) -> (out: Vec<char>)
    requires
        from <= to <= s.len(),
    ensures
        out@ == s@.subrange(from as int, to as int),
{
    let mut out: Vec<char> = Vec::new();
    let mut i = from;
    while i < to
        invariant
            from <= i <= to <= s.len(),
            out@ == s@.subrange(from as int, i as int),
        decreases to - i,
    {
        out.push(s[i]);
        assert(s@.subrange(from as int, i + 1) =~= s@.subrange(from as int, i as int).push(
            s@[i as int],
        ));
        i += 1;
    }
    out
}

pub fn lower_char_exec(c: char) -> (out: char)
    ensures
        out == lower_char(c),
{
    if 'A' <= c && c <= 'Z' {
        let code: u32 = c as u32;
        let lowered: u32 = code + 32;
        assert(lowered < 128);
        char_from_ascii(lowered)
    } else {
        c
    }
}

/// The ASCII character with code `code`.
pub(crate) fn char_from_ascii(code: u32) -> (out: char)
    requires
        code < 128,
    ensures
        out == code as char,
{
    let byte: u8 = code as u8;
    byte as char
}

/// ASCII lowercase, character by character.
pub fn lower_chars(s: &Vec<char>) -> (out: Vec<char>)
    ensures
        out@ == lower(s@),
{
    let mut out: Vec<char> = Vec::new();
    let mut i: usize = 0;
    while i < s.len()
        invariant
            i <= s.len(),
            out@.len() == i,
            forall|j: int| 0 <= j < i ==> out@[j] == lower_char(s@[j]),
        decreases s.len() - i,
    {
        let c = lower_char_exec(s[i]);
        out.push(c);
        i += 1;
    }
    assert(out@ =~= lower(s@));
    out
}

/// `str::to_ascii_lowercase`.
pub fn to_ascii_lowercase(s: &str) -> (out: String)
    ensures
        out@ == lower(s@),
{
    let chars = chars_of(s);
    string_of(&lower_chars(&chars))
}

/// Where the last path segment of `s` starts: one past its last separator.
pub fn leaf_start_of(s: &Vec<char>) -> (k: usize)
    ensures
        k == leaf_start(s@),
{
    let mut k = s.len();
    while k > 0 && !(s[k - 1] == '/' || s[k - 1] == '\\')
        invariant
            k <= s.len(),
            forall|j: int| k <= j < s.len() ==> !is_sep(#[trigger] s@[j]),
        decreases k,
    {
        k -= 1;
    }
    proof {
        assert(is_last_pos(s@, sep_pred(), k as int));
        lemma_last_pos_unique(s@, sep_pred(), k as int);
    }
    k
}

/// The last path segment of `s`.
pub fn leaf_of(s: &Vec<char>) -> (out: Vec<char>)
    ensures
        out@ == leaf(s@),
{
    let k = leaf_start_of(s);
    proof {
        lemma_last_pos(s@, sep_pred());
    }
    sub_chars(s, k, s.len())
}

/// The position of the last `x` in `s`.
pub fn rfind_char(s: &Vec<char>, x: char) -> (out: Option<usize>)
    ensures
        out is None <==> rfind(s@, x) is None,
        out matches Some(i) ==> rfind(s@, x) == Some(i as int) && i < s.len() && s@[i as int]
            == x,
{
    let mut k = s.len();
    while k > 0 && s[k - 1] != x
        invariant
            k <= s.len(),
            forall|j: int| k <= j < s.len() ==> #[trigger] s@[j] != x,
        decreases k,
    {
        k -= 1;
    }
    proof {
        assert(is_last_pos(s@, char_pred(x), k as int));
        lemma_last_pos_unique(s@, char_pred(x), k as int);
    }
    if k == 0 {
        None
    } else {
        Some(k - 1)
    }
}

/// Whether `needle` occurs in `s` at `i`.
pub fn occurs_at_exec(s: &Vec<char>, needle: &Vec<char>, i: usize) -> (out: bool)
    ensures
        out == occurs_at(s@, needle@, i as int),
{
    if i > s.len() || needle.len() > s.len() - i {
        return false;
    }
    let mut j: usize = 0;
    while j < needle.len()
        invariant
            i + needle.len() <= s.len(),
            j <= needle.len(),
            forall|t: int| 0 <= t < j ==> s@[i + t] == needle@[t],
        decreases needle.len() - j,
    {
        if s[i + j] != needle[j] {
            assert(s@.subrange(i as int, i + needle.len())[j as int] != needle@[j as int]);
            return false;
        }
        j += 1;
    }
    assert(s@.subrange(i as int, i + needle.len()) =~= needle@);
    true
}

pub fn starts_with_exec(s: &Vec<char>, prefix: &Vec<char>) -> (out: bool)
    ensures
        out == starts_with(s@, prefix@),
{
    occurs_at_exec(s, prefix, 0)
}

pub fn ends_with_exec(s: &Vec<char>, suffix: &Vec<char>) -> (out: bool)
    ensures
        out == ends_with(s@, suffix@),
{
    if suffix.len() > s.len() {
        return false;
    }
    occurs_at_exec(s, suffix, s.len() - suffix.len())
}

/// Whether `needle` occurs anywhere in `s`.
pub fn contains_exec(s: &Vec<char>, needle: &Vec<char>) -> (out: bool)
    ensures
        out == contains(s@, needle@),
{
    if needle.len() > s.len() {
        assert forall|i: int| !occurs_at(s@, needle@, i) by {}
        return false;
    }
    if needle.len() == 0 {
        assert(s@.subrange(0, 0) =~= needle@);
        assert(occurs_at(s@, needle@, 0));
        return true;
    }
    let mut i: usize = 0;
    while i <= s.len() - needle.len()
        invariant
            0 < needle.len() <= s.len(),
            forall|t: int| 0 <= t < i ==> !occurs_at(s@, needle@, t),
        decreases s.len() - needle.len() + 1 - i,
    {
        if occurs_at_exec(s, needle, i) {
            return true;
        }
        i += 1;
    }
    assert forall|t: int| !occurs_at(s@, needle@, t) by {
        if 0 <= t && t + needle@.len() <= s@.len() {
            assert(t < i);
        }
    }
    false
}

/// Whether `needle` occurs in `haystack` when ASCII letters are compared
/// without case.
pub fn contains_ignore_ascii_case(haystack: &str, needle: &str) -> (out: bool)
    ensures
        out == contains(lower(haystack@), lower(needle@)),
{
    let h = lower_chars(&chars_of(haystack));
    let n = lower_chars(&chars_of(needle));
    contains_exec(&h, &n)
}

/// The decimal digits of `n`.
pub fn decimal_chars(n: u64) -> (out: Vec<char>)
    ensures
        out@ == decimal(n as nat),
    decreases n,
{
    let d: u64 = n % 10;
    let c = char_from_ascii(48 + d as u32);
    if n < 10 {
        let mut out: Vec<char> = Vec::new();
        out.push(c);
        assert(out@ =~= decimal(n as nat));
        out
    } else {
        let mut out = decimal_chars(n / 10);
        out.push(c);
        out
    }
}

// ---------------------------------------------------------------------------
// Whitespace
// ---------------------------------------------------------------------------

/// `char::is_whitespace`: the Unicode `White_Space` property.
pub open spec fn is_whitespace(c: char) -> bool {
    ||| ('\u{9}' <= c && c <= '\u{d}')
    ||| c == ' '
    ||| c == '\u{85}'
    ||| c == '\u{a0}'
    ||| c == '\u{1680}'
    ||| ('\u{2000}' <= c && c <= '\u{200a}')
    ||| c == '\u{2028}'
    ||| c == '\u{2029}'
    ||| c == '\u{202f}'
    ||| c == '\u{205f}'
    ||| c == '\u{3000}'
}

/// How many whitespace characters `s` starts with.
pub open spec fn leading_ws(s: Seq<char>) -> int
    decreases s.len(),
{
    if s.len() == 0 {
        0
    } else if is_whitespace(s[0]) {
        1 + leading_ws(s.drop_first())
    } else {
        0
    }
}

/// Where `s` ends once trailing whitespace is dropped.
pub open spec fn trailing_end(s: Seq<char>) -> int {
    last_pos(s, |c: char| !is_whitespace(c))
}

/// `str::trim`.
pub open spec fn trim(s: Seq<char>) -> Seq<char> {
    if trailing_end(s) <= leading_ws(s) {
        Seq::empty()
    } else {
        s.subrange(leading_ws(s), trailing_end(s))
    }
}

proof fn lemma_leading_ws(s: Seq<char>, k: int)
    requires
        0 <= k <= s.len(),
        forall|j: int| 0 <= j < k ==> is_whitespace(#[trigger] s[j]),
        k == s.len() || !is_whitespace(s[k]),
    ensures
        leading_ws(s) == k,
    decreases k,
{
    if k > 0 {
        let t = s.drop_first();
        assert forall|j: int| 0 <= j < k - 1 implies is_whitespace(#[trigger] t[j]) by {
            assert(t[j] == s[j + 1]);
        }
        if k < s.len() {
            assert(t[k - 1] == s[k]);
        }
        assert(is_whitespace(s[0]));
        lemma_leading_ws(t, k - 1);
    }
}

/// The characters of `s` without leading or trailing whitespace.
pub fn trim_chars(s: &Vec<char>) -> (out: Vec<char>)
    ensures
        out@ == trim(s@),
{
    let mut a: usize = 0;
    while a < s.len() && is_whitespace_exec(s[a])
        invariant
            a <= s.len(),
            forall|j: int| 0 <= j < a ==> is_whitespace(#[trigger] s@[j]),
        decreases s.len() - a,
    {
        a += 1;
    }
    proof {
        lemma_leading_ws(s@, a as int);
    }
    let mut b: usize = s.len();
    while b > 0 && is_whitespace_exec(s[b - 1])
        invariant
            b <= s.len(),
            forall|j: int| b <= j < s.len() ==> is_whitespace(#[trigger] s@[j]),
        decreases b,
    {
        b -= 1;
    }
    proof {
        let p = |c: char| !is_whitespace(c);
        assert(is_last_pos(s@, p, b as int));
        lemma_last_pos_unique(s@, p, b as int);
    }
    if b <= a {
        Vec::new()
    } else {
        sub_chars(s, a, b)
    }
}

pub fn is_whitespace_exec(c: char) -> (out: bool)
    ensures
        out == is_whitespace(c),
{
    ('\u{9}' <= c && c <= '\u{d}') || c == ' ' || c == '\u{85}' || c == '\u{a0}' || c
        == '\u{1680}' || ('\u{2000}' <= c && c <= '\u{200a}') || c == '\u{2028}' || c
        == '\u{2029}' || c == '\u{202f}' || c == '\u{205f}' || c == '\u{3000}'
}

/// `str::trim`, as an owned string.
pub fn trim_string(s: &str) -> (out: String)
    ensures
        out@ == trim(s@),
{
    string_of(&trim_chars(&chars_of(s)))
}

// ---------------------------------------------------------------------------
// Splitting
// ---------------------------------------------------------------------------

/// A left-to-right scan splitting on `sep`: the pieces closed so far, and
/// the one still open.
pub open spec fn split_state(s: Seq<char>, sep: char) -> (Seq<Seq<char>>, Seq<char>)
    decreases s.len(),
{
    if s.len() == 0 {
        (Seq::empty(), Seq::empty())
    } else {
        let (done, open) = split_state(s.drop_last(), sep);
        if s.last() == sep {
            (done.push(open), Seq::empty())
        } else {
            (done, open.push(s.last()))
        }
    }
}

/// `str::split(sep)`: every piece, the last one included.
pub open spec fn split(s: Seq<char>, sep: char) -> Seq<Seq<char>> {
    split_state(s, sep).0.push(split_state(s, sep).1)
}

/// The pieces of `s` split on `sep`.
pub fn split_chars(s: &Vec<char>, sep: char) -> (out: Vec<Vec<char>>)
    ensures
        out@.len() == split(s@, sep).len(),
        forall|i: int| 0 <= i < out@.len() ==> #[trigger] out@[i]@ == split(s@, sep)[i],
{
    let mut done: Vec<Vec<char>> = Vec::new();
    let mut open: Vec<char> = Vec::new();
    let mut i: usize = 0;
    while i < s.len()
        invariant
            i <= s.len(),
            done@.len() == split_state(s@.take(i as int), sep).0.len(),
            forall|j: int| 0 <= j < done@.len() ==> #[trigger] done@[j]@ == split_state(s@.take(i as int), sep).0[j],
            open@ == split_state(s@.take(i as int), sep).1,
        decreases s.len() - i,
    {
        proof {
            assert(s@.take(i + 1).drop_last() =~= s@.take(i as int));
        }
        if s[i] == sep {
            let piece = open;
            done.push(piece);
            open = Vec::new();
        } else {
            open.push(s[i]);
        }
        i += 1;
    }
    assert(s@.take(s.len() as int) =~= s@);
    done.push(open);
    done
}

// ---------------------------------------------------------------------------
// Building text
// ---------------------------------------------------------------------------

/// Append `s` to `out`.
pub fn push_str(out: &mut Vec<char>, s: &str)
    ensures
        final(out)@ == old(out)@ + s@,
{
    let chars = chars_of(s);
    let mut i: usize = 0;
    while i < chars.len()
        invariant
            i <= chars.len(),
            chars@ == s@,
            out@ == old(out)@ + chars@.take(i as int),
        decreases chars.len() - i,
    {
        out.push(chars[i]);
        assert(chars@.take(i + 1) =~= chars@.take(i as int).push(chars@[i as int]));
        i += 1;
    }
    assert(chars@.take(chars.len() as int) =~= chars@);
}

/// Append the decimal digits of `n` to `out`.
pub fn push_decimal(out: &mut Vec<char>, n: u64)
    ensures
        final(out)@ == old(out)@ + decimal(n as nat),
{
    let digits = decimal_chars(n);
    let joined = concat_chars(out, &digits);
    *out = joined;
}

/// The value of a run of decimal digits.
pub open spec fn digits_value(s: Seq<char>) -> nat
    decreases s.len(),
{
    if s.len() == 0 {
        0
    } else {
        digits_value(s.drop_last()) * 10 + ((s.last() as u32) - ('0' as u32)) as nat
    }
}

/// A decimal numeral as `decimal` spells one: digits only, and no leading
/// zero unless it is `0` itself.
pub open spec fn canonical_decimal(s: Seq<char>) -> bool {
    &&& 0 < s.len() <= 10
    &&& forall|i: int| 0 <= i < s.len() ==> is_ascii_digit(#[trigger] s[i])
    &&& (s.len() == 1 || s[0] != '0')
}

proof fn lemma_digits_value_positive(s: Seq<char>)
    requires
        s.len() > 0,
        forall|i: int| 0 <= i < s.len() ==> is_ascii_digit(#[trigger] s[i]),
        s[0] != '0',
    ensures
        digits_value(s) >= 1,
    decreases s.len(),
{
    if s.len() > 1 {
        let t = s.drop_last();
        assert forall|i: int| 0 <= i < t.len() implies is_ascii_digit(#[trigger] t[i]) by {
            assert(t[i] == s[i]);
        }
        assert(t[0] == s[0]);
        lemma_digits_value_positive(t);
    } else {
        assert(s.drop_last().len() == 0);
        assert(is_ascii_digit(s[0]));
    }
}

/// A canonical numeral is what `decimal` spells for its value.
pub proof fn lemma_decimal_of_digits(s: Seq<char>)
    requires
        canonical_decimal(s),
    ensures
        decimal(digits_value(s)) == s,
    decreases s.len(),
{
    let d = ((s.last() as u32) - ('0' as u32)) as nat;
    assert(is_ascii_digit(s.last()));
    assert(d < 10);
    assert(digit_char(d) == s.last());
    if s.len() == 1 {
        assert(s.drop_last().len() == 0);
        assert(digits_value(s) == d);
        assert(decimal(d) =~= s);
    } else {
        let t = s.drop_last();
        assert forall|i: int| 0 <= i < t.len() implies is_ascii_digit(#[trigger] t[i]) by {
            assert(t[i] == s[i]);
        }
        assert(t[0] == s[0]);
        assert(canonical_decimal(t));
        lemma_decimal_of_digits(t);
        lemma_digits_value_positive(t);
        let v = digits_value(s);
        assert(v == digits_value(t) * 10 + d);
        assert(v >= 10);
        assert(v / 10 == digits_value(t));
        assert(v % 10 == d);
        assert(decimal(v) == decimal(v / 10).push(digit_char(v % 10)));
        assert(decimal(v) =~= s);
    }
}

/// `decimal(n)` never holds anything but digits.
pub proof fn lemma_decimal_digits(n: nat)
    ensures
        decimal(n).len() > 0,
        forall|i: int| 0 <= i < decimal(n).len() ==> is_ascii_digit(#[trigger] decimal(n)[i]),
    decreases n,
{
    if n >= 10 {
        lemma_decimal_digits(n / 10);
        assert forall|i: int| 0 <= i < decimal(n).len() implies is_ascii_digit(
            #[trigger] decimal(n)[i],
        ) by {
            if i < decimal(n / 10).len() {
                assert(decimal(n)[i] == decimal(n / 10)[i]);
            }
        }
    }
}

/// The value of a canonical numeral, checked digit by digit.
pub fn parse_canonical_decimal(s: &Vec<char>) -> (out: Option<u64>)
    ensures
        out is Some <==> canonical_decimal(s@),
        out matches Some(v) ==> v == digits_value(s@),
{
    if s.len() == 0 || s.len() > 10 {
        return None;
    }
    if s.len() > 1 && s[0] == '0' {
        return None;
    }
    let mut value: u64 = 0;
    let mut i: usize = 0;
    while i < s.len()
        invariant
            0 < s.len() <= 10,
            i <= s.len(),
            forall|j: int| 0 <= j < i ==> is_ascii_digit(#[trigger] s@[j]),
            value == digits_value(s@.take(i as int)),
            value < pow10(i as nat),
        decreases s.len() - i,
    {
        let c = s[i];
        if !('0' <= c && c <= '9') {
            return None;
        }
        let d: u64 = (c as u32 - '0' as u32) as u64;
        assert(s@.take(i + 1).drop_last() =~= s@.take(i as int));
        proof {
            lemma_pow10_bound(i as nat);
            assert(value * 10 + d < pow10((i + 1) as nat)) by (nonlinear_arith)
                requires
                    value < pow10(i as nat),
                    d < 10,
                    pow10((i + 1) as nat) == pow10(i as nat) * 10,
            ;
        }
        value = value * 10 + d;
        i += 1;
    }
    assert(s@.take(s.len() as int) =~= s@);
    Some(value)
}

pub open spec fn pow10(n: nat) -> nat
    decreases n,
{
    if n == 0 {
        1
    } else {
        pow10((n - 1) as nat) * 10
    }
}

proof fn lemma_pow10_bound(n: nat)
    requires
        n <= 10,
    ensures
        pow10(n) <= 10_000_000_000,
        pow10(n + 1) == pow10(n) * 10,
{
    reveal_with_fuel(pow10, 12);
}

// ---------------------------------------------------------------------------
// Fixed-width hexadecimal and signed decimal
// ---------------------------------------------------------------------------

/// The uppercase hexadecimal digit for `n < 16`.
pub open spec fn hex_upper_digit(n: nat) -> char {
    if n < 10 {
        (('0' as u32) + n) as char
    } else {
        (('A' as u32) + (n - 10)) as char
    }
}

/// The low `width` hexadecimal digits of `n`, uppercase, most significant
/// first: `{:0width$X}` for a value that fits in `width` digits.
pub open spec fn hex_upper(n: nat, width: nat) -> Seq<char>
    decreases width,
{
    if width == 0 {
        Seq::empty()
    } else {
        hex_upper((n / 16) as nat, (width - 1) as nat).push(hex_upper_digit(n % 16))
    }
}

/// Append the low `width` uppercase hexadecimal digits of `n`.
pub fn push_hex_upper(out: &mut Vec<char>, n: u64, width: usize)
    ensures
        final(out)@ == old(out)@ + hex_upper(n as nat, width as nat),
    decreases width,
{
    if width == 0 {
        assert(final(out)@ =~= old(out)@ + hex_upper(n as nat, width as nat));
        return;
    }
    push_hex_upper(out, n / 16, width - 1);
    let d: u64 = n % 16;
    let code: u32 = if d < 10 { 48 + d as u32 } else { 65 + (d as u32 - 10) };
    out.push(char_from_ascii(code));
    assert(final(out)@ =~= old(out)@ + hex_upper(n as nat, width as nat));
}

/// `i` in decimal, with a leading `-` when it is negative.
pub open spec fn signed_decimal(i: int) -> Seq<char> {
    if i < 0 {
        seq!['-'] + decimal((-i) as nat)
    } else {
        decimal(i as nat)
    }
}

/// Append `i` in decimal, signed.
pub fn push_signed_decimal(out: &mut Vec<char>, i: i64)
    ensures
        final(out)@ == old(out)@ + signed_decimal(i as int),
{
    if i < 0 {
        out.push('-');
        let magnitude: u64 = if i == i64::MIN { 0x8000_0000_0000_0000 } else { (-i) as u64 };
        push_decimal(out, magnitude);
        assert(final(out)@ =~= old(out)@ + signed_decimal(i as int));
    } else {
        push_decimal(out, i as u64);
    }
}

// ---------------------------------------------------------------------------
// Hexadecimal parsing
// ---------------------------------------------------------------------------

pub open spec fn is_hex_digit(c: char) -> bool {
    ||| is_ascii_digit(c)
    ||| ('a' <= c && c <= 'f')
    ||| ('A' <= c && c <= 'F')
}

pub open spec fn hex_digit_value(c: char) -> nat {
    if is_ascii_digit(c) {
        ((c as u32) - ('0' as u32)) as nat
    } else if 'a' <= c && c <= 'f' {
        ((c as u32) - ('a' as u32) + 10) as nat
    } else {
        ((c as u32) - ('A' as u32) + 10) as nat
    }
}

/// The value of a run of hexadecimal digits.
pub open spec fn hex_value(s: Seq<char>) -> nat
    decreases s.len(),
{
    if s.len() == 0 {
        0
    } else {
        hex_value(s.drop_last()) * 16 + hex_digit_value(s.last())
    }
}

/// What follows an optional leading `+`.
pub open spec fn unsigned_digits(s: Seq<char>) -> Seq<char> {
    if s.len() > 0 && s[0] == '+' {
        s.drop_first()
    } else {
        s
    }
}

pub open spec fn all_hex(s: Seq<char>) -> bool {
    forall|i: int| 0 <= i < s.len() ==> is_hex_digit(#[trigger] s[i])
}

/// `u32::from_str_radix(s, 16)`: an optional `+`, then one or more
/// hexadecimal digits of either case whose value fits in 32 bits.
pub open spec fn parse_hex_u32(s: Seq<char>) -> Option<u32> {
    let digits = unsigned_digits(s);
    if digits.len() > 0 && all_hex(digits) && hex_value(digits) <= u32::MAX {
        Some(hex_value(digits) as u32)
    } else {
        None
    }
}

proof fn lemma_hex_value_grows(s: Seq<char>, i: int, j: int)
    requires
        0 <= i <= j <= s.len(),
    ensures
        hex_value(s.take(i)) <= hex_value(s.take(j)),
    decreases j - i,
{
    if i < j {
        lemma_hex_value_grows(s, i, j - 1);
        assert(s.take(j).drop_last() =~= s.take(j - 1));
    }
}

/// Parse `s` as `u32::from_str_radix(s, 16)` does.
pub fn parse_hex_u32_exec(s: &Vec<char>) -> (out: Option<u32>)
    ensures
        out == parse_hex_u32(s@),
{
    let start: usize = if s.len() > 0 && s[0] == '+' { 1 } else { 0 };
    let ghost digits = unsigned_digits(s@);
    assert(digits =~= s@.skip(start as int));
    if start >= s.len() {
        return None;
    }
    let mut value: u64 = 0;
    let mut i: usize = start;
    while i < s.len()
        invariant
            start <= i <= s.len(),
            start < s.len(),
            digits == s@.skip(start as int),
            digits == unsigned_digits(s@),
            value == hex_value(digits.take(i - start)),
            value <= u32::MAX,
            forall|j: int| 0 <= j < i - start ==> is_hex_digit(#[trigger] digits[j]),
        decreases s.len() - i,
    {
        let c = s[i];
        assert(c == digits[i - start]);
        let d: u64 = if '0' <= c && c <= '9' {
            (c as u32 - '0' as u32) as u64
        } else if 'a' <= c && c <= 'f' {
            (c as u32 - 'a' as u32 + 10) as u64
        } else if 'A' <= c && c <= 'F' {
            (c as u32 - 'A' as u32 + 10) as u64
        } else {
            assert(!is_hex_digit(digits[i - start]));
            assert(!all_hex(digits));
            return None;
        };
        proof {
            assert(digits.take(i - start + 1).drop_last() =~= digits.take(i - start));
            assert(digits.take(i - start + 1).last() == c);
            assert(d == hex_digit_value(c));
        }
        value = value * 16 + d;
        if value > 0xFFFF_FFFF {
            proof {
                lemma_hex_value_grows(digits, i - start + 1, digits.len() as int);
                assert(digits.take(digits.len() as int) =~= digits);
            }
            return None;
        }
        i += 1;
    }
    assert(digits.take(digits.len() as int) =~= digits);
    assert(all_hex(digits));
    Some(value as u32)
}

// ---------------------------------------------------------------------------
// Joining lines
// ---------------------------------------------------------------------------

/// `lines` with `sep` between each pair, as `[..].join(sep)` gives them.
pub open spec fn join(lines: Seq<Seq<char>>, sep: Seq<char>) -> Seq<char>
    decreases lines.len(),
{
    if lines.len() == 0 {
        Seq::empty()
    } else if lines.len() == 1 {
        lines[0]
    } else {
        join(lines.drop_last(), sep) + sep + lines.last()
    }
}

/// Append the next of `count` lines already joined into `out`.
pub(crate) fn push_joined(out: &mut Vec<char>, first: bool, sep: &str, line: &Vec<char>, Ghost(lines): Ghost<Seq<Seq<char>>>)
    requires
        old(out)@ == join(lines, sep@),
        first == (lines.len() == 0),
    ensures
        final(out)@ == join(lines.push(line@), sep@),
{
    if !first {
        push_str(out, sep);
    }
    let mut i: usize = 0;
    let ghost start = out@;
    while i < line.len()
        invariant
            i <= line.len(),
            out@ == start + line@.subrange(0, i as int),
        decreases line.len() - i,
    {
        out.push(line[i]);
        i += 1;
    }
    assert(lines.push(line@).drop_last() =~= lines);
    assert(line@.subrange(0, line.len() as int) =~= line@);
    if first {
        assert(out@ =~= line@);
    } else {
        assert(out@ =~= join(lines, sep@) + sep@ + line@);
    }
}

/// Reading back the digits `decimal` writes gives the number.
pub proof fn lemma_decimal_value(n: nat)
    ensures
        digits_value(decimal(n)) == n,
    decreases n,
{
    let d = n % 10;
    assert(((digit_char(d) as u32) - ('0' as u32)) as nat == d);
    if n >= 10 {
        lemma_decimal_value(n / 10);
        let s = decimal(n);
        assert(s.drop_last() =~= decimal(n / 10));
        assert(s.last() == digit_char(d));
        assert(digits_value(s) == digits_value(s.drop_last()) * 10 + d);
        assert(digits_value(s.drop_last()) == n / 10);
        assert(n == (n / 10) * 10 + d);
    } else {
        let s = decimal(n);
        assert(s.drop_last() =~= Seq::<char>::empty());
        assert(digits_value(s.drop_last()) == 0);
        assert(s.last() == digit_char(n));
        assert(digits_value(s) == digits_value(s.drop_last()) * 10 + d);
    }
}

/// Distinct numbers have distinct decimal spellings.
pub proof fn lemma_decimal_injective(a: nat, b: nat)
    requires
        decimal(a) == decimal(b),
    ensures
        a == b,
{
    lemma_decimal_value(a);
    lemma_decimal_value(b);
}

/// For a needle with no ASCII capitals, a case-blind search finds exactly
/// what a search of the lowercased haystack for the needle as typed finds.
pub proof fn lemma_ignore_case_matches_lowercased(haystack: Seq<char>, needle: Seq<char>)
    requires
        forall|i: int| 0 <= i < needle.len() ==> !('A' <= #[trigger] needle[i] && needle[i] <= 'Z'),
    ensures
        contains(lower(haystack), lower(needle)) == contains(lower(haystack), needle),
{
    assert(lower(needle) =~= needle);
}

} // verus!
