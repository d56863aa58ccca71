//! Character-sequence utilities shared by the string-handling modules:
//! locating separators, splitting, and the decimal read/print pair used by
//! the version model.

use vstd::prelude::*;
use vstd::string::StrSliceExecFns;

verus! {

/// Index of the first character satisfying `p`, or `s.len()` when none does.
pub open spec fn first_index_where(s: Seq<char>, p: spec_fn(char) -> bool) -> int
    decreases s.len(),
{
    if s.len() == 0 {
        0
    } else if p(s[0]) {
        0
    } else {
        1 + first_index_where(s.drop_first(), p)
    }
}

pub proof fn lemma_first_index_where(s: Seq<char>, p: spec_fn(char) -> bool)
    ensures
        0 <= first_index_where(s, p) <= s.len(),
        first_index_where(s, p) < s.len() ==> p(s[first_index_where(s, p)]),
        forall|j: int| 0 <= j < first_index_where(s, p) ==> !p(#[trigger] s[j]),
    decreases s.len(),
{
    if s.len() > 0 && !p(s[0]) {
        lemma_first_index_where(s.drop_first(), p);
        assert forall|j: int| 0 <= j < first_index_where(s, p) implies !p(#[trigger] s[j]) by {
            if j > 0 {
                assert(s[j] == s.drop_first()[j - 1]);
            }
        }
    }
}

/// If every character of `s` before `k` fails `p` and `s[k]` satisfies it,
/// then `k` is the first such index.
pub proof fn lemma_first_index_where_is(s: Seq<char>, p: spec_fn(char) -> bool, k: int)
    requires
        0 <= k < s.len(),
        p(s[k]),
        forall|j: int| 0 <= j < k ==> !p(#[trigger] s[j]),
    ensures
        first_index_where(s, p) == k,
{
    lemma_first_index_where(s, p);
    let fi = first_index_where(s, p);
    if fi < k {
        assert(p(s[fi]));
    }
    if fi > k {
        assert(!p(s[k]));
    }
}

/// If no character of `s` satisfies `p`, the first index is `s.len()`.
pub proof fn lemma_first_index_where_none(s: Seq<char>, p: spec_fn(char) -> bool)
    requires
        forall|j: int| 0 <= j < s.len() ==> !p(#[trigger] s[j]),
    ensures
        first_index_where(s, p) == s.len(),
{
    lemma_first_index_where(s, p);
    let fi = first_index_where(s, p);
    if fi < s.len() {
        assert(p(s[fi]));
    }
}

/// Splits `s` at every character satisfying `p`, keeping empty fields, so
/// `n` separators always yield `n + 1` fields.
pub open spec fn split_where(s: Seq<char>, p: spec_fn(char) -> bool) -> Seq<Seq<char>>
    decreases s.len(),
{
    let k = first_index_where(s, p);
    if 0 <= k < s.len() {
        proof {
            lemma_first_index_where(s, p);
        }
        seq![s.subrange(0, k)] + split_where(s.subrange(k + 1, s.len() as int), p)
    } else {
        seq![s]
    }
}

/// Splitting a separator-free field followed by a separator peels off that
/// field.
pub proof fn lemma_split_where_step(x: Seq<char>, sep: char, rest: Seq<char>, p: spec_fn(
    char,
) -> bool)
    requires
        forall|j: int| 0 <= j < x.len() ==> !p(#[trigger] x[j]),
        p(sep),
    ensures
        split_where(x + seq![sep] + rest, p) == seq![x] + split_where(rest, p),
{
    let s = x + seq![sep] + rest;
    assert(s[x.len() as int] == sep);
    assert forall|j: int| 0 <= j < x.len() implies !p(#[trigger] s[j]) by {
        assert(s[j] == x[j]);
    }
    lemma_first_index_where_is(s, p, x.len() as int);
    assert(s.subrange(0, x.len() as int) =~= x);
    assert(s.subrange(x.len() as int + 1, s.len() as int) =~= rest);
}

/// A sequence with no separator splits into itself alone.
pub proof fn lemma_split_where_whole(s: Seq<char>, p: spec_fn(char) -> bool)
    requires
        forall|j: int| 0 <= j < s.len() ==> !p(#[trigger] s[j]),
    ensures
        split_where(s, p) == seq![s],
{
    lemma_first_index_where_none(s, p);
}

pub open spec fn is_digit(c: char) -> bool {
    '0' <= c && c <= '9'
}

pub open spec fn digit_value(c: char) -> nat {
    (c as nat - '0' as nat) as nat
}

pub open spec fn all_digits(s: Seq<char>) -> bool {
    forall|j: int| 0 <= j < s.len() ==> is_digit(#[trigger] s[j])
}

/// Value of a digit string read in base ten.
pub open spec fn digits_to_nat(s: Seq<char>) -> nat
    decreases s.len(),
{
    if s.len() == 0 {
        0
    } else {
        digits_to_nat(s.drop_last()) * 10 + digit_value(s.last())
    }
}

pub open spec fn digit_of(d: nat) -> char {
    if d == 0 {
        '0'
    } else if d == 1 {
        '1'
    } else if d == 2 {
        '2'
    } else if d == 3 {
        '3'
    } else if d == 4 {
        '4'
    } else if d == 5 {
        '5'
    } else if d == 6 {
        '6'
    } else if d == 7 {
        '7'
    } else if d == 8 {
        '8'
    } else {
        '9'
    }
}

/// Shortest decimal rendering of `n`, most significant digit first.
pub open spec fn decimal_of(n: nat) -> Seq<char>
    decreases n,
{
    if n < 10 {
        seq![digit_of(n)]
    } else {
        decimal_of(n / 10).push(digit_of(n % 10))
    }
}

pub proof fn lemma_decimal_of_digits(n: nat)
    ensures
        decimal_of(n).len() >= 1,
        all_digits(decimal_of(n)),
    decreases n,
{
    if n >= 10 {
        lemma_decimal_of_digits(n / 10);
        assert(decimal_of(n) == decimal_of(n / 10).push(digit_of(n % 10)));
        assert forall|j: int| 0 <= j < decimal_of(n).len() implies is_digit(
            #[trigger] decimal_of(n)[j],
        ) by {
            if j < decimal_of(n / 10).len() {
                assert(decimal_of(n)[j] == decimal_of(n / 10)[j]);
            }
        }
    }
}

/// Reading back the decimal rendering of `n` returns `n`.
pub proof fn lemma_decimal_roundtrip(n: nat)
    ensures
        digits_to_nat(decimal_of(n)) == n,
    decreases n,
{
    if n < 10 {
        reveal_with_fuel(digits_to_nat, 2);
        assert(decimal_of(n) == seq![digit_of(n)]);
        assert(decimal_of(n).drop_last() =~= Seq::<char>::empty());
        assert(digit_value(digit_of(n)) == n);
    } else {
        lemma_decimal_roundtrip(n / 10);
        assert(decimal_of(n) == decimal_of(n / 10).push(digit_of(n % 10)));
        assert(decimal_of(n).drop_last() =~= decimal_of(n / 10));
        assert(digit_value(digit_of(n % 10)) == n % 10);
        assert(digits_to_nat(decimal_of(n)) == (n / 10) * 10 + n % 10);
        assert((n / 10) * 10 + n % 10 == n) by (nonlinear_arith);
    }
}

/// The decimal token grammar of an unsigned integer literal: an optional
/// leading plus sign, then at least one digit.
pub open spec fn is_unsigned_token(s: Seq<char>) -> bool {
    if s.len() > 0 && s[0] == '+' {
        s.len() > 1 && all_digits(s.drop_first())
    } else {
        s.len() > 0 && all_digits(s)
    }
}

/// Digit part of an unsigned token, with any leading plus sign removed.
pub open spec fn unsigned_token_digits(s: Seq<char>) -> Seq<char> {
    if s.len() > 0 && s[0] == '+' {
        s.drop_first()
    } else {
        s
    }
}

/// Reading a numeric token the way the version model does: a well-formed
/// token whose value fits in `u32` yields its value, anything else zero.
pub open spec fn read_u32_or_zero(s: Seq<char>) -> u32 {
    if is_unsigned_token(s) && digits_to_nat(unsigned_token_digits(s)) <= u32::MAX {
        digits_to_nat(unsigned_token_digits(s)) as u32
    } else {
        0
    }
}

/// Appending one digit multiplies the value read so far by ten.
pub proof fn lemma_digits_to_nat_step(s: Seq<char>, i: int)
    requires
        0 <= i < s.len(),
    ensures
        digits_to_nat(s.subrange(0, i + 1)) == digits_to_nat(s.subrange(0, i)) * 10
            + digit_value(s[i]),
{
    assert(s.subrange(0, i + 1).drop_last() =~= s.subrange(0, i));
    assert(s.subrange(0, i + 1).last() == s[i]);
}

/// A digit string extending a prefix never reads back smaller than the
/// prefix does.
pub proof fn lemma_digits_to_nat_prefix_monotonic(s: Seq<char>, i: int)
    requires
        0 <= i <= s.len(),
    ensures
        digits_to_nat(s.subrange(0, i)) <= digits_to_nat(s),
    decreases s.len() - i,
{
    if i < s.len() {
        lemma_digits_to_nat_step(s, i);
        lemma_digits_to_nat_prefix_monotonic(s, i + 1);
        assert(digits_to_nat(s.subrange(0, i)) <= digits_to_nat(s.subrange(0, i)) * 10
            + digit_value(s[i])) by (nonlinear_arith);
    } else {
        assert(s.subrange(0, i) =~= s);
    }
}

/// The predicate recognizing one separator character, shared by every
/// use of single-character splitting.
pub open spec fn char_eq_pred(sep: char) -> spec_fn(char) -> bool {
    |c: char| c == sep
}

/// ASCII whitespace, the form trimming recognizes.
pub open spec fn is_space(c: char) -> bool {
    c == ' ' || c == '\t' || c == '\n' || c == '\r' || c == '\u{b}' || c == '\u{c}'
}

/// The input without leading whitespace.
pub open spec fn spec_trim_start(s: Seq<char>) -> Seq<char>
    decreases s.len(),
{
    if s.len() > 0 && is_space(s.first()) {
        spec_trim_start(s.drop_first())
    } else {
        s
    }
}

/// The input without trailing whitespace.
pub open spec fn spec_trim_end(s: Seq<char>) -> Seq<char>
    decreases s.len(),
{
    if s.len() > 0 && is_space(s.last()) {
        spec_trim_end(s.drop_last())
    } else {
        s
    }
}

/// The input without leading or trailing whitespace.
pub open spec fn spec_trim(s: Seq<char>) -> Seq<char> {
    spec_trim_end(spec_trim_start(s))
}

/// Trimming from the front removes exactly the leading run of spaces.
pub proof fn lemma_trim_start_skip(s: Seq<char>, k: int)
    requires
        0 <= k <= s.len(),
        forall|l: int| 0 <= l < k ==> is_space(#[trigger] s[l]),
        k < s.len() ==> !is_space(s[k]),
    ensures
        spec_trim_start(s) == s.skip(k),
    decreases k,
{
    if k == 0 {
        assert(s.skip(0) =~= s);
    } else {
        lemma_trim_start_skip(s.drop_first(), k - 1);
        assert(s.drop_first().skip(k - 1) =~= s.skip(k));
    }
}

/// Trimming from the back removes exactly the trailing run of spaces.
pub proof fn lemma_trim_end_take(s: Seq<char>, j: int)
    requires
        0 <= j <= s.len(),
        forall|l: int| j <= l < s.len() ==> is_space(#[trigger] s[l]),
        j > 0 ==> !is_space(s[j - 1]),
    ensures
        spec_trim_end(s) == s.take(j),
    decreases s.len() - j,
{
    if j == s.len() {
        assert(s.take(j) =~= s);
    } else {
        lemma_trim_end_take(s.drop_last(), j);
        assert(s.drop_last().take(j) =~= s.take(j));
    }
}

/// True when the character is ASCII whitespace.
pub fn char_is_space(c: char) -> (r: bool)
    ensures
        r == is_space(c),
{
    c == ' ' || c == '\t' || c == '\n' || c == '\r' || c == '\u{b}' || c == '\u{c}'
}

/// The input without leading or trailing ASCII whitespace.
pub fn trim_chars(s: &str) -> (r: String)
    ensures
        r@ == spec_trim(s@),
{
    let n = s.unicode_len();
    let mut i: usize = 0;
    while i < n
        invariant
            0 <= i <= n,
            n == s@.len(),
            forall|l: int| 0 <= l < i ==> is_space(#[trigger] s@[l]),
        ensures
            0 <= i <= n,
            forall|l: int| 0 <= l < i ==> is_space(#[trigger] s@[l]),
            i < n ==> !is_space(s@[i as int]),
        decreases n - i,
    {
        if !char_is_space(s.get_char(i)) {
            break ;
        }
        i += 1;
    }
    let mut j: usize = n;
    while j > i
        invariant
            i <= j <= n,
            n == s@.len(),
            forall|l: int| j <= l < n ==> is_space(#[trigger] s@[l]),
        ensures
            i <= j <= n,
            forall|l: int| j <= l < n ==> is_space(#[trigger] s@[l]),
            j > i ==> !is_space(s@[j - 1]),
        decreases j,
    {
        if !char_is_space(s.get_char(j - 1)) {
            break ;
        }
        j -= 1;
    }
    proof {
        lemma_trim_start_skip(s@, i as int);
        let t = s@.skip(i as int);
        assert forall|l: int| j - i <= l < t.len() implies is_space(#[trigger] t[l]) by {
            assert(t[l] == s@[i + l]);
        }
        if j > i {
            assert(t[j - i - 1] == s@[j - 1]);
        }
        lemma_trim_end_take(t, j - i);
        assert(t.take(j - i) =~= s@.subrange(i as int, j as int));
    }
    s.substring_char(i, j).to_owned()
}

/// Splits on every occurrence of one character, keeping empty fields.
pub fn split_on_char(s: &str, sep: char) -> (r: Vec<String>)
    ensures
        r.deep_view() == split_where(s@, char_eq_pred(sep)),
{
    let ghost p = char_eq_pred(sep);
    let n = s.unicode_len();
    let mut out: Vec<String> = Vec::new();
    let mut cur = String::new();
    let mut start: usize = 0;
    let mut i: usize = 0;
    proof {
        assert(s@.skip(0) =~= s@);
    }
    while i < n
        invariant
            start <= i <= n,
            n == s@.len(),
            p == char_eq_pred(sep),
            cur@ == s@.subrange(start as int, i as int),
            forall|j: int| start <= j < i ==> #[trigger] s@[j] != sep,
            split_where(s@, p) == out.deep_view() + split_where(s@.skip(start as int), p),
        decreases n - i,
    {
        let ghost out_pre = out.deep_view();
        let c = s.get_char(i);
        if c == sep {
            proof {
                assert(s@.skip(start as int) =~= s@.subrange(start as int, i as int) + seq![c]
                    + s@.skip(i as int + 1));
                assert forall|j: int|
                    0 <= j < s@.subrange(start as int, i as int).len() implies !p(
                    #[trigger] s@.subrange(start as int, i as int)[j],
                ) by {
                    assert(s@.subrange(start as int, i as int)[j] == s@[start + j]);
                    assert(p(s@[start + j]) == (s@[start + j] == sep));
                }
                assert(p(c) == (c == sep));
                lemma_split_where_step(
                    s@.subrange(start as int, i as int),
                    c,
                    s@.skip(i as int + 1),
                    p,
                );
            }
            let ghost cur_view = cur@;
            out.push(cur);
            cur = String::new();
            proof {
                assert(out.deep_view() =~= out_pre + seq![cur_view]);
                assert(out_pre + (seq![cur_view] + split_where(s@.skip(i as int + 1), p)) =~= (
                out_pre + seq![cur_view]) + split_where(s@.skip(i as int + 1), p));
                assert(cur@ =~= s@.subrange(i as int + 1, i as int + 1));
            }
            start = i + 1;
        } else {
            push_char(&mut cur, c);
            proof {
                assert(cur@ =~= s@.subrange(start as int, i as int + 1));
            }
        }
        i += 1;
    }
    proof {
        assert forall|j: int| 0 <= j < s@.skip(start as int).len() implies !p(
            #[trigger] s@.skip(start as int)[j],
        ) by {
            assert(s@.skip(start as int)[j] == s@[start + j]);
            assert(p(s@[start + j]) == (s@[start + j] == sep));
        }
        lemma_split_where_whole(s@.skip(start as int), p);
        assert(cur@ =~= s@.skip(start as int));
    }
    let ghost out_pre = out.deep_view();
    let ghost cur_view = cur@;
    out.push(cur);
    proof {
        assert(out.deep_view() =~= out_pre + seq![cur_view]);
    }
    out
}

/// The character with ASCII letters lowered; everything else unchanged.
pub open spec fn ascii_lower(c: char) -> char {
    if 'A' <= c && c <= 'Z' {
        ((c as u32 + 32) as char)
    } else {
        c
    }
}

/// The character with ASCII letters raised; everything else unchanged.
pub open spec fn ascii_upper(c: char) -> char {
    if 'a' <= c && c <= 'z' {
        ((c as u32 - 32) as char)
    } else {
        c
    }
}

/// Relies on std's `String::push`: appends the character to the end of the
/// string, which vstd leaves unspecified.
#[verifier::external_body]
pub fn push_char(s: &mut String, c: char)
    ensures
        final (s)@ == old(s)@.push(c),
{
    s.push(c);
}

/// Relies on std's `char::to_ascii_lowercase`: maps `'A'..='Z'` to
/// `'a'..='z'` and returns every other character unchanged.
#[verifier::external_body]
pub fn char_to_ascii_lowercase(c: char) -> (r: char)
    ensures
        r == ascii_lower(c),
{
    c.to_ascii_lowercase()
}

/// Relies on std's `char::to_ascii_uppercase`: maps `'a'..='z'` to
/// `'A'..='Z'` and returns every other character unchanged.
#[verifier::external_body]
pub fn char_to_ascii_uppercase(c: char) -> (r: char)
    ensures
        r == ascii_upper(c),
{
    c.to_ascii_uppercase()
}

/// Single decimal digit as a character.
pub fn digit_char(d: u32) -> (c: char)
    requires
        d <= 9,
    ensures
        c == digit_of(d as nat),
{
    if d == 0 {
        '0'
    } else if d == 1 {
        '1'
    } else if d == 2 {
        '2'
    } else if d == 3 {
        '3'
    } else if d == 4 {
        '4'
    } else if d == 5 {
        '5'
    } else if d == 6 {
        '6'
    } else if d == 7 {
        '7'
    } else if d == 8 {
        '8'
    } else {
        '9'
    }
}

/// Appends the shortest decimal rendering of `n` to `out`.
pub fn append_decimal(out: &mut String, n: u32)
    ensures
        final (out)@ == old(out)@ + decimal_of(n as nat),
    decreases n,
{
    if n < 10 {
        push_char(out, digit_char(n));
    } else {
        append_decimal(out, n / 10);
        push_char(out, digit_char(n % 10));
        assert(final (out)@ =~= old(out)@ + decimal_of(n as nat));
    }
}

/// Decimal rendering of `n` on its own.
pub fn decimal_string(n: u32) -> (r: String)
    ensures
        r@ == decimal_of(n as nat),
{
    let mut out = String::new();
    append_decimal(&mut out, n);
    assert(out@ =~= decimal_of(n as nat));
    out
}

} // verus!
