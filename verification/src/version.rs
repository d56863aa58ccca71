//! Release version model: a four-part number with a release channel.
//!
//! A version formats as `major.minor.patch` on the `Final` channel and as
//! `major.minor.patch-channel.revision` on every other channel.  Parsing
//! tokenizes on `.` and `-`; missing or unreadable numeric tokens default
//! to zero.  Versions order lexicographically over (major, minor, patch,
//! channel rank, revision), where the channel rank follows the declaration
//! order Final, Nightly, Alpha, Beta — deliberately kept as declared for
//! compatibility, even though it ranks a final release lowest.

use crate::text::{
    append_decimal, all_digits, decimal_of, digit_value, digits_to_nat, is_digit,
    is_unsigned_token, lemma_decimal_of_digits, lemma_decimal_roundtrip,
    lemma_digits_to_nat_prefix_monotonic, lemma_digits_to_nat_step, lemma_split_where_step,
    lemma_split_where_whole, push_char, read_u32_or_zero, split_where, unsigned_token_digits,
};
use vstd::prelude::*;
use vstd::string::StrSliceExecFns;
use vstd::string::StringExecFns;

verus! {

/// Release channel of a version, ranked in declaration order.
#[derive(Clone, Copy, PartialEq, Eq, Structural, Debug)]
pub enum Channel {
    Final,
    Nightly,
    Alpha,
    Beta,
}

/// A release version.
#[derive(Clone, Copy, PartialEq, Eq, Structural, Debug)]
pub struct Version {
    pub channel: Channel,
    pub major: u32,
    pub minor: u32,
    pub patch: u32,
    pub revision: u32,
}

/// Rank used for ordering: the channel's declaration position.
pub open spec fn channel_rank(c: Channel) -> int {
    match c {
        Channel::Final => 0,
        Channel::Nightly => 1,
        Channel::Alpha => 2,
        Channel::Beta => 3,
    }
}

/// The lowercase name a channel prints as.
pub open spec fn channel_label(c: Channel) -> Seq<char> {
    match c {
        Channel::Final => seq!['f', 'i', 'n', 'a', 'l'],
        Channel::Nightly => seq!['n', 'i', 'g', 'h', 't', 'l', 'y'],
        Channel::Alpha => seq!['a', 'l', 'p', 'h', 'a'],
        Channel::Beta => seq!['b', 'e', 't', 'a'],
    }
}

/// The channel a token names, if any.
pub open spec fn spec_channel_of(tok: Seq<char>) -> Option<Channel> {
    if tok == channel_label(Channel::Nightly) {
        Some(Channel::Nightly)
    } else if tok == channel_label(Channel::Alpha) {
        Some(Channel::Alpha)
    } else if tok == channel_label(Channel::Beta) {
        Some(Channel::Beta)
    } else if tok == channel_label(Channel::Final) {
        Some(Channel::Final)
    } else {
        None
    }
}

pub open spec fn is_version_sep(c: char) -> bool {
    c == '.' || c == '-'
}

/// The one separator predicate all version tokenization goes through, so
/// every use names the same function value.
pub open spec fn version_sep_pred() -> spec_fn(char) -> bool {
    |c: char| is_version_sep(c)
}

/// Version strings tokenize on `.` and `-`, empty tokens kept.
pub open spec fn spec_version_tokens(s: Seq<char>) -> Seq<Seq<char>> {
    split_where(s, version_sep_pred())
}

/// Token `i`, or the empty token when there are fewer.
pub open spec fn token_at(toks: Seq<Seq<char>>, i: int) -> Seq<char> {
    if 0 <= i < toks.len() {
        toks[i]
    } else {
        Seq::empty()
    }
}

/// Channel read from the fourth token; a missing fourth token means the
/// short Final form.
pub open spec fn spec_version_channel(toks: Seq<Seq<char>>) -> Channel {
    if toks.len() > 3 {
        match spec_channel_of(toks[3]) {
            Some(c) => c,
            None => Channel::Final,
        }
    } else {
        Channel::Final
    }
}

/// Whether the fourth token, if present, names a channel.  Parsing is
/// specified only for such strings; `parse_checked` rejects the rest.
pub open spec fn channel_token_recognized(s: Seq<char>) -> bool {
    spec_version_tokens(s).len() > 3 ==> spec_channel_of(spec_version_tokens(s)[3]).is_some()
}

/// Version a string parses to: the first three tokens are major, minor and
/// patch (zero when missing or unreadable); a fourth token names the
/// channel and a fifth the revision.
pub open spec fn spec_parse_version(s: Seq<char>) -> Version {
    let toks = spec_version_tokens(s);
    Version {
        channel: spec_version_channel(toks),
        major: read_u32_or_zero(token_at(toks, 0)),
        minor: read_u32_or_zero(token_at(toks, 1)),
        patch: read_u32_or_zero(token_at(toks, 2)),
        revision: if toks.len() > 3 {
            read_u32_or_zero(token_at(toks, 4))
        } else {
            0
        },
    }
}

/// String a version formats to: the short form for Final, the full form
/// with channel name and revision otherwise.
pub open spec fn spec_format_version(v: Version) -> Seq<char> {
    let base = decimal_of(v.major as nat) + seq!['.'] + decimal_of(v.minor as nat) + seq!['.']
        + decimal_of(v.patch as nat);
    if v.channel == Channel::Final {
        base
    } else {
        base + seq!['-'] + channel_label(v.channel) + seq!['.'] + decimal_of(v.revision as nat)
    }
}

/// Lexicographic comparison over (major, minor, patch, channel rank,
/// revision).
pub open spec fn spec_version_cmp(a: Version, b: Version) -> core::cmp::Ordering {
    if a.major != b.major {
        if a.major < b.major {
            core::cmp::Ordering::Less
        } else {
            core::cmp::Ordering::Greater
        }
    } else if a.minor != b.minor {
        if a.minor < b.minor {
            core::cmp::Ordering::Less
        } else {
            core::cmp::Ordering::Greater
        }
    } else if a.patch != b.patch {
        if a.patch < b.patch {
            core::cmp::Ordering::Less
        } else {
            core::cmp::Ordering::Greater
        }
    } else if channel_rank(a.channel) != channel_rank(b.channel) {
        if channel_rank(a.channel) < channel_rank(b.channel) {
            core::cmp::Ordering::Less
        } else {
            core::cmp::Ordering::Greater
        }
    } else if a.revision != b.revision {
        if a.revision < b.revision {
            core::cmp::Ordering::Less
        } else {
            core::cmp::Ordering::Greater
        }
    } else {
        core::cmp::Ordering::Equal
    }
}

impl Channel {
    /// Declaration position of the channel, the key the ordering uses.
    pub fn rank(&self) -> (r: u32)
        ensures
            r as int == channel_rank(*self),
    {
        match self {
            Channel::Final => 0,
            Channel::Nightly => 1,
            Channel::Alpha => 2,
            Channel::Beta => 3,
        }
    }

    /// Lowercase name the channel prints as.
    pub fn label(&self) -> (r: String)
        ensures
            r@ == channel_label(*self),
    {
        match self {
            Channel::Final => {
                let r = String::from_str("final");
                proof {
                    reveal_strlit("final");
                    assert(r@ =~= channel_label(Channel::Final));
                }
                r
            },
            Channel::Nightly => {
                let r = String::from_str("nightly");
                proof {
                    reveal_strlit("nightly");
                    assert(r@ =~= channel_label(Channel::Nightly));
                }
                r
            },
            Channel::Alpha => {
                let r = String::from_str("alpha");
                proof {
                    reveal_strlit("alpha");
                    assert(r@ =~= channel_label(Channel::Alpha));
                }
                r
            },
            Channel::Beta => {
                let r = String::from_str("beta");
                proof {
                    reveal_strlit("beta");
                    assert(r@ =~= channel_label(Channel::Beta));
                }
                r
            },
        }
    }

    /// Channel named by a token, if any.
    pub fn parse(tok: &String) -> (r: Option<Channel>)
        ensures
            r == spec_channel_of(tok@),
    {
        proof {
            reveal_strlit("final");
            reveal_strlit("nightly");
            reveal_strlit("alpha");
            reveal_strlit("beta");
            assert("nightly"@ =~= channel_label(Channel::Nightly));
            assert("alpha"@ =~= channel_label(Channel::Alpha));
            assert("beta"@ =~= channel_label(Channel::Beta));
            assert("final"@ =~= channel_label(Channel::Final));
        }
        if tok.eq(&String::from_str("nightly")) {
            Some(Channel::Nightly)
        } else if tok.eq(&String::from_str("alpha")) {
            Some(Channel::Alpha)
        } else if tok.eq(&String::from_str("beta")) {
            Some(Channel::Beta)
        } else if tok.eq(&String::from_str("final")) {
            Some(Channel::Final)
        } else {
            None
        }
    }
}

/// Reads a numeric token the way the version model does: the token's value
/// when it is well formed and fits, zero otherwise.
pub fn read_u32_token(tok: &String) -> (r: u32)
    ensures
        r == read_u32_or_zero(tok@),
{
    let s = tok.as_str();
    let n = s.unicode_len();
    let start: usize = if n > 0 && s.get_char(0) == '+' {
        1
    } else {
        0
    };
    if n == start {
        return 0;
    }
    let ghost digits = s@.subrange(start as int, n as int);
    let mut acc: u32 = 0;
    let mut i: usize = start;
    while i < n
        invariant
            start <= i <= n,
            n == s@.len(),
            s@ == tok@,
            start == 0 || start == 1,
            start == 1 ==> n > 0 && s@[0] == '+',
            start == 0 ==> n > 0 && s@[0] != '+',
            digits == s@.subrange(start as int, n as int),
            forall|j: int| 0 <= j < i - start ==> is_digit(#[trigger] digits[j]),
            acc == digits_to_nat(digits.subrange(0, i - start)),
            acc <= u32::MAX,
        decreases n - i,
    {
        let c = s.get_char(i);
        proof {
            assert(digits[i - start] == s@[i as int]);
        }
        if !('0' <= c && c <= '9') {
            proof {
                assert(!is_digit(digits[i - start]));
                assert(!is_unsigned_token(tok@)) by {
                    if start == 1 {
                        assert(tok@.drop_first() =~= digits);
                    }
                }
            }
            return 0;
        }
        let d: u32 = (c as u32) - 48;
        proof {
            assert(d == digit_value(c));
            lemma_digits_to_nat_step(digits, i - start);
        }
        let wide: u64 = acc as u64 * 10 + d as u64;
        if wide > u32::MAX as u64 {
            proof {
                assert(digits_to_nat(digits.subrange(0, i - start + 1)) > u32::MAX);
                lemma_digits_to_nat_prefix_monotonic(digits, i - start + 1);
                assert(digits_to_nat(digits) > u32::MAX);
                assert(unsigned_token_digits(tok@) =~= digits) by {
                    if start == 1 {
                        assert(tok@.drop_first() =~= digits);
                    }
                }
            }
            return 0;
        }
        acc = wide as u32;
        i += 1;
    }
    proof {
        assert(digits.subrange(0, n - start) =~= digits);
        assert(all_digits(digits));
        assert(unsigned_token_digits(tok@) =~= digits) by {
            if start == 1 {
                assert(tok@.drop_first() =~= digits);
            }
        }
        assert(is_unsigned_token(tok@)) by {
            if start == 1 {
                assert(tok@.drop_first() =~= digits);
            }
        }
    }
    acc
}

/// Splits a version string on `.` and `-`, keeping empty tokens.
pub fn split_version_tokens(s: &str) -> (r: Vec<String>)
    ensures
        r.deep_view() == spec_version_tokens(s@),
{
    let ghost p = version_sep_pred();
    let n = s.unicode_len();
    let mut out: Vec<String> = Vec::new();
    let mut cur = String::new();
    let mut start: usize = 0;
    let mut i: usize = 0;
    proof {
        assert(s@.skip(0) =~= s@);
    }
    while i < n
        invariant
            start <= i <= n,
            n == s@.len(),
            p == version_sep_pred(),
            cur@ == s@.subrange(start as int, i as int),
            forall|j: int| start <= j < i ==> !is_version_sep(#[trigger] s@[j]),
            split_where(s@, p) == out.deep_view() + split_where(s@.skip(start as int), p),
        decreases n - i,
    {
        let ghost out_pre = out.deep_view();
        let c = s.get_char(i);
        if c == '.' || c == '-' {
            proof {
                assert(s@.skip(start as int) =~= s@.subrange(start as int, i as int) + seq![c]
                    + s@.skip(i as int + 1));
                assert forall|j: int|
                    0 <= j < s@.subrange(start as int, i as int).len() implies !p(
                    #[trigger] s@.subrange(start as int, i as int)[j],
                ) by {
                    assert(s@.subrange(start as int, i as int)[j] == s@[start + j]);
                    assert(p(s@[start + j]) == is_version_sep(s@[start + j]));
                }
                assert(p(c) == is_version_sep(c));
                lemma_split_where_step(
                    s@.subrange(start as int, i as int),
                    c,
                    s@.skip(i as int + 1),
                    p,
                );
            }
            let ghost cur_view = cur@;
            out.push(cur);
            cur = String::new();
            proof {
                assert(out.deep_view() =~= out_pre + seq![cur_view]);
                assert(out_pre + (seq![cur_view] + split_where(s@.skip(i as int + 1), p))
                    =~= (out_pre + seq![cur_view]) + split_where(s@.skip(i as int + 1), p));
                assert(cur@ =~= s@.subrange(i as int + 1, i as int + 1));
            }
            start = i + 1;
        } else {
            push_char(&mut cur, c);
            proof {
                assert(cur@ =~= s@.subrange(start as int, i as int + 1));
            }
        }
        i += 1;
    }
    proof {
        assert forall|j: int| 0 <= j < s@.skip(start as int).len() implies !p(
            #[trigger] s@.skip(start as int)[j],
        ) by {
            assert(s@.skip(start as int)[j] == s@[start + j]);
            assert(p(s@[start + j]) == is_version_sep(s@[start + j]));
        }
        lemma_split_where_whole(s@.skip(start as int), p);
        assert(cur@ =~= s@.skip(start as int));
    }
    let ghost out_pre = out.deep_view();
    let ghost cur_view = cur@;
    out.push(cur);
    proof {
        assert(out.deep_view() =~= out_pre + seq![cur_view]);
    }
    out
}

impl Version {
    /// Parses a version string whose channel token, if present, names one
    /// of the four channels.
    pub fn parse(version: &str) -> (r: Version)
        requires
            channel_token_recognized(version@),
        ensures
            r == spec_parse_version(version@),
    {
        let toks = split_version_tokens(version);
        let ghost tv = spec_version_tokens(version@);
        proof {
            assert(read_u32_or_zero(Seq::<char>::empty()) == 0);
        }
        let major = if toks.len() > 0 {
            read_u32_token(&toks[0])
        } else {
            0
        };
        let minor = if toks.len() > 1 {
            read_u32_token(&toks[1])
        } else {
            0
        };
        let patch = if toks.len() > 2 {
            read_u32_token(&toks[2])
        } else {
            0
        };
        let (channel, revision) = if toks.len() > 3 {
            let rev = if toks.len() > 4 {
                read_u32_token(&toks[4])
            } else {
                0
            };
            match Channel::parse(&toks[3]) {
                Some(c) => (c, rev),
                None => {
                    proof {
                        assert(false);
                    }
                    (Channel::Final, 0)
                },
            }
        } else {
            (Channel::Final, 0)
        };
        Version { channel, major, minor, patch, revision }
    }

    /// Total version of `parse`: rejects a string whose fourth token names
    /// no channel instead of misreading it.
    pub fn parse_checked(version: &str) -> (r: Option<Version>)
        ensures
            channel_token_recognized(version@) ==> r == Some(spec_parse_version(version@)),
            !channel_token_recognized(version@) ==> r.is_none(),
    {
        let toks = split_version_tokens(version);
        if toks.len() > 3 {
            if Channel::parse(&toks[3]).is_none() {
                return None;
            }
        }
        Some(Version::parse(version))
    }

    /// Formats the version: the short form for Final, the full form with
    /// channel name and revision otherwise.
    pub fn formatted(&self) -> (r: String)
        ensures
            r@ == spec_format_version(*self),
    {
        let mut out = String::new();
        append_decimal(&mut out, self.major);
        push_char(&mut out, '.');
        append_decimal(&mut out, self.minor);
        push_char(&mut out, '.');
        append_decimal(&mut out, self.patch);
        proof {
            assert(out@ =~= decimal_of(self.major as nat) + seq!['.'] + decimal_of(
                self.minor as nat,
            ) + seq!['.'] + decimal_of(self.patch as nat));
        }
        match self.channel {
            Channel::Final => {},
            _ => {
                push_char(&mut out, '-');
                let label = self.channel.label();
                out.append(label.as_str());
                push_char(&mut out, '.');
                append_decimal(&mut out, self.revision);
                proof {
                    assert(out@ =~= spec_format_version(*self));
                }
            },
        }
        out
    }

    /// Total-order comparison over (major, minor, patch, channel rank,
    /// revision), usable for sorting.
    pub fn compare(&self, other: &Version) -> (r: core::cmp::Ordering)
        ensures
            r == spec_version_cmp(*self, *other),
    {
        if self.major != other.major {
            if self.major < other.major {
                core::cmp::Ordering::Less
            } else {
                core::cmp::Ordering::Greater
            }
        } else if self.minor != other.minor {
            if self.minor < other.minor {
                core::cmp::Ordering::Less
            } else {
                core::cmp::Ordering::Greater
            }
        } else if self.patch != other.patch {
            if self.patch < other.patch {
                core::cmp::Ordering::Less
            } else {
                core::cmp::Ordering::Greater
            }
        } else {
            let ra = self.channel.rank();
            let rb = other.channel.rank();
            if ra != rb {
                if ra < rb {
                    core::cmp::Ordering::Less
                } else {
                    core::cmp::Ordering::Greater
                }
            } else if self.revision != other.revision {
                if self.revision < other.revision {
                    core::cmp::Ordering::Less
                } else {
                    core::cmp::Ordering::Greater
                }
            } else {
                core::cmp::Ordering::Equal
            }
        }
    }
}

/// Channel labels contain no tokenizer separator.
proof fn lemma_label_no_sep(c: Channel)
    ensures
        forall|j: int|
            0 <= j < channel_label(c).len() ==> !is_version_sep(#[trigger] channel_label(c)[j]),
{
}

/// Decimal renderings contain no tokenizer separator and no plus sign.
proof fn lemma_decimal_no_sep(n: nat)
    ensures
        forall|j: int|
            0 <= j < decimal_of(n).len() ==> !is_version_sep(#[trigger] decimal_of(n)[j]),
        decimal_of(n)[0] != '+',
{
    lemma_decimal_of_digits(n);
    assert forall|j: int|
        0 <= j < decimal_of(n).len() implies !is_version_sep(#[trigger] decimal_of(n)[j]) by {
        assert(is_digit(decimal_of(n)[j]));
    }
    assert(is_digit(decimal_of(n)[0]));
}

/// A decimal rendering of a `u32` reads back as that number.
proof fn lemma_decimal_reads_back(n: u32)
    ensures
        read_u32_or_zero(decimal_of(n as nat)) == n,
{
    lemma_decimal_of_digits(n as nat);
    lemma_decimal_roundtrip(n as nat);
    assert(is_digit(decimal_of(n as nat)[0]));
    assert(decimal_of(n as nat)[0] != '+');
}

/// Every channel's printed name parses back to that channel.
proof fn lemma_channel_of_label(c: Channel)
    ensures
        spec_channel_of(channel_label(c)) == Some(c),
{
    match c {
        Channel::Final => {
            assert(channel_label(Channel::Final)[0] != channel_label(Channel::Alpha)[0]);
        },
        Channel::Nightly => {},
        Channel::Alpha => {},
        Channel::Beta => {
            assert(channel_label(Channel::Beta).len() != channel_label(Channel::Alpha).len());
        },
    }
}

/// A version that carries no information its formatted form drops: on the
/// Final channel, whose short form omits the revision, the revision is
/// zero.
pub open spec fn normalized_version(v: Version) -> bool {
    v.channel == Channel::Final ==> v.revision == 0
}

/// Tokenizing a formatted version yields exactly its printed fields.
#[verifier::rlimit(100)]
proof fn lemma_format_tokens(v: Version)
    ensures
        v.channel == Channel::Final ==> spec_version_tokens(spec_format_version(v)) == seq![
            decimal_of(v.major as nat),
            decimal_of(v.minor as nat),
            decimal_of(v.patch as nat),
        ],
        v.channel != Channel::Final ==> spec_version_tokens(spec_format_version(v)) == seq![
            decimal_of(v.major as nat),
            decimal_of(v.minor as nat),
            decimal_of(v.patch as nat),
            channel_label(v.channel),
            decimal_of(v.revision as nat),
        ],
{
    let p = version_sep_pred();
    let a = decimal_of(v.major as nat);
    let b = decimal_of(v.minor as nat);
    let c = decimal_of(v.patch as nat);
    let s = spec_format_version(v);
    lemma_decimal_no_sep(v.major as nat);
    lemma_decimal_no_sep(v.minor as nat);
    lemma_decimal_no_sep(v.patch as nat);
    assert(p('.') == is_version_sep('.'));
    assert(p('-') == is_version_sep('-'));
    assert forall|j: int| 0 <= j < a.len() implies !p(#[trigger] a[j]) by {
        assert(p(a[j]) == is_version_sep(a[j]));
    }
    assert forall|j: int| 0 <= j < b.len() implies !p(#[trigger] b[j]) by {
        assert(p(b[j]) == is_version_sep(b[j]));
    }
    assert forall|j: int| 0 <= j < c.len() implies !p(#[trigger] c[j]) by {
        assert(p(c[j]) == is_version_sep(c[j]));
    }
    if v.channel == Channel::Final {
        let rest1 = b + seq!['.'] + c;
        assert(s =~= a + seq!['.'] + rest1);
        lemma_split_where_step(a, '.', rest1, p);
        assert(rest1 =~= b + seq!['.'] + c);
        lemma_split_where_step(b, '.', c, p);
        lemma_split_where_whole(c, p);
        assert(spec_version_tokens(s) =~= seq![a, b, c]);
    } else {
        let label = channel_label(v.channel);
        let r = decimal_of(v.revision as nat);
        lemma_label_no_sep(v.channel);
        lemma_decimal_no_sep(v.revision as nat);
        assert forall|j: int| 0 <= j < label.len() implies !p(#[trigger] label[j]) by {
            assert(p(label[j]) == is_version_sep(label[j]));
        }
        assert forall|j: int| 0 <= j < r.len() implies !p(#[trigger] r[j]) by {
            assert(p(r[j]) == is_version_sep(r[j]));
        }
        let rest3 = label + seq!['.'] + r;
        let rest2 = c + seq!['-'] + rest3;
        let rest1 = b + seq!['.'] + rest2;
        assert(s =~= a + seq!['.'] + rest1);
        lemma_split_where_step(a, '.', rest1, p);
        assert(rest1 =~= b + seq!['.'] + rest2);
        lemma_split_where_step(b, '.', rest2, p);
        assert(rest2 =~= c + seq!['-'] + rest3);
        lemma_split_where_step(c, '-', rest3, p);
        assert(rest3 =~= label + seq!['.'] + r);
        lemma_split_where_step(label, '.', r, p);
        lemma_split_where_whole(r, p);
        assert(spec_version_tokens(s) =~= seq![a, b, c, label, r]);
    }
}

/// Round trip one way: parsing the formatted form of a normalized version
/// returns that version, and the formatted form always passes the channel
/// check.  (A Final version with a nonzero revision formats to the short
/// form, so the dropped revision cannot be read back.)
#[verifier::rlimit(100)]
pub proof fn lemma_format_parse_roundtrip(v: Version)
    requires
        normalized_version(v),
    ensures
        channel_token_recognized(spec_format_version(v)),
        spec_parse_version(spec_format_version(v)) == v,
{
    let s = spec_format_version(v);
    let toks = spec_version_tokens(s);
    lemma_format_tokens(v);
    lemma_decimal_reads_back(v.major);
    lemma_decimal_reads_back(v.minor);
    lemma_decimal_reads_back(v.patch);
    if v.channel == Channel::Final {
        assert(token_at(toks, 0) == decimal_of(v.major as nat));
        assert(token_at(toks, 1) == decimal_of(v.minor as nat));
        assert(token_at(toks, 2) == decimal_of(v.patch as nat));
    } else {
        lemma_decimal_reads_back(v.revision);
        lemma_channel_of_label(v.channel);
        assert(token_at(toks, 0) == decimal_of(v.major as nat));
        assert(token_at(toks, 1) == decimal_of(v.minor as nat));
        assert(token_at(toks, 2) == decimal_of(v.patch as nat));
        assert(toks[3] == channel_label(v.channel));
        assert(token_at(toks, 4) == decimal_of(v.revision as nat));
    }
}

/// A canonical version string: one some version formats to.
pub open spec fn is_canonical_version_string(s: Seq<char>) -> bool {
    exists|v: Version| s == spec_format_version(v)
}

/// Round trip the other way: formatting what a canonical string parses to
/// returns the string unchanged.
pub proof fn lemma_parse_format_roundtrip(s: Seq<char>)
    requires
        is_canonical_version_string(s),
    ensures
        spec_format_version(spec_parse_version(s)) == s,
{
    let v = choose|v: Version| s == spec_format_version(v);
    if v.channel == Channel::Final {
        let v0 = Version { revision: 0, ..v };
        assert(spec_format_version(v0) == spec_format_version(v));
        lemma_format_parse_roundtrip(v0);
    } else {
        lemma_format_parse_roundtrip(v);
    }
}

/// The comparison is a total order: reflexive, antisymmetric (equal
/// comparison means equal versions), connex, and transitive.
pub proof fn lemma_version_order_total(a: Version, b: Version, c: Version)
    ensures
        spec_version_cmp(a, a) == core::cmp::Ordering::Equal,
        spec_version_cmp(a, b) == core::cmp::Ordering::Equal ==> a == b,
        spec_version_cmp(a, b) == core::cmp::Ordering::Less <==> spec_version_cmp(b, a)
            == core::cmp::Ordering::Greater,
        spec_version_cmp(a, b) == core::cmp::Ordering::Less && spec_version_cmp(b, c)
            == core::cmp::Ordering::Less ==> spec_version_cmp(a, c) == core::cmp::Ordering::Less,
{
}

} // verus!
