//! Entity key handling: the canonical `@org/name` dependency key, the
//! slug split used on package names, and the owner/repository split used
//! on origin URLs.

use crate::text::{first_index_where, lemma_first_index_where_is, lemma_first_index_where_none,
    push_char};
use vstd::prelude::*;
use vstd::string::StrSliceExecFns;
use vstd::string::StringExecFns;

verus! {

/// Joins an organization id and an entity name into the canonical
/// dependency key written `@org/name`.
pub open spec fn spec_dependency_key(org: Seq<char>, name: Seq<char>) -> Seq<char> {
    seq!['@'] + org + seq!['/'] + name
}

pub open spec fn is_slash(c: char) -> bool {
    c == '/'
}

/// The one slash predicate key splitting goes through, so every use names
/// the same function value.
pub open spec fn slash_pred() -> spec_fn(char) -> bool {
    |c: char| is_slash(c)
}

/// The predicate locating the first character that is not an `@` sign.
pub open spec fn not_at_pred() -> spec_fn(char) -> bool {
    |c: char| c != '@'
}

/// The input with every leading `@` sign removed.
pub open spec fn strip_leading_ats(s: Seq<char>) -> Seq<char> {
    s.skip(first_index_where(s, not_at_pred()))
}

/// Split of a package slug `@org/name`: defined when the input starts
/// with `@` and holds exactly one slash; the organization part also loses
/// any further leading `@` signs.
pub open spec fn spec_extract_org_and_package(s: Seq<char>) -> Option<(Seq<char>, Seq<char>)> {
    let k = first_index_where(s, slash_pred());
    if s.len() > 0 && s[0] == '@' && k < s.len() && (forall|j: int|
        k < j < s.len() ==> s[j] != '/') {
        Some((strip_leading_ats(s.subrange(0, k)), s.subrange(k + 1, s.len() as int)))
    } else {
        None
    }
}

/// The scheme-and-host prefix a repository origin URL must carry.
pub open spec fn github_prefix() -> Seq<char> {
    seq!['h', 't', 't', 'p', 's', ':', '/', '/', 'g', 'i', 't', 'h', 'u', 'b', '.', 'c', 'o', 'm', '/']
}

/// Split of an origin URL `https://github.com/owner/repo`: defined when
/// the prefix matches and exactly one slash follows it.
pub open spec fn spec_extract_username_and_repo(s: Seq<char>) -> Option<(Seq<char>, Seq<char>)> {
    if s.len() >= 19 && s.subrange(0, 19) == github_prefix() {
        let rest = s.skip(19);
        let k = first_index_where(rest, slash_pred());
        if k < rest.len() && (forall|j: int| k < j < rest.len() ==> rest[j] != '/') {
            Some((rest.subrange(0, k), rest.subrange(k + 1, rest.len() as int)))
        } else {
            None
        }
    } else {
        None
    }
}

/// Builds the canonical dependency key `@org/name`.
pub fn dependency_key(org: &String, name: &String) -> (r: String)
    ensures
        r@ == spec_dependency_key(org@, name@),
{
    let mut out = String::new();
    push_char(&mut out, '@');
    out.append(org.as_str());
    push_char(&mut out, '/');
    out.append(name.as_str());
    proof {
        assert(out@ =~= spec_dependency_key(org@, name@));
    }
    out
}

/// Index of the first slash at or after `from`, or the length when there
/// is none; tied to `first_index_where` over the suffix.
fn find_slash_from(s: &str, from: usize) -> (k: usize)
    requires
        from <= s@.len(),
    ensures
        from <= k <= s@.len(),
        k < s@.len() ==> s@[k as int] == '/',
        forall|j: int| from <= j < k ==> s@[j] != '/',
        k - from == first_index_where(s@.skip(from as int), slash_pred()),
{
    let n = s.unicode_len();
    let mut i: usize = from;
    while i < n
        invariant
            from <= i <= n,
            n == s@.len(),
            forall|j: int| from <= j < i ==> s@[j] != '/',
        decreases n - i,
    {
        if s.get_char(i) == '/' {
            proof {
                let rest = s@.skip(from as int);
                assert(rest[i - from] == s@[i as int]);
                assert(slash_pred()(rest[i - from]) == is_slash(rest[i - from]));
                assert forall|j: int| 0 <= j < i - from implies !slash_pred()(
                    #[trigger] rest[j],
                ) by {
                    assert(rest[j] == s@[from + j]);
                    assert(slash_pred()(rest[j]) == is_slash(rest[j]));
                }
                lemma_first_index_where_is(rest, slash_pred(), i - from);
            }
            return i;
        }
        i += 1;
    }
    proof {
        let rest = s@.skip(from as int);
        assert forall|j: int| 0 <= j < rest.len() implies !slash_pred()(#[trigger] rest[j]) by {
            assert(rest[j] == s@[from + j]);
            assert(slash_pred()(rest[j]) == is_slash(rest[j]));
        }
        lemma_first_index_where_none(rest, slash_pred());
    }
    n
}

/// Splits a package slug `@org/name` into organization and package name;
/// rejects anything without a leading `@` or with other than exactly one
/// slash.  Further leading `@` signs are stripped from the organization.
pub fn extract_org_and_package(input: &str) -> (r: Option<(String, String)>)
    ensures
        (match r {
            Some(pair) => spec_extract_org_and_package(input@) == Some((pair.0@, pair.1@)),
            None => spec_extract_org_and_package(input@).is_none(),
        }),
{
    let n = input.unicode_len();
    if n == 0 || input.get_char(0) != '@' {
        return None;
    }
    let k = find_slash_from(input, 0);
    proof {
        assert(input@.skip(0) =~= input@);
    }
    if k == n {
        return None;
    }
    let k2 = find_slash_from(input, k + 1);
    if k2 < n {
        proof {
            assert(input@[k2 as int] == '/');
        }
        return None;
    }
    let mut j: usize = 0;
    while j < k && input.get_char(j) == '@'
        invariant
            0 <= j <= k <= n,
            n == input@.len(),
            forall|l: int| 0 <= l < j ==> char_is_at_sign(input@, l),
        decreases k - j,
    {
        j += 1;
    }
    proof {
        let head = input@.subrange(0, k as int);
        if j < k {
            assert(head[j as int] == input@[j as int]);
            assert(not_at_pred()(head[j as int]) == (head[j as int] != '@'));
            assert forall|l: int| 0 <= l < j implies !not_at_pred()(#[trigger] head[l]) by {
                assert(head[l] == input@[l]);
                assert(char_is_at_sign(input@, l));
                assert(not_at_pred()(head[l]) == (head[l] != '@'));
            }
            lemma_first_index_where_is(head, not_at_pred(), j as int);
        } else {
            assert forall|l: int| 0 <= l < head.len() implies !not_at_pred()(
                #[trigger] head[l],
            ) by {
                assert(head[l] == input@[l]);
                assert(char_is_at_sign(input@, l));
                assert(not_at_pred()(head[l]) == (head[l] != '@'));
            }
            lemma_first_index_where_none(head, not_at_pred());
        }
        assert(strip_leading_ats(head) =~= input@.subrange(j as int, k as int));
    }
    let org = input.substring_char(j, k).to_owned();
    let package_name = input.substring_char(k + 1, n).to_owned();
    proof {
        assert(org@ =~= strip_leading_ats(input@.subrange(0, k as int)));
        assert(package_name@ =~= input@.subrange(k as int + 1, n as int));
    }
    Some((org, package_name))
}

/// The character of `s` at `l` is an `@` sign; named so the quantified
/// loop invariants have a trigger.
pub open spec fn char_is_at_sign(s: Seq<char>, l: int) -> bool {
    s[l] == '@'
}

/// Whether `s` starts with `p`.
pub open spec fn has_prefix(s: Seq<char>, p: Seq<char>) -> bool {
    p.len() <= s.len() && s.subrange(0, p.len() as int) == p
}

/// The keys that belong to the organization: those starting `@org/`.
pub open spec fn spec_internal_dependency_keys(
    deps: Seq<Seq<char>>,
    org: Seq<char>,
) -> Seq<Seq<char>>
    decreases deps.len(),
{
    if deps.len() == 0 {
        Seq::empty()
    } else {
        spec_internal_dependency_keys(deps.drop_last(), org) + (if has_prefix(
            deps.last(),
            seq!['@'] + org + seq!['/'],
        ) {
            seq![deps.last()]
        } else {
            Seq::empty()
        })
    }
}

/// True when `s` starts with `prefix`.
pub fn string_has_prefix(s: &String, prefix: &String) -> (r: bool)
    ensures
        r == has_prefix(s@, prefix@),
{
    let sl = s.as_str().unicode_len();
    let pl = prefix.as_str().unicode_len();
    if pl > sl {
        return false;
    }
    let head = s.as_str().substring_char(0, pl).to_owned();
    let r = head.eq(prefix);
    proof {
        assert(head@ =~= s@.subrange(0, prefix@.len() as int));
    }
    r
}

/// Keeps the dependency keys that belong to the organization: those of
/// the form `@org/name`.
pub fn internal_dependency_keys(deps: &Vec<String>, organization: &String) -> (r: Vec<String>)
    ensures
        r.deep_view() == spec_internal_dependency_keys(deps.deep_view(), organization@),
{
    let mut prefix = String::new();
    push_char(&mut prefix, '@');
    prefix.append(organization.as_str());
    push_char(&mut prefix, '/');
    proof {
        assert(prefix@ =~= seq!['@'] + organization@ + seq!['/']);
    }
    let n = deps.len();
    let mut out: Vec<String> = Vec::new();
    let mut i: usize = 0;
    proof {
        assert(deps.deep_view().take(0) =~= Seq::<Seq<char>>::empty());
        assert(out.deep_view() =~= spec_internal_dependency_keys(
            deps.deep_view().take(0),
            organization@,
        ));
    }
    while i < n
        invariant
            i <= n,
            n == deps@.len(),
            prefix@ == seq!['@'] + organization@ + seq!['/'],
            out.deep_view() == spec_internal_dependency_keys(
                deps.deep_view().take(i as int),
                organization@,
            ),
        decreases n - i,
    {
        let ghost pre = out.deep_view();
        proof {
            assert(deps.deep_view().take(i as int + 1).drop_last() =~= deps.deep_view().take(
                i as int,
            ));
            assert(deps.deep_view().take(i as int + 1).last() == deps.deep_view()[i as int]);
        }
        if string_has_prefix(&deps[i], &prefix) {
            out.push(deps[i].clone());
            proof {
                assert(out.deep_view() =~= pre + seq![deps.deep_view()[i as int]]);
            }
        } else {
            proof {
                assert(out.deep_view() =~= pre + Seq::<Seq<char>>::empty());
            }
        }
        i += 1;
    }
    proof {
        assert(deps.deep_view().take(n as int) =~= deps.deep_view());
    }
    out
}

/// Splits an origin URL `https://github.com/owner/repo` into owner and
/// repository name; rejects other shapes.
pub fn extract_username_and_repo(github_url: &str) -> (r: Option<(String, String)>)
    ensures
        (match r {
            Some(pair) => spec_extract_username_and_repo(github_url@) == Some((
                pair.0@,
                pair.1@,
            )),
            None => spec_extract_username_and_repo(github_url@).is_none(),
        }),
{
    proof {
        reveal_strlit("https://github.com/");
        assert("https://github.com/"@ =~= github_prefix());
    }
    let n = github_url.unicode_len();
    if n < 19 {
        return None;
    }
    let prefix = github_url.substring_char(0, 19).to_owned();
    if !prefix.eq(&String::from_str("https://github.com/")) {
        return None;
    }
    let ghost rest = github_url@.skip(19);
    let k = find_slash_from(github_url, 19);
    if k == n {
        proof {
            assert(first_index_where(rest, slash_pred()) == rest.len());
        }
        return None;
    }
    let k2 = find_slash_from(github_url, k + 1);
    if k2 < n {
        proof {
            assert(github_url@[k2 as int] == '/');
            assert(rest[k2 - 19] == '/');
        }
        return None;
    }
    let username = github_url.substring_char(19, k).to_owned();
    let repo_name = github_url.substring_char(k + 1, n).to_owned();
    proof {
        let ki = first_index_where(rest, slash_pred());
        assert(ki == k - 19);
        assert forall|j: int| ki < j < rest.len() implies rest[j] != '/' by {
            assert(rest[j] == github_url@[19 + j]);
        }
        assert(username@ =~= rest.subrange(0, ki));
        assert(repo_name@ =~= rest.subrange(ki + 1, rest.len() as int));
    }
    Some((username, repo_name))
}

} // verus!
