//! Requirements-file line logic for Python projects: collecting the
//! internal dependencies declared with an organization comment, and
//! rewriting a pinned internal dependency to a new version.
//!
//! A line is read as `name==version #organization`; the part after the
//! first `#` names the organization a dependency belongs to, and a line
//! that itself starts with `#` declares an internal dependency verbatim.
//! Whitespace handling is ASCII.

use crate::keys::spec_dependency_key;
use crate::text::{char_eq_pred, first_index_where, lemma_first_index_where_is,
    lemma_first_index_where_none, push_char, spec_trim, split_on_char, split_where, trim_chars};
use vstd::prelude::*;
use vstd::string::StrSliceExecFns;
use vstd::string::StringExecFns;

verus! {

/// The predicate locating the first character that is not a `#` sign.
pub open spec fn not_hash_pred() -> spec_fn(char) -> bool {
    |c: char| c != '#'
}

/// The input with every leading `#` sign removed.
pub open spec fn strip_leading_hashes(s: Seq<char>) -> Seq<char> {
    s.skip(first_index_where(s, not_hash_pred()))
}

/// The input up to but not including the first `==`; the whole input when
/// there is none.
pub open spec fn spec_before_double_eq(s: Seq<char>) -> Seq<char>
    decreases s.len(),
{
    if s.len() < 2 {
        s
    } else if s[0] == '=' && s[1] == '=' {
        Seq::empty()
    } else {
        seq![s[0]] + spec_before_double_eq(s.drop_first())
    }
}

/// Whether the input holds a `==` anywhere.
pub open spec fn spec_has_double_eq(s: Seq<char>) -> bool
    decreases s.len(),
{
    if s.len() < 2 {
        false
    } else if s[0] == '=' && s[1] == '=' {
        true
    } else {
        spec_has_double_eq(s.drop_first())
    }
}

proof fn lemma_before_double_eq_at(s: Seq<char>, k: int)
    requires
        0 <= k <= s.len() - 2,
        s[k] == '=' && s[k + 1] == '=',
        forall|l: int| 0 <= l < k ==> !(#[trigger] s[l] == '=' && s[l + 1] == '='),
    ensures
        spec_before_double_eq(s) == s.take(k),
        spec_has_double_eq(s),
    decreases k,
{
    if k == 0 {
        assert(s.take(0) =~= Seq::<char>::empty());
    } else {
        let t = s.drop_first();
        assert(t[k - 1] == s[k] && t[k] == s[k + 1]);
        assert forall|l: int| 0 <= l < k - 1 implies !(#[trigger] t[l] == '=' && t[l + 1]
            == '=') by {
            assert(t[l] == s[l + 1] && t[l + 1] == s[l + 2]);
            assert(!(s[l + 1] == '=' && s[l + 2] == '='));
        }
        lemma_before_double_eq_at(t, k - 1);
        assert(seq![s[0]] + t.take(k - 1) =~= s.take(k));
    }
}

proof fn lemma_before_double_eq_none(s: Seq<char>)
    requires
        forall|l: int| 0 <= l <= s.len() - 2 ==> !(#[trigger] s[l] == '=' && s[l + 1] == '='),
    ensures
        spec_before_double_eq(s) == s,
        !spec_has_double_eq(s),
    decreases s.len(),
{
    if s.len() >= 2 {
        let t = s.drop_first();
        assert forall|l: int| 0 <= l <= t.len() - 2 implies !(#[trigger] t[l] == '=' && t[l + 1]
            == '=') by {
            assert(t[l] == s[l + 1] && t[l + 1] == s[l + 2]);
            assert(!(s[l + 1] == '=' && s[l + 2] == '='));
        }
        lemma_before_double_eq_none(t);
        assert(seq![s[0]] + t =~= s);
    }
}

/// The name part before the first `==`, and whether one was found.
pub fn before_double_eq(s: &String) -> (r: (String, bool))
    ensures
        r.0@ == spec_before_double_eq(s@),
        r.1 == spec_has_double_eq(s@),
{
    let st = s.as_str();
    let n = st.unicode_len();
    if n < 2 {
        proof {
            lemma_before_double_eq_none(s@);
        }
        return (s.clone(), false);
    }
    let mut k: usize = 0;
    while k + 1 < n
        invariant
            0 <= k,
            n >= 2,
            k + 1 <= n,
            n == s@.len(),
            st@ == s@,
            forall|l: int| 0 <= l < k ==> !(#[trigger] s@[l] == '=' && s@[l + 1] == '='),
        ensures
            n == s@.len(),
            k + 1 <= n,
            forall|l: int| 0 <= l < k ==> !(#[trigger] s@[l] == '=' && s@[l + 1] == '='),
            k + 1 < n ==> (s@[k as int] == '=' && s@[k as int + 1] == '='),
            k + 1 >= n ==> forall|l: int|
                0 <= l <= s@.len() - 2 ==> !(#[trigger] s@[l] == '=' && s@[l + 1] == '='),
        decreases n - k,
    {
        if st.get_char(k) == '=' && st.get_char(k + 1) == '=' {
            break ;
        }
        k += 1;
    }
    if k + 1 < n {
        proof {
            lemma_before_double_eq_at(s@, k as int);
            assert(s@.take(k as int) =~= s@.subrange(0, k as int));
        }
        (st.substring_char(0, k).to_owned(), true)
    } else {
        proof {
            lemma_before_double_eq_none(s@);
        }
        (s.clone(), false)
    }
}

/// What one requirements line contributes to the internal dependency
/// list: a commented line contributes its text after the leading `#`
/// signs; a dependency line whose organization comment matches
/// contributes the key `@org/name` with any `==version` pin dropped;
/// anything else contributes nothing.
pub open spec fn spec_requirement_entry(line: Seq<char>, org: Seq<char>) -> Option<Seq<char>> {
    let t = spec_trim(line);
    if t.len() == 0 {
        None
    } else if t[0] == '#' {
        Some(spec_trim(strip_leading_hashes(t)))
    } else {
        let parts = split_where(t, char_eq_pred('#'));
        let dep = spec_before_double_eq(spec_trim(parts[0]));
        if parts.len() > 1 && spec_trim(parts[1]) == org {
            Some(spec_dependency_key(org, dep))
        } else {
            None
        }
    }
}

/// The internal dependencies declared across all lines, in order.
pub open spec fn spec_internal_requirements(lines: Seq<Seq<char>>, org: Seq<char>) -> Seq<
    Seq<char>,
>
    decreases lines.len(),
{
    if lines.len() == 0 {
        Seq::empty()
    } else {
        spec_internal_requirements(lines.drop_last(), org) + (match spec_requirement_entry(
            lines.last(),
            org,
        ) {
            Some(e) => seq![e],
            None => Seq::empty(),
        })
    }
}

/// Strips every leading `#` sign.
fn strip_hashes(s: &String) -> (r: String)
    ensures
        r@ == strip_leading_hashes(s@),
{
    let st = s.as_str();
    let n = st.unicode_len();
    let mut j: usize = 0;
    while j < n
        invariant
            0 <= j <= n,
            n == s@.len(),
            st@ == s@,
            forall|l: int| 0 <= l < j ==> #[trigger] s@[l] == '#',
        ensures
            0 <= j <= n,
            forall|l: int| 0 <= l < j ==> #[trigger] s@[l] == '#',
            j < n ==> s@[j as int] != '#',
        decreases n - j,
    {
        if st.get_char(j) != '#' {
            break ;
        }
        j += 1;
    }
    proof {
        if j < n {
            assert forall|l: int| 0 <= l < j implies !not_hash_pred()(#[trigger] s@[l]) by {
                assert(not_hash_pred()(s@[l]) == (s@[l] != '#'));
            }
            assert(not_hash_pred()(s@[j as int]) == (s@[j as int] != '#'));
            lemma_first_index_where_is(s@, not_hash_pred(), j as int);
        } else {
            assert forall|l: int| 0 <= l < s@.len() implies !not_hash_pred()(
                #[trigger] s@[l],
            ) by {
                assert(not_hash_pred()(s@[l]) == (s@[l] != '#'));
            }
            lemma_first_index_where_none(s@, not_hash_pred());
        }
    }
    st.substring_char(j, n).to_owned()
}


/// Entry one line contributes to the internal dependency list, if any.
pub fn requirement_entry(line: &String, organization: &String) -> (r: Option<String>)
    ensures
        (match r {
            Some(e) => spec_requirement_entry(line@, organization@) == Some(e@),
            None => spec_requirement_entry(line@, organization@).is_none(),
        }),
{
    let t = trim_chars(line.as_str());
    if t.as_str().unicode_len() == 0 {
        return None;
    }
    if t.as_str().get_char(0) == '#' {
        let stripped = strip_hashes(&t);
        return Some(trim_chars(stripped.as_str()));
    }
    let parts = split_on_char(t.as_str(), '#');
    proof {
        assert(parts.deep_view().len() > 0);
        assert(parts.deep_view()[0] == split_where(t@, char_eq_pred('#'))[0]);
    }
    let dep_trimmed = trim_chars(parts[0].as_str());
    let (dep, _found) = before_double_eq(&dep_trimmed);
    if parts.len() > 1 {
        let org_part = trim_chars(parts[1].as_str());
        if org_part.eq(organization) {
            let mut key = String::new();
            push_char(&mut key, '@');
            key.append(organization.as_str());
            push_char(&mut key, '/');
            key.append(dep.as_str());
            proof {
                assert(key@ =~= spec_dependency_key(organization@, dep@));
            }
            return Some(key);
        }
    }
    None
}

/// Collects the internal dependencies declared across all lines.
pub fn internal_requirements(lines: &Vec<String>, organization: &String) -> (r: Vec<String>)
    ensures
        r.deep_view() == spec_internal_requirements(lines.deep_view(), organization@),
{
    let n = lines.len();
    let mut out: Vec<String> = Vec::new();
    let mut i: usize = 0;
    proof {
        assert(lines.deep_view().take(0) =~= Seq::<Seq<char>>::empty());
        assert(out.deep_view() =~= spec_internal_requirements(
            lines.deep_view().take(0),
            organization@,
        ));
    }
    while i < n
        invariant
            i <= n,
            n == lines@.len(),
            out.deep_view() == spec_internal_requirements(
                lines.deep_view().take(i as int),
                organization@,
            ),
        decreases n - i,
    {
        let ghost pre = out.deep_view();
        proof {
            assert(lines.deep_view().take(i as int + 1).drop_last() =~= lines.deep_view().take(
                i as int,
            ));
            assert(lines.deep_view().take(i as int + 1).last() == lines.deep_view()[i as int]);
        }
        match requirement_entry(&lines[i], organization) {
            Some(e) => {
                out.push(e);
                proof {
                    assert(out.deep_view() =~= pre + seq![
                        spec_requirement_entry(lines.deep_view()[i as int], organization@).unwrap(),
                    ]);
                }
            },
            None => {
                proof {
                    assert(out.deep_view() =~= pre + Seq::<Seq<char>>::empty());
                }
            },
        }
        i += 1;
    }
    proof {
        assert(lines.deep_view().take(n as int) =~= lines.deep_view());
    }
    out
}

/// The replacement written for a refreshed pin: `name==version #org`.
pub open spec fn spec_refreshed_line(
    dep_name: Seq<char>,
    new_version: Seq<char>,
    org: Seq<char>,
) -> Seq<char> {
    dep_name + seq!['=', '='] + new_version + seq![' ', '#'] + org
}

/// How one line changes when the pin of `dep_name` within `org` is
/// refreshed: a non-empty line whose organization comment matches, whose
/// dependency part carries a `==` pin, and whose name equals `dep_name`
/// is rewritten; every other line is kept verbatim.
pub open spec fn spec_refresh_line(
    line: Seq<char>,
    dep_name: Seq<char>,
    new_version: Seq<char>,
    org: Seq<char>,
) -> (Seq<char>, bool) {
    let t = spec_trim(line);
    if t.len() == 0 {
        (line, false)
    } else {
        let parts = split_where(t, char_eq_pred('#'));
        let dep = spec_trim(parts[0]);
        if parts.len() > 1 && spec_trim(parts[1]) == org && spec_has_double_eq(dep)
            && spec_before_double_eq(dep) == dep_name {
            (spec_refreshed_line(dep_name, new_version, org), true)
        } else {
            (line, false)
        }
    }
}

/// All lines refreshed, and whether any line changed.
pub open spec fn spec_refresh_lines(
    lines: Seq<Seq<char>>,
    dep_name: Seq<char>,
    new_version: Seq<char>,
    org: Seq<char>,
) -> (Seq<Seq<char>>, bool)
    decreases lines.len(),
{
    if lines.len() == 0 {
        (Seq::empty(), false)
    } else {
        let prev = spec_refresh_lines(lines.drop_last(), dep_name, new_version, org);
        let last = spec_refresh_line(lines.last(), dep_name, new_version, org);
        (prev.0.push(last.0), prev.1 || last.1)
    }
}

/// Rewrites the pin of one internal dependency to a new version, keeping
/// every other line verbatim; also reports whether anything changed.
pub fn update_requirement_lines(
    lines: &Vec<String>,
    dependency_name: &String,
    new_version: &String,
    organization: &String,
) -> (r: (Vec<String>, bool))
    ensures
        (r.0.deep_view(), r.1) == spec_refresh_lines(
            lines.deep_view(),
            dependency_name@,
            new_version@,
            organization@,
        ),
{
    let n = lines.len();
    let mut out: Vec<String> = Vec::new();
    let mut updated = false;
    let mut i: usize = 0;
    proof {
        assert(lines.deep_view().take(0) =~= Seq::<Seq<char>>::empty());
        assert(out.deep_view() =~= spec_refresh_lines(
            lines.deep_view().take(0),
            dependency_name@,
            new_version@,
            organization@,
        ).0);
    }
    while i < n
        invariant
            i <= n,
            n == lines@.len(),
            (out.deep_view(), updated) == spec_refresh_lines(
                lines.deep_view().take(i as int),
                dependency_name@,
                new_version@,
                organization@,
            ),
        decreases n - i,
    {
        let ghost pre = out.deep_view();
        proof {
            assert(lines.deep_view().take(i as int + 1).drop_last() =~= lines.deep_view().take(
                i as int,
            ));
            assert(lines.deep_view().take(i as int + 1).last() == lines.deep_view()[i as int]);
        }
        let line = &lines[i];
        let t = trim_chars(line.as_str());
        let mut replaced = false;
        if t.as_str().unicode_len() > 0 {
            let parts = split_on_char(t.as_str(), '#');
            proof {
                assert(parts.deep_view().len() > 0);
            }
            let dep = trim_chars(parts[0].as_str());
            if parts.len() > 1 {
                let org_part = trim_chars(parts[1].as_str());
                if org_part.eq(organization) {
                    let (dep_name, found) = before_double_eq(&dep);
                    if found && dep_name.eq(dependency_name) {
                        let mut repl = String::new();
                        repl.append(dependency_name.as_str());
                        push_char(&mut repl, '=');
                        push_char(&mut repl, '=');
                        repl.append(new_version.as_str());
                        push_char(&mut repl, ' ');
                        push_char(&mut repl, '#');
                        repl.append(organization.as_str());
                        proof {
                            assert(repl@ =~= spec_refreshed_line(
                                dependency_name@,
                                new_version@,
                                organization@,
                            ));
                        }
                        out.push(repl);
                        updated = true;
                        replaced = true;
                    }
                }
            }
        }
        if !replaced {
            out.push(line.clone());
        }
        proof {
            let step = spec_refresh_line(
                lines.deep_view()[i as int],
                dependency_name@,
                new_version@,
                organization@,
            );
            assert(out.deep_view() =~= pre.push(step.0));
        }
        i += 1;
    }
    proof {
        assert(lines.deep_view().take(n as int) =~= lines.deep_view());
    }
    (out, updated)
}

} // verus!
