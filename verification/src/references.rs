//! Portal reference rendering: turns portal names and their environment
//! URLs into the constant declarations written to the references file.
//!
//! A portal name such as `@org/portal-app` becomes the constant name
//! `ORG_PORTAL_APP`: dashes and slashes turn into underscores, `@` signs
//! are dropped, and ASCII letters are raised.

use crate::text::{ascii_upper, char_to_ascii_uppercase, push_char};
use vstd::prelude::*;
use vstd::string::StringExecFns;

verus! {

/// Constant name derived from a portal name: `-` and `/` become `_`,
/// `@` is dropped, ASCII letters are raised, everything else is kept.
pub open spec fn spec_reference_name(s: Seq<char>) -> Seq<char>
    decreases s.len(),
{
    if s.len() == 0 {
        Seq::empty()
    } else {
        spec_reference_name(s.drop_last()) + (if s.last() == '@' {
            Seq::empty()
        } else if s.last() == '-' || s.last() == '/' {
            seq!['_']
        } else {
            seq![ascii_upper(s.last())]
        })
    }
}

/// One rendered line: `export const NAME = 'url';` with a trailing
/// newline.
pub open spec fn spec_reference_line(name: Seq<char>, url: Seq<char>) -> Seq<char> {
    "export const "@ + spec_reference_name(name) + " = '"@ + url + "';\n"@
}

/// All lines rendered in order.
pub open spec fn spec_render_references(entries: Seq<(Seq<char>, Seq<char>)>) -> Seq<char>
    decreases entries.len(),
{
    if entries.len() == 0 {
        Seq::empty()
    } else {
        spec_render_references(entries.drop_last()) + spec_reference_line(
            entries.last().0,
            entries.last().1,
        )
    }
}

/// Mathematical value of a name/URL entry list.
pub open spec fn entries_view(entries: Seq<(String, String)>) -> Seq<(Seq<char>, Seq<char>)> {
    entries.map_values(|e: (String, String)| (e.0@, e.1@))
}

/// Builds the constant name for one portal reference.
pub fn format_reference_name(name: &String) -> (r: String)
    ensures
        r@ == spec_reference_name(name@),
{
    let s = name.as_str();
    let n = s.unicode_len();
    let mut out = String::new();
    let mut i: usize = 0;
    proof {
        assert(name@.take(0) =~= Seq::<char>::empty());
    }
    while i < n
        invariant
            i <= n,
            n == name@.len(),
            s@ == name@,
            out@ == spec_reference_name(name@.take(i as int)),
        decreases n - i,
    {
        let ghost pre = out@;
        proof {
            assert(name@.take(i as int + 1).drop_last() =~= name@.take(i as int));
            assert(name@.take(i as int + 1).last() == name@[i as int]);
        }
        let c = s.get_char(i);
        if c == '@' {
            proof {
                assert(out@ =~= pre + Seq::<char>::empty());
            }
        } else if c == '-' || c == '/' {
            push_char(&mut out, '_');
            proof {
                assert(out@ =~= pre + seq!['_']);
            }
        } else {
            let u = char_to_ascii_uppercase(c);
            push_char(&mut out, u);
            proof {
                assert(out@ =~= pre + seq![ascii_upper(name@[i as int])]);
            }
        }
        i += 1;
    }
    proof {
        assert(name@.take(n as int) =~= name@);
    }
    out
}

/// Renders the whole references file body, one line per entry.
pub fn render_references(entries: &Vec<(String, String)>) -> (r: String)
    ensures
        r@ == spec_render_references(entries_view(entries@)),
{
    proof {
        reveal_strlit("export const ");
        reveal_strlit(" = '");
        reveal_strlit("';\n");
    }
    let n = entries.len();
    let mut out = String::new();
    let mut i: usize = 0;
    proof {
        assert(entries_view(entries@).take(0) =~= Seq::<(Seq<char>, Seq<char>)>::empty());
    }
    while i < n
        invariant
            i <= n,
            n == entries@.len(),
            out@ == spec_render_references(entries_view(entries@).take(i as int)),
        decreases n - i,
    {
        let ghost pre = out@;
        proof {
            assert(entries_view(entries@).take(i as int + 1).drop_last() =~= entries_view(
                entries@,
            ).take(i as int));
            assert(entries_view(entries@).take(i as int + 1).last() == entries_view(
                entries@,
            )[i as int]);
        }
        out.append("export const ");
        let cname = format_reference_name(&entries[i].0);
        out.append(cname.as_str());
        out.append(" = '");
        out.append(entries[i].1.as_str());
        out.append("';\n");
        proof {
            assert(out@ =~= pre + spec_reference_line(
                entries_view(entries@)[i as int].0,
                entries_view(entries@)[i as int].1,
            ));
        }
        i += 1;
    }
    proof {
        assert(entries_view(entries@).take(n as int) =~= entries_view(entries@));
    }
    out
}

} // verus!
