//! Variable interpolation. A key `k` bound to `v` is substituted wherever the
//! text spells it as `{{ k }}`, `{ k }`, `{{k}}` or `{k}`, in that order, and
//! a whole map is applied entry by entry in its deterministic entry order.

use vstd::prelude::*;

verus! {

use vstd::string::StringExecFns;
use crate::text::spec_replace;
use crate::text::replace_all;
use crate::strmap::Entries;
use crate::strmap::StrMap;
use crate::node::TemplateNode;

/// The four accepted spellings of an interpolation site for key `k`.
pub open spec fn pat_double_spaced(k: Seq<char>) -> Seq<char> {
    "{{ "@ + k + " }}"@
}

pub open spec fn pat_single_spaced(k: Seq<char>) -> Seq<char> {
    "{ "@ + k + " }"@
}

pub open spec fn pat_double(k: Seq<char>) -> Seq<char> {
    "{{"@ + k + "}}"@
}

pub open spec fn pat_single(k: Seq<char>) -> Seq<char> {
    "{"@ + k + "}"@
}

/// `s` with every spelling of key `k` replaced by `v`: first the spaced
/// spellings, then the tight ones, double braces before single ones.
pub open spec fn spec_subst_key(s: Seq<char>, k: Seq<char>, v: Seq<char>) -> Seq<char> {
    spec_replace(
        spec_replace(
            spec_replace(spec_replace(s, pat_double_spaced(k), v), pat_single_spaced(k), v),
            pat_double(k),
            v,
        ),
        pat_single(k),
        v,
    )
}

/// `s` with every entry of `entries` substituted, entry by entry from the
/// front of the sequence.
pub open spec fn spec_subst_entries(s: Seq<char>, entries: Entries) -> Seq<char>
    decreases entries.len(),
{
    if entries.len() == 0 {
        s
    } else {
        spec_subst_entries(spec_subst_key(s, entries[0].0, entries[0].1), entries.drop_first())
    }
}

/// `pre + k + post` as an owned string.
fn enclose(pre: &str, k: &str, post: &str) -> (r: String)
    ensures
        r@ == pre@ + k@ + post@,
{
    let mut r = String::from_str(pre);
    r.append(k);
    r.append(post);
    r
}

impl TemplateNode {
    /// Substitutes one key's value at all four accepted spellings.
    pub fn perform_substitutions_str(s: String, k: &str, v: &str) -> (r: String)
        ensures
            r@ == spec_subst_key(s@, k@, v@),
    {
        let p1 = enclose("{{ ", k, " }}");
        let s1 = replace_all(s.as_str(), p1.as_str(), v);
        let p2 = enclose("{ ", k, " }");
        let s2 = replace_all(s1.as_str(), p2.as_str(), v);
        let p3 = enclose("{{", k, "}}");
        let s3 = replace_all(s2.as_str(), p3.as_str(), v);
        let p4 = enclose("{", k, "}");
        replace_all(s3.as_str(), p4.as_str(), v)
    }

    /// Substitutes every entry of `strings`, in entry order.
    pub fn perform_substitutions_strings(s: String, strings: &StrMap) -> (r: String)
        ensures
            r@ == spec_subst_entries(s@, strings@),
    {
        let ghost s0 = s@;
        let n = strings.len();
        let mut acc = s;
        let mut i: usize = 0;
        assert(strings@.subrange(0, n as int) =~= strings@);
        while i < n
            invariant
                n == strings@.len(),
                i <= n,
                spec_subst_entries(acc@, strings@.subrange(i as int, n as int)) == spec_subst_entries(
                    s0,
                    strings@,
                ),
            decreases n - i,
        {
            let ghost tail = strings@.subrange(i as int, n as int);
            assert(tail[0] == strings@[i as int]);
            assert(tail.drop_first() =~= strings@.subrange(i + 1, n as int));
            let (k, v) = strings.entry_at(i);
            acc = TemplateNode::perform_substitutions_str(acc, k.as_str(), v.as_str());
            i += 1;
        }
        assert(strings@.subrange(n as int, n as int) =~= Seq::<(Seq<char>, Seq<char>)>::empty());
        acc
    }
}

} // verus!
