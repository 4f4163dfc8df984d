//! Front matter: splitting a source text into its metadata block and body.
//! A text that starts with `---` carries front matter up to the next `---`;
//! both parts are trimmed. Any other text has empty front matter.

use vstd::prelude::*;

verus! {

use vstd::string::StrSliceExecFns;
use vstd::string::StringExecFns;
use crate::text::find_from;
use crate::text::is_match_at;
use crate::text::lemma_find_bounds;
use crate::text::spec_find;
use crate::text::spec_trim;
use crate::text::trim;

/// The `(front matter, body)` split of a source text.
pub open spec fn spec_front_matter_split(content: Seq<char>) -> (Seq<char>, Seq<char>) {
    if content.len() >= 3 && content.subrange(0, 3) == "---"@ {
        let rest = content.subrange(3, content.len() as int);
        match spec_find(rest, "---"@, 0) {
            Some(i) => (
                spec_trim(rest.subrange(0, i)),
                spec_trim(rest.subrange(i + 3, rest.len() as int)),
            ),
            None => (Seq::empty(), content),
        }
    } else {
        (Seq::empty(), content)
    }
}

/// Splits a page or layout text into its front matter and its body.
pub fn parse_front_matter(content: &str) -> (r: (String, String))
    ensures
        r.0@ == spec_front_matter_split(content@).0,
        r.1@ == spec_front_matter_split(content@).1,
{
    proof {
        reveal_strlit("---");
    }
    let n = content.unicode_len();
    if n >= 3 && is_match_at(content, "---", 0) {
        let rest = content.substring_char(3, n);
        assert(rest@ == content@.subrange(3, content@.len() as int));
        match find_from(rest, "---", 0) {
            Some(i) => {
                proof {
                    lemma_find_bounds(rest@, "---"@, 0);
                }
                let rn = rest.unicode_len();
                let fm = trim(rest.substring_char(0, i));
                let body = trim(rest.substring_char(i + 3, rn));
                (fm, body)
            },
            None => {
                let r = (String::new(), String::from_str(content));
                assert(r.0@ =~= spec_front_matter_split(content@).0);
                r
            },
        }
    } else {
        let r = (String::new(), String::from_str(content));
        assert(r.0@ =~= spec_front_matter_split(content@).0);
        r
    }
}

} // verus!
