//! Site URL rules: scheme detection and joining a path to the site base URL
//! with exactly one separating slash.

use vstd::prelude::*;

verus! {

use vstd::string::StrSliceExecFns;
use vstd::string::StringExecFns;
use crate::text::spec_trim_end_char;
use crate::text::spec_trim_start_char;
use crate::text::trim_end_char;
use crate::text::trim_start_char;

/// True when the character is an ASCII letter.
pub open spec fn spec_is_alpha(c: char) -> bool {
    ('a' <= c && c <= 'z') || ('A' <= c && c <= 'Z')
}

/// A URL has a scheme prefix when a colon follows a non-empty run of ASCII
/// letters at its start.
pub open spec fn spec_has_protocol(url: Seq<char>) -> bool {
    exists|i: int|
        1 <= i < url.len() && url[i] == ':' && (forall|j: int|
            0 <= j < i ==> spec_is_alpha(#[trigger] url[j]))
}

/// Decides whether `url` starts with a scheme such as `https:`.
pub fn has_protocol(url: &str) -> (r: bool)
    ensures
        r == spec_has_protocol(url@),
{
    let n = url.unicode_len();
    let mut i: usize = 0;
    while i < n
        invariant
            n == url@.len(),
            i <= n,
            forall|j: int| 0 <= j < i ==> url@[j] != ':',
        decreases n - i,
    {
        let c = url.get_char(i);
        if c == ':' {
            if i == 0 {
                assert(!spec_has_protocol(url@)) by {
                    assert forall|k: int|
                        1 <= k < url@.len() && url@[k] == ':' implies !(forall|j: int|
                        0 <= j < k ==> spec_is_alpha(#[trigger] url@[j])) by {
                        assert(url@[0] == ':');
                        assert(!spec_is_alpha(':'));
                    }
                }
                return false;
            }
            // check that everything before the first colon is alphabetic
            let mut j: usize = 0;
            while j < i
                invariant
                    n == url@.len(),
                    1 <= i < n,
                    url@[i as int] == ':',
                    forall|k: int| 0 <= k < i ==> url@[k] != ':',
                    j <= i,
                    forall|k: int| 0 <= k < j ==> spec_is_alpha(#[trigger] url@[k]),
                decreases i - j,
            {
                let c2 = url.get_char(j);
                let alpha = ('a' <= c2 && c2 <= 'z') || ('A' <= c2 && c2 <= 'Z');
                if !alpha {
                    assert(!spec_has_protocol(url@)) by {
                        assert forall|k: int|
                            1 <= k < url@.len() && url@[k] == ':' implies !(forall|m: int|
                            0 <= m < k ==> spec_is_alpha(#[trigger] url@[m])) by {
                            assert(k >= i);
                            assert(!spec_is_alpha(url@[j as int]));
                        }
                    }
                    return false;
                }
                j += 1;
            }
            assert(spec_has_protocol(url@)) by {
                assert(1 <= i < url@.len() && url@[i as int] == ':' && (forall|m: int|
                    0 <= m < i ==> spec_is_alpha(#[trigger] url@[m])));
            }
            return true;
        }
        i += 1;
    }
    assert(!spec_has_protocol(url@));
    false
}

/// How a path is turned into a full site URL: a path that already carries a
/// scheme, or an in-page anchor, stays as it is; anything else is joined to
/// the base URL with exactly one `/` between them.
pub open spec fn spec_relative_url(base: Seq<char>, path: Seq<char>) -> Seq<char> {
    if spec_has_protocol(path) || (path.len() > 0 && path[0] == '#') {
        path
    } else {
        spec_trim_end_char(base, '/') + "/"@ + spec_trim_start_char(path, '/')
    }
}

/// Joins `path` to the site base URL `base`, as `spec_relative_url` says.
pub fn relative_url_parts(base: &str, path: &str) -> (r: String)
    ensures
        r@ == spec_relative_url(base@, path@),
{
    if has_protocol(path) {
        return String::from_str(path);
    }
    let n = path.unicode_len();
    if n > 0 && path.get_char(0) == '#' {
        return String::from_str(path);
    }
    let mut r = trim_end_char(base, '/');
    r.append("/");
    let tail = trim_start_char(path, '/');
    r.append(tail.as_str());
    r
}


/// Trimming a character off the end leaves none of it at the end.
pub proof fn lemma_trim_end_char_clean(s: Seq<char>, c: char)
    ensures
        ({
            let t = spec_trim_end_char(s, c);
            t.len() > 0 ==> t[t.len() - 1] != c
        }),
    decreases s.len(),
{
    if s.len() > 0 && s[s.len() - 1] == c {
        lemma_trim_end_char_clean(s.drop_last(), c);
    }
}

/// Trimming a character off the start leaves none of it at the start.
pub proof fn lemma_trim_start_char_clean(s: Seq<char>, c: char)
    ensures
        ({
            let t = spec_trim_start_char(s, c);
            t.len() > 0 ==> t[0] != c
        }),
    decreases s.len(),
{
    if s.len() > 0 && s[0] == c {
        lemma_trim_start_char_clean(s.drop_first(), c);
    }
}

/// A path with a scheme prefix, and an in-page anchor, pass through the URL
/// rule unchanged.
pub proof fn lemma_relative_url_unchanged(base: Seq<char>, path: Seq<char>)
    requires
        spec_has_protocol(path) || (path.len() > 0 && path[0] == '#'),
    ensures
        spec_relative_url(base, path) == path,
{
}

/// Any other path is joined to the base with exactly one slash between them:
/// the slash written by the rule stands between a base with no trailing
/// slash and a path with no leading one.
pub proof fn lemma_relative_url_one_slash(base: Seq<char>, path: Seq<char>)
    requires
        !spec_has_protocol(path),
        path.len() == 0 || path[0] != '#',
    ensures
        ({
            let b = spec_trim_end_char(base, '/');
            let p = spec_trim_start_char(path, '/');
            &&& spec_relative_url(base, path) == b + "/"@ + p
            &&& (b.len() > 0 ==> b[b.len() - 1] != '/')
            &&& (p.len() > 0 ==> p[0] != '/')
        }),
{
    lemma_trim_end_char_clean(base, '/');
    lemma_trim_start_char_clean(path, '/');
}

} // verus!

