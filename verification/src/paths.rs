//! Path arithmetic on plain strings: stems, extensions, variant-tagged file
//! names, and the rebuild trigger rule of the file watcher.

use vstd::prelude::*;

verus! {

use vstd::string::StrSliceExecFns;
use vstd::string::StringExecFns;
use crate::text::match_at;
use crate::text::is_match_at;
use crate::text::spec_trim_start_char;
use crate::text::trim_start_char;

/// Position of the last occurrence of `c` in `s`.
pub open spec fn spec_rfind(s: Seq<char>, c: char) -> Option<int>
    decreases s.len(),
{
    if s.len() == 0 {
        None
    } else if s[s.len() - 1] == c {
        Some(s.len() - 1)
    } else {
        spec_rfind(s.drop_last(), c)
    }
}

pub proof fn lemma_rfind_bounds(s: Seq<char>, c: char)
    ensures
        spec_rfind(s, c) matches Some(i) ==> 0 <= i < s.len() && s[i] == c,
    decreases s.len(),
{
    if s.len() > 0 && s[s.len() - 1] != c {
        lemma_rfind_bounds(s.drop_last(), c);
    }
}

/// Exec mirror of `spec_rfind`.
pub fn rfind_char(s: &str, c: char) -> (r: Option<usize>)
    ensures
        match r {
            Some(i) => spec_rfind(s@, c) == Some(i as int),
            None => spec_rfind(s@, c) is None,
        },
{
    let n = s.unicode_len();
    let mut i: usize = n;
    assert(s@.subrange(0, n as int) =~= s@);
    while i > 0
        invariant
            n == s@.len(),
            i <= n,
            spec_rfind(s@, c) == spec_rfind(s@.subrange(0, i as int), c),
        decreases i,
    {
        let ghost head = s@.subrange(0, i as int);
        assert(head[head.len() - 1] == s@[i - 1]);
        assert(head.drop_last() =~= s@.subrange(0, i - 1));
        if s.get_char(i - 1) == c {
            return Some(i - 1);
        }
        i -= 1;
    }
    None
}

/// The last path component of `p`.
pub open spec fn spec_file_name(p: Seq<char>) -> Seq<char> {
    match spec_rfind(p, '/') {
        None => p,
        Some(i) => p.subrange(i + 1, p.len() as int),
    }
}

/// The file stem of `p`'s last component: the part before its last dot. A
/// name whose only dot is its first character is its own stem.
pub open spec fn spec_file_stem(p: Seq<char>) -> Seq<char> {
    let name = spec_file_name(p);
    match spec_rfind(name, '.') {
        None => name,
        Some(i) => if i == 0 {
            name
        } else {
            name.subrange(0, i)
        },
    }
}

/// Exec mirror of `spec_file_stem`.
pub fn file_stem(p: &str) -> (r: String)
    ensures
        r@ == spec_file_stem(p@),
{
    let n = p.unicode_len();
    let name = match rfind_char(p, '/') {
        None => p,
        Some(i) => {
            proof {
                lemma_rfind_bounds(p@, '/');
            }
            p.substring_char(i + 1, n)
        },
    };
    assert(name@ == spec_file_name(p@));
    let m = name.unicode_len();
    match rfind_char(name, '.') {
        None => String::from_str(name),
        Some(i) => {
            proof {
                lemma_rfind_bounds(name@, '.');
            }
            if i == 0 {
                String::from_str(name)
            } else {
                String::from_str(name.substring_char(0, i))
            }
        },
    }
}

/// `p` with its last component's extension replaced by `html`; a component
/// without an extension gets `.html` appended.
pub open spec fn spec_with_html_ext(p: Seq<char>) -> Seq<char> {
    let name = spec_file_name(p);
    let cut = match spec_rfind(name, '.') {
        None => p,
        Some(i) => if i == 0 {
            p
        } else {
            p.subrange(0, p.len() - (name.len() - i))
        },
    };
    cut + ".html"@
}

/// Exec mirror of `spec_with_html_ext`.
pub fn with_html_ext(p: &str) -> (r: String)
    ensures
        r@ == spec_with_html_ext(p@),
{
    let n = p.unicode_len();
    let name = match rfind_char(p, '/') {
        None => p,
        Some(i) => {
            proof {
                lemma_rfind_bounds(p@, '/');
            }
            p.substring_char(i + 1, n)
        },
    };
    assert(name@ == spec_file_name(p@));
    let m = name.unicode_len();
    let mut out = match rfind_char(name, '.') {
        None => String::from_str(p),
        Some(i) => {
            proof {
                lemma_rfind_bounds(name@, '.');
            }
            if i == 0 {
                String::from_str(p)
            } else {
                String::from_str(p.substring_char(0, n - (m - i)))
            }
        },
    };
    out.append(".html");
    out
}

/// The file name `p` with the variant tag spliced in before the extension:
/// `dir/name.ext` becomes `dir/name.variant.ext`, and a name without an
/// extension gets the tag appended.
pub open spec fn spec_path_with_variant(p: Seq<char>, variant: Seq<char>) -> Seq<char> {
    let name = spec_file_name(p);
    match spec_rfind(name, '.') {
        None => p + "."@ + variant,
        Some(i) => if i == 0 {
            p + "."@ + variant
        } else {
            p.subrange(0, p.len() - (name.len() - i)) + "."@ + variant + name.subrange(
                i,
                name.len() as int,
            )
        },
    }
}

/// Exec mirror of `spec_path_with_variant`.
pub fn path_with_variant(p: &str, variant: &str) -> (r: String)
    ensures
        r@ == spec_path_with_variant(p@, variant@),
{
    let n = p.unicode_len();
    let name = match rfind_char(p, '/') {
        None => p,
        Some(i) => {
            proof {
                lemma_rfind_bounds(p@, '/');
            }
            p.substring_char(i + 1, n)
        },
    };
    assert(name@ == spec_file_name(p@));
    let m = name.unicode_len();
    match rfind_char(name, '.') {
        None => {
            let mut out = String::from_str(p);
            out.append(".");
            out.append(variant);
            out
        },
        Some(i) => {
            proof {
                lemma_rfind_bounds(name@, '.');
            }
            if i == 0 {
                let mut out = String::from_str(p);
                out.append(".");
                out.append(variant);
                out
            } else {
                let mut out = String::from_str(p.substring_char(0, n - (m - i)));
                out.append(".");
                out.append(variant);
                out.append(name.substring_char(i, m));
                out
            }
        },
    }
}

/// What remains of `full` when the directory prefix `base` is stripped: the
/// remainder without its leading slash when `base` leads `full` at a
/// component boundary, and `full` itself otherwise.
pub open spec fn spec_strip_prefix(full: Seq<char>, base: Seq<char>) -> Seq<char> {
    if match_at(full, base, 0) && (full.len() == base.len() || full[base.len() as int] == '/' || (
    base.len() > 0 && base[base.len() - 1] == '/')) {
        spec_trim_start_char(full.subrange(base.len() as int, full.len() as int), '/')
    } else {
        full
    }
}

/// The path of a page relative to the input root, used to place its output.
pub fn file_path_stem(base_path: &str, full_path: &str) -> (r: String)
    ensures
        r@ == spec_strip_prefix(full_path@, base_path@),
{
    let n = full_path.unicode_len();
    let bn = base_path.unicode_len();
    if is_match_at(full_path, base_path, 0) {
        let boundary = if n == bn {
            true
        } else if bn > 0 && base_path.get_char(bn - 1) == '/' {
            true
        } else {
            full_path.get_char(bn) == '/'
        };
        if boundary {
            let rest = full_path.substring_char(bn, n);
            return trim_start_char(rest, '/');
        }
    }
    String::from_str(full_path)
}

/// The file suffixes whose change triggers a rebuild.
pub open spec fn spec_rebuild_ext(e: Seq<char>) -> bool {
    e == "md"@ || e == "tpl"@ || e == "html"@ || e == "css"@ || e == "js"@ || e == "yml"@ || e
        == "yaml"@ || e == "json"@ || e == "csv"@
}

/// The extension of `p`'s last component, when it has one.
pub open spec fn spec_extension(p: Seq<char>) -> Option<Seq<char>> {
    let name = spec_file_name(p);
    match spec_rfind(name, '.') {
        None => None,
        Some(i) => if i == 0 {
            None
        } else {
            Some(name.subrange(i + 1, name.len() as int))
        },
    }
}

/// Exec mirror of `spec_extension`.
pub fn extension_of(p: &str) -> (r: Option<String>)
    ensures
        match r {
            Some(e) => spec_extension(p@) == Some(e@),
            None => spec_extension(p@) is None,
        },
{
    let n = p.unicode_len();
    let name = match rfind_char(p, '/') {
        None => p,
        Some(i) => {
            proof {
                lemma_rfind_bounds(p@, '/');
            }
            p.substring_char(i + 1, n)
        },
    };
    assert(name@ == spec_file_name(p@));
    let m = name.unicode_len();
    match rfind_char(name, '.') {
        None => None,
        Some(i) => {
            proof {
                lemma_rfind_bounds(name@, '.');
            }
            if i == 0 {
                None
            } else {
                Some(String::from_str(name.substring_char(i + 1, m)))
            }
        },
    }
}

/// A change to one of `paths` triggers a rebuild exactly when some path has
/// a watched suffix.
pub fn should_trigger_rebuild(paths: &Vec<String>) -> (r: bool)
    ensures
        r == exists|j: int|
            0 <= j < paths.deep_view().len() && (spec_extension(
                #[trigger] paths.deep_view()[j],
            ) matches Some(e) && spec_rebuild_ext(e)),
{
    let n = paths.len();
    let mut j: usize = 0;
    while j < n
        invariant
            n == paths@.len(),
            j <= n,
            forall|k: int|
                0 <= k < j ==> !(spec_extension(#[trigger] paths.deep_view()[k]) matches Some(e)
                    && spec_rebuild_ext(e)),
        decreases n - j,
    {
        assert(paths.deep_view()[j as int] == paths@[j as int]@);
        match extension_of(paths[j].as_str()) {
            Some(e) => {
                let hit = crate::strmap::str_eq(e.as_str(), "md") || crate::strmap::str_eq(
                    e.as_str(),
                    "tpl",
                ) || crate::strmap::str_eq(e.as_str(), "html") || crate::strmap::str_eq(
                    e.as_str(),
                    "css",
                ) || crate::strmap::str_eq(e.as_str(), "js") || crate::strmap::str_eq(
                    e.as_str(),
                    "yml",
                ) || crate::strmap::str_eq(e.as_str(), "yaml") || crate::strmap::str_eq(
                    e.as_str(),
                    "json",
                ) || crate::strmap::str_eq(e.as_str(), "csv");
                if hit {
                    assert(spec_extension(paths.deep_view()[j as int]) matches Some(x)
                        && spec_rebuild_ext(x));
                    return true;
                }
            },
            None => {},
        }
        j += 1;
    }
    false
}

} // verus!
