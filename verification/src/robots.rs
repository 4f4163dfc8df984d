//! robots.txt generation: the configured crawl rules written out, generated
//! pages optionally listed, and pages that no rule allows optionally
//! disallowed for every configured agent.

use vstd::prelude::*;

verus! {

use vstd::string::StrSliceExecFns;
use vstd::string::StringExecFns;
use crate::text::match_at;
use crate::text::spec_dec;
use crate::text::spec_str_lt;
use crate::text::u32_to_string;
use crate::text::is_match_at;
use crate::paths::spec_strip_prefix;
use crate::paths::file_path_stem;

/// Crawl rules for one or more user agents.
pub struct RobotsUserAgentRules {
    pub user_agents: Vec<String>,
    pub allow: Option<Vec<String>>,
    pub disallow: Option<Vec<String>>,
    pub crawl_delay: Option<u32>,
}

/// Crawl rules that apply to every agent.
pub struct RobotsGlobalRules {
    pub allow: Option<Vec<String>>,
    pub disallow: Option<Vec<String>>,
}

/// The robots.txt configuration.
pub struct RobotsConfig {
    pub crawl_delay: Option<u32>,
    pub sitemap: Option<String>,
    pub user_agents: Option<Vec<RobotsUserAgentRules>>,
    pub global_rules: Option<RobotsGlobalRules>,
    pub auto_disallow_non_included_html: Option<bool>,
    pub auto_include_generated_html: Option<bool>,
}

/// One line per item: `prefix`, the item, a line break.
pub open spec fn spec_lines(prefix: Seq<char>, items: Seq<Seq<char>>) -> Seq<char>
    decreases items.len(),
{
    if items.len() == 0 {
        Seq::empty()
    } else {
        prefix + items[0] + "\n"@ + spec_lines(prefix, items.drop_first())
    }
}

/// The lines of an optional item list; nothing when the list is absent.
pub open spec fn spec_opt_lines(prefix: Seq<char>, items: Option<Vec<String>>) -> Seq<char> {
    match items {
        Some(v) => spec_lines(prefix, v.deep_view()),
        None => Seq::empty(),
    }
}

/// The text of one agent-rules group.
pub open spec fn spec_agent_group(
    rule: RobotsUserAgentRules,
    auto_include: bool,
    html_files: Seq<Seq<char>>,
) -> Seq<char> {
    spec_lines("User-agent: "@, rule.user_agents.deep_view()) + (match rule.crawl_delay {
        Some(d) => "Crawl-delay: "@ + spec_dec(d as nat) + "\n"@,
        None => Seq::<char>::empty(),
    }) + spec_opt_lines("Allow: "@, rule.allow) + (if auto_include {
        "# Auto-included generated files\n"@ + spec_lines("Allow: "@, html_files) + "\n"@
    } else {
        Seq::<char>::empty()
    }) + spec_opt_lines("Disallow: "@, rule.disallow) + "\n"@
}

/// The text of all agent-rules groups, in order.
pub open spec fn spec_agent_groups(
    rules: Seq<RobotsUserAgentRules>,
    auto_include: bool,
    html_files: Seq<Seq<char>>,
) -> Seq<char>
    decreases rules.len(),
{
    if rules.len() == 0 {
        Seq::empty()
    } else {
        spec_agent_group(rules[0], auto_include, html_files) + spec_agent_groups(
            rules.drop_first(),
            auto_include,
            html_files,
        )
    }
}

/// Every allowed path of the configuration: the global ones, then each
/// agent group's, in order.
pub open spec fn spec_all_allowed(config: RobotsConfig) -> Seq<Seq<char>> {
    (match config.global_rules {
        Some(g) => match g.allow {
            Some(v) => v.deep_view(),
            None => Seq::<Seq<char>>::empty(),
        },
        None => Seq::<Seq<char>>::empty(),
    }) + (match config.user_agents {
        Some(rules) => spec_agent_allows(rules@),
        None => Seq::<Seq<char>>::empty(),
    })
}

pub open spec fn spec_agent_allows(rules: Seq<RobotsUserAgentRules>) -> Seq<Seq<char>>
    decreases rules.len(),
{
    if rules.len() == 0 {
        Seq::empty()
    } else {
        (match rules[0].allow {
            Some(v) => v.deep_view(),
            None => Seq::<Seq<char>>::empty(),
        }) + spec_agent_allows(rules.drop_first())
    }
}

/// A sorted duplicate-free list with one more entry: an already-present
/// entry changes nothing, any other lands at its ordered position.
pub open spec fn spec_sorted_insert(s: Seq<Seq<char>>, x: Seq<char>) -> Seq<Seq<char>>
    decreases s.len(),
{
    if s.len() == 0 {
        seq![x]
    } else if x == s[0] {
        s
    } else if spec_str_lt(x, s[0]) {
        seq![x] + s
    } else {
        seq![s[0]] + spec_sorted_insert(s.drop_first(), x)
    }
}

/// Every name folded into a sorted duplicate-free list, front first.
pub open spec fn spec_sort_unique_from(acc: Seq<Seq<char>>, names: Seq<Seq<char>>) -> Seq<
    Seq<char>,
>
    decreases names.len(),
{
    if names.len() == 0 {
        acc
    } else {
        spec_sort_unique_from(spec_sorted_insert(acc, names[0]), names.drop_first())
    }
}

/// Every user agent named by the configuration, sorted, repeats dropped.
pub open spec fn spec_all_agents(config: RobotsConfig) -> Seq<Seq<char>> {
    match config.user_agents {
        Some(rules) => spec_sort_unique_from(Seq::empty(), spec_agent_names(rules@)),
        None => Seq::<Seq<char>>::empty(),
    }
}

pub open spec fn spec_agent_names(rules: Seq<RobotsUserAgentRules>) -> Seq<Seq<char>>
    decreases rules.len(),
{
    if rules.len() == 0 {
        Seq::empty()
    } else {
        rules[0].user_agents.deep_view() + spec_agent_names(rules.drop_first())
    }
}

/// Whether `full` lies under the directory `base`.
pub open spec fn spec_is_under(full: Seq<char>, base: Seq<char>) -> bool {
    match_at(full, base, 0) && (full.len() == base.len() || full[base.len() as int] == '/' || (
    base.len() > 0 && base[base.len() - 1] == '/'))
}

/// The web path of an output file: a slash and its path under the output
/// directory.
pub open spec fn spec_web_path(file: Seq<char>, output_dir: Seq<char>) -> Seq<char> {
    "/"@ + spec_strip_prefix(file, output_dir)
}

/// The web paths of the files under the output directory that no allowed
/// path covers.
pub open spec fn spec_disallowed(
    html_files: Seq<Seq<char>>,
    allowed: Seq<Seq<char>>,
    output_dir: Seq<char>,
) -> Seq<Seq<char>>
    decreases html_files.len(),
{
    if html_files.len() == 0 {
        Seq::empty()
    } else {
        let rest = spec_disallowed(html_files.drop_first(), allowed, output_dir);
        if spec_is_under(html_files[0], output_dir) && !(exists|a: int|
            0 <= a < allowed.len() && match_at(
                spec_web_path(html_files[0], output_dir),
                #[trigger] allowed[a],
                0,
            )) {
            seq![spec_web_path(html_files[0], output_dir)] + rest
        } else {
            rest
        }
    }
}

/// One `User-agent` block per agent, each disallowing every given path.
pub open spec fn spec_disallow_blocks(agents: Seq<Seq<char>>, dis: Seq<Seq<char>>) -> Seq<char>
    decreases agents.len(),
{
    if agents.len() == 0 {
        Seq::empty()
    } else {
        "User-agent: "@ + agents[0] + "\n"@ + spec_lines("Disallow: "@, dis) + "\n"@
            + spec_disallow_blocks(agents.drop_first(), dis)
    }
}

/// The whole robots.txt text for a configuration, a set of generated HTML
/// files and the output directory.
pub open spec fn spec_robots_txt(
    config: RobotsConfig,
    html_files: Seq<Seq<char>>,
    output_dir: Seq<char>,
) -> Seq<char> {
    let auto_include = match config.auto_include_generated_html {
        Some(b) => b,
        None => false,
    };
    let sitemap_part = match config.sitemap {
        Some(s) => "Sitemap: "@ + s@ + "\n\n"@,
        None => Seq::<char>::empty(),
    };
    let global_part = match config.global_rules {
        Some(g) => (match config.crawl_delay {
            Some(d) => "Crawl-delay: "@ + spec_dec(d as nat) + "\n"@,
            None => Seq::<char>::empty(),
        }) + spec_opt_lines("Allow: "@, g.allow) + spec_opt_lines("Disallow: "@, g.disallow)
            + "\n"@,
        None => Seq::<char>::empty(),
    };
    let agents_part = match config.user_agents {
        Some(rules) => spec_agent_groups(rules@, auto_include, html_files),
        None => Seq::<char>::empty(),
    };
    let auto_part = if (match config.auto_disallow_non_included_html {
        Some(b) => b,
        None => false,
    }) {
        let dis = spec_disallowed(html_files, spec_all_allowed(config), output_dir);
        if dis.len() > 0 {
            "# Auto-disallowed generated files\n"@ + spec_disallow_blocks(
                spec_all_agents(config),
                dis,
            )
        } else {
            Seq::<char>::empty()
        }
    } else {
        Seq::<char>::empty()
    };
    sitemap_part + global_part + agents_part + auto_part
}

/// Writes one line per item.
fn push_lines(out: &mut String, prefix: &str, items: &Vec<String>)
    ensures
        final(out)@ == old(out)@ + spec_lines(prefix@, items.deep_view()),
{
    let n = items.len();
    let mut i: usize = 0;
    assert(items.deep_view().subrange(0, n as int) =~= items.deep_view());
    while i < n
        invariant
            n == items@.len(),
            i <= n,
            out@ + spec_lines(prefix@, items.deep_view().subrange(i as int, n as int)) == old(
                out,
            )@ + spec_lines(prefix@, items.deep_view()),
        decreases n - i,
    {
        let ghost tail = items.deep_view().subrange(i as int, n as int);
        assert(tail[0] == items.deep_view()[i as int]);
        assert(tail.drop_first() =~= items.deep_view().subrange(i + 1, n as int));
        assert(items@[i as int]@ == items.deep_view()[i as int]);
        out.append(prefix);
        out.append(items[i].as_str());
        out.append("\n");
        i += 1;
    }
    assert(items.deep_view().subrange(n as int, n as int) =~= Seq::<Seq<char>>::empty());
}

/// Writes the lines of an optional list.
fn push_opt_lines(out: &mut String, prefix: &str, items: &Option<Vec<String>>)
    ensures
        final(out)@ == old(out)@ + (match items {
            Some(v) => spec_lines(prefix@, v.deep_view()),
            None => Seq::<char>::empty(),
        }),
{
    match items {
        Some(v) => push_lines(out, prefix, v),
        None => {},
    }
}

/// Every allowed path of the configuration, global rules first.
pub fn get_all_allowed_paths(config: &RobotsConfig) -> (r: Vec<String>)
    ensures
        r.deep_view() == spec_all_allowed(*config),
{
    let mut allowed: Vec<String> = Vec::new();
    if let Some(g) = &config.global_rules {
        if let Some(v) = &g.allow {
            append_all(&mut allowed, v);
        }
    }
    let ghost head = allowed.deep_view();
    if let Some(rules) = &config.user_agents {
        let n = rules.len();
        let mut i: usize = 0;
        assert(spec_agent_allows(rules@.subrange(0, 0)) =~= Seq::<Seq<char>>::empty());
        assert(allowed.deep_view() =~= head + spec_agent_allows(rules@.subrange(0, 0)));
        while i < n
            invariant
                n == rules@.len(),
                i <= n,
                allowed.deep_view() == head + spec_agent_allows(rules@.subrange(0, i as int)),
            decreases n - i,
        {
            if let Some(v) = &rules[i].allow {
                append_all(&mut allowed, v);
            }
            proof {
                lemma_agent_allows_snoc(rules@, i as int);
            }
            i += 1;
        }
        assert(rules@.subrange(0, n as int) =~= rules@);
    }
    allowed
}

/// Splitting the last rule off the allow list.
proof fn lemma_agent_allows_snoc(rules: Seq<RobotsUserAgentRules>, i: int)
    requires
        0 <= i < rules.len(),
    ensures
        spec_agent_allows(rules.subrange(0, i + 1)) == spec_agent_allows(rules.subrange(0, i)) + (
        match rules[i].allow {
            Some(v) => v.deep_view(),
            None => Seq::<Seq<char>>::empty(),
        }),
    decreases i,
{
    let a = rules.subrange(0, i + 1);
    let b = rules.subrange(0, i);
    if i == 0 {
        assert(a.drop_first() =~= Seq::<RobotsUserAgentRules>::empty());
        assert(b =~= Seq::<RobotsUserAgentRules>::empty());
        assert(spec_agent_allows(a) =~= spec_agent_allows(b) + (match rules[0].allow {
            Some(v) => v.deep_view(),
            None => Seq::<Seq<char>>::empty(),
        }));
    } else {
        lemma_agent_allows_snoc(rules.drop_first(), i - 1);
        assert(a.drop_first() =~= rules.drop_first().subrange(0, i));
        assert(b.drop_first() =~= rules.drop_first().subrange(0, i - 1));
        assert(a[0] == rules[0] && b[0] == rules[0]);
        assert(rules.drop_first()[i - 1] == rules[i]);
        assert(spec_agent_allows(a) == a[0].allow_view() + spec_agent_allows(a.drop_first()));
        assert(spec_agent_allows(b) == b[0].allow_view() + spec_agent_allows(b.drop_first()));
    }
}

impl RobotsUserAgentRules {
    /// The view of this rule's allow list.
    pub open spec fn allow_view(&self) -> Seq<Seq<char>> {
        match self.allow {
            Some(v) => v.deep_view(),
            None => Seq::<Seq<char>>::empty(),
        }
    }
}

/// Appends clones of all of `src` to `dst`.
fn append_all(dst: &mut Vec<String>, src: &Vec<String>)
    ensures
        final(dst).deep_view() == old(dst).deep_view() + src.deep_view(),
{
    let n = src.len();
    let mut i: usize = 0;
    while i < n
        invariant
            n == src@.len(),
            i <= n,
            dst.deep_view() =~= old(dst).deep_view() + src.deep_view().subrange(0, i as int),
        decreases n - i,
    {
        let x = src[i].clone();
        let ghost pre = *dst;
        dst.push(x);
        proof {
            crate::strmap::lemma_deep_view_push(pre, *dst, dst@.last());
            assert(dst.deep_view() =~= old(dst).deep_view() + src.deep_view().subrange(0, i + 1));
        }
        i += 1;
    }
    assert(src.deep_view().subrange(0, n as int) =~= src.deep_view());
}

/// Puts one name into a sorted duplicate-free list.
fn sorted_insert(v: &mut Vec<String>, x: String)
    ensures
        final(v).deep_view() == spec_sorted_insert(old(v).deep_view(), x@),
{
    let ghost gx = x@;
    let ghost dv = v.deep_view();
    let n = v.len();
    let mut i: usize = 0;
    assert(dv.subrange(0, n as int) =~= dv);
    while i < n
        invariant
            n == v@.len(),
            *v == *old(v),
            dv == v.deep_view(),
            x@ == gx,
            i <= n,
            spec_sorted_insert(dv, gx) == dv.subrange(0, i as int) + spec_sorted_insert(
                dv.subrange(i as int, n as int),
                gx,
            ),
        decreases n - i,
    {
        let ghost tail = dv.subrange(i as int, n as int);
        assert(tail[0] == dv[i as int]);
        assert(tail.drop_first() =~= dv.subrange(i + 1, n as int));
        assert(v@[i as int]@ == dv[i as int]);
        if crate::strmap::str_eq(v[i].as_str(), x.as_str()) {
            assert(spec_sorted_insert(tail, gx) == tail);
            assert(dv.subrange(0, i as int) + tail =~= dv);
            return ;
        }
        if crate::text::str_lt(x.as_str(), v[i].as_str()) {
            let ghost pre = *v;
            v.insert(i, x);
            proof {
                crate::strmap::lemma_deep_view_insert(pre, *v, i as int, v@[i as int]);
                assert(v@[i as int]@ == gx);
                assert(spec_sorted_insert(tail, gx) == seq![gx] + tail);
                assert(v.deep_view() =~= dv.subrange(0, i as int) + spec_sorted_insert(tail, gx));
            }
            return ;
        }
        assert(spec_sorted_insert(tail, gx) == seq![tail[0]] + spec_sorted_insert(
            tail.drop_first(),
            gx,
        ));
        assert(dv.subrange(0, i as int) + (seq![tail[0]] + spec_sorted_insert(
            tail.drop_first(),
            gx,
        )) =~= dv.subrange(0, i + 1) + spec_sorted_insert(tail.drop_first(), gx));
        i += 1;
    }
    let ghost pre = *v;
    v.push(x);
    proof {
        crate::strmap::lemma_deep_view_push(pre, *v, v@.last());
        assert(dv.subrange(n as int, n as int) =~= Seq::<Seq<char>>::empty());
        assert(spec_sorted_insert(Seq::<Seq<char>>::empty(), gx) =~= seq![gx]);
        assert(v.deep_view() =~= dv.subrange(0, n as int) + seq![gx]);
        assert(dv.subrange(0, n as int) =~= dv);
    }
}

/// Every user agent the configuration names, sorted, repeats dropped, as
/// the crawl rules list them.
pub fn get_all_user_agents(config: &RobotsConfig) -> (r: Vec<String>)
    ensures
        r.deep_view() == spec_all_agents(*config),
{
    let mut agents: Vec<String> = Vec::new();
    match &config.user_agents {
        None => {
            assert(agents.deep_view() =~= spec_all_agents(*config));
            agents
        },
        Some(rules) => {
            // gather every mention, then fold into a sorted list
            let mut names: Vec<String> = Vec::new();
            let n = rules.len();
            let mut i: usize = 0;
            assert(names.deep_view() =~= spec_agent_names(rules@.subrange(0, 0)));
            while i < n
                invariant
                    n == rules@.len(),
                    i <= n,
                    names.deep_view() == spec_agent_names(rules@.subrange(0, i as int)),
                decreases n - i,
            {
                append_all(&mut names, &rules[i].user_agents);
                proof {
                    lemma_agent_names_snoc(rules@, i as int);
                }
                i += 1;
            }
            assert(rules@.subrange(0, n as int) =~= rules@);
            let ghost all = names.deep_view();
            let m = names.len();
            let mut k: usize = 0;
            assert(agents.deep_view() =~= spec_sort_unique_from(
                Seq::empty(),
                all.subrange(0, 0),
            ));
            while k < m
                invariant
                    m == names@.len(),
                    all == names.deep_view(),
                    k <= m,
                    agents.deep_view() == spec_sort_unique_from(
                        Seq::empty(),
                        all.subrange(0, k as int),
                    ),
                decreases m - k,
            {
                assert(names@[k as int]@ == all[k as int]);
                sorted_insert(&mut agents, names[k].clone());
                proof {
                    lemma_sort_unique_snoc(Seq::empty(), all, k as int);
                }
                k += 1;
            }
            assert(all.subrange(0, m as int) =~= all);
            agents
        },
    }
}

/// Splitting the last name off the sorted fold.
proof fn lemma_sort_unique_snoc(acc: Seq<Seq<char>>, names: Seq<Seq<char>>, i: int)
    requires
        0 <= i < names.len(),
    ensures
        spec_sort_unique_from(acc, names.subrange(0, i + 1)) == spec_sorted_insert(
            spec_sort_unique_from(acc, names.subrange(0, i)),
            names[i],
        ),
    decreases i,
{
    let a = names.subrange(0, i + 1);
    let b = names.subrange(0, i);
    if i == 0 {
        assert(a.drop_first() =~= Seq::<Seq<char>>::empty());
        assert(b =~= Seq::<Seq<char>>::empty());
        assert(spec_sort_unique_from(acc, a) == spec_sort_unique_from(
            spec_sorted_insert(acc, names[0]),
            a.drop_first(),
        ));
    } else {
        lemma_sort_unique_snoc(spec_sorted_insert(acc, names[0]), names.drop_first(), i - 1);
        assert(a.drop_first() =~= names.drop_first().subrange(0, i));
        assert(b.drop_first() =~= names.drop_first().subrange(0, i - 1));
        assert(a[0] == names[0] && b[0] == names[0]);
        assert(names.drop_first()[i - 1] == names[i]);
    }
}

/// Splitting the last rule off the name list.
proof fn lemma_agent_names_snoc(rules: Seq<RobotsUserAgentRules>, i: int)
    requires
        0 <= i < rules.len(),
    ensures
        spec_agent_names(rules.subrange(0, i + 1)) == spec_agent_names(rules.subrange(0, i))
            + rules[i].user_agents.deep_view(),
    decreases i,
{
    let a = rules.subrange(0, i + 1);
    let b = rules.subrange(0, i);
    if i == 0 {
        assert(a.drop_first() =~= Seq::<RobotsUserAgentRules>::empty());
        assert(b =~= Seq::<RobotsUserAgentRules>::empty());
        assert(spec_agent_names(a) =~= spec_agent_names(b) + rules[0].user_agents.deep_view());
    } else {
        lemma_agent_names_snoc(rules.drop_first(), i - 1);
        assert(a.drop_first() =~= rules.drop_first().subrange(0, i));
        assert(b.drop_first() =~= rules.drop_first().subrange(0, i - 1));
        assert(a[0] == rules[0] && b[0] == rules[0]);
        assert(rules.drop_first()[i - 1] == rules[i]);
    }
}

/// The web paths of the generated files that no allowed path covers.
pub fn find_disallowed_html(
    html_files: &Vec<String>,
    allowed_paths: &Vec<String>,
    output_dir: &str,
) -> (r: Vec<String>)
    ensures
        r.deep_view() == spec_disallowed(html_files.deep_view(), allowed_paths.deep_view(), output_dir@),
{
    let n = html_files.len();
    let mut out: Vec<String> = Vec::new();
    let mut i: usize = n;
    assert(html_files.deep_view().subrange(n as int, n as int) =~= Seq::<Seq<char>>::empty());
    assert(out.deep_view() =~= spec_disallowed(
        html_files.deep_view().subrange(n as int, n as int),
        allowed_paths.deep_view(),
        output_dir@,
    ));
    while i > 0
        invariant
            n == html_files@.len(),
            i <= n,
            out.deep_view() == spec_disallowed(
                html_files.deep_view().subrange(i as int, n as int),
                allowed_paths.deep_view(),
                output_dir@,
            ),
        decreases i,
    {
        i -= 1;
        let ghost tail = html_files.deep_view().subrange(i as int, n as int);
        assert(tail[0] == html_files.deep_view()[i as int]);
        assert(tail.drop_first() =~= html_files.deep_view().subrange(i + 1, n as int));
        assert(html_files@[i as int]@ == html_files.deep_view()[i as int]);
        let f = &html_files[i];
        let fn_ = f.unicode_len();
        let bn = output_dir.unicode_len();
        let under = is_match_at(f.as_str(), output_dir, 0) && (fn_ == bn || (bn > 0
            && output_dir.get_char(bn - 1) == '/') || f.get_char(bn) == '/');
        assert(under == spec_is_under(f@, output_dir@));
        if under {
            let mut web = String::from_str("/");
            let stripped = file_path_stem(output_dir, f.as_str());
            web.append(stripped.as_str());
            assert(web@ == spec_web_path(f@, output_dir@));
            let m = allowed_paths.len();
            let mut a: usize = 0;
            let mut covered = false;
            while a < m
                invariant
                    m == allowed_paths@.len(),
                    a <= m,
                    covered ==> exists|x: int|
                        0 <= x < allowed_paths.deep_view().len() && match_at(
                            web@,
                            #[trigger] allowed_paths.deep_view()[x],
                            0,
                        ),
                    !covered ==> forall|x: int|
                        0 <= x < a ==> !match_at(web@, #[trigger] allowed_paths.deep_view()[x], 0),
                decreases m - a,
            {
                assert(allowed_paths@[a as int]@ == allowed_paths.deep_view()[a as int]);
                if is_match_at(web.as_str(), allowed_paths[a].as_str(), 0) {
                    covered = true;
                }
                a += 1;
            }
            if !covered {
                let ghost pre = out;
                let mut out2: Vec<String> = Vec::new();
                out2.push(web);
                append_all(&mut out2, &out);
                proof {
                    assert(out2.deep_view() =~= seq![spec_web_path(f@, output_dir@)]
                        + pre.deep_view());
                }
                out = out2;
            }
        }
        proof {
            assert(out.deep_view() =~= spec_disallowed(
                html_files.deep_view().subrange(i as int, n as int),
                allowed_paths.deep_view(),
                output_dir@,
            ));
        }
    }
    assert(html_files.deep_view().subrange(0, n as int) =~= html_files.deep_view());
    out
}


/// Writes one agent-rules group.
#[verifier::rlimit(100)]
fn push_agent_group(
    out: &mut String,
    rule: &RobotsUserAgentRules,
    auto_include: bool,
    html_files: &Vec<String>,
)
    ensures
        final(out)@ == old(out)@ + spec_agent_group(*rule, auto_include, html_files.deep_view()),
{
    push_lines(out, "User-agent: ", &rule.user_agents);
    match rule.crawl_delay {
        Some(d) => {
            out.append("Crawl-delay: ");
            let ds = u32_to_string(d);
            out.append(ds.as_str());
            out.append("\n");
        },
        None => {},
    }
    push_opt_lines(out, "Allow: ", &rule.allow);
    if auto_include {
        out.append("# Auto-included generated files\n");
        push_lines(out, "Allow: ", html_files);
        out.append("\n");
    }
    push_opt_lines(out, "Disallow: ", &rule.disallow);
    out.append("\n");
    assert(out@ =~= old(out)@ + spec_agent_group(*rule, auto_include, html_files.deep_view()));
}

/// The robots.txt text for a configuration: the sitemap line, the global
/// rules, each agent group (with the generated files allowed when so
/// configured), and the auto-disallow section.
#[verifier::rlimit(100)]
pub fn generate_robots_txt(
    config: &RobotsConfig,
    html_files: &Vec<String>,
    output_dir: &str,
) -> (r: String)
    ensures
        r@ == spec_robots_txt(*config, html_files.deep_view(), output_dir@),
{
    let auto_include = match config.auto_include_generated_html {
        Some(b) => b,
        None => false,
    };
    let ghost sm_part: Seq<char> = match &config.sitemap {
        Some(s) => "Sitemap: "@ + s@ + "\n\n"@,
        None => Seq::<char>::empty(),
    };
    let ghost gl_part: Seq<char> = match &config.global_rules {
        Some(g) => (match &config.crawl_delay {
            Some(d) => "Crawl-delay: "@ + spec_dec(*d as nat) + "\n"@,
            None => Seq::<char>::empty(),
        }) + spec_opt_lines("Allow: "@, g.allow) + spec_opt_lines("Disallow: "@, g.disallow)
            + "\n"@,
        None => Seq::<char>::empty(),
    };
    let ghost ag_part: Seq<char> = match &config.user_agents {
        Some(rules) => spec_agent_groups(rules@, auto_include, html_files.deep_view()),
        None => Seq::<char>::empty(),
    };
    let ghost dis_seq = spec_disallowed(
        html_files.deep_view(),
        spec_all_allowed(*config),
        output_dir@,
    );
    let ghost auto_part: Seq<char> = if (match config.auto_disallow_non_included_html {
        Some(b) => b,
        None => false,
    }) {
        if dis_seq.len() > 0 {
            "# Auto-disallowed generated files\n"@ + spec_disallow_blocks(
                spec_all_agents(*config),
                dis_seq,
            )
        } else {
            Seq::<char>::empty()
        }
    } else {
        Seq::<char>::empty()
    };
    assert(spec_robots_txt(*config, html_files.deep_view(), output_dir@) == sm_part + gl_part
        + ag_part + auto_part);
    let mut robots = String::new();
    match &config.sitemap {
        Some(s) => {
            robots.append("Sitemap: ");
            robots.append(s.as_str());
            robots.append("\n\n");
        },
        None => {},
    }
    assert(robots@ =~= sm_part);
    match &config.global_rules {
        Some(g) => {
            match config.crawl_delay {
                Some(d) => {
                    robots.append("Crawl-delay: ");
                    let ds = u32_to_string(d);
                    robots.append(ds.as_str());
                    robots.append("\n");
                },
                None => {},
            }
            push_opt_lines(&mut robots, "Allow: ", &g.allow);
            push_opt_lines(&mut robots, "Disallow: ", &g.disallow);
            robots.append("\n");
        },
        None => {},
    }
    assert(robots@ =~= sm_part + gl_part);
    let ghost before_agents = robots@;
    match &config.user_agents {
        Some(rules) => {
            let n = rules.len();
            let mut i: usize = 0;
            assert(spec_agent_groups(
                rules@.subrange(0, 0),
                auto_include,
                html_files.deep_view(),
            ) =~= Seq::<char>::empty());
            while i < n
                invariant
                    n == rules@.len(),
                    i <= n,
                    robots@ == before_agents + spec_agent_groups(
                        rules@.subrange(0, i as int),
                        auto_include,
                        html_files.deep_view(),
                    ),
                decreases n - i,
            {
                push_agent_group(&mut robots, &rules[i], auto_include, html_files);
                proof {
                    lemma_agent_groups_snoc(rules@, i as int, auto_include, html_files.deep_view());
                }
                i += 1;
            }
            assert(rules@.subrange(0, n as int) =~= rules@);
        },
        None => {},
    }
    assert(robots@ =~= sm_part + gl_part + ag_part);
    push_auto_disallow(&mut robots, config, html_files, output_dir);
    assert(robots@ =~= sm_part + gl_part + ag_part + auto_part);
    robots
}

/// Writes the auto-disallow section, when configured and non-empty.
#[verifier::rlimit(100)]
fn push_auto_disallow(
    out: &mut String,
    config: &RobotsConfig,
    html_files: &Vec<String>,
    output_dir: &str,
)
    ensures
        final(out)@ == old(out)@ + (if (match config.auto_disallow_non_included_html {
            Some(b) => b,
            None => false,
        }) {
            (if spec_disallowed(
                html_files.deep_view(),
                spec_all_allowed(*config),
                output_dir@,
            ).len() > 0 {
                "# Auto-disallowed generated files\n"@ + spec_disallow_blocks(
                    spec_all_agents(*config),
                    spec_disallowed(
                        html_files.deep_view(),
                        spec_all_allowed(*config),
                        output_dir@,
                    ),
                )
            } else {
                Seq::<char>::empty()
            })
        } else {
            Seq::<char>::empty()
        }),
{
    let auto_disallow = match config.auto_disallow_non_included_html {
        Some(b) => b,
        None => false,
    };
    if !auto_disallow {
        assert(final(out)@ =~= old(out)@ + Seq::<char>::empty());
        return ;
    }
    let allowed = get_all_allowed_paths(config);
    let disallowed = find_disallowed_html(html_files, &allowed, output_dir);
    if disallowed.len() == 0 {
        assert(final(out)@ =~= old(out)@ + Seq::<char>::empty());
        return ;
    }
    out.append("# Auto-disallowed generated files\n");
    let agents = get_all_user_agents(config);
    let ghost before_blocks = out@;
    let m = agents.len();
    let mut k: usize = 0;
    assert(spec_disallow_blocks(agents.deep_view().subrange(0, 0), disallowed.deep_view()) =~= Seq::<
        char,
    >::empty());
    while k < m
        invariant
            m == agents@.len(),
            k <= m,
            out@ == before_blocks + spec_disallow_blocks(
                agents.deep_view().subrange(0, k as int),
                disallowed.deep_view(),
            ),
        decreases m - k,
    {
        assert(agents@[k as int]@ == agents.deep_view()[k as int]);
        out.append("User-agent: ");
        out.append(agents[k].as_str());
        out.append("\n");
        push_lines(out, "Disallow: ", &disallowed);
        out.append("\n");
        proof {
            lemma_disallow_blocks_snoc(agents.deep_view(), k as int, disallowed.deep_view());
        }
        k += 1;
    }
    assert(agents.deep_view().subrange(0, m as int) =~= agents.deep_view());
}

/// Splitting the last rule off the agent groups.
proof fn lemma_agent_groups_snoc(
    rules: Seq<RobotsUserAgentRules>,
    i: int,
    auto_include: bool,
    html_files: Seq<Seq<char>>,
)
    requires
        0 <= i < rules.len(),
    ensures
        spec_agent_groups(rules.subrange(0, i + 1), auto_include, html_files) == spec_agent_groups(
            rules.subrange(0, i),
            auto_include,
            html_files,
        ) + spec_agent_group(rules[i], auto_include, html_files),
    decreases i,
{
    let a = rules.subrange(0, i + 1);
    let b = rules.subrange(0, i);
    if i == 0 {
        assert(a.drop_first() =~= Seq::<RobotsUserAgentRules>::empty());
        assert(b =~= Seq::<RobotsUserAgentRules>::empty());
        assert(spec_agent_groups(a, auto_include, html_files) =~= spec_agent_groups(
            b,
            auto_include,
            html_files,
        ) + spec_agent_group(rules[0], auto_include, html_files));
    } else {
        lemma_agent_groups_snoc(rules.drop_first(), i - 1, auto_include, html_files);
        assert(a.drop_first() =~= rules.drop_first().subrange(0, i));
        assert(b.drop_first() =~= rules.drop_first().subrange(0, i - 1));
        assert(a[0] == rules[0] && b[0] == rules[0]);
        assert(rules.drop_first()[i - 1] == rules[i]);
    }
}

/// Splitting the last agent off the disallow blocks.
proof fn lemma_disallow_blocks_snoc(agents: Seq<Seq<char>>, k: int, dis: Seq<Seq<char>>)
    requires
        0 <= k < agents.len(),
    ensures
        spec_disallow_blocks(agents.subrange(0, k + 1), dis) == spec_disallow_blocks(
            agents.subrange(0, k),
            dis,
        ) + ("User-agent: "@ + agents[k] + "\n"@ + spec_lines("Disallow: "@, dis) + "\n"@),
    decreases k,
{
    let a = agents.subrange(0, k + 1);
    let b = agents.subrange(0, k);
    if k == 0 {
        assert(a.drop_first() =~= Seq::<Seq<char>>::empty());
        assert(b =~= Seq::<Seq<char>>::empty());
        assert(spec_disallow_blocks(a, dis) =~= spec_disallow_blocks(b, dis) + ("User-agent: "@
            + agents[0] + "\n"@ + spec_lines("Disallow: "@, dis) + "\n"@));
    } else {
        lemma_disallow_blocks_snoc(agents.drop_first(), k - 1, dis);
        assert(a.drop_first() =~= agents.drop_first().subrange(0, k));
        assert(b.drop_first() =~= agents.drop_first().subrange(0, k - 1));
        assert(a[0] == agents[0] && b[0] == agents[0]);
        assert(agents.drop_first()[k - 1] == agents[k]);
    }
}

} // verus!
