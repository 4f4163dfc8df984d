//! The tree-walking evaluator. `spec_render` states what rendering a tree in
//! a context chain yields; it is exact for every construct whose value is a
//! function of the tree, the chain and the build state, and it abstains (with
//! `None`) only where a construct reaches back into the file set through the
//! page-listing function, whose output is stated by its own contracts.

use vstd::prelude::*;

verus! {

use vstd::string::StrSliceExecFns;
use vstd::string::StringExecFns;
use crate::context::FrameV;
use crate::context::TemplateContext;
use crate::context::lookup_records;
use crate::context::lookup_str;
use crate::global::GlobalContext;
use crate::node::TemplateNode;
use crate::node::Tpl;
use crate::registry::Builtin;
use crate::strmap::Entries;
use crate::strmap::RecordsV;
use crate::strmap::StrMap;
use crate::strmap::assoc_get;
use crate::strmap::assoc_put;
use crate::strmap::assoc_put_all;

use crate::subst::spec_subst_entries;
use crate::url::spec_relative_url;
use crate::wrappers::lower_of;
use crate::wrappers::upper_of;

/// The parts of the build state that a render call reads but never writes.
pub struct Env {
    pub site: Entries,
    pub now_date: Seq<char>,
    pub now_datetime: Seq<char>,
    pub now_pretty: Seq<char>,
    pub registry: Seq<(Seq<char>, Builtin)>,
}

/// The immutable view of a build state.
pub open spec fn env_of(gc: GlobalContext) -> Env {
    Env {
        site: gc.site_strings@,
        now_date: gc.now_date@,
        now_datetime: gc.now_datetime@,
        now_pretty: gc.now_pretty@,
        registry: gc.functions@,
    }
}

/// An empty scope frame.
pub open spec fn empty_frame() -> FrameV {
    (Seq::<(Seq<char>, Seq<char>)>::empty(), Seq::<(Seq<char>, RecordsV)>::empty())
}

/// Concatenation of a sequence of partial results: defined exactly when all
/// of them are.
pub open spec fn join_opts(rs: Seq<Option<Seq<char>>>) -> Option<Seq<char>>
    decreases rs.len(),
{
    if rs.len() == 0 {
        Some(Seq::empty())
    } else {
        match rs[0] {
            None => None,
            Some(h) => match join_opts(rs.drop_first()) {
                None => None,
                Some(t) => Some(h + t),
            },
        }
    }
}

/// The interpolation pass over a whole context chain: each frame's string
/// entries from the innermost frame outwards, then the site-wide constants.
pub open spec fn spec_apply_subst(s: Seq<char>, frames: Seq<FrameV>, site: Entries) -> Seq<char>
    decreases frames.len(),
{
    if frames.len() == 0 {
        spec_subst_entries(s, site)
    } else {
        spec_apply_subst(spec_subst_entries(s, frames.last().0), frames.drop_last(), site)
    }
}

/// The default list markup of `json_list`: one item per record, with its
/// `title` and `description` fields when it has them.
pub open spec fn spec_json_list_items(records: RecordsV) -> Seq<char>
    decreases records.len(),
{
    if records.len() == 0 {
        Seq::empty()
    } else {
        let rec = records[0];
        let title: Seq<char> = match assoc_get(rec, "title"@) {
            Some(t) => "<h3>"@ + t + "</h3>"@,
            None => Seq::empty(),
        };
        let desc: Seq<char> = match assoc_get(rec, "description"@) {
            Some(d) => "<p>"@ + d + "</p>"@,
            None => Seq::empty(),
        };
        "<li>"@ + title + desc + "</li>\n"@ + spec_json_list_items(records.drop_first())
    }
}

/// What each built-in yields, except the page-listing one, whose value comes
/// from the file set and is stated only by the exec contracts.
pub open spec fn spec_invoke(
    b: Builtin,
    args: Seq<Seq<char>>,
    block: Option<Seq<char>>,
    frames: Seq<FrameV>,
    env: Env,
) -> Option<Seq<char>> {
    match b {
        Builtin::Uppercase => Some(
            if args.len() == 0 {
                Seq::empty()
            } else {
                upper_of(args[0])
            },
        ),
        Builtin::Lowercase => Some(
            if args.len() == 0 {
                Seq::empty()
            } else {
                lower_of(args[0])
            },
        ),
        Builtin::Date => Some(env.now_date),
        Builtin::Datetime => Some(env.now_datetime),
        Builtin::DatetimePretty => Some(env.now_pretty),
        Builtin::DateHtml => Some(
            match lookup_str(frames, "date"@) {
                Some(d) => "<p><b>Date:</b> "@ + d + "</p>"@,
                None => Seq::empty(),
            },
        ),
        Builtin::TagsHtml => Some(
            match lookup_str(frames, "tags"@) {
                Some(t) => "<p><b>Tags:</b> "@ + t + "</p>"@,
                None => Seq::empty(),
            },
        ),
        Builtin::CategoriesHtml => Some(
            match lookup_str(frames, "categories"@) {
                Some(c) => "<p><b>Categories:</b> "@ + c + "</p>"@,
                None => Seq::empty(),
            },
        ),
        Builtin::RelativeUrl => Some(
            if args.len() == 0 {
                Seq::empty()
            } else {
                spec_relative_url(crate::global::spec_site_base(env.site), args[0])
            },
        ),
        Builtin::ImageHtml => Some(
            match lookup_str(frames, "image"@) {
                Some(u) => "<img src=\""@ + spec_relative_url(
                    crate::global::spec_site_base(env.site),
                    u,
                ) + "\" />"@,
                None => Seq::empty(),
            },
        ),
        Builtin::JsonList => {
            let key = if args.len() >= 1 {
                args[0]
            } else {
                "items"@
            };
            match lookup_records(frames, key) {
                None => Some(Seq::empty()),
                Some(records) => match block {
                    Some(b) => Some(b),
                    None => Some("<ul>\n"@ + spec_json_list_items(records) + "</ul>"@),
                },
            }
        },
        Builtin::ListMd => None,
    }
}

/// The partial results of a group's items, in order.
pub open spec fn group_results(items: Seq<Tpl>, frames: Seq<FrameV>, env: Env, fuel: nat) -> Seq<
    Option<Seq<char>>,
>
    decreases fuel, items, 1int,
{
    Seq::new(
        items.len(),
        |j: int|
            if 0 <= j < items.len() {
                spec_render(items[j], frames, env, fuel)
            } else {
                None
            },
    )
}

/// The partial results of an iteration body, one per record: the body in a
/// fresh scope seeded with the record's fields, with those fields then
/// substituted into the result.
pub open spec fn foreach_results(
    records: RecordsV,
    body: Tpl,
    frames: Seq<FrameV>,
    env: Env,
    fuel: nat,
) -> Seq<Option<Seq<char>>>
    decreases fuel, body, 1int,
{
    Seq::new(
        records.len(),
        |j: int|
            if 0 <= j < records.len() {
                match spec_render(
                    body,
                    frames.push(
                        (
                            assoc_put_all(Seq::<(Seq<char>, Seq<char>)>::empty(), records[j]),
                            Seq::<(Seq<char>, RecordsV)>::empty(),
                        ),
                    ),
                    env,
                    fuel,
                ) {
                    Some(s) => Some(spec_subst_entries(s, records[j])),
                    None => None,
                }
            } else {
                None
            },
    )
}

/// What rendering a tree yields. A `Wrap` renders its content in a fresh
/// scope, adds its front matter, interpolates through the whole chain, and
/// hands the result to its parent as `content`; an `If` renders the branch
/// that the chain picks; a `Foreach` renders its body once per record with
/// the record's fields in scope and substituted; a `Call` dispatches through
/// the registry and falls back to its own name; literals stand; a group
/// concatenates.
pub open spec fn spec_render(t: Tpl, frames: Seq<FrameV>, env: Env, fuel: nat) -> Option<Seq<char>>
    decreases fuel, t, 0int,
{
    match t {
        Tpl::Lit { text } => Some(text),
        Tpl::Group { items } => join_opts(group_results(items, frames, env, fuel)),
        Tpl::If { condition, true_branch, false_branch } => {
            if lookup_str(frames, condition) is Some {
                spec_render(*true_branch, frames, env, fuel)
            } else {
                match false_branch {
                    Some(f) => spec_render(*f, frames, env, fuel),
                    None => Some(Seq::empty()),
                }
            }
        },
        Tpl::Foreach { key, item_name, body } => {
            match lookup_records(frames, key) {
                None => Some(Seq::empty()),
                Some(records) => join_opts(foreach_results(records, *body, frames, env, fuel)),
            }
        },
        Tpl::Call { name, args, block } => {
            match assoc_get(env.registry, name) {
                None => Some(name),
                Some(b) => spec_invoke(b, args, block, frames, env),
            }
        },
        Tpl::Wrap { front_matter, content, parent } => {
            match spec_render(*content, frames.push(empty_frame()), env, fuel) {
                None => None,
                Some(out0) => {
                    let frames2 = frames.push(
                        (
                            assoc_put_all(
                                Seq::<(Seq<char>, Seq<char>)>::empty(),
                                front_matter,
                            ),
                            Seq::<(Seq<char>, RecordsV)>::empty(),
                        ),
                    );
                    let out1 = spec_subst_entries(out0, front_matter);
                    let out2 = spec_apply_subst(out1, frames2, env.site);
                    match parent {
                        None => Some(out2),
                        Some(p) => spec_render(
                            *p,
                            frames2.push(
                                (
                                    assoc_put(
                                        Seq::<(Seq<char>, Seq<char>)>::empty(),
                                        "content"@,
                                        out2,
                                    ),
                                    Seq::<(Seq<char>, RecordsV)>::empty(),
                                ),
                            ),
                            env,
                            fuel,
                        ),
                    }
                },
            }
        },
    }
}

/// Exec mirror of `spec_apply_subst`.
pub fn apply_substitutions(s: String, ctx: &TemplateContext, site: &StrMap) -> (r: String)
    ensures
        r@ == spec_apply_subst(s@, ctx@, site@),
{
    let ghost s0 = s@;
    let mut acc = s;
    let n = ctx.depth();
    let mut i: usize = n;
    assert(ctx@.subrange(0, n as int) =~= ctx@);
    while i > 0
        invariant
            n == ctx@.len(),
            i <= n,
            spec_apply_subst(acc@, ctx@.subrange(0, i as int), site@) == spec_apply_subst(
                s0,
                ctx@,
                site@,
            ),
        decreases i,
    {
        let ghost head = ctx@.subrange(0, i as int);
        assert(head.last() == ctx@[i - 1]);
        assert(head.drop_last() =~= ctx@.subrange(0, i - 1));
        let frame_strings = ctx.strings_at(i - 1);
        acc = TemplateNode::perform_substitutions_strings(acc, frame_strings);
        i -= 1;
    }
    assert(ctx@.subrange(0, 0) =~= Seq::<FrameV>::empty());
    TemplateNode::perform_substitutions_strings(acc, site)
}


/// A copy of an id list with the same view.
fn copy_ids(v: &Vec<usize>) -> (r: Vec<usize>)
    ensures
        r@ == v@,
{
    let n = v.len();
    let mut r: Vec<usize> = Vec::new();
    let mut i: usize = 0;
    while i < n
        invariant
            n == v@.len(),
            i <= n,
            r@ =~= v@.subrange(0, i as int),
        decreases n - i,
    {
        r.push(v[i]);
        assert(r@ =~= v@.subrange(0, i + 1));
        i += 1;
    }
    assert(r@ =~= v@);
    r
}

/// A copy of a string list with the same deep view.
fn copy_strings(v: &Vec<String>) -> (r: Vec<String>)
    ensures
        r.deep_view() == v.deep_view(),
{
    let n = v.len();
    let mut r: Vec<String> = Vec::new();
    let mut i: usize = 0;
    while i < n
        invariant
            n == v@.len(),
            i <= n,
            r.deep_view() =~= v.deep_view().subrange(0, i as int),
        decreases n - i,
    {
        let x = v[i].clone();
        let ghost pre = r;
        r.push(x);
        proof {
            crate::strmap::lemma_deep_view_push(pre, r, r@.last());
            assert(r.deep_view() =~= v.deep_view().subrange(0, i + 1));
        }
        i += 1;
    }
    assert(r.deep_view() =~= v.deep_view());
    r
}


/// Two nodes that denote the same tree: same variant, and every field equal
/// up to views.
pub open spec fn node_view_eq(a: TemplateNode, b: TemplateNode) -> bool {
    match (a, b) {
        (
            TemplateNode::Page {
                path: p1,
                front_matter: f1,
                content_node: c1,
                output_path: o1,
                parent: q1,
            },
            TemplateNode::Page {
                path: p2,
                front_matter: f2,
                content_node: c2,
                output_path: o2,
                parent: q2,
            },
        ) => p1@ == p2@ && f1@ == f2@ && c1 == c2 && o1@ == o2@ && q1 == q2,
        (
            TemplateNode::Layout { name: n1, front_matter: f1, content_node: c1, parent: q1 },
            TemplateNode::Layout { name: n2, front_matter: f2, content_node: c2, parent: q2 },
        ) => n1@ == n2@ && f1@ == f2@ && c1 == c2 && q1 == q2,
        (
            TemplateNode::IfBlock { condition: c1, true_branch: t1, false_branch: e1 },
            TemplateNode::IfBlock { condition: c2, true_branch: t2, false_branch: e2 },
        ) => c1@ == c2@ && t1 == t2 && e1 == e2,
        (
            TemplateNode::ForEachBlock { key: k1, item_name: i1, body: b1 },
            TemplateNode::ForEachBlock { key: k2, item_name: i2, body: b2 },
        ) => k1@ == k2@ && i1@ == i2@ && b1 == b2,
        (
            TemplateNode::Func { name: n1, args: a1, block_content: bl1 },
            TemplateNode::Func { name: n2, args: a2, block_content: bl2 },
        ) => n1@ == n2@ && a1.deep_view() == a2.deep_view() && bl1.deep_view() == bl2.deep_view(),
        (TemplateNode::StringContent(s1), TemplateNode::StringContent(s2)) => s1@ == s2@,
        (TemplateNode::Composite(v1), TemplateNode::Composite(v2)) => v1@ == v2@,
        _ => false,
    }
}

/// An owned copy of a node, denoting the same tree.
fn clone_node(n: &TemplateNode) -> (r: TemplateNode)
    ensures
        node_view_eq(*n, r),
{
    match n {
        TemplateNode::Page { path, front_matter, content_node, output_path, parent } => {
            TemplateNode::Page {
                path: path.clone(),
                front_matter: front_matter.duplicate(),
                content_node: *content_node,
                output_path: output_path.clone(),
                parent: *parent,
            }
        },
        TemplateNode::Layout { name, front_matter, content_node, parent } => {
            TemplateNode::Layout {
                name: name.clone(),
                front_matter: front_matter.duplicate(),
                content_node: *content_node,
                parent: *parent,
            }
        },
        TemplateNode::IfBlock { condition, true_branch, false_branch } => {
            TemplateNode::IfBlock {
                condition: condition.clone(),
                true_branch: *true_branch,
                false_branch: *false_branch,
            }
        },
        TemplateNode::ForEachBlock { key, item_name, body } => {
            TemplateNode::ForEachBlock {
                key: key.clone(),
                item_name: item_name.clone(),
                body: *body,
            }
        },
        TemplateNode::Func { name, args, block_content } => {
            TemplateNode::Func {
                name: name.clone(),
                args: copy_strings(args),
                block_content: match block_content {
                    Some(b) => Some(b.clone()),
                    None => None,
                },
            }
        },
        TemplateNode::StringContent(s) => TemplateNode::StringContent(s.clone()),
        TemplateNode::Composite(ids) => TemplateNode::Composite(copy_ids(ids)),
    }
}

impl GlobalContext {
    /// Evaluates one built-in whose value the spec states in full.
    fn invoke_simple(
        &self,
        b: Builtin,
        args: &Vec<String>,
        block: &Option<String>,
        ctx: &TemplateContext,
    ) -> (r: String)
        requires
            b != Builtin::ListMd,
        ensures
            spec_invoke(b, args.deep_view(), block.deep_view(), ctx@, env_of(*self)) == Some(r@),
    {
        proof {
            if args.len() > 0 {
                assert(args.deep_view()[0] == args@[0]@);
            }
        }
        match b {
            Builtin::Uppercase => {
                if args.len() == 0 {
                    String::new()
                } else {
                    crate::wrappers::to_upper(args[0].as_str())
                }
            },
            Builtin::Lowercase => {
                if args.len() == 0 {
                    String::new()
                } else {
                    crate::wrappers::to_lower(args[0].as_str())
                }
            },
            Builtin::Date => self.now_date.clone(),
            Builtin::Datetime => self.now_datetime.clone(),
            Builtin::DatetimePretty => self.now_pretty.clone(),
            Builtin::DateHtml => {
                match ctx.get_string("date") {
                    Some(d) => {
                        let mut out = String::from_str("<p><b>Date:</b> ");
                        out.append(d.as_str());
                        out.append("</p>");
                        out
                    },
                    None => String::new(),
                }
            },
            Builtin::TagsHtml => {
                match ctx.get_string("tags") {
                    Some(t) => {
                        let mut out = String::from_str("<p><b>Tags:</b> ");
                        out.append(t.as_str());
                        out.append("</p>");
                        out
                    },
                    None => String::new(),
                }
            },
            Builtin::CategoriesHtml => {
                match ctx.get_string("categories") {
                    Some(c) => {
                        let mut out = String::from_str("<p><b>Categories:</b> ");
                        out.append(c.as_str());
                        out.append("</p>");
                        out
                    },
                    None => String::new(),
                }
            },
            Builtin::RelativeUrl => {
                if args.len() == 0 {
                    String::new()
                } else {
                    self.relative_url(args[0].as_str())
                }
            },
            Builtin::ImageHtml => {
                match ctx.get_string("image") {
                    Some(u) => {
                        let url = self.relative_url(u.as_str());
                        let mut out = String::from_str("<img src=\"");
                        out.append(url.as_str());
                        out.append("\" />");
                        out
                    },
                    None => String::new(),
                }
            },
            Builtin::JsonList => {
                let records = if args.len() == 0 {
                    ctx.get_records("items")
                } else {
                    ctx.get_records(args[0].as_str())
                };
                match records {
                    None => String::new(),
                    Some(records) => {
                        match block {
                            Some(bt) => bt.clone(),
                            None => {
                                let ghost recs = records.deep_view();
                                let n = records.len();
                                let mut acc = String::from_str("<ul>\n");
                                let mut j: usize = 0;
                                assert(recs.subrange(0, n as int) =~= recs);
                                while j < n
                                    invariant
                                        n == records@.len(),
                                        n == recs.len(),
                                        recs == records.deep_view(),
                                        j <= n,
                                        acc@ + spec_json_list_items(
                                            recs.subrange(j as int, n as int),
                                        ) == "<ul>\n"@ + spec_json_list_items(recs),
                                    decreases n - j,
                                {
                                    let ghost tail = recs.subrange(j as int, n as int);
                                    assert(tail[0] == recs[j as int]);
                                    assert(tail.drop_first() =~= recs.subrange(j + 1, n as int));
                                    assert(records@[j as int]@ == recs[j as int]);
                                    acc.append("<li>");
                                    match records[j].get("title") {
                                        Some(t) => {
                                            acc.append("<h3>");
                                            acc.append(t.as_str());
                                            acc.append("</h3>");
                                        },
                                        None => {},
                                    }
                                    match records[j].get("description") {
                                        Some(d) => {
                                            acc.append("<p>");
                                            acc.append(d.as_str());
                                            acc.append("</p>");
                                        },
                                        None => {},
                                    }
                                    acc.append("</li>\n");
                                    j += 1;
                                }
                                assert(recs.subrange(n as int, n as int) =~= Seq::<Entries>::empty());
                                acc.append("</ul>");
                                acc
                            },
                        }
                    },
                }
            },
            Builtin::ListMd => String::new(),
        }
    }
}


/// `join_opts` one step at a time: a defined join splits into its head and
/// the join of its tail.
pub proof fn lemma_join_step(rs: Seq<Option<Seq<char>>>)
    requires
        rs.len() > 0,
        join_opts(rs) is Some,
    ensures
        rs[0] is Some,
        join_opts(rs.drop_first()) is Some,
        join_opts(rs) == Some(rs[0]->0 + join_opts(rs.drop_first())->0),
{
}

impl GlobalContext {
    /// Renders the tree at arena position `idx` in the given context chain.
    /// The result is `spec_render` of that tree wherever `spec_render` is
    /// defined; rendering never changes the context chain it was handed, nor
    /// any part of the build state other than the arena, the layout cache
    /// and the parse counter, which only grow. `fuel` bounds how deep the
    /// page-listing function may chain fresh page builds.
    pub fn render(&mut self, idx: usize, ctx: &mut TemplateContext, fuel: u64) -> (r: String)
        requires
            old(self).wf(),
        ensures
            final(self).wf(),
            final(self).same_build(old(self)),
            crate::node::arena_extended(old(self).nodes@, final(self).nodes@),
            forall|k: Seq<char>|
                #[trigger] assoc_get(old(self).layout_cache@, k) is Some ==> assoc_get(
                    final(self).layout_cache@,
                    k,
                ) == assoc_get(old(self).layout_cache@, k),
            final(ctx)@ == old(ctx)@,
            spec_render(
                crate::node::tree_of(old(self).nodes@, idx as int),
                old(ctx)@,
                env_of(*old(self)),
                fuel as nat,
            ) matches Some(s) ==> r@ == s,
        decreases fuel, idx,
    {
        let ghost n0 = self.nodes@;
        let ghost ctx0 = ctx@;
        let ghost env0 = env_of(*old(self));
        let ghost t = crate::node::tree_of(n0, idx as int);
        let n = self.nodes.len();
        if idx >= n {
            assert(t == crate::node::tpl_empty());
            let r = String::new();
            assert(r@ =~= Seq::<char>::empty());
            return r;
        }
        assert(crate::node::node_children_lt(n0[idx as int], idx as int));
        let node = clone_node(&self.nodes[idx]);
        match node {
            TemplateNode::StringContent(s) => {
                assert(t == (Tpl::Lit { text: s@ }));
                s
            },
            TemplateNode::Composite(ids) => {
                let ghost items = crate::node::trees_of(n0, ids@, idx as int);
                assert(t == (Tpl::Group { items }));
                proof {
                    assert(forall|j: int|
                        0 <= j < ids@.len() ==> 0 <= (#[trigger] ids@[j] as int) < idx as int);
                    crate::node::lemma_trees_of_map(n0, ids@, idx as int);
                }
                let ghost rs = group_results(items, ctx0, env0, fuel as nat);
                assert(spec_render(t, ctx0, env0, fuel as nat) == join_opts(rs));
                let m = ids.len();
                let mut acc = String::new();
                let mut k: usize = 0;
                assert(rs.subrange(0, m as int) =~= rs);
                while k < m
                    invariant
                        self.wf(),
                        self.same_build(old(self)),
                        crate::node::arena_extended(n0, self.nodes@),
                        forall|kk: Seq<char>|
                            #[trigger] assoc_get(old(self).layout_cache@, kk) is Some ==>
                                assoc_get(self.layout_cache@, kk) == assoc_get(
                                old(self).layout_cache@,
                                kk,
                            ),
                        ctx@ == ctx0,
                        n0 == old(self).nodes@,
                        env0 == env_of(*old(self)),
                        m == ids@.len(),
                        k <= m,
                        rs.len() == m,
                        items == crate::node::trees_of(n0, ids@, idx as int),
                        idx < n0.len(),
                        crate::node::wf_arena(n0),
                        crate::node::node_children_lt(n0[idx as int], idx as int),
                        forall|j: int|
                            0 <= j < m ==> (#[trigger] ids@[j] as int) < idx,
                        items =~= Seq::new(
                            ids@.len(),
                            |j: int| crate::node::tree_of(n0, ids@[j] as int),
                        ),
                        rs == group_results(items, ctx0, env0, fuel as nat),
                        join_opts(rs) matches Some(s) ==> join_opts(
                            rs.subrange(k as int, m as int),
                        ) matches Some(tl) && s == acc@ + tl,
                    decreases m - k,
                {
                    let child = ids[k];
                    proof {
                        crate::node::lemma_tree_of_extend(n0, self.nodes@, child as int);
                    }
                    let out = self.render(child, ctx, fuel);
                    proof {
                        assert(env_of(*self) == env0);
                        if join_opts(rs) is Some {
                            let tail = rs.subrange(k as int, m as int);
                            lemma_join_step(tail);
                            assert(tail[0] == rs[k as int]);
                            assert(rs[k as int] == spec_render(
                                items[k as int],
                                ctx0,
                                env0,
                                fuel as nat,
                            ));
                            assert(items[k as int] == crate::node::tree_of(n0, child as int));
                            assert(tail.drop_first() =~= rs.subrange(k + 1, m as int));
                        }
                    }
                    acc.append(out.as_str());
                    k += 1;
                }
                proof {
                    if join_opts(rs) is Some {
                        assert(rs.subrange(m as int, m as int) =~= Seq::<
                            Option<Seq<char>>,
                        >::empty());
                    }
                }
                acc
            },
            TemplateNode::IfBlock { condition, true_branch, false_branch } => {
                assert(t == (Tpl::If {
                    condition: condition@,
                    true_branch: Box::new(crate::node::tree_of(n0, true_branch as int)),
                    false_branch: match false_branch {
                        Some(f) => Some(Box::new(crate::node::tree_of(n0, f as int))),
                        None => None,
                    },
                }));
                if ctx.get_string(condition.as_str()).is_some() {
                    self.render(true_branch, ctx, fuel)
                } else {
                    match false_branch {
                        Some(f) => self.render(f, ctx, fuel),
                        None => {
                            let r = String::new();
                            assert(r@ =~= Seq::<char>::empty());
                            r
                        },
                    }
                }
            },
            TemplateNode::ForEachBlock { key, item_name, body } => {
                assert(t == (Tpl::Foreach {
                    key: key@,
                    item_name: item_name@,
                    body: Box::new(crate::node::tree_of(n0, body as int)),
                }));
                let records = match ctx.get_records(key.as_str()) {
                    None => {
                        let r = String::new();
                        assert(r@ =~= Seq::<char>::empty());
                        return r;
                    },
                    Some(records) => records,
                };
                let ghost recs = records.deep_view();
                let ghost btree = crate::node::tree_of(n0, body as int);
                let ghost rs = foreach_results(recs, btree, ctx0, env0, fuel as nat);
                assert(spec_render(t, ctx0, env0, fuel as nat) == join_opts(rs));
                let m = records.len();
                let mut acc = String::new();
                let mut k: usize = 0;
                assert(rs.subrange(0, m as int) =~= rs);
                while k < m
                    invariant
                        self.wf(),
                        self.same_build(old(self)),
                        crate::node::arena_extended(n0, self.nodes@),
                        forall|kk: Seq<char>|
                            #[trigger] assoc_get(old(self).layout_cache@, kk) is Some ==>
                                assoc_get(self.layout_cache@, kk) == assoc_get(
                                old(self).layout_cache@,
                                kk,
                            ),
                        ctx@ == ctx0,
                        n0 == old(self).nodes@,
                        env0 == env_of(*old(self)),
                        m == records@.len(),
                        m == recs.len(),
                        recs == records.deep_view(),
                        k <= m,
                        rs.len() == m,
                        btree == crate::node::tree_of(n0, body as int),
                        (body as int) < idx,
                        idx < n0.len(),
                        crate::node::wf_arena(n0),
                        rs == foreach_results(recs, btree, ctx0, env0, fuel as nat),
                        join_opts(rs) matches Some(s) ==> join_opts(
                            rs.subrange(k as int, m as int),
                        ) matches Some(tl) && s == acc@ + tl,
                    decreases m - k,
                {
                    let rec = &records[k];
                    assert(rec@ == recs[k as int]);
                    ctx.push_frame();
                    ctx.add_front_matter(rec);
                    let ghost frames1 = ctx0.push(
                        (
                            assoc_put_all(Seq::<(Seq<char>, Seq<char>)>::empty(), recs[k as int]),
                            Seq::<(Seq<char>, RecordsV)>::empty(),
                        ),
                    );
                    assert(ctx@ =~= frames1);
                    proof {
                        crate::node::lemma_tree_of_extend(n0, self.nodes@, body as int);
                    }
                    let out = self.render(body, ctx, fuel);
                    let out2 = TemplateNode::perform_substitutions_strings(out, rec);
                    ctx.pop_frame();
                    assert(ctx@ =~= ctx0);
                    proof {
                        assert(env_of(*self) == env0);
                        if join_opts(rs) is Some {
                            let tail = rs.subrange(k as int, m as int);
                            lemma_join_step(tail);
                            assert(tail[0] == rs[k as int]);
                            assert(tail.drop_first() =~= rs.subrange(k + 1, m as int));
                        }
                    }
                    acc.append(out2.as_str());
                    k += 1;
                }
                proof {
                    if join_opts(rs) is Some {
                        assert(rs.subrange(m as int, m as int) =~= Seq::<
                            Option<Seq<char>>,
                        >::empty());
                    }
                }
                acc
            },
            TemplateNode::Func { name, args, block_content } => {
                assert(t == (Tpl::Call {
                    name: name@,
                    args: args.deep_view(),
                    block: block_content.deep_view(),
                }));
                match self.functions.lookup(name.as_str()) {
                    None => name,
                    Some(b) => {
                        if let Builtin::ListMd = b {
                            self.run_list_md(&args, ctx, fuel)
                        } else {
                            self.invoke_simple(b, &args, &block_content, ctx)
                        }
                    },
                }
            },
            TemplateNode::Page { path, front_matter, content_node, output_path, parent } => {
                self.render_wrap(idx, front_matter, content_node, parent, ctx, fuel)
            },
            TemplateNode::Layout { name, front_matter, content_node, parent } => {
                self.render_wrap(idx, front_matter, content_node, parent, ctx, fuel)
            },
        }
    }

    /// Renders a page or layout node: content in a fresh scope, front-matter
    /// interpolation, the chain-wide interpolation pass, and the hand-off of
    /// the result to the parent layout as `content`.
    fn render_wrap(
        &mut self,
        idx: usize,
        front_matter: StrMap,
        content_node: usize,
        parent: Option<usize>,
        ctx: &mut TemplateContext,
        fuel: u64,
    ) -> (r: String)
        requires
            old(self).wf(),
            (idx as int) < old(self).nodes@.len(),
            crate::node::tree_of(old(self).nodes@, idx as int) == (Tpl::Wrap {
                front_matter: front_matter@,
                content: Box::new(crate::node::tree_of(old(self).nodes@, content_node as int)),
                parent: match parent {
                    Some(p) => Some(
                        Box::new(crate::node::tree_of(old(self).nodes@, p as int)),
                    ),
                    None => None,
                },
            }),
            (content_node as int) < idx,
            parent matches Some(p) ==> (p as int) < idx,
        ensures
            final(self).wf(),
            final(self).same_build(old(self)),
            crate::node::arena_extended(old(self).nodes@, final(self).nodes@),
            forall|k: Seq<char>|
                #[trigger] assoc_get(old(self).layout_cache@, k) is Some ==> assoc_get(
                    final(self).layout_cache@,
                    k,
                ) == assoc_get(old(self).layout_cache@, k),
            final(ctx)@ == old(ctx)@,
            spec_render(
                crate::node::tree_of(old(self).nodes@, idx as int),
                old(ctx)@,
                env_of(*old(self)),
                fuel as nat,
            ) matches Some(s) ==> r@ == s,
        decreases fuel, idx, 0int,
    {
        let ghost n0 = self.nodes@;
        let ghost ctx0 = ctx@;
        let ghost env0 = env_of(*old(self));
        let ghost t = crate::node::tree_of(n0, idx as int);
        ctx.push_frame();
        assert(ctx@ =~= ctx0.push(empty_frame()));
        let out0 = self.render(content_node, ctx, fuel);
        ctx.add_front_matter(&front_matter);
        let ghost frames2 = ctx0.push(
            (
                assoc_put_all(Seq::<(Seq<char>, Seq<char>)>::empty(), front_matter@),
                Seq::<(Seq<char>, RecordsV)>::empty(),
            ),
        );
        assert(ctx@ =~= frames2);
        let out1 = TemplateNode::perform_substitutions_strings(out0, &front_matter);
        let out2 = apply_substitutions(out1, ctx, &self.site_strings);
        assert(self.site_strings@ == env0.site);
        match parent {
            None => {
                ctx.pop_frame();
                assert(ctx@ =~= ctx0);
                out2
            },
            Some(pid) => {
                let ghost gout2 = out2@;
                ctx.push_frame();
                ctx.set_string(String::from_str("content"), out2);
                let ghost frames3 = frames2.push(
                    (
                        assoc_put(Seq::<(Seq<char>, Seq<char>)>::empty(), "content"@, gout2),
                        Seq::<(Seq<char>, RecordsV)>::empty(),
                    ),
                );
                assert(ctx@ =~= frames3) by {
                    assert(frames2.push(empty_frame()).last() == empty_frame());
                    assert(frames2.push(empty_frame()).update(
                        frames2.len() as int,
                        (
                            assoc_put(
                                Seq::<(Seq<char>, Seq<char>)>::empty(),
                                "content"@,
                                gout2,
                            ),
                            Seq::<(Seq<char>, RecordsV)>::empty(),
                        ),
                    ) =~= frames3);
                }
                proof {
                    crate::node::lemma_tree_of_extend(n0, self.nodes@, pid as int);
                    assert(env_of(*self) == env0);
                }
                let r = self.render(pid, ctx, fuel);
                ctx.pop_frame();
                ctx.pop_frame();
                assert(ctx@ =~= ctx0);
                r
            },
        }
    }

    /// The page-listing function: every file directly under the given
    /// directory (one level, no subdirectories) is built as a page and
    /// rendered in the current context, in the file set's order; a page that
    /// fails to build contributes its error text. `fuel` bounds the chaining
    /// of further listings.
    fn run_list_md(&mut self, args: &Vec<String>, ctx: &mut TemplateContext, fuel: u64) -> (r:
        String)
        requires
            old(self).wf(),
        ensures
            final(self).wf(),
            final(self).same_build(old(self)),
            crate::node::arena_extended(old(self).nodes@, final(self).nodes@),
            forall|k: Seq<char>|
                #[trigger] assoc_get(old(self).layout_cache@, k) is Some ==> assoc_get(
                    final(self).layout_cache@,
                    k,
                ) == assoc_get(old(self).layout_cache@, k),
            final(ctx)@ == old(ctx)@,
            (fuel == 0 || args@.len() == 0) ==> r@ == Seq::<char>::empty(),
            (fuel >= 1 && args@.len() >= 1) ==> exists|
                pids: Seq<Option<usize>>,
                pieces: Seq<Seq<char>>,
            |
                #![trigger pids.len(), pieces.len()]
                {
                    let listed = spec_listed_paths(
                        old(self).files@,
                        args.deep_view()[0] + "/"@,
                    );
                    &&& pids.len() == listed.len()
                    &&& pieces.len() == listed.len()
                    &&& r@ == crate::laws::spec_concat_all(pieces)
                    &&& forall|j: int|
                        0 <= j < listed.len() ==> (match #[trigger] pids[j] {
                            Some(pid) => (pid as int) < final(self).nodes@.len()
                                && (match final(self).nodes@[pid as int] {
                                TemplateNode::Page { path: p2, .. } => p2@ == listed[j],
                                _ => false,
                            }) && (spec_render(
                                crate::node::tree_of(final(self).nodes@, pid as int),
                                old(ctx)@,
                                env_of(*old(self)),
                                (fuel - 1) as nat,
                            ) matches Some(piece) ==> pieces[j] == piece),
                            None => true,
                        })
                },
        decreases fuel, 0int, 0int,
    {
        if fuel == 0 || args.len() == 0 {
            return String::new();
        }
        let mut prefix = args[0].clone();
        prefix.append("/");
        assert(prefix@ == args.deep_view()[0] + "/"@);
        let ghost gfiles = self.files@;
        let ghost gprefix = prefix@;
        let ghost listed = spec_listed_paths(gfiles, gprefix);
        // collect the matching paths first; building pages leaves the file
        // set untouched
        let mut paths: Vec<String> = Vec::new();
        let m = self.files.len();
        let mut i: usize = 0;
        assert(paths.deep_view() =~= spec_listed_paths(gfiles.subrange(0, 0), gprefix));
        while i < m
            invariant
                m == self.files@.len(),
                i <= m,
                *self == *old(self),
                gfiles == self.files@,
                gprefix == prefix@,
                paths.deep_view() == spec_listed_paths(gfiles.subrange(0, i as int), gprefix),
            decreases m - i,
        {
            let (k, _v) = self.files.entry_at(i);
            let plen = prefix.unicode_len();
            let ghost pre_paths = paths;
            if crate::text::is_match_at(k.as_str(), prefix.as_str(), 0) && crate::text::find_from(
                k.as_str(),
                "/",
                plen,
            ).is_none() {
                paths.push(k);
                proof {
                    crate::strmap::lemma_deep_view_push(pre_paths, paths, paths@.last());
                }
            }
            proof {
                lemma_listed_snoc(gfiles, gprefix, i as int);
                assert(paths.deep_view() =~= spec_listed_paths(
                    gfiles.subrange(0, i + 1),
                    gprefix,
                ));
            }
            i += 1;
        }
        assert(gfiles.subrange(0, m as int) =~= gfiles);
        assert(paths.deep_view() == listed);
        let mut acc = String::new();
        let np = paths.len();
        let mut j: usize = 0;
        let ghost mut gpids: Seq<Option<usize>> = Seq::empty();
        let ghost mut gpieces: Seq<Seq<char>> = Seq::empty();
        assert(acc@ =~= crate::laws::spec_concat_all(gpieces));
        while j < np
            invariant
                np == paths@.len(),
                paths.deep_view() == listed,
                np == listed.len(),
                j <= np,
                self.wf(),
                self.same_build(old(self)),
                crate::node::arena_extended(old(self).nodes@, self.nodes@),
                forall|k: Seq<char>|
                    #[trigger] assoc_get(old(self).layout_cache@, k) is Some ==> assoc_get(
                        self.layout_cache@,
                        k,
                    ) == assoc_get(old(self).layout_cache@, k),
                ctx@ == old(ctx)@,
                fuel >= 1,
                gpids.len() == j,
                gpieces.len() == j,
                acc@ == crate::laws::spec_concat_all(gpieces),
                forall|j2: int|
                    0 <= j2 < j ==> (match #[trigger] gpids[j2] {
                        Some(pid) => (pid as int) < self.nodes@.len() && (match
                        self.nodes@[pid as int] {
                            TemplateNode::Page { path: p2, .. } => p2@ == listed[j2],
                            _ => false,
                        }) && (spec_render(
                            crate::node::tree_of(self.nodes@, pid as int),
                            old(ctx)@,
                            env_of(*old(self)),
                            (fuel - 1) as nat,
                        ) matches Some(piece) ==> gpieces[j2] == piece),
                        None => true,
                    }),
            decreases np - j,
        {
            let ghost n_before = self.nodes@;
            assert(paths@[j as int]@ == listed[j as int]);
            match self.build_page(paths[j].as_str()) {
                Ok(pid) => {
                    let ghost n_mid = self.nodes@;
                    let out = self.render(pid, ctx, fuel - 1);
                    acc.append(out.as_str());
                    proof {
                        let pre_pieces = gpieces;
                        gpids = gpids.push(Some(pid));
                        gpieces = gpieces.push(out@);
                        lemma_concat_all_snoc(pre_pieces, out@);
                        crate::node::lemma_tree_of_extend(n_mid, self.nodes@, pid as int);
                        assert(acc@ =~= crate::laws::spec_concat_all(gpieces));
                    }
                },
                Err(e) => {
                    acc.append("error: ");
                    let msg = e.message();
                    acc.append(msg.as_str());
                    proof {
                        let pre_pieces = gpieces;
                        gpids = gpids.push(None);
                        gpieces = gpieces.push("error: "@ + msg@);
                        lemma_concat_all_snoc(pre_pieces, "error: "@ + msg@);
                        assert(acc@ =~= crate::laws::spec_concat_all(gpieces));
                    }
                },
            }
            proof {
                assert forall|j2: int| 0 <= j2 < j + 1 implies (match #[trigger] gpids[j2] {
                    Some(pid) => (pid as int) < self.nodes@.len() && (match
                    self.nodes@[pid as int] {
                        TemplateNode::Page { path: p2, .. } => p2@ == listed[j2],
                        _ => false,
                    }) && (spec_render(
                        crate::node::tree_of(self.nodes@, pid as int),
                        old(ctx)@,
                        env_of(*old(self)),
                        (fuel - 1) as nat,
                    ) matches Some(piece) ==> gpieces[j2] == piece),
                    None => true,
                }) by {
                    if j2 < j {
                        match gpids[j2] {
                            Some(pid) => {
                                crate::node::lemma_tree_of_extend(
                                    n_before,
                                    self.nodes@,
                                    pid as int,
                                );
                            },
                            None => {},
                        }
                    }
                }
            }
            j += 1;
        }
        assert(gpieces.len() == listed.len());
        acc
    }
}


/// The file-set keys directly under a directory prefix: they start with it
/// and have no further path separator, in file-set order.
pub open spec fn spec_listed_paths(files: Entries, prefix: Seq<char>) -> Seq<Seq<char>>
    decreases files.len(),
{
    if files.len() == 0 {
        Seq::empty()
    } else {
        let rest = spec_listed_paths(files.drop_first(), prefix);
        if crate::text::match_at(files[0].0, prefix, 0) && crate::text::spec_find(
            files[0].0,
            "/"@,
            prefix.len() as int,
        ) is None {
            seq![files[0].0] + rest
        } else {
            rest
        }
    }
}

/// Splitting the last entry off the listing.
proof fn lemma_listed_snoc(files: Entries, prefix: Seq<char>, i: int)
    requires
        0 <= i < files.len(),
    ensures
        spec_listed_paths(files.subrange(0, i + 1), prefix) == spec_listed_paths(
            files.subrange(0, i),
            prefix,
        ) + (if crate::text::match_at(files[i].0, prefix, 0) && crate::text::spec_find(
            files[i].0,
            "/"@,
            prefix.len() as int,
        ) is None {
            seq![files[i].0]
        } else {
            Seq::<Seq<char>>::empty()
        }),
    decreases i,
{
    let a = files.subrange(0, i + 1);
    let b = files.subrange(0, i);
    if i == 0 {
        assert(a.drop_first() =~= Seq::<(Seq<char>, Seq<char>)>::empty());
        assert(b =~= Seq::<(Seq<char>, Seq<char>)>::empty());
        assert(spec_listed_paths(a, prefix) =~= spec_listed_paths(b, prefix) + (
        if crate::text::match_at(files[0].0, prefix, 0) && crate::text::spec_find(
            files[0].0,
            "/"@,
            prefix.len() as int,
        ) is None {
            seq![files[0].0]
        } else {
            Seq::<Seq<char>>::empty()
        }));
    } else {
        lemma_listed_snoc(files.drop_first(), prefix, i - 1);
        assert(a.drop_first() =~= files.drop_first().subrange(0, i));
        assert(b.drop_first() =~= files.drop_first().subrange(0, i - 1));
        assert(a[0] == files[0] && b[0] == files[0]);
        assert(files.drop_first()[i - 1] == files[i]);
    }
}

/// Splitting the last piece off a concatenation.
proof fn lemma_concat_all_snoc(pieces: Seq<Seq<char>>, x: Seq<char>)
    ensures
        crate::laws::spec_concat_all(pieces.push(x)) == crate::laws::spec_concat_all(pieces) + x,
    decreases pieces.len(),
{
    if pieces.len() == 0 {
        assert(pieces.push(x).drop_first() =~= Seq::<Seq<char>>::empty());
        assert(pieces.push(x)[0] == x);
        assert(crate::laws::spec_concat_all(pieces.push(x).drop_first()) == Seq::<char>::empty());
        assert(crate::laws::spec_concat_all(pieces) == Seq::<char>::empty());
        assert(crate::laws::spec_concat_all(pieces.push(x)) =~= crate::laws::spec_concat_all(
            pieces,
        ) + x);
    } else {
        lemma_concat_all_snoc(pieces.drop_first(), x);
        assert(pieces.push(x).drop_first() =~= pieces.drop_first().push(x));
        assert(pieces.push(x)[0] == pieces[0]);
        assert(pieces[0] + (crate::laws::spec_concat_all(pieces.drop_first()) + x) =~= (
        pieces[0] + crate::laws::spec_concat_all(pieces.drop_first())) + x);
    }
}

} // verus!



