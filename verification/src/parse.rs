//! The control-block parser. It scans for `{{ ... }}` delimiter pairs,
//! classifies each tag by its leading token, and builds the node tree in the
//! arena. The search for a block's end tag tracks nesting depth per block
//! kind, so nested blocks of the same kind close correctly; the split on an
//! `else` marker does the same for nested conditionals.

use vstd::prelude::*;

verus! {

use vstd::string::StrSliceExecFns;
use vstd::string::StringExecFns;
use crate::node::TemplateNode;
use crate::node::Tpl;
use crate::node::arena_extended;
use crate::node::lemma_tree_of_extend;
use crate::node::lemma_trees_of_map;
use crate::node::tree_of;
use crate::node::trees_of;
use crate::node::wf_arena;
use crate::registry::Builtin;
use crate::registry::FunctionRegistry;
use crate::strmap::assoc_get;
use crate::strmap::str_eq;
use crate::text::find_from;
use crate::text::lemma_find_bounds;
use crate::text::spec_find;
use crate::text::spec_tokens;
use crate::text::tokens;

/// The two block-forming tag kinds.
#[derive(Clone, Copy, PartialEq, Eq, Structural)]
pub enum BlockKind {
    IfKind,
    ForeachKind,
}

/// The closing keyword of a block kind.
pub open spec fn close_kw(kind: BlockKind) -> Seq<char> {
    match kind {
        BlockKind::IfKind => "endif"@,
        BlockKind::ForeachKind => "endforeach"@,
    }
}

/// Whether a tag's tokens open a block of the given kind.
pub open spec fn spec_opens(toks: Seq<Seq<char>>, kind: BlockKind) -> bool {
    match kind {
        BlockKind::IfKind => toks.len() == 2 && toks[0] == "if"@,
        BlockKind::ForeachKind => toks.len() == 4 && toks[0] == "foreach"@ && toks[2] == "as"@,
    }
}

/// Whether a tag's tokens close a block of the given kind.
pub open spec fn spec_closes(toks: Seq<Seq<char>>, kind: BlockKind) -> bool {
    toks.len() == 1 && toks[0] == close_kw(kind)
}

/// Splits `text` at the end tag that closes a block of `kind` already open
/// `depth + 1` times, counting further openings and closings of the same
/// kind. `None` when no such end tag exists.
pub open spec fn spec_block_split(text: Seq<char>, kind: BlockKind, depth: nat) -> Option<
    (Seq<char>, Seq<char>),
>
    decreases text.len(),
{
    match spec_find(text, "{{"@, 0) {
        None => None,
        Some(o) => match spec_find(text, "}}"@, o + 2) {
            None => None,
            Some(c) => {
                proof {
                    reveal_strlit("{{");
                    reveal_strlit("}}");
                    lemma_find_bounds(text, "{{"@, 0);
                    lemma_find_bounds(text, "}}"@, o + 2);
                }
                let toks = spec_tokens(text.subrange(o + 2, c));
                let rest = text.subrange(c + 2, text.len() as int);
                if spec_closes(toks, kind) {
                    if depth == 0 {
                        Some((text.subrange(0, o), rest))
                    } else {
                        match spec_block_split(rest, kind, (depth - 1) as nat) {
                            Some(p) => Some((text.subrange(0, c + 2) + p.0, p.1)),
                            None => None,
                        }
                    }
                } else if spec_opens(toks, kind) {
                    match spec_block_split(rest, kind, depth + 1) {
                        Some(p) => Some((text.subrange(0, c + 2) + p.0, p.1)),
                        None => None,
                    }
                } else {
                    match spec_block_split(rest, kind, depth) {
                        Some(p) => Some((text.subrange(0, c + 2) + p.0, p.1)),
                        None => None,
                    }
                }
            },
        },
    }
}

/// Both parts of a block split are no longer than the text, and together
/// shorter than it.
pub proof fn lemma_block_split_len(text: Seq<char>, kind: BlockKind, depth: nat)
    ensures
        spec_block_split(text, kind, depth) matches Some(p) ==> p.0.len() <= text.len()
            && p.1.len() < text.len() && p.0.len() + p.1.len() < text.len(),
    decreases text.len(),
{
    if let Some(o) = spec_find(text, "{{"@, 0) {
        if let Some(c) = spec_find(text, "}}"@, o + 2) {
            reveal_strlit("{{");
            reveal_strlit("}}");
            lemma_find_bounds(text, "{{"@, 0);
            lemma_find_bounds(text, "}}"@, o + 2);
            let toks = spec_tokens(text.subrange(o + 2, c));
            let rest = text.subrange(c + 2, text.len() as int);
            if spec_closes(toks, kind) && depth == 0 {
            } else if spec_closes(toks, kind) {
                lemma_block_split_len(rest, kind, (depth - 1) as nat);
            } else if spec_opens(toks, kind) {
                lemma_block_split_len(rest, kind, depth + 1);
            } else {
                lemma_block_split_len(rest, kind, depth);
            }
        }
    }
}

/// The block body and what follows its end tag; without an end tag the whole
/// remaining text is the body and nothing follows.
pub open spec fn spec_split_or_all(text: Seq<char>, kind: BlockKind) -> (Seq<char>, Seq<char>) {
    match spec_block_split(text, kind, 0) {
        Some(p) => p,
        None => (text, Seq::empty()),
    }
}

/// Splits an `if` body at its own `else` tag, skipping the `else` of any
/// nested conditional. `None` when the body has no `else` of its own.
pub open spec fn spec_else_split(text: Seq<char>, depth: nat) -> Option<(Seq<char>, Seq<char>)>
    decreases text.len(),
{
    match spec_find(text, "{{"@, 0) {
        None => None,
        Some(o) => match spec_find(text, "}}"@, o + 2) {
            None => None,
            Some(c) => {
                proof {
                    reveal_strlit("{{");
                    reveal_strlit("}}");
                    lemma_find_bounds(text, "{{"@, 0);
                    lemma_find_bounds(text, "}}"@, o + 2);
                }
                let toks = spec_tokens(text.subrange(o + 2, c));
                let rest = text.subrange(c + 2, text.len() as int);
                if toks.len() == 1 && toks[0] == "else"@ && depth == 0 {
                    Some((text.subrange(0, o), rest))
                } else if spec_closes(toks, BlockKind::IfKind) && depth > 0 {
                    match spec_else_split(rest, (depth - 1) as nat) {
                        Some(p) => Some((text.subrange(0, c + 2) + p.0, p.1)),
                        None => None,
                    }
                } else if spec_opens(toks, BlockKind::IfKind) {
                    match spec_else_split(rest, depth + 1) {
                        Some(p) => Some((text.subrange(0, c + 2) + p.0, p.1)),
                        None => None,
                    }
                } else {
                    match spec_else_split(rest, depth) {
                        Some(p) => Some((text.subrange(0, c + 2) + p.0, p.1)),
                        None => None,
                    }
                }
            },
        },
    }
}

/// Both parts of an else split are no longer than the text, and together
/// shorter than it.
pub proof fn lemma_else_split_len(text: Seq<char>, depth: nat)
    ensures
        spec_else_split(text, depth) matches Some(p) ==> p.0.len() <= text.len() && p.1.len()
            < text.len() && p.0.len() + p.1.len() < text.len(),
    decreases text.len(),
{
    if let Some(o) = spec_find(text, "{{"@, 0) {
        if let Some(c) = spec_find(text, "}}"@, o + 2) {
            reveal_strlit("{{");
            reveal_strlit("}}");
            lemma_find_bounds(text, "{{"@, 0);
            lemma_find_bounds(text, "}}"@, o + 2);
            let toks = spec_tokens(text.subrange(o + 2, c));
            let rest = text.subrange(c + 2, text.len() as int);
            if toks.len() == 1 && toks[0] == "else"@ && depth == 0 {
            } else if spec_closes(toks, BlockKind::IfKind) && depth > 0 {
                lemma_else_split_len(rest, (depth - 1) as nat);
            } else if spec_opens(toks, BlockKind::IfKind) {
                lemma_else_split_len(rest, depth + 1);
            } else {
                lemma_else_split_len(rest, depth);
            }
        }
    }
}

/// The literal for the text before a tag, when there is any.
pub open spec fn lit_prefix(text: Seq<char>, o: int) -> Seq<Tpl> {
    if o > 0 {
        seq![Tpl::Lit { text: text.subrange(0, o) }]
    } else {
        Seq::empty()
    }
}

/// The trees of the template items of `text`, in source order: literals
/// between tags, and one tree per recognized tag. An unknown tag or an
/// unregistered function name passes through as a literal; a stray `else`
/// is skipped; a `{{` without a closing `}}` leaves the remainder literal.
pub open spec fn spec_parse_items(text: Seq<char>, reg: Seq<(Seq<char>, Builtin)>) -> Seq<Tpl>
    decreases text.len(), 0int,
{
    match spec_find(text, "{{"@, 0) {
        None => if text.len() == 0 {
            Seq::empty()
        } else {
            seq![Tpl::Lit { text }]
        },
        Some(o) => match spec_find(text, "}}"@, o + 2) {
            None => lit_prefix(text, o) + seq![
                Tpl::Lit { text: text.subrange(o, text.len() as int) },
            ],
            Some(c) => {
                proof {
                    reveal_strlit("{{");
                    reveal_strlit("}}");
                    lemma_find_bounds(text, "{{"@, 0);
                    lemma_find_bounds(text, "}}"@, o + 2);
                }
                let toks = spec_tokens(text.subrange(o + 2, c));
                let rest = text.subrange(c + 2, text.len() as int);
                let pre = lit_prefix(text, o);
                if spec_opens(toks, BlockKind::IfKind) {
                    proof {
                        lemma_block_split_len(rest, BlockKind::IfKind, 0);
                    }
                    let body = spec_split_or_all(rest, BlockKind::IfKind).0;
                    let rest2 = spec_split_or_all(rest, BlockKind::IfKind).1;
                    proof {
                        lemma_else_split_len(body, 0);
                    }
                    let node = match spec_else_split(body, 0) {
                        Some(p) => Tpl::If {
                            condition: toks[1],
                            true_branch: Box::new(spec_parse(p.0, reg)),
                            false_branch: Some(Box::new(spec_parse(p.1, reg))),
                        },
                        None => Tpl::If {
                            condition: toks[1],
                            true_branch: Box::new(spec_parse(body, reg)),
                            false_branch: None,
                        },
                    };
                    pre + seq![node] + spec_parse_items(rest2, reg)
                } else if toks.len() == 1 && toks[0] == "else"@ {
                    pre + spec_parse_items(rest, reg)
                } else if spec_opens(toks, BlockKind::ForeachKind) {
                    proof {
                        lemma_block_split_len(rest, BlockKind::ForeachKind, 0);
                    }
                    let body = spec_split_or_all(rest, BlockKind::ForeachKind).0;
                    let rest2 = spec_split_or_all(rest, BlockKind::ForeachKind).1;
                    let node = Tpl::Foreach {
                        key: toks[1],
                        item_name: toks[3],
                        body: Box::new(spec_parse(body, reg)),
                    };
                    pre + seq![node] + spec_parse_items(rest2, reg)
                } else if toks.len() >= 1 && assoc_get(reg, toks[0]) is Some {
                    let node = Tpl::Call { name: toks[0], args: toks.drop_first(), block: None };
                    pre + seq![node] + spec_parse_items(rest, reg)
                } else {
                    pre + seq![Tpl::Lit { text: text.subrange(o, c + 2) }] + spec_parse_items(
                        rest,
                        reg,
                    )
                }
            },
        },
    }
}

/// The tree of a whole text: its items, collapsed when there is only one.
pub open spec fn spec_parse(text: Seq<char>, reg: Seq<(Seq<char>, Builtin)>) -> Tpl
    decreases text.len(), 1int,
{
    let items = spec_parse_items(text, reg);
    if items.len() == 1 {
        items[0]
    } else {
        Tpl::Group { items }
    }
}

/// Exec mirror of `spec_block_split`.
fn block_split(text: &str, kind: BlockKind, depth: usize) -> (r: Option<(String, String)>)
    requires
        depth + text@.len() <= usize::MAX,
    ensures
        match r {
            Some(p) => spec_block_split(text@, kind, depth as nat) == Some((p.0@, p.1@)),
            None => spec_block_split(text@, kind, depth as nat) is None,
        },
    decreases text@.len(),
{
    proof {
        reveal_strlit("{{");
        reveal_strlit("}}");
    }
    let n = text.unicode_len();
    let o = match find_from(text, "{{", 0) {
        Some(o) => o,
        None => {
            return None;
        },
    };
    proof {
        lemma_find_bounds(text@, "{{"@, 0);
    }
    let c = match find_from(text, "}}", o + 2) {
        Some(c) => c,
        None => {
            return None;
        },
    };
    proof {
        lemma_find_bounds(text@, "}}"@, o + 2);
    }
    let tag = text.substring_char(o + 2, c);
    let toks = tokens(tag);
    let rest = text.substring_char(c + 2, n);
    let ghost stoks = spec_tokens(text@.subrange(o + 2, c as int));
    assert(toks.deep_view() == stoks);
    let closes = toks.len() == 1 && {
        let kw = match kind {
            BlockKind::IfKind => "endif",
            BlockKind::ForeachKind => "endforeach",
        };
        str_eq(toks[0].as_str(), kw)
    };
    proof {
        if toks.len() == 1 {
            assert(toks@[0]@ == stoks[0]);
        }
    }
    assert(closes == spec_closes(stoks, kind));
    if closes {
        if depth == 0 {
            let before = String::from_str(text.substring_char(0, o));
            let after = String::from_str(rest);
            return Some((before, after));
        }
        match block_split(rest, kind, depth - 1) {
            Some(p) => {
                let mut b = String::from_str(text.substring_char(0, c + 2));
                b.append(p.0.as_str());
                return Some((b, p.1));
            },
            None => {
                return None;
            },
        }
    }
    let opens = match kind {
        BlockKind::IfKind => toks.len() == 2 && str_eq(toks[0].as_str(), "if"),
        BlockKind::ForeachKind => toks.len() == 4 && str_eq(toks[0].as_str(), "foreach") && str_eq(
            toks[2].as_str(),
            "as",
        ),
    };
    proof {
        if toks.len() >= 1 {
            assert(toks@[0]@ == stoks[0]);
        }
        if toks.len() >= 3 {
            assert(toks@[2]@ == stoks[2]);
        }
    }
    assert(opens == spec_opens(stoks, kind));
    let next_depth = if opens {
        depth + 1
    } else {
        depth
    };
    match block_split(rest, kind, next_depth) {
        Some(p) => {
            let mut b = String::from_str(text.substring_char(0, c + 2));
            b.append(p.0.as_str());
            Some((b, p.1))
        },
        None => None,
    }
}

/// Exec mirror of `spec_else_split`.
fn else_split(text: &str, depth: usize) -> (r: Option<(String, String)>)
    requires
        depth + text@.len() <= usize::MAX,
    ensures
        match r {
            Some(p) => spec_else_split(text@, depth as nat) == Some((p.0@, p.1@)),
            None => spec_else_split(text@, depth as nat) is None,
        },
    decreases text@.len(),
{
    proof {
        reveal_strlit("{{");
        reveal_strlit("}}");
    }
    let n = text.unicode_len();
    let o = match find_from(text, "{{", 0) {
        Some(o) => o,
        None => {
            return None;
        },
    };
    proof {
        lemma_find_bounds(text@, "{{"@, 0);
    }
    let c = match find_from(text, "}}", o + 2) {
        Some(c) => c,
        None => {
            return None;
        },
    };
    proof {
        lemma_find_bounds(text@, "}}"@, o + 2);
    }
    let tag = text.substring_char(o + 2, c);
    let toks = tokens(tag);
    let rest = text.substring_char(c + 2, n);
    let ghost stoks = spec_tokens(text@.subrange(o + 2, c as int));
    assert(toks.deep_view() == stoks);
    proof {
        if toks.len() >= 1 {
            assert(toks@[0]@ == stoks[0]);
        }
    }
    let is_else = toks.len() == 1 && str_eq(toks[0].as_str(), "else");
    let closes = toks.len() == 1 && str_eq(toks[0].as_str(), "endif");
    let opens = toks.len() == 2 && str_eq(toks[0].as_str(), "if");
    assert(closes == spec_closes(stoks, BlockKind::IfKind));
    assert(opens == spec_opens(stoks, BlockKind::IfKind));
    if is_else && depth == 0 {
        let before = String::from_str(text.substring_char(0, o));
        let after = String::from_str(rest);
        return Some((before, after));
    }
    let next_depth = if closes && depth > 0 {
        depth - 1
    } else if opens {
        depth + 1
    } else {
        depth
    };
    match else_split(rest, next_depth) {
        Some(p) => {
            let mut b = String::from_str(text.substring_char(0, c + 2));
            b.append(p.0.as_str());
            Some((b, p.1))
        },
        None => None,
    }
}


/// Extension of arenas composes.
pub proof fn lemma_ext_trans(a: Seq<TemplateNode>, b: Seq<TemplateNode>, c: Seq<TemplateNode>)
    requires
        arena_extended(a, b),
        arena_extended(b, c),
    ensures
        arena_extended(a, c),
{
}

/// Appends a literal node and hands back its position.
fn push_lit(nodes: &mut Vec<TemplateNode>, s: String) -> (id: usize)
    requires
        wf_arena(old(nodes)@),
    ensures
        arena_extended(old(nodes)@, final(nodes)@),
        final(nodes)@ == old(nodes)@.push(TemplateNode::StringContent(s)),
        wf_arena(final(nodes)@),
        id as int == old(nodes)@.len(),
        tree_of(final(nodes)@, id as int) == (Tpl::Lit { text: s@ }),
{
    let ghost gs = s;
    let id = nodes.len();
    nodes.push(TemplateNode::StringContent(s));
    proof {
        assert(nodes@[id as int] == TemplateNode::StringContent(gs));
        assert(wf_arena(nodes@)) by {
            assert forall|i: int| 0 <= i < nodes@.len() implies crate::node::node_children_lt(
                #[trigger] nodes@[i],
                i,
            ) by {
                if i < id {
                    assert(nodes@[i] == old(nodes)@[i]);
                }
            }
        }
    }
    id
}

/// Appends a node whose children all point below the current end.
pub(crate) fn push_node(nodes: &mut Vec<TemplateNode>, node: TemplateNode) -> (id: usize)
    requires
        wf_arena(old(nodes)@),
        crate::node::node_children_lt(node, old(nodes)@.len() as int),
    ensures
        arena_extended(old(nodes)@, final(nodes)@),
        final(nodes)@ == old(nodes)@.push(node),
        wf_arena(final(nodes)@),
        id as int == old(nodes)@.len(),
{
    let ghost gn = node;
    let id = nodes.len();
    nodes.push(node);
    proof {
        assert(nodes@[id as int] == gn);
        assert(wf_arena(nodes@)) by {
            assert forall|i: int| 0 <= i < nodes@.len() implies crate::node::node_children_lt(
                #[trigger] nodes@[i],
                i,
            ) by {
                if i < id {
                    assert(nodes@[i] == old(nodes)@[i]);
                }
            }
        }
    }
    id
}

/// Appends every position of `src` to `dst`.
fn append_ids(dst: &mut Vec<usize>, src: &Vec<usize>)
    ensures
        final(dst)@ == old(dst)@ + src@,
{
    let n = src.len();
    let mut k: usize = 0;
    while k < n
        invariant
            n == src@.len(),
            k <= n,
            dst@ =~= old(dst)@ + src@.subrange(0, k as int),
        decreases n - k,
    {
        dst.push(src[k]);
        assert(dst@ =~= old(dst)@ + src@.subrange(0, k + 1));
        k += 1;
    }
    assert(src@.subrange(0, n as int) =~= src@);
}


/// Parses a text into one node, collapsing a single item.
pub fn parse_control_blocks(
    nodes: &mut Vec<TemplateNode>,
    reg: &FunctionRegistry,
    text: &str,
) -> (id: usize)
    requires
        wf_arena(old(nodes)@),
    ensures
        arena_extended(old(nodes)@, final(nodes)@),
        wf_arena(final(nodes)@),
        (id as int) < final(nodes)@.len(),
        tree_of(final(nodes)@, id as int) == spec_parse(text@, reg@),
    decreases text@.len(), 1int,
{
    let ids = parse_items(nodes, reg, text);
    let ghost n1 = nodes@;
    proof {
        lemma_trees_of_map(n1, ids@, n1.len() as int);
    }
    if ids.len() == 1 {
        let id = ids[0];
        assert(Seq::new(ids@.len(), |j: int| tree_of(n1, ids@[j] as int))[0] == tree_of(
            n1,
            id as int,
        ));
        assert(tree_of(n1, id as int) == spec_parse_items(text@, reg@)[0]);
        id
    } else {
        let id = push_node(nodes, TemplateNode::Composite(ids));
        proof {
            let n2 = nodes@;
            assert(n2[id as int] is Composite);
            lemma_trees_of_map(n2, ids@, id as int);
            assert forall|j: int| 0 <= j < ids@.len() implies tree_of(n2, ids@[j] as int)
                == tree_of(n1, ids@[j] as int) by {
                lemma_tree_of_extend(n1, n2, ids@[j] as int);
            }
            assert(trees_of(n2, ids@, id as int) =~= spec_parse_items(text@, reg@)) by {
                assert forall|j: int| 0 <= j < ids@.len() implies trees_of(n2, ids@, id as int)[j]
                    == spec_parse_items(text@, reg@)[j] by {
                    assert(trees_of(n2, ids@, id as int)[j] == tree_of(n2, ids@[j] as int));
                    assert(trees_of(n1, ids@, n1.len() as int)[j] == tree_of(n1, ids@[j] as int));
                }
            }
            assert(tree_of(n2, id as int) == (Tpl::Group {
                items: trees_of(n2, ids@, id as int),
            }));
        }
        id
    }
}

/// Parses a text into its sequence of item nodes.
fn parse_items(nodes: &mut Vec<TemplateNode>, reg: &FunctionRegistry, text: &str) -> (ids: Vec<
    usize,
>)
    requires
        wf_arena(old(nodes)@),
    ensures
        arena_extended(old(nodes)@, final(nodes)@),
        wf_arena(final(nodes)@),
        forall|j: int| 0 <= j < ids@.len() ==> (#[trigger] ids@[j] as int) < final(nodes)@.len(),
        trees_of(final(nodes)@, ids@, final(nodes)@.len() as int) == spec_parse_items(
            text@,
            reg@,
        ),
    decreases text@.len(), 0int,
{
    proof {
        reveal_strlit("{{");
        reveal_strlit("}}");
    }
    let ghost t0 = text@;
    let ghost regv = reg@;
    let n = text.unicode_len();
    let o = match find_from(text, "{{", 0) {
        Some(o) => o,
        None => {
            let mut ids: Vec<usize> = Vec::new();
            if n == 0 {
                assert(trees_of(nodes@, ids@, nodes@.len() as int) =~= spec_parse_items(
                    t0,
                    regv,
                ));
                return ids;
            }
            let id = push_lit(nodes, String::from_str(text));
            ids.push(id);
            proof {
                lemma_trees_of_map(nodes@, ids@, nodes@.len() as int);
                assert(trees_of(nodes@, ids@, nodes@.len() as int) =~= spec_parse_items(
                    t0,
                    regv,
                ));
            }
            return ids;
        },
    };
    proof {
        lemma_find_bounds(t0, "{{"@, 0);
    }
    let c = match find_from(text, "}}", o + 2) {
        Some(c) => c,
        None => {
            // an opening delimiter with no closing one: the remainder is literal
            let mut ids: Vec<usize> = Vec::new();
            let ghost na = nodes@;
            if o > 0 {
                let id = push_lit(nodes, String::from_str(text.substring_char(0, o)));
                ids.push(id);
            }
            let ghost nb = nodes@;
            let tail_id = push_lit(nodes, String::from_str(text.substring_char(o, n)));
            ids.push(tail_id);
            proof {
                let nc = nodes@;
                lemma_trees_of_map(nc, ids@, nc.len() as int);
                if o > 0 {
                    lemma_tree_of_extend(nb, nc, (nb.len() - 1) as int);
                }
                assert(trees_of(nc, ids@, nc.len() as int) =~= lit_prefix(t0, o as int) + seq![
                    Tpl::Lit { text: t0.subrange(o as int, t0.len() as int) },
                ]);
            }
            return ids;
        },
    };
    proof {
        lemma_find_bounds(t0, "}}"@, o + 2);
    }
    let tag = text.substring_char(o + 2, c);
    let toks = tokens(tag);
    let rest = text.substring_char(c + 2, n);
    let ghost stoks = spec_tokens(t0.subrange(o + 2, c as int));
    assert(toks.deep_view() == stoks);
    proof {
        if toks.len() >= 1 {
            assert(toks@[0]@ == stoks[0]);
        }
        if toks.len() >= 2 {
            assert(toks@[1]@ == stoks[1]);
        }
        if toks.len() >= 3 {
            assert(toks@[2]@ == stoks[2]);
        }
        if toks.len() >= 4 {
            assert(toks@[3]@ == stoks[3]);
        }
    }
    let ghost n0 = nodes@;
    let mut ids: Vec<usize> = Vec::new();
    let mut pre_id: usize = 0;
    let has_pre = o > 0;
    if has_pre {
        pre_id = push_lit(nodes, String::from_str(text.substring_char(0, o)));
        ids.push(pre_id);
    }
    let ghost n_pre = nodes@;
    let ghost pre_tpl = Tpl::Lit { text: t0.subrange(0, o as int) };

    let is_if = toks.len() == 2 && str_eq(toks[0].as_str(), "if");
    assert(is_if == spec_opens(stoks, BlockKind::IfKind));
    let is_else = toks.len() == 1 && str_eq(toks[0].as_str(), "else");
    let is_fe = toks.len() == 4 && str_eq(toks[0].as_str(), "foreach") && str_eq(
        toks[2].as_str(),
        "as",
    );
    assert(is_fe == spec_opens(stoks, BlockKind::ForeachKind));

    if is_if {
        let (body, rest2) = match block_split(rest, BlockKind::IfKind, 0) {
            Some(p) => p,
            None => (String::from_str(rest), String::new()),
        };
        assert(body@ == spec_split_or_all(rest@, BlockKind::IfKind).0);
        assert(rest2@ == spec_split_or_all(rest@, BlockKind::IfKind).1);
        proof {
            lemma_block_split_len(rest@, BlockKind::IfKind, 0);
            lemma_else_split_len(body@, 0);
        }
        let node_id: usize;
        let ghost node_tpl: Tpl;
        match else_split(body.as_str(), 0) {
            Some(p) => {
                let (tb, fb) = p;
                let t_id = parse_control_blocks(nodes, reg, tb.as_str());
                let ghost n1 = nodes@;
                let f_id = parse_control_blocks(nodes, reg, fb.as_str());
                let ghost n2 = nodes@;
                proof {
                    lemma_tree_of_extend(n1, n2, t_id as int);
                }
                node_id = push_node(
                    nodes,
                    TemplateNode::IfBlock {
                        condition: toks[1].clone(),
                        true_branch: t_id,
                        false_branch: Some(f_id),
                    },
                );
                proof {
                    let n3 = nodes@;
                    lemma_tree_of_extend(n2, n3, t_id as int);
                    lemma_tree_of_extend(n2, n3, f_id as int);
                    node_tpl = Tpl::If {
                        condition: stoks[1],
                        true_branch: Box::new(spec_parse(tb@, regv)),
                        false_branch: Some(Box::new(spec_parse(fb@, regv))),
                    };
                    assert(tree_of(n3, node_id as int) == node_tpl);
                    lemma_ext_trans(n_pre, n1, n2);
                    lemma_ext_trans(n_pre, n2, n3);
                }
            },
            None => {
                let b_id = parse_control_blocks(nodes, reg, body.as_str());
                let ghost n2 = nodes@;
                node_id = push_node(
                    nodes,
                    TemplateNode::IfBlock {
                        condition: toks[1].clone(),
                        true_branch: b_id,
                        false_branch: None,
                    },
                );
                proof {
                    let n3 = nodes@;
                    lemma_tree_of_extend(n2, n3, b_id as int);
                    node_tpl = Tpl::If {
                        condition: stoks[1],
                        true_branch: Box::new(spec_parse(body@, regv)),
                        false_branch: None,
                    };
                    assert(tree_of(n3, node_id as int) == node_tpl);
                    lemma_ext_trans(n_pre, n2, n3);
                }
            },
        }
        ids.push(node_id);
        let ghost n3 = nodes@;
        let rest_ids = parse_items(nodes, reg, rest2.as_str());
        append_ids(&mut ids, &rest_ids);
        proof {
            assert(ids@ =~= (if has_pre {
                seq![pre_id]
            } else {
                Seq::<usize>::empty()
            }) + seq![node_id] + rest_ids@);
            finish_block(
                n_pre,
                n3,
                nodes@,
                ids@,
                rest_ids@,
                has_pre,
                pre_id,
                pre_tpl,
                node_id,
                node_tpl,
                spec_parse_items(rest2@, regv),
            );
            assert(spec_parse_items(t0, regv) == lit_prefix(t0, o as int) + seq![node_tpl]
                + spec_parse_items(rest2@, regv));
        }
        return ids;
    }
    if is_else {
        let rest_ids = parse_items(nodes, reg, rest);
        append_ids(&mut ids, &rest_ids);
        proof {
            let nf = nodes@;
            lemma_trees_of_map(nf, ids@, nf.len() as int);
            lemma_trees_of_map(nf, rest_ids@, nf.len() as int);
            if has_pre {
                lemma_tree_of_extend(n_pre, nf, pre_id as int);
            }
            assert(trees_of(nf, ids@, nf.len() as int) =~= lit_prefix(t0, o as int)
                + spec_parse_items(rest@, regv)) by {
                assert forall|j: int| 0 <= j < ids@.len() implies trees_of(
                    nf,
                    ids@,
                    nf.len() as int,
                )[j] == (lit_prefix(t0, o as int) + spec_parse_items(rest@, regv))[j] by {
                    let npre: int = if has_pre { 1 } else { 0 };
                    if has_pre && j == 0 {
                        assert(tree_of(n_pre, pre_id as int) == pre_tpl);
                    } else {
                        assert(ids@[j] == rest_ids@[j - npre]);
                        assert(trees_of(nf, rest_ids@, nf.len() as int)[j - npre] == tree_of(
                            nf,
                            rest_ids@[j - npre] as int,
                        ));
                    }
                }
            }
        }
        return ids;
    }
    if is_fe {
        let (body, rest2) = match block_split(rest, BlockKind::ForeachKind, 0) {
            Some(p) => p,
            None => (String::from_str(rest), String::new()),
        };
        assert(body@ == spec_split_or_all(rest@, BlockKind::ForeachKind).0);
        assert(rest2@ == spec_split_or_all(rest@, BlockKind::ForeachKind).1);
        proof {
            lemma_block_split_len(rest@, BlockKind::ForeachKind, 0);
        }
        let b_id = parse_control_blocks(nodes, reg, body.as_str());
        let ghost n2 = nodes@;
        let node_id = push_node(
            nodes,
            TemplateNode::ForEachBlock {
                key: toks[1].clone(),
                item_name: toks[3].clone(),
                body: b_id,
            },
        );
        let ghost node_tpl = Tpl::Foreach {
            key: stoks[1],
            item_name: stoks[3],
            body: Box::new(spec_parse(body@, regv)),
        };
        proof {
            let n3 = nodes@;
            lemma_tree_of_extend(n2, n3, b_id as int);
            assert(tree_of(n3, node_id as int) == node_tpl);
            lemma_ext_trans(n_pre, n2, n3);
        }
        ids.push(node_id);
        let ghost n3 = nodes@;
        let rest_ids = parse_items(nodes, reg, rest2.as_str());
        append_ids(&mut ids, &rest_ids);
        proof {
            assert(ids@ =~= (if has_pre {
                seq![pre_id]
            } else {
                Seq::<usize>::empty()
            }) + seq![node_id] + rest_ids@);
            finish_block(
                n_pre,
                n3,
                nodes@,
                ids@,
                rest_ids@,
                has_pre,
                pre_id,
                pre_tpl,
                node_id,
                node_tpl,
                spec_parse_items(rest2@, regv),
            );
            assert(spec_parse_items(t0, regv) == lit_prefix(t0, o as int) + seq![node_tpl]
                + spec_parse_items(rest2@, regv));
        }
        return ids;
    }
    let is_call = toks.len() >= 1 && reg.contains(toks[0].as_str());
    assert(is_call == (stoks.len() >= 1 && assoc_get(regv, stoks[0]) is Some));
    if is_call {
        let mut args: Vec<String> = Vec::new();
        let mut k: usize = 1;
        while k < toks.len()
            invariant
                1 <= k <= toks.len(),
                toks.deep_view() == stoks,
                args.deep_view() =~= stoks.subrange(1, k as int),
            decreases toks.len() - k,
        {
            let a = toks[k].clone();
            let ghost pre_args = args;
            args.push(a);
            proof {
                crate::strmap::lemma_deep_view_push(pre_args, args, args@.last());
                assert(args@.last()@ == stoks[k as int]);
                assert(args.deep_view() =~= stoks.subrange(1, k + 1));
            }
            k += 1;
        }
        assert(args.deep_view() =~= stoks.drop_first());
        let node_id = push_node(
            nodes,
            TemplateNode::Func { name: toks[0].clone(), args, block_content: None },
        );
        let ghost node_tpl = Tpl::Call { name: stoks[0], args: stoks.drop_first(), block: None };
        proof {
            assert(tree_of(nodes@, node_id as int) == node_tpl);
        }
        ids.push(node_id);
        let ghost n3 = nodes@;
        let rest_ids = parse_items(nodes, reg, rest);
        append_ids(&mut ids, &rest_ids);
        proof {
            assert(ids@ =~= (if has_pre {
                seq![pre_id]
            } else {
                Seq::<usize>::empty()
            }) + seq![node_id] + rest_ids@);
            finish_block(
                n_pre,
                n3,
                nodes@,
                ids@,
                rest_ids@,
                has_pre,
                pre_id,
                pre_tpl,
                node_id,
                node_tpl,
                spec_parse_items(rest@, regv),
            );
            assert(spec_parse_items(t0, regv) == lit_prefix(t0, o as int) + seq![node_tpl]
                + spec_parse_items(rest@, regv));
        }
        return ids;
    }
    // unknown tag shape or unregistered function: the tag passes through
    let node_id = push_lit(nodes, String::from_str(text.substring_char(o, c + 2)));
    let ghost node_tpl = Tpl::Lit { text: t0.subrange(o as int, c + 2) };
    ids.push(node_id);
    let ghost n3 = nodes@;
    let rest_ids = parse_items(nodes, reg, rest);
    append_ids(&mut ids, &rest_ids);
    proof {
        assert(ids@ =~= (if has_pre {
            seq![pre_id]
        } else {
            Seq::<usize>::empty()
        }) + seq![node_id] + rest_ids@);
        finish_block(
            n_pre,
            n3,
            nodes@,
            ids@,
            rest_ids@,
            has_pre,
            pre_id,
            pre_tpl,
            node_id,
            node_tpl,
            spec_parse_items(rest@, regv),
        );
        assert(spec_parse_items(t0, regv) == lit_prefix(t0, o as int) + seq![node_tpl]
            + spec_parse_items(rest@, regv));
    }
    ids
}

/// Assembles the final item-tree equation of one parser step: an optional
/// leading literal, the step's own node, then the items of the remainder.
proof fn finish_block(
    n_pre: Seq<TemplateNode>,
    n3: Seq<TemplateNode>,
    nf: Seq<TemplateNode>,
    ids: Seq<usize>,
    rest_ids: Seq<usize>,
    has_pre: bool,
    pre_id: usize,
    pre_tpl: Tpl,
    node_id: usize,
    node_tpl: Tpl,
    rest_items: Seq<Tpl>,
)
    requires
        arena_extended(n_pre, n3),
        arena_extended(n3, nf),
        wf_arena(n_pre),
        wf_arena(n3),
        wf_arena(nf),
        has_pre ==> (pre_id as int) < n_pre.len() && tree_of(n_pre, pre_id as int) == pre_tpl,
        (node_id as int) < n3.len(),
        tree_of(n3, node_id as int) == node_tpl,
        ids == (if has_pre {
            seq![pre_id]
        } else {
            Seq::<usize>::empty()
        }) + seq![node_id] + rest_ids,
        forall|j: int| 0 <= j < rest_ids.len() ==> (#[trigger] rest_ids[j] as int) < nf.len(),
        trees_of(nf, rest_ids, nf.len() as int) == rest_items,
    ensures
        trees_of(nf, ids, nf.len() as int) == (if has_pre {
            seq![pre_tpl]
        } else {
            Seq::<Tpl>::empty()
        }) + seq![node_tpl] + rest_items,
{
    let npre: int = if has_pre { 1 } else { 0 };
    assert forall|j: int| 0 <= j < ids.len() implies (#[trigger] ids[j] as int) < nf.len() by {
        if has_pre && j == 0 {
        } else if j == npre {
        } else {
            assert(ids[j] == rest_ids[j - npre - 1]);
        }
    }
    lemma_trees_of_map(nf, ids, nf.len() as int);
    lemma_trees_of_map(nf, rest_ids, nf.len() as int);
    if has_pre {
        lemma_tree_of_extend(n_pre, n3, pre_id as int);
        lemma_tree_of_extend(n3, nf, pre_id as int);
    }
    lemma_tree_of_extend(n3, nf, node_id as int);
    let target = (if has_pre {
        seq![pre_tpl]
    } else {
        Seq::<Tpl>::empty()
    }) + seq![node_tpl] + rest_items;
    assert(trees_of(nf, ids, nf.len() as int) =~= target) by {
        assert forall|j: int| 0 <= j < ids.len() implies trees_of(nf, ids, nf.len() as int)[j]
            == target[j] by {
            assert(trees_of(nf, ids, nf.len() as int)[j] == tree_of(nf, ids[j] as int));
            if has_pre && j == 0 {
            } else if j == npre {
            } else {
                assert(ids[j] == rest_ids[j - npre - 1]);
                assert(trees_of(nf, rest_ids, nf.len() as int)[j - npre - 1] == tree_of(
                    nf,
                    rest_ids[j - npre - 1] as int,
                ));
                assert(target[j] == rest_items[j - npre - 1]);
            }
        }
    }
}


/// How many stray `else` tags a text holds: tags that tokenize to `else`
/// alone and stand outside any open conditional, the ones parsing skips
/// with nothing but a diagnostic owed (block bodies are scanned the way
/// parsing scans them). The count does not depend on the registry, since
/// every non-block tag is scanned past alike.
pub open spec fn spec_stray_elses(text: Seq<char>) -> nat
    decreases text.len(),
{
    match spec_find(text, "{{"@, 0) {
        None => 0,
        Some(o) => match spec_find(text, "}}"@, o + 2) {
            None => 0,
            Some(c) => {
                proof {
                    reveal_strlit("{{");
                    reveal_strlit("}}");
                    lemma_find_bounds(text, "{{"@, 0);
                    lemma_find_bounds(text, "}}"@, o + 2);
                }
                let toks = spec_tokens(text.subrange(o + 2, c));
                let rest = text.subrange(c + 2, text.len() as int);
                if spec_opens(toks, BlockKind::IfKind) {
                    proof {
                        lemma_block_split_len(rest, BlockKind::IfKind, 0);
                    }
                    let body = spec_split_or_all(rest, BlockKind::IfKind).0;
                    let rest2 = spec_split_or_all(rest, BlockKind::IfKind).1;
                    proof {
                        lemma_else_split_len(body, 0);
                    }
                    match spec_else_split(body, 0) {
                        Some(p) => spec_stray_elses(p.0) + spec_stray_elses(p.1)
                            + spec_stray_elses(rest2),
                        None => spec_stray_elses(body) + spec_stray_elses(rest2),
                    }
                } else if toks.len() == 1 && toks[0] == "else"@ {
                    1 + spec_stray_elses(rest)
                } else if spec_opens(toks, BlockKind::ForeachKind) {
                    proof {
                        lemma_block_split_len(rest, BlockKind::ForeachKind, 0);
                    }
                    let body = spec_split_or_all(rest, BlockKind::ForeachKind).0;
                    let rest2 = spec_split_or_all(rest, BlockKind::ForeachKind).1;
                    spec_stray_elses(body) + spec_stray_elses(rest2)
                } else {
                    spec_stray_elses(rest)
                }
            },
        },
    }
}

/// A text holds no more stray `else` tags than characters.
pub proof fn lemma_stray_elses_le(text: Seq<char>)
    ensures
        spec_stray_elses(text) <= text.len(),
    decreases text.len(),
{
    if let Some(o) = spec_find(text, "{{"@, 0) {
        if let Some(c) = spec_find(text, "}}"@, o + 2) {
            reveal_strlit("{{");
            reveal_strlit("}}");
            lemma_find_bounds(text, "{{"@, 0);
            lemma_find_bounds(text, "}}"@, o + 2);
            let toks = spec_tokens(text.subrange(o + 2, c));
            let rest = text.subrange(c + 2, text.len() as int);
            if spec_opens(toks, BlockKind::IfKind) {
                lemma_block_split_len(rest, BlockKind::IfKind, 0);
                let body = spec_split_or_all(rest, BlockKind::IfKind).0;
                let rest2 = spec_split_or_all(rest, BlockKind::IfKind).1;
                lemma_else_split_len(body, 0);
                lemma_stray_elses_le(body);
                lemma_stray_elses_le(rest2);
                if let Some(p) = spec_else_split(body, 0) {
                    lemma_stray_elses_le(p.0);
                    lemma_stray_elses_le(p.1);
                }
            } else if toks.len() == 1 && toks[0] == "else"@ {
                lemma_stray_elses_le(rest);
            } else if spec_opens(toks, BlockKind::ForeachKind) {
                lemma_block_split_len(rest, BlockKind::ForeachKind, 0);
                let body = spec_split_or_all(rest, BlockKind::ForeachKind).0;
                let rest2 = spec_split_or_all(rest, BlockKind::ForeachKind).1;
                lemma_stray_elses_le(body);
                lemma_stray_elses_le(rest2);
            } else {
                lemma_stray_elses_le(rest);
            }
        }
    }
}

/// Counts the stray `else` tags of a text, so that a caller can report the
/// diagnostic the design owes for each.
pub fn count_stray_elses(text: &str) -> (r: usize)
    ensures
        r as nat == spec_stray_elses(text@),
    decreases text@.len(),
{
    proof {
        reveal_strlit("{{");
        reveal_strlit("}}");
        lemma_stray_elses_le(text@);
    }
    let n = text.unicode_len();
    let o = match find_from(text, "{{", 0) {
        Some(o) => o,
        None => {
            return 0;
        },
    };
    proof {
        lemma_find_bounds(text@, "{{"@, 0);
    }
    let c = match find_from(text, "}}", o + 2) {
        Some(c) => c,
        None => {
            return 0;
        },
    };
    proof {
        lemma_find_bounds(text@, "}}"@, o + 2);
    }
    let tag = text.substring_char(o + 2, c);
    let toks = tokens(tag);
    let rest = text.substring_char(c + 2, n);
    let ghost stoks = spec_tokens(text@.subrange(o + 2, c as int));
    assert(toks.deep_view() == stoks);
    proof {
        if toks.len() >= 1 {
            assert(toks@[0]@ == stoks[0]);
        }
        if toks.len() >= 3 {
            assert(toks@[2]@ == stoks[2]);
        }
    }
    let is_if = toks.len() == 2 && str_eq(toks[0].as_str(), "if");
    assert(is_if == spec_opens(stoks, BlockKind::IfKind));
    let is_else = toks.len() == 1 && str_eq(toks[0].as_str(), "else");
    let is_fe = toks.len() == 4 && str_eq(toks[0].as_str(), "foreach") && str_eq(
        toks[2].as_str(),
        "as",
    );
    assert(is_fe == spec_opens(stoks, BlockKind::ForeachKind));
    if is_if {
        let (body, rest2) = match block_split(rest, BlockKind::IfKind, 0) {
            Some(p) => p,
            None => (String::from_str(rest), String::new()),
        };
        assert(body@ == spec_split_or_all(rest@, BlockKind::IfKind).0);
        assert(rest2@ == spec_split_or_all(rest@, BlockKind::IfKind).1);
        proof {
            lemma_block_split_len(rest@, BlockKind::IfKind, 0);
            lemma_else_split_len(body@, 0);
            lemma_stray_elses_le(body@);
            lemma_stray_elses_le(rest2@);
        }
        match else_split(body.as_str(), 0) {
            Some(p) => {
                let (tb, fb) = p;
                proof {
                    lemma_stray_elses_le(tb@);
                    lemma_stray_elses_le(fb@);
                }
                let a = count_stray_elses(tb.as_str());
                let b = count_stray_elses(fb.as_str());
                let d = count_stray_elses(rest2.as_str());
                a + b + d
            },
            None => {
                let a = count_stray_elses(body.as_str());
                let d = count_stray_elses(rest2.as_str());
                a + d
            },
        }
    } else if is_else {
        let d = count_stray_elses(rest);
        proof {
            lemma_stray_elses_le(rest@);
        }
        1 + d
    } else if is_fe {
        let (body, rest2) = match block_split(rest, BlockKind::ForeachKind, 0) {
            Some(p) => p,
            None => (String::from_str(rest), String::new()),
        };
        assert(body@ == spec_split_or_all(rest@, BlockKind::ForeachKind).0);
        assert(rest2@ == spec_split_or_all(rest@, BlockKind::ForeachKind).1);
        proof {
            lemma_block_split_len(rest@, BlockKind::ForeachKind, 0);
            lemma_stray_elses_le(body@);
            lemma_stray_elses_le(rest2@);
        }
        let a = count_stray_elses(body.as_str());
        let d = count_stray_elses(rest2.as_str());
        a + d
    } else {
        count_stray_elses(rest)
    }
}

} // verus!



