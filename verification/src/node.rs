//! The template node tree. Nodes live in one arena, addressed by index; a
//! well-formed arena only ever points from a node to earlier nodes, so every
//! tree is finite and acyclic by construction. `Tpl` is the mathematical tree
//! that an arena index denotes.

use vstd::prelude::*;

verus! {

use crate::strmap::Entries;
use crate::strmap::StrMap;

/// One node of a template tree. Child links are arena indices.
pub enum TemplateNode {
    Page {
        path: String,
        front_matter: StrMap,
        content_node: usize,
        output_path: String,
        parent: Option<usize>,
    },
    Layout {
        name: String,
        front_matter: StrMap,
        content_node: usize,
        parent: Option<usize>,
    },
    IfBlock { condition: String, true_branch: usize, false_branch: Option<usize> },
    ForEachBlock { key: String, item_name: String, body: usize },
    Func { name: String, args: Vec<String>, block_content: Option<String> },
    StringContent(String),
    Composite(Vec<usize>),
}

/// The tree that a template denotes. A page and a layout render alike, so
/// both appear as `Wrap`: front matter around a content tree, optionally
/// handed on to a parent tree.
pub enum Tpl {
    Wrap { front_matter: Entries, content: Box<Tpl>, parent: Option<Box<Tpl>> },
    If { condition: Seq<char>, true_branch: Box<Tpl>, false_branch: Option<Box<Tpl>> },
    Foreach { key: Seq<char>, item_name: Seq<char>, body: Box<Tpl> },
    Call { name: Seq<char>, args: Seq<Seq<char>>, block: Option<Seq<char>> },
    Lit { text: Seq<char> },
    Group { items: Seq<Tpl> },
}

/// Every child link of node `n` points strictly below position `i`.
pub open spec fn node_children_lt(n: TemplateNode, i: int) -> bool {
    match n {
        TemplateNode::Page { content_node, parent, .. } => content_node < i && (match parent {
            Some(p) => p < i,
            None => true,
        }),
        TemplateNode::Layout { content_node, parent, .. } => content_node < i && (match parent {
            Some(p) => p < i,
            None => true,
        }),
        TemplateNode::IfBlock { true_branch, false_branch, .. } => true_branch < i && (
        match false_branch {
            Some(f) => f < i,
            None => true,
        }),
        TemplateNode::ForEachBlock { body, .. } => body < i,
        TemplateNode::Composite(ids) => forall|j: int| 0 <= j < ids@.len() ==> ids@[j] < i,
        _ => true,
    }
}

/// A well-formed arena: every node points only to earlier nodes.
pub open spec fn wf_arena(nodes: Seq<TemplateNode>) -> bool {
    forall|i: int| 0 <= i < nodes.len() ==> node_children_lt(#[trigger] nodes[i], i)
}

/// The empty literal, the tree of any dangling reference.
pub open spec fn tpl_empty() -> Tpl {
    Tpl::Lit { text: Seq::empty() }
}

/// The tree denoted by arena position `i`.
pub open spec fn tree_of(nodes: Seq<TemplateNode>, i: int) -> Tpl
    decreases i + 1, 0int,
{
    if i < 0 || i >= nodes.len() {
        tpl_empty()
    } else {
        match nodes[i] {
            TemplateNode::Page { front_matter, content_node, parent, .. } => Tpl::Wrap {
                front_matter: front_matter@,
                content: Box::new(child_tree_of(nodes, content_node, i)),
                parent: match parent {
                    Some(p) => Some(Box::new(child_tree_of(nodes, p, i))),
                    None => None,
                },
            },
            TemplateNode::Layout { front_matter, content_node, parent, .. } => Tpl::Wrap {
                front_matter: front_matter@,
                content: Box::new(child_tree_of(nodes, content_node, i)),
                parent: match parent {
                    Some(p) => Some(Box::new(child_tree_of(nodes, p, i))),
                    None => None,
                },
            },
            TemplateNode::IfBlock { condition, true_branch, false_branch } => Tpl::If {
                condition: condition@,
                true_branch: Box::new(child_tree_of(nodes, true_branch, i)),
                false_branch: match false_branch {
                    Some(f) => Some(Box::new(child_tree_of(nodes, f, i))),
                    None => None,
                },
            },
            TemplateNode::ForEachBlock { key, item_name, body } => Tpl::Foreach {
                key: key@,
                item_name: item_name@,
                body: Box::new(child_tree_of(nodes, body, i)),
            },
            TemplateNode::Func { name, args, block_content } => Tpl::Call {
                name: name@,
                args: args.deep_view(),
                block: match block_content {
                    Some(b) => Some(b@),
                    None => None,
                },
            },
            TemplateNode::StringContent(s) => Tpl::Lit { text: s@ },
            TemplateNode::Composite(ids) => Tpl::Group { items: trees_of(nodes, ids@, i) },
        }
    }
}

/// The tree of a child reference, guarded so that only references below the
/// bound are followed.
pub open spec fn child_tree_of(nodes: Seq<TemplateNode>, c: usize, bound: int) -> Tpl
    decreases bound, 1int,
{
    if 0 <= (c as int) < bound {
        tree_of(nodes, c as int)
    } else {
        tpl_empty()
    }
}

/// The trees of a list of child references.
pub open spec fn trees_of(nodes: Seq<TemplateNode>, ids: Seq<usize>, bound: int) -> Seq<Tpl>
    decreases bound, 2 + ids.len(),
{
    if ids.len() == 0 {
        Seq::empty()
    } else {
        seq![child_tree_of(nodes, ids[0], bound)] + trees_of(nodes, ids.drop_first(), bound)
    }
}

/// Extending the arena does not change the tree of an existing position.
pub proof fn lemma_tree_of_extend(nodes: Seq<TemplateNode>, ext: Seq<TemplateNode>, i: int)
    requires
        nodes.len() <= ext.len(),
        forall|j: int| 0 <= j < nodes.len() ==> ext[j] == nodes[j],
        i < nodes.len(),
        wf_arena(nodes),
    ensures
        tree_of(ext, i) == tree_of(nodes, i),
    decreases i + 1, 0int,
{
    if 0 <= i {
        assert(ext[i] == nodes[i]);
        assert(node_children_lt(nodes[i], i));
        match nodes[i] {
            TemplateNode::Page { front_matter, content_node, parent, .. } => {
                lemma_child_tree_of_extend(nodes, ext, content_node, i);
                if let Some(p) = parent {
                    lemma_child_tree_of_extend(nodes, ext, p, i);
                }
            },
            TemplateNode::Layout { front_matter, content_node, parent, .. } => {
                lemma_child_tree_of_extend(nodes, ext, content_node, i);
                if let Some(p) = parent {
                    lemma_child_tree_of_extend(nodes, ext, p, i);
                }
            },
            TemplateNode::IfBlock { condition, true_branch, false_branch } => {
                lemma_child_tree_of_extend(nodes, ext, true_branch, i);
                if let Some(f) = false_branch {
                    lemma_child_tree_of_extend(nodes, ext, f, i);
                }
            },
            TemplateNode::ForEachBlock { key, item_name, body } => {
                lemma_child_tree_of_extend(nodes, ext, body, i);
            },
            TemplateNode::Composite(ids) => {
                lemma_trees_of_extend(nodes, ext, ids@, i);
            },
            _ => {},
        }
    }
}

proof fn lemma_child_tree_of_extend(
    nodes: Seq<TemplateNode>,
    ext: Seq<TemplateNode>,
    c: usize,
    bound: int,
)
    requires
        nodes.len() <= ext.len(),
        forall|j: int| 0 <= j < nodes.len() ==> ext[j] == nodes[j],
        bound <= nodes.len(),
        wf_arena(nodes),
    ensures
        child_tree_of(ext, c, bound) == child_tree_of(nodes, c, bound),
    decreases bound, 1int,
{
    if 0 <= (c as int) < bound {
        lemma_tree_of_extend(nodes, ext, c as int);
    }
}

proof fn lemma_trees_of_extend(
    nodes: Seq<TemplateNode>,
    ext: Seq<TemplateNode>,
    ids: Seq<usize>,
    bound: int,
)
    requires
        nodes.len() <= ext.len(),
        forall|j: int| 0 <= j < nodes.len() ==> ext[j] == nodes[j],
        bound <= nodes.len(),
        wf_arena(nodes),
    ensures
        trees_of(ext, ids, bound) == trees_of(nodes, ids, bound),
    decreases bound, 2 + ids.len(),
{
    if ids.len() > 0 {
        lemma_child_tree_of_extend(nodes, ext, ids[0], bound);
        lemma_trees_of_extend(nodes, ext, ids.drop_first(), bound);
    }
}


/// Inside bounds, `trees_of` is the elementwise `tree_of`.
pub proof fn lemma_trees_of_map(nodes: Seq<TemplateNode>, ids: Seq<usize>, bound: int)
    requires
        forall|j: int| 0 <= j < ids.len() ==> 0 <= (#[trigger] ids[j] as int) < bound,
    ensures
        trees_of(nodes, ids, bound) == Seq::new(ids.len(), |j: int| tree_of(nodes, ids[j] as int)),
    decreases ids.len(),
{
    if ids.len() == 0 {
        assert(trees_of(nodes, ids, bound) =~= Seq::new(
            ids.len(),
            |j: int| tree_of(nodes, ids[j] as int),
        ));
    } else {
        lemma_trees_of_map(nodes, ids.drop_first(), bound);
        assert(trees_of(nodes, ids, bound) =~= Seq::new(
            ids.len(),
            |j: int| tree_of(nodes, ids[j] as int),
        )) by {
            let ts = trees_of(nodes, ids, bound);
            assert(ts == seq![child_tree_of(nodes, ids[0], bound)] + trees_of(
                nodes,
                ids.drop_first(),
                bound,
            ));
            assert forall|j: int| 0 <= j < ids.len() implies trees_of(nodes, ids, bound)[j]
                == tree_of(nodes, ids[j] as int) by {
                if j == 0 {
                    assert(ts[0] == child_tree_of(nodes, ids[0], bound));
                    assert(0 <= (ids[0] as int) < bound);
                } else {
                    assert(trees_of(nodes, ids.drop_first(), bound)[j - 1] == tree_of(
                        nodes,
                        ids.drop_first()[j - 1] as int,
                    ));
                    assert(ids.drop_first()[j - 1] == ids[j]);
                }
            }
        }
    }
}


/// `post` extends `pre`: all old positions unchanged, new ones appended.
pub open spec fn arena_extended(pre: Seq<TemplateNode>, post: Seq<TemplateNode>) -> bool {
    post.len() >= pre.len() && forall|j: int| 0 <= j < pre.len() ==> post[j] == pre[j]
}


impl TemplateNode {
    /// Appends a page node to the arena and hands back its position.
    pub fn new_page(
        nodes: &mut Vec<TemplateNode>,
        path: String,
        front_matter: StrMap,
        content_node: usize,
        output_path: String,
        parent: Option<usize>,
    ) -> (id: usize)
        requires
            wf_arena(old(nodes)@),
            (content_node as int) < old(nodes)@.len(),
            parent matches Some(p) ==> (p as int) < old(nodes)@.len(),
        ensures
            arena_extended(old(nodes)@, final(nodes)@),
            final(nodes)@ == old(nodes)@.push(
                TemplateNode::Page { path, front_matter, content_node, output_path, parent },
            ),
            wf_arena(final(nodes)@),
            id as int == old(nodes)@.len(),
    {
        let node = TemplateNode::Page { path, front_matter, content_node, output_path, parent };
        assert(node_children_lt(node, nodes@.len() as int));
        crate::parse::push_node(nodes, node)
    }

    /// Appends a layout node to the arena and hands back its position.
    pub fn new_layout(
        nodes: &mut Vec<TemplateNode>,
        name: String,
        front_matter: StrMap,
        content_node: usize,
        parent: Option<usize>,
    ) -> (id: usize)
        requires
            wf_arena(old(nodes)@),
            (content_node as int) < old(nodes)@.len(),
            parent matches Some(p) ==> (p as int) < old(nodes)@.len(),
        ensures
            arena_extended(old(nodes)@, final(nodes)@),
            final(nodes)@ == old(nodes)@.push(
                TemplateNode::Layout { name, front_matter, content_node, parent },
            ),
            wf_arena(final(nodes)@),
            id as int == old(nodes)@.len(),
    {
        let node = TemplateNode::Layout { name, front_matter, content_node, parent };
        assert(node_children_lt(node, nodes@.len() as int));
        crate::parse::push_node(nodes, node)
    }

    /// The parent layout position of a page or layout node; other nodes have
    /// none.
    pub fn get_parent(&self) -> (r: Option<usize>)
        ensures
            r == (match self {
                TemplateNode::Page { parent, .. } => *parent,
                TemplateNode::Layout { parent, .. } => *parent,
                _ => None::<usize>,
            }),
    {
        match self {
            TemplateNode::Page { parent, .. } => *parent,
            TemplateNode::Layout { parent, .. } => *parent,
            _ => None,
        }
    }
}

} // verus!



