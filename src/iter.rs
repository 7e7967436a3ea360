use vstd::prelude::*;

use crate::node::{Node, NodeView, edges_view, lemma_branch_view};
use crate::path::{path_join, join_path};

verus! {

/// Some metadata for a node inside a tree.
#[derive(Debug, PartialEq, Eq, Clone, Copy)]
pub struct NodeMetadata {
    /// Level of the node. Root is at level 0.
    pub level: usize,
    /// Whether the node is the last of its siblings.
    pub last_sibling: bool,
}

/// Traversal element. Holds all relevant data from a node.
#[derive(Debug, PartialEq, Eq)]
pub struct Element {
    pub metadata: NodeMetadata,
    pub target_path: String,
    pub link_path: Option<String>,
}

/// The mathematical content of an [`Element`].
pub struct ElementView {
    pub level: nat,
    pub last_sibling: bool,
    pub target_path: Seq<char>,
    pub link_path: Option<Seq<char>>,
}

impl View for Element {
    type V = ElementView;

    open spec fn view(&self) -> ElementView {
        ElementView {
            level: self.metadata.level as nat,
            last_sibling: self.metadata.last_sibling,
            target_path: self.target_path@,
            link_path: match self.link_path {
                Some(l) => Some(l@),
                None => None,
            },
        }
    }
}

/// The views of some elements.
pub open spec fn elements_view(v: Seq<Element>) -> Seq<ElementView> {
    v.map_values(|e: Element| e@)
}

/// The link path of a leaf; none for a branch.
pub open spec fn leaf_link(node: NodeView) -> Option<Seq<char>> {
    match node {
        NodeView::Leaf(link) => Some(link),
        NodeView::Branch(_) => None,
    }
}

/// Preorder sequence of the nodes of `node`, which sits at `path` and `level`.
pub open spec fn preorder(node: NodeView, path: Seq<char>, level: nat, last: bool) -> Seq<ElementView>
    decreases node, 0nat,
{
    seq![ElementView { level, last_sibling: last, target_path: path, link_path: leaf_link(node) }]
        + match node {
        NodeView::Branch(edges) => preorder_edges(edges, path, level + 1, edges.len()),
        NodeView::Leaf(_) => Seq::empty(),
    }
}

/// Preorder sequence of the first `k` children of a branch at `path`; the children sit at `level`.
pub open spec fn preorder_edges(
    edges: Seq<(Seq<char>, NodeView)>,
    path: Seq<char>,
    level: nat,
    k: nat,
) -> Seq<ElementView>
    decreases edges, k,
{
    if k == 0 || k > edges.len() {
        Seq::empty()
    } else {
        preorder_edges(edges, path, level, (k - 1) as nat) + preorder(
            edges[k - 1].1,
            path_join(path, edges[k - 1].0),
            level,
            k == edges.len(),
        )
    }
}

/// Every node of `node`, placed at `level`, has a level that a `usize` holds.
pub open spec fn levels_fit(node: NodeView, level: nat) -> bool
    decreases node,
{
    level <= usize::MAX && match node {
        NodeView::Branch(edges) => forall|i: int|
            0 <= i < edges.len() ==> levels_fit(#[trigger] edges[i].1, level + 1),
        NodeView::Leaf(_) => true,
    }
}

/// A node waiting to be visited: the node, its target path, its level and whether it
/// is the last of its siblings.
type Pending<'a> = (&'a Node, String, usize, bool);

/// The elements still to come from a stack of pending nodes, the top (last) first.
pub open spec fn pending_elements(stack: Seq<(NodeView, Seq<char>, nat, bool)>) -> Seq<ElementView>
    decreases stack.len(),
{
    if stack.len() == 0 {
        Seq::empty()
    } else {
        let (node, path, level, last) = stack.last();
        preorder(node, path, level, last) + pending_elements(stack.drop_last())
    }
}

/// The elements of children `k` onward of a branch at `path`; the children sit at `level`.
pub open spec fn preorder_edges_from(
    edges: Seq<(Seq<char>, NodeView)>,
    path: Seq<char>,
    level: nat,
    k: int,
) -> Seq<ElementView>
    decreases edges.len() - k,
{
    if k < 0 || k >= edges.len() {
        Seq::empty()
    } else {
        preorder(edges[k].1, path_join(path, edges[k].0), level, k == edges.len() - 1)
            + preorder_edges_from(edges, path, level, k + 1)
    }
}

proof fn lemma_preorder_edges_split(
    edges: Seq<(Seq<char>, NodeView)>,
    path: Seq<char>,
    level: nat,
    k: int,
)
    requires
        0 <= k <= edges.len(),
    ensures
        preorder_edges(edges, path, level, k as nat) + preorder_edges_from(edges, path, level, k)
            == preorder_edges(edges, path, level, edges.len()),
    decreases edges.len() - k,
{
    if k < edges.len() {
        lemma_preorder_edges_split(edges, path, level, k + 1);
        assert(preorder_edges(edges, path, level, (k + 1) as nat) == preorder_edges(
            edges,
            path,
            level,
            k as nat,
        ) + preorder(edges[k].1, path_join(path, edges[k].0), level, k + 1 == edges.len()));
        assert(preorder_edges(edges, path, level, k as nat) + preorder_edges_from(edges, path, level, k)
            =~= preorder_edges(edges, path, level, (k + 1) as nat) + preorder_edges_from(
            edges,
            path,
            level,
            k + 1,
        ));
    } else {
        assert(preorder_edges(edges, path, level, k as nat) + preorder_edges_from(edges, path, level, k)
            =~= preorder_edges(edges, path, level, k as nat));
    }
}

/// The view of a stack of pending nodes.
pub open spec fn stack_view(stack: Seq<Pending>) -> Seq<(NodeView, Seq<char>, nat, bool)> {
    stack.map_values(|p: Pending| (p.0@, p.1@, p.2 as nat, p.3))
}

impl Node {
    /// The nodes of the tree rooted here in preorder, children in insertion order, each with
    /// its level, whether it is the last of its siblings, its target path (the segments
    /// from the root joined) and, for a leaf, its link path. The walk keeps an explicit
    /// stack of pending nodes, so its depth costs no call stack.
    pub fn elements(&self) -> (r: Vec<Element>)
        requires
            levels_fit(self@, 0),
        ensures
            elements_view(r@) == preorder(self@, Seq::empty(), 0, false),
    {
        let ghost goal = preorder(self@, Seq::empty(), 0, false);
        let mut out: Vec<Element> = Vec::new();
        let mut stack: Vec<Pending> = Vec::new();
        stack.push((self, String::new(), 0, false));
        proof {
            assert(stack_view(stack@).drop_last() =~= Seq::empty());
            assert(stack_view(stack@).last() == (self@, Seq::<char>::empty(), 0nat, false));
            assert(pending_elements(Seq::empty()) =~= Seq::empty());
            assert(elements_view(out@) =~= Seq::empty());
            assert(pending_elements(stack_view(stack@)) =~= goal);
        }
        while stack.len() > 0
            invariant
                elements_view(out@) + pending_elements(stack_view(stack@)) == goal,
                forall|j: int|
                    0 <= j < stack@.len() ==> levels_fit(#[trigger] stack@[j].0@, stack@[j].2 as nat),
            decreases pending_elements(stack_view(stack@)).len(),
        {
            let ghost whole = stack_view(stack@);
            let (node, path, level, last) = stack.pop().unwrap();
            let ghost rest = stack_view(stack@);
            proof {
                assert(rest =~= whole.drop_last());
                assert(whole.last() == (node@, path@, level as nat, last));
            }
            let link_path = match node {
                Node::Leaf(link) => Some(link.clone()),
                Node::Branch(_) => None,
            };
            let element = Element {
                metadata: NodeMetadata { level, last_sibling: last },
                target_path: path.clone(),
                link_path,
            };
            let ghost head = element@;
            let ghost out_before = elements_view(out@);
            out.push(element);
            proof {
                assert(elements_view(out@) =~= out_before.push(head));
            }
            match node {
                Node::Branch(edges) => {
                    proof {
                        lemma_branch_view(*edges);
                    }
                    let ghost view = edges_view(edges@);
                    proof {
                        assert(levels_fit(NodeView::Branch(view), level as nat));
                        assert(NodeView::Branch(view)->Branch_0 == view);
                        lemma_preorder_edges_split(view, path@, (level + 1) as nat, view.len() as int);
                        assert(preorder_edges_from(view, path@, (level + 1) as nat, view.len() as int)
                            =~= Seq::empty());
                        assert(pending_elements(stack_view(stack@)) =~= preorder_edges_from(
                            view,
                            path@,
                            (level + 1) as nat,
                            view.len() as int,
                        ) + pending_elements(rest));
                    }
                    let n = edges.len();
                    let mut k: usize = n;
                    while k > 0
                        invariant
                            k <= n,
                            n == edges.len(),
                            view == edges_view(edges@),
                            levels_fit(NodeView::Branch(view), level as nat),
                            pending_elements(stack_view(stack@)) == preorder_edges_from(
                                view,
                                path@,
                                (level + 1) as nat,
                                k as int,
                            ) + pending_elements(rest),
                            forall|j: int|
                                0 <= j < stack@.len() ==> levels_fit(
                                    #[trigger] stack@[j].0@,
                                    stack@[j].2 as nat,
                                ),
                        decreases k,
                    {
                        let j = k - 1;
                        assert(NodeView::Branch(view)->Branch_0 == view);
                        assert(levels_fit(view[j as int].1, (level + 1) as nat));
                        let child_path = join_path(path.as_str(), edges[j].0.as_str());
                        let ghost before = stack_view(stack@);
                        stack.push((&edges[j].1, child_path, level + 1, j + 1 == n));
                        proof {
                            assert(stack_view(stack@).drop_last() =~= before);
                            assert(stack_view(stack@).last() == (
                                view[j as int].1,
                                path_join(path@, view[j as int].0),
                                (level + 1) as nat,
                                j + 1 == n,
                            ));
                            assert(preorder_edges_from(view, path@, (level + 1) as nat, j as int)
                                == preorder(
                                view[j as int].1,
                                path_join(path@, view[j as int].0),
                                (level + 1) as nat,
                                j == view.len() - 1,
                            ) + preorder_edges_from(view, path@, (level + 1) as nat, k as int));
                            assert(pending_elements(stack_view(stack@)) =~= preorder_edges_from(
                                view,
                                path@,
                                (level + 1) as nat,
                                j as int,
                            ) + pending_elements(rest));
                        }
                        k = j;
                    }
                    proof {
                        lemma_preorder_edges_split(view, path@, (level + 1) as nat, 0);
                        assert(preorder_edges(view, path@, (level + 1) as nat, 0) =~= Seq::empty());
                        assert(preorder(node@, path@, level as nat, last) =~= seq![head]
                            + preorder_edges(view, path@, (level + 1) as nat, view.len()));
                        assert(elements_view(out@) + pending_elements(stack_view(stack@)) =~= goal);
                    }
                },
                Node::Leaf(_) => {
                    proof {
                        assert(preorder(node@, path@, level as nat, last) =~= seq![head]);
                        assert(elements_view(out@) + pending_elements(stack_view(stack@)) =~= goal);
                    }
                },
            }
        }
        proof {
            assert(elements_view(out@) =~= goal);
        }
        out
    }
}

} // verus!
