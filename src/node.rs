use vstd::prelude::*;

verus! {

/// Possible states a link node can be in.
#[derive(Debug, PartialEq, Eq, Clone, Copy, Structural)]
pub enum Status {
    /// Unknown state, probably because the node wasn't analyzed.
    Unknown,
    /// The target can be symlinked without any conflicts.
    Ready,
    /// The target is already symlinked accordingly.
    Done,
    /// Link exists, but points to a different target.
    Mismatch,
    /// Target can be created but the parent directory will need to be created as well.
    Unparented,
    /// Another file already exists in the link path.
    Conflict,
    /// The file supposed to serve as the link directory is not a directory.
    Obstructed,
}

/// Why a path could not be inserted into a node.
#[derive(Debug, PartialEq, Eq)]
pub enum Error {
    /// The segment (first field) would have to extend a leaf; the second field is the link path.
    NotABranch(String, String),
    /// A leaf already sits at the segment (first field); the second field is the link path.
    LeafExists(String, String),
    /// No segment was given.
    EmptySegment,
}

/// The mathematical content of an [`Error`].
pub enum ErrorView {
    NotABranch(Seq<char>, Seq<char>),
    LeafExists(Seq<char>, Seq<char>),
    EmptySegment,
}

impl View for Error {
    type V = ErrorView;

    open spec fn view(&self) -> ErrorView {
        match self {
            Error::NotABranch(key, link) => ErrorView::NotABranch(key@, link@),
            Error::LeafExists(key, link) => ErrorView::LeafExists(key@, link@),
            Error::EmptySegment => ErrorView::EmptySegment,
        }
    }
}

/// A vector of edges.
pub type Edges = Vec<(String, Node)>;

/// Node for a recursive tree that holds symlink paths. It is either a branch, whose
/// edges keep the order in which they were added, or a leaf holding a link path.
#[derive(Debug, PartialEq, Eq)]
pub enum Node {
    Branch(Edges),
    Leaf(String),
}

/// The mathematical content of a [`Node`]: segments and link paths as character sequences.
pub enum NodeView {
    Branch(Seq<(Seq<char>, NodeView)>),
    Leaf(Seq<char>),
}

/// The view of a node, built edge by edge.
pub open spec fn node_view(node: Node) -> NodeView
    decreases node,
{
    match node {
        Node::Branch(edges) => NodeView::Branch(
            Seq::new(
                edges@.len(),
                |i: int|
                    if 0 <= i < edges@.len() {
                        (edges@[i].0@, node_view(edges@[i].1))
                    } else {
                        (Seq::empty(), NodeView::Leaf(Seq::empty()))
                    },
            ),
        ),
        Node::Leaf(link) => NodeView::Leaf(link@),
    }
}

impl View for Node {
    type V = NodeView;

    open spec fn view(&self) -> NodeView {
        node_view(*self)
    }
}

/// The character sequences of a list of strings.
pub open spec fn strings_view(v: Seq<String>) -> Seq<Seq<char>> {
    v.map_values(|s: String| s@)
}

/// Index of the first edge whose segment is `key`, or -1 when there is none.
pub open spec fn edge_position(edges: Seq<(Seq<char>, NodeView)>, key: Seq<char>) -> int
    decreases edges.len(),
{
    if edges.len() == 0 {
        -1
    } else {
        let p = edge_position(edges.drop_last(), key);
        if p >= 0 {
            p
        } else if edges.last().0 == key {
            edges.len() - 1
        } else {
            -1
        }
    }
}

/// What inserting the path `segs`, ending in a leaf with link `link`, makes of `node`.
pub open spec fn add_spec(node: NodeView, segs: Seq<Seq<char>>, link: Seq<char>) -> Result<
    NodeView,
    ErrorView,
>
    decreases segs.len(),
{
    if segs.len() == 0 {
        Err(ErrorView::EmptySegment)
    } else {
        let key = segs[0];
        let rest = segs.drop_first();
        match node {
            NodeView::Leaf(_) => Err(ErrorView::NotABranch(key, link)),
            NodeView::Branch(edges) => {
                let p = edge_position(edges, key);
                if rest.len() == 0 {
                    if p >= 0 {
                        Err(ErrorView::LeafExists(key, link))
                    } else {
                        Ok(NodeView::Branch(edges.push((key, NodeView::Leaf(link)))))
                    }
                } else if p >= 0 {
                    match add_spec(edges[p].1, rest, link) {
                        Ok(child) => Ok(NodeView::Branch(edges.update(p, (key, child)))),
                        Err(e) => Err(e),
                    }
                } else {
                    match add_spec(NodeView::Branch(Seq::empty()), rest, link) {
                        Ok(child) => Ok(NodeView::Branch(edges.push((key, child)))),
                        Err(e) => Err(e),
                    }
                }
            },
        }
    }
}

pub(crate) proof fn lemma_edge_position_bounds(edges: Seq<(Seq<char>, NodeView)>, key: Seq<char>)
    ensures
        -1 <= edge_position(edges, key) < edges.len(),
        edge_position(edges, key) >= 0 ==> edges[edge_position(edges, key)].0 == key,
    decreases edges.len(),
{
    if edges.len() > 0 {
        lemma_edge_position_bounds(edges.drop_last(), key);
    }
}

/// Insertion never reorders a branch: the edges that were there keep their segments and
/// their order, and at most one edge is added, at the end.
pub proof fn lemma_add_keeps_order(node: NodeView, segs: Seq<Seq<char>>, link: Seq<char>)
    requires
        node is Branch,
        add_spec(node, segs, link) is Ok,
    ensures
        ({
            let before = node->Branch_0;
            let after = add_spec(node, segs, link)->Ok_0->Branch_0;
            &&& add_spec(node, segs, link)->Ok_0 is Branch
            &&& after.len() == before.len() || after.len() == before.len() + 1
            &&& forall|i: int| 0 <= i < before.len() ==> (#[trigger] after[i]).0 == before[i].0
            &&& after.len() == before.len() + 1 ==> after.last().0 == segs[0]
        }),
{
    lemma_edge_position_bounds(node->Branch_0, segs[0]);
}

/// The views of the edges of a branch.
pub open spec fn edges_view(edges: Seq<(String, Node)>) -> Seq<(Seq<char>, NodeView)> {
    Seq::new(edges.len(), |i: int| (edges[i].0@, edges[i].1@))
}

pub proof fn lemma_branch_view(edges: Edges)
    ensures
        Node::Branch(edges)@ == NodeView::Branch(edges_view(edges@)),
{
    let v = Node::Branch(edges)@->Branch_0;
    assert(v.len() == edges@.len());
    assert forall|i: int| 0 <= i < v.len() implies v[i] == edges_view(edges@)[i] by {}
    assert(v =~= edges_view(edges@));
}

proof fn lemma_edge_position_prefix(edges: Seq<(Seq<char>, NodeView)>, key: Seq<char>, k: int)
    requires
        0 <= k <= edges.len(),
        edge_position(edges.subrange(0, k), key) >= 0,
    ensures
        edge_position(edges, key) == edge_position(edges.subrange(0, k), key),
    decreases edges.len() - k,
{
    if k < edges.len() {
        assert(edges.subrange(0, k + 1).drop_last() =~= edges.subrange(0, k));
        lemma_edge_position_prefix(edges, key, k + 1);
    } else {
        assert(edges.subrange(0, k) =~= edges);
    }
}

proof fn lemma_edge_position_same_keys(
    a: Seq<(Seq<char>, NodeView)>,
    b: Seq<(Seq<char>, NodeView)>,
    key: Seq<char>,
)
    requires
        a.len() == b.len(),
        forall|i: int| 0 <= i < a.len() ==> #[trigger] a[i].0 == b[i].0,
    ensures
        edge_position(a, key) == edge_position(b, key),
    decreases a.len(),
{
    if a.len() > 0 {
        lemma_edge_position_same_keys(a.drop_last(), b.drop_last(), key);
    }
}

proof fn lemma_edge_position_push(edges: Seq<(Seq<char>, NodeView)>, key: Seq<char>, child: NodeView)
    requires
        edge_position(edges, key) == -1,
    ensures
        edge_position(edges.push((key, child)), key) == edges.len(),
{
    assert(edges.push((key, child)).drop_last() =~= edges);
}

proof fn lemma_edge_position_update(edges: Seq<(Seq<char>, NodeView)>, key: Seq<char>, child: NodeView)
    requires
        edge_position(edges, key) >= 0,
    ensures
        edge_position(edges.update(edge_position(edges, key), (key, child)), key) == edge_position(
            edges,
            key,
        ),
{
    lemma_edge_position_bounds(edges, key);
    lemma_edge_position_same_keys(edges, edges.update(edge_position(edges, key), (key, child)), key);
}

/// A path that was just inserted cannot be inserted again: whatever the new link path, the
/// insertion fails with `LeafExists` at the path's last segment.
pub proof fn lemma_add_twice_leaf_exists(
    node: NodeView,
    segs: Seq<Seq<char>>,
    link: Seq<char>,
    other_link: Seq<char>,
)
    requires
        add_spec(node, segs, link) is Ok,
    ensures
        add_spec(add_spec(node, segs, link)->Ok_0, segs, other_link) == Err::<NodeView, ErrorView>(
            ErrorView::LeafExists(segs.last(), other_link),
        ),
    decreases segs.len(),
{
    let key = segs[0];
    let rest = segs.drop_first();
    let edges = node->Branch_0;
    let p = edge_position(edges, key);
    lemma_edge_position_bounds(edges, key);
    if rest.len() == 0 {
        lemma_edge_position_push(edges, key, NodeView::Leaf(link));
    } else if p >= 0 {
        lemma_add_twice_leaf_exists(edges[p].1, rest, link, other_link);
        lemma_edge_position_update(edges, key, add_spec(edges[p].1, rest, link)->Ok_0);
    } else {
        lemma_add_twice_leaf_exists(NodeView::Branch(Seq::empty()), rest, link, other_link);
        lemma_edge_position_push(edges, key, add_spec(NodeView::Branch(Seq::empty()), rest, link)->Ok_0);
    }
}

/// A leaf cannot be extended: once a path is inserted, inserting a longer path that starts
/// with it fails with `NotABranch` at the first extra segment.
pub proof fn lemma_extend_leaf_not_a_branch(
    node: NodeView,
    segs: Seq<Seq<char>>,
    link: Seq<char>,
    more: Seq<Seq<char>>,
    other_link: Seq<char>,
)
    requires
        add_spec(node, segs, link) is Ok,
        more.len() > 0,
    ensures
        add_spec(add_spec(node, segs, link)->Ok_0, segs + more, other_link) == Err::<
            NodeView,
            ErrorView,
        >(ErrorView::NotABranch(more[0], other_link)),
    decreases segs.len(),
{
    let key = segs[0];
    let rest = segs.drop_first();
    let edges = node->Branch_0;
    let p = edge_position(edges, key);
    lemma_edge_position_bounds(edges, key);
    assert((segs + more)[0] == key);
    assert((segs + more).drop_first() =~= rest + more);
    if rest.len() == 0 {
        lemma_edge_position_push(edges, key, NodeView::Leaf(link));
        assert(rest + more =~= more);
        assert(add_spec(NodeView::Leaf(link), more, other_link) == Err::<NodeView, ErrorView>(
            ErrorView::NotABranch(more[0], other_link),
        ));
    } else if p >= 0 {
        lemma_extend_leaf_not_a_branch(edges[p].1, rest, link, more, other_link);
        lemma_edge_position_update(edges, key, add_spec(edges[p].1, rest, link)->Ok_0);
    } else {
        lemma_extend_leaf_not_a_branch(NodeView::Branch(Seq::empty()), rest, link, more, other_link);
        assert(edges.push((key, add_spec(NodeView::Branch(Seq::empty()), rest, link)->Ok_0))[edges.len() as int].1
            == add_spec(NodeView::Branch(Seq::empty()), rest, link)->Ok_0);
        lemma_edge_position_push(edges, key, add_spec(NodeView::Branch(Seq::empty()), rest, link)->Ok_0);
    }
}

/// Finds the first edge whose segment equals `key`.
fn find_edge(edges: &Edges, key: &String) -> (r: Option<usize>)
    ensures
        match r {
            Some(i) => edge_position(edges_view(edges@), key@) == i as int,
            None => edge_position(edges_view(edges@), key@) == -1,
        },
{
    let ghost view = edges_view(edges@);
    let mut i: usize = 0;
    while i < edges.len()
        invariant
            i <= edges.len(),
            view == edges_view(edges@),
            edge_position(view.subrange(0, i as int), key@) == -1,
        decreases edges.len() - i,
    {
        assert(view.subrange(0, i + 1).drop_last() =~= view.subrange(0, i as int));
        if edges[i].0 == *key {
            proof {
                lemma_edge_position_prefix(view, key@, i + 1);
            }
            return Some(i);
        }
        i += 1;
    }
    assert(view.subrange(0, i as int) =~= view);
    None
}

impl Node {
    /// Adds a new path to the node: each segment becomes a branch, but the last, which
    /// becomes a leaf holding `link_path`. On error the node is left as it was.
    pub fn add(&mut self, segments: Vec<String>, link_path: String) -> (r: Result<(), Error>)
        ensures
            match add_spec(old(self)@, strings_view(segments@), link_path@) {
                Ok(v) => r is Ok && final(self)@ == v,
                Err(e) => r is Err && r->Err_0@ == e && final(self)@ == old(self)@,
            },
        decreases segments@.len(),
    {
        if segments.len() == 0 {
            return Err(Error::EmptySegment);
        }
        let mut rest = segments;
        let key = rest.remove(0);
        proof {
            assert(strings_view(rest@) =~= strings_view(segments@).drop_first());
        }
        match self {
            Node::Leaf(_) => Err(Error::NotABranch(key, link_path)),
            Node::Branch(edges) => {
                let ghost old_edges = *edges;
                proof {
                    lemma_branch_view(old_edges);
                }
                let pos = find_edge(edges, &key);
                if rest.len() == 0 {
                    if pos.is_some() {
                        return Err(Error::LeafExists(key, link_path));
                    }
                    edges.push((key, Node::Leaf(link_path)));
                    proof {
                        lemma_branch_view(*edges);
                        assert(edges_view(edges@) =~= edges_view(old_edges@).push(
                            (key@, NodeView::Leaf(link_path@)),
                        ));
                    }
                    Ok(())
                } else if let Some(i) = pos {
                    proof {
                        lemma_edge_position_bounds(edges_view(old_edges@), key@);
                    }
                    let child = &mut edges[i].1;
                    let r = child.add(rest, link_path);
                    proof {
                        lemma_branch_view(*edges);
                        if r is Ok {
                            assert(edges_view(edges@) =~= edges_view(old_edges@).update(
                                i as int,
                                (key@, edges@[i as int].1@),
                            ));
                        } else {
                            assert(edges_view(edges@) =~= edges_view(old_edges@));
                        }
                    }
                    r
                } else {
                    let empty: Edges = Vec::new();
                    proof {
                        lemma_branch_view(empty);
                        assert(edges_view(empty@) =~= Seq::empty());
                    }
                    let mut branch = Node::Branch(empty);
                    match branch.add(rest, link_path) {
                        Ok(()) => {
                            edges.push((key, branch));
                            proof {
                                lemma_branch_view(*edges);
                                assert(edges_view(edges@) =~= edges_view(old_edges@).push(
                                    (key@, branch@),
                                ));
                            }
                            Ok(())
                        },
                        Err(e) => Err(e),
                    }
                }
            },
        }
    }
}

impl Node {
    /// Returns the node's children if it's a branch, otherwise returns None.
    pub fn get_children(&self) -> (r: Option<&Edges>)
        ensures
            match self {
                Node::Branch(edges) => r == Some(edges),
                Node::Leaf(_) => r is None,
            },
    {
        match self {
            Node::Branch(edges) => Some(edges),
            Node::Leaf(_) => None,
        }
    }

    /// Returns the node's link path if it's a leaf, otherwise returns None.
    pub fn get_link_path(&self) -> (r: Option<&String>)
        ensures
            match self {
                Node::Branch(_) => r is None,
                Node::Leaf(link) => r == Some(link),
            },
    {
        match self {
            Node::Branch(_) => None,
            Node::Leaf(link) => Some(link),
        }
    }
}

} // verus!
