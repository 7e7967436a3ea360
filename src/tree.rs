use vstd::prelude::*;

use crate::config::{Config, Tags, Target, opt_strings};
use crate::error::Error;
use crate::iter::{elements_view, levels_fit, preorder, ElementView};
use crate::node::{
    add_spec, edge_position, lemma_edge_position_bounds, strings_view, Error as NodeError, ErrorView,
    Node, NodeView, Status,
};
use crate::path::{join_path, path_join, path_segments, split_path};
use crate::select::{is_selected, selected};
use crate::status::{blocks, classify, probe_status, LinkOpts, Probe};

verus! {

/// Structure representing all dotfiles after reading a configuration.
#[derive(Debug, PartialEq, Eq)]
pub struct Tree {
    /// The root branch; its leaves are the managed targets.
    pub root: Node,
    /// Directory that holds the targets.
    pub work_dir: String,
    /// Status of each leaf, in preorder; a leaf past the end is `Unknown`.
    pub statuses: Vec<Status>,
    /// Policy that decides which statuses can be acted upon.
    pub link_opts: LinkOpts,
}

/// The conjunctive tag set of a target, none when absent.
pub open spec fn all_of_tags(target: Target) -> Seq<Seq<char>> {
    match target.tags {
        Some(tags) => opt_strings(tags.all_of),
        None => Seq::empty(),
    }
}

/// The disjunctive tag set of a target, none when absent.
pub open spec fn any_of_tags(target: Target) -> Seq<Seq<char>> {
    match target.tags {
        Some(tags) => opt_strings(tags.any_of),
        None => Seq::empty(),
    }
}

/// The directory a target's link goes in.
pub open spec fn link_base(target: Target, default_base: Seq<char>) -> Seq<char> {
    match target.link {
        Some(link) => match link.base_dir {
            Some(base) => base@,
            None => default_base,
        },
        None => default_base,
    }
}

/// The last of some segments; empty when there is none.
pub open spec fn last_segment(segs: Seq<Seq<char>>) -> Seq<char> {
    if segs.len() > 0 {
        segs.last()
    } else {
        Seq::empty()
    }
}

/// The name of a target's link: the explicit one when it is not empty, else the
/// last segment of the target path.
pub open spec fn link_name(path: Seq<char>, target: Target) -> Seq<char> {
    match target.link {
        Some(link) => match link.name {
            Some(name) => if name@.len() > 0 {
                name@
            } else {
                last_segment(path_segments(path))
            },
            None => last_segment(path_segments(path)),
        },
        None => last_segment(path_segments(path)),
    }
}

/// Where the symlink of a target is created.
pub open spec fn link_path_of(path: Seq<char>, target: Target, default_base: Seq<char>) -> Seq<char> {
    path_join(link_base(target, default_base), link_name(path, target))
}

/// The node made by inserting, in order, each selected target of `targets` into `root`;
/// or the first insertion error.
pub open spec fn insert_targets(
    root: NodeView,
    targets: Seq<(String, Target)>,
    default_base: Seq<char>,
    runtime: Seq<Seq<char>>,
    names: Seq<Seq<char>>,
) -> Result<NodeView, ErrorView>
    decreases targets.len(),
{
    if targets.len() == 0 {
        Ok(root)
    } else {
        match insert_targets(root, targets.drop_last(), default_base, runtime, names) {
            Err(e) => Err(e),
            Ok(node) => {
                let (path, target) = targets.last();
                if selected(path@, all_of_tags(target), any_of_tags(target), runtime, names) {
                    add_spec(
                        node,
                        path_segments(path@),
                        link_path_of(path@, target, default_base),
                    )
                } else {
                    Ok(node)
                }
            },
        }
    }
}

proof fn lemma_add_levels_fit(node: NodeView, segs: Seq<Seq<char>>, link: Seq<char>, level: nat)
    requires
        levels_fit(node, level),
        level + segs.len() <= usize::MAX,
        add_spec(node, segs, link) is Ok,
    ensures
        levels_fit(add_spec(node, segs, link)->Ok_0, level),
    decreases segs.len(),
{
    let key = segs[0];
    let rest = segs.drop_first();
    let edges = node->Branch_0;
    let p = edge_position(edges, key);
    lemma_edge_position_bounds(edges, key);
    let result = add_spec(node, segs, link)->Ok_0;
    if rest.len() == 0 {
        let e2 = edges.push((key, NodeView::Leaf(link)));
        assert(result == NodeView::Branch(e2));
        assert forall|i: int| 0 <= i < e2.len() implies levels_fit(#[trigger] e2[i].1, level + 1) by {
            if i < edges.len() {
                assert(e2[i] == edges[i]);
            }
        }
    } else if p >= 0 {
        lemma_add_levels_fit(edges[p].1, rest, link, level + 1);
        let e2 = edges.update(p, (key, add_spec(edges[p].1, rest, link)->Ok_0));
        assert(result == NodeView::Branch(e2));
        assert forall|i: int| 0 <= i < e2.len() implies levels_fit(#[trigger] e2[i].1, level + 1) by {
            if i != p {
                assert(e2[i] == edges[i]);
            }
        }
    } else {
        let empty = NodeView::Branch(Seq::empty());
        assert(levels_fit(empty, level + 1));
        lemma_add_levels_fit(empty, rest, link, level + 1);
        let e2 = edges.push((key, add_spec(empty, rest, link)->Ok_0));
        assert(result == NodeView::Branch(e2));
        assert forall|i: int| 0 <= i < e2.len() implies levels_fit(#[trigger] e2[i].1, level + 1) by {
            if i < edges.len() {
                assert(e2[i] == edges[i]);
            }
        }
    }
}

/// The default for an absent list of strings.
fn strings_or_empty(v: Option<Vec<String>>) -> (r: Vec<String>)
    ensures
        strings_view(r@) == opt_strings(v),
{
    match v {
        Some(v) => v,
        None => {
            let r: Vec<String> = Vec::new();
            assert(strings_view(r@) =~= Seq::empty());
            r
        },
    }
}

/// Computes where the symlink of the target at `path` goes.
fn resolve_link_path(path: &String, segments: &Vec<String>, target: &Target, default_base: &String) -> (r: String)
    requires
        strings_view(segments@) == path_segments(path@),
    ensures
        r@ == link_path_of(path@, *target, default_base@),
{
    let base: &String = match &target.link {
        Some(link) => match &link.base_dir {
            Some(base) => base,
            None => default_base,
        },
        None => default_base,
    };
    if let Some(link) = &target.link {
        if let Some(name) = &link.name {
            if !name.as_str().is_empty() {
                assert(link_name(path@, *target) == name@);
                return join_path(base.as_str(), name.as_str());
            }
        }
    }
    assert(link_name(path@, *target) == last_segment(path_segments(path@)));
    if segments.len() > 0 {
        let last = &segments[segments.len() - 1];
        assert(strings_view(segments@).last() == last@);
        join_path(base.as_str(), last.as_str())
    } else {
        proof {
            reveal_strlit("");
            assert(""@ =~= Seq::<char>::empty());
        }
        join_path(base.as_str(), "")
    }
}

/// The targets of a configuration, none when absent.
pub open spec fn config_targets(config: Config) -> Seq<(String, Target)> {
    match config.targets {
        Some(targets) => targets@,
        None => Seq::empty(),
    }
}

/// The directory that holds the targets: the configured one, else `current_dir`.
pub open spec fn config_work_dir(config: Config, current_dir: Seq<char>) -> Seq<char> {
    match config.work_dir {
        Some(dir) => dir@,
        None => current_dir,
    }
}

/// The node that parsing `config` builds, given the runtime tags and the name filter.
pub open spec fn parse_spec(config: Config, tags: Seq<Seq<char>>, names: Seq<Seq<char>>) -> Result<
    NodeView,
    ErrorView,
> {
    insert_targets(
        NodeView::Branch(Seq::empty()),
        config_targets(config),
        config.base_dir@,
        tags + opt_strings(config.tags),
        names,
    )
}

impl Tree {
    /// The tree's levels fit in a `usize`.
    pub open spec fn wf(&self) -> bool {
        levels_fit(self.root@, 0)
    }

    /// Builds the tree of a configuration. `filters` holds the runtime tags, to which
    /// the configuration's default tags are added, and the target names to keep (all
    /// when empty). Each selected target, in order, is inserted segment by segment
    /// with its resolved link path. `current_dir` is the work directory unless the
    /// configuration names one.
    pub fn parse(
        config: Config,
        filters: (Vec<String>, Vec<String>),
        link_opts: LinkOpts,
        current_dir: String,
    ) -> (r: Result<Tree, NodeError>)
        ensures
            match parse_spec(config, strings_view(filters.0@), strings_view(filters.1@)) {
                Ok(root) => r is Ok && r->Ok_0.root@ == root && r->Ok_0.wf()
                    && r->Ok_0.work_dir@ == config_work_dir(config, current_dir@)
                    && r->Ok_0.statuses@.len() == 0 && r->Ok_0.link_opts == link_opts,
                Err(e) => r is Err && r->Err_0@ == e,
            },
    {
        let ghost cfg = config;
        let Config { tags, base_dir, work_dir, targets } = config;
        let (mut runtime, names) = filters;
        let ghost runtime_tags = strings_view(runtime@);
        let mut defaults = strings_or_empty(tags);
        runtime.append(&mut defaults);
        proof {
            assert(strings_view(runtime@) =~= runtime_tags + opt_strings(cfg.tags));
        }
        let targets: Vec<(String, Target)> = match targets {
            Some(targets) => targets,
            None => Vec::new(),
        };
        let work_dir = match work_dir {
            Some(dir) => dir,
            None => current_dir,
        };
        let ghost all = targets@;
        let ghost runtime_view = strings_view(runtime@);
        let ghost names_view = strings_view(names@);
        let empty: Vec<(String, Node)> = Vec::new();
        proof {
            crate::node::lemma_branch_view(empty);
            assert(crate::node::edges_view(empty@) =~= Seq::empty());
            assert(all.subrange(0, 0) =~= Seq::empty());
        }
        let mut root = Node::Branch(empty);
        let no_tags = Tags { all_of: None, any_of: None };
        let mut i: usize = 0;
        while i < targets.len()
            invariant
                i <= targets.len(),
                all == targets@,
                all == config_targets(cfg),
                cfg == config,
                base_dir == cfg.base_dir,
                runtime_view == strings_view(runtime@),
                names_view == strings_view(names@),
                runtime_view == strings_view(filters.0@) + opt_strings(cfg.tags),
                names_view == strings_view(filters.1@),
                no_tags.all_of is None && no_tags.any_of is None,
                insert_targets(
                    NodeView::Branch(Seq::empty()),
                    all.subrange(0, i as int),
                    base_dir@,
                    runtime_view,
                    names_view,
                ) == Ok::<NodeView, ErrorView>(root@),
                levels_fit(root@, 0),
            decreases targets.len() - i,
        {
            let entry = &targets[i];
            let path = &entry.0;
            let target = &entry.1;
            proof {
                assert(all.subrange(0, i + 1).drop_last() =~= all.subrange(0, i as int));
                assert(all.subrange(0, i + 1).last() == *entry);
            }
            let tags: &Tags = match &target.tags {
                Some(tags) => tags,
                None => &no_tags,
            };
            if is_selected(path, tags, &runtime, &names) {
                let segments = split_path(path.as_str());
                let link_path = resolve_link_path(path, &segments, target, &base_dir);
                let ghost before = root@;
                let n_segments = segments.len();
                proof {
                    assert(path_segments(path@).len() == n_segments);
                }
                match root.add(segments, link_path) {
                    Ok(()) => {
                        proof {
                            lemma_add_levels_fit(
                                before,
                                path_segments(path@),
                                link_path_of(path@, *target, base_dir@),
                                0,
                            );
                        }
                    },
                    Err(e) => {
                        proof {
                            assert(insert_targets(
                                NodeView::Branch(Seq::empty()),
                                all.subrange(0, i + 1),
                                base_dir@,
                                runtime_view,
                                names_view,
                            ) == Err::<NodeView, ErrorView>(e@));
                            lemma_insert_targets_err(all, i + 1, base_dir@, runtime_view, names_view);
                            assert(runtime_view == strings_view(filters.0@) + opt_strings(cfg.tags));
                            assert(names_view == strings_view(filters.1@));
                            assert(parse_spec(cfg, strings_view(filters.0@), strings_view(filters.1@)) == Err::<NodeView, ErrorView>(e@));
                        }
                        return Err(e);
                    },
                }
            }
            i += 1;
        }
        proof {
            assert(all.subrange(0, i as int) =~= all);
        }
        Ok(Tree { root, work_dir, statuses: Vec::new(), link_opts })
    }
}

/// Once an insertion fails, the whole sequence of insertions fails with that error.
proof fn lemma_insert_targets_err(
    all: Seq<(String, Target)>,
    k: int,
    default_base: Seq<char>,
    runtime: Seq<Seq<char>>,
    names: Seq<Seq<char>>,
)
    requires
        0 <= k <= all.len(),
        insert_targets(NodeView::Branch(Seq::empty()), all.subrange(0, k), default_base, runtime, names) is Err,
    ensures
        insert_targets(NodeView::Branch(Seq::empty()), all, default_base, runtime, names) == insert_targets(
            NodeView::Branch(Seq::empty()),
            all.subrange(0, k),
            default_base,
            runtime,
            names,
        ),
    decreases all.len() - k,
{
    if k < all.len() {
        assert(all.subrange(0, k + 1).drop_last() =~= all.subrange(0, k));
        lemma_insert_targets_err(all, k + 1, default_base, runtime, names);
    } else {
        assert(all.subrange(0, k) =~= all);
    }
}

/// The (target path, link path) of each leaf among `elems`, in order.
pub open spec fn leaf_entries(elems: Seq<ElementView>) -> Seq<(Seq<char>, Seq<char>)>
    decreases elems.len(),
{
    if elems.len() == 0 {
        Seq::empty()
    } else {
        let before = leaf_entries(elems.drop_last());
        match elems.last().link_path {
            Some(link) => before.push((elems.last().target_path, link)),
            None => before,
        }
    }
}

/// The (target path, link path) of each leaf of `root`, in preorder.
pub open spec fn leaves_of(root: NodeView) -> Seq<(Seq<char>, Seq<char>)> {
    leaf_entries(preorder(root, Seq::empty(), 0, false))
}

/// The views of some pairs of strings.
pub open spec fn pairs_view(v: Seq<(String, String)>) -> Seq<(Seq<char>, Seq<char>)> {
    v.map_values(|p: (String, String)| (p.0@, p.1@))
}

/// The views of some (path, status) pairs.
pub open spec fn statuses_view(v: Seq<(String, Status)>) -> Seq<(Seq<char>, Status)> {
    v.map_values(|p: (String, Status)| (p.0@, p.1))
}

/// The status of leaf `i`: `Unknown` past the end of `statuses`.
pub open spec fn status_at(statuses: Seq<Status>, i: int) -> Status {
    if 0 <= i < statuses.len() {
        statuses[i]
    } else {
        Status::Unknown
    }
}

/// The statuses that the probes give to `leaves`, one probe per leaf in order; a
/// leaf without a probe is `Unknown`. A leaf's symlink should point at its target
/// path joined to `work_dir`.
pub open spec fn analysis(
    leaves: Seq<(Seq<char>, Seq<char>)>,
    work_dir: Seq<char>,
    probes: Seq<Probe>,
) -> Seq<Status> {
    Seq::new(
        leaves.len(),
        |i: int|
            if i < probes.len() {
                probe_status(probes[i], path_join(work_dir, leaves[i].0))
            } else {
                Status::Unknown
            },
    )
}

/// The link path and status of each of the first `k` leaves whose status blocks linking.
pub open spec fn problems_of(
    leaves: Seq<(Seq<char>, Seq<char>)>,
    statuses: Seq<Status>,
    opts: LinkOpts,
    k: int,
) -> Seq<(Seq<char>, Status)>
    decreases k,
{
    if k <= 0 {
        Seq::empty()
    } else {
        let before = problems_of(leaves, statuses, opts, k - 1);
        if blocks(status_at(statuses, k - 1), opts) {
            before.push((leaves[k - 1].1, status_at(statuses, k - 1)))
        } else {
            before
        }
    }
}

proof fn lemma_leaf_entries_push(elems: Seq<ElementView>, e: ElementView)
    ensures
        leaf_entries(elems.push(e)) == match e.link_path {
            Some(link) => leaf_entries(elems).push((e.target_path, link)),
            None => leaf_entries(elems),
        },
{
    assert(elems.push(e).drop_last() =~= elems);
}

impl Tree {
    /// The (target path, link path) of each leaf, in preorder.
    pub fn leaves(&self) -> (r: Vec<(String, String)>)
        requires
            self.wf(),
        ensures
            pairs_view(r@) == leaves_of(self.root@),
    {
        let elements = self.root.elements();
        let ghost all = elements_view(elements@);
        let mut out: Vec<(String, String)> = Vec::new();
        let mut i: usize = 0;
        proof {
            assert(all.subrange(0, 0) =~= Seq::empty());
            assert(pairs_view(out@) =~= Seq::empty());
        }
        while i < elements.len()
            invariant
                i <= elements.len(),
                all == elements_view(elements@),
                pairs_view(out@) == leaf_entries(all.subrange(0, i as int)),
            decreases elements.len() - i,
        {
            let element = &elements[i];
            proof {
                assert(all.subrange(0, i + 1) =~= all.subrange(0, i as int).push(all[i as int]));
                lemma_leaf_entries_push(all.subrange(0, i as int), all[i as int]);
                assert(all[i as int] == element@);
            }
            match &element.link_path {
                Some(link) => {
                    out.push((element.target_path.clone(), link.clone()));
                    proof {
                        assert(pairs_view(out@) =~= leaf_entries(all.subrange(0, i as int)).push(
                            (element.target_path@, link@),
                        ));
                    }
                },
                None => {
                    proof {
                        assert(pairs_view(out@) =~= leaf_entries(all.subrange(0, i as int)));
                    }
                },
            }
            i += 1;
        }
        proof {
            assert(all.subrange(0, i as int) =~= all);
        }
        out
    }

    /// Classifies every leaf: `probes` holds, for each leaf in preorder, what the
    /// filesystem shows at its link path. A leaf without a probe becomes `Unknown`.
    /// Only the statuses change.
    pub fn analyze(&mut self, probes: &Vec<Probe>)
        requires
            old(self).wf(),
        ensures
            final(self).root == old(self).root,
            final(self).work_dir == old(self).work_dir,
            final(self).link_opts == old(self).link_opts,
            final(self).statuses@ == analysis(leaves_of(old(self).root@), old(self).work_dir@, probes@),
    {
        let leaves = self.leaves();
        let ghost lv = pairs_view(leaves@);
        let ghost goal = analysis(lv, self.work_dir@, probes@);
        let mut statuses: Vec<Status> = Vec::new();
        let mut i: usize = 0;
        while i < leaves.len()
            invariant
                i <= leaves.len(),
                lv == pairs_view(leaves@),
                goal == analysis(lv, self.work_dir@, probes@),
                statuses@ == goal.subrange(0, i as int),
            decreases leaves.len() - i,
        {
            let status = if i < probes.len() {
                let expected = join_path(self.work_dir.as_str(), leaves[i].0.as_str());
                classify(&probes[i], &expected)
            } else {
                Status::Unknown
            };
            statuses.push(status);
            proof {
                assert(statuses@ =~= goal.subrange(0, i + 1));
            }
            i += 1;
        }
        proof {
            assert(goal.subrange(0, i as int) =~= goal);
        }
        self.statuses = statuses;
    }
}

/// What has to be done at a link path before its symlink is created.
#[derive(Debug, PartialEq, Eq, Clone, Copy, Structural)]
pub enum Preparation {
    /// Nothing: the link path is free and its parent exists.
    Nothing,
    /// Remove the symlink that points elsewhere.
    RemoveLink,
    /// Create the missing parent directories.
    CreateParents,
}

/// One symlink to create: `link_path` pointing at `target_path`, after `preparation`.
#[derive(Debug, PartialEq, Eq)]
pub struct LinkStep {
    pub target_path: String,
    pub link_path: String,
    pub preparation: Preparation,
}

/// The mathematical content of a [`LinkStep`].
pub struct StepView {
    pub target_path: Seq<char>,
    pub link_path: Seq<char>,
    pub preparation: Preparation,
}

impl View for LinkStep {
    type V = StepView;

    open spec fn view(&self) -> StepView {
        StepView {
            target_path: self.target_path@,
            link_path: self.link_path@,
            preparation: self.preparation,
        }
    }
}

/// The views of some steps.
pub open spec fn steps_view(v: Seq<LinkStep>) -> Seq<StepView> {
    v.map_values(|s: LinkStep| s@)
}

/// The preparation that a status calls for.
pub open spec fn preparation_for(status: Status) -> Preparation {
    match status {
        Status::Mismatch => Preparation::RemoveLink,
        Status::Unparented => Preparation::CreateParents,
        _ => Preparation::Nothing,
    }
}

/// A status that analysis never lets reach linking.
pub open spec fn unlinkable(status: Status) -> bool {
    status == Status::Unknown || status == Status::Conflict || status == Status::Obstructed
}

/// The steps for the first `k` leaves: none for a leaf that is `Done`, one for each other
/// leaf, in order; or the link path of the first leaf whose status cannot be linked.
pub open spec fn plan_of(
    leaves: Seq<(Seq<char>, Seq<char>)>,
    statuses: Seq<Status>,
    work_dir: Seq<char>,
    k: int,
) -> Result<Seq<StepView>, Seq<char>>
    decreases k,
{
    if k <= 0 {
        Ok(Seq::empty())
    } else {
        match plan_of(leaves, statuses, work_dir, k - 1) {
            Err(link) => Err(link),
            Ok(steps) => {
                let status = status_at(statuses, k - 1);
                if status == Status::Done {
                    Ok(steps)
                } else if unlinkable(status) {
                    Err(leaves[k - 1].1)
                } else {
                    Ok(
                        steps.push(
                            StepView {
                                target_path: path_join(work_dir, leaves[k - 1].0),
                                link_path: leaves[k - 1].1,
                                preparation: preparation_for(status),
                            },
                        ),
                    )
                }
            },
        }
    }
}

/// The link path and status of each leaf of `leaves` whose status blocks linking.
fn collect_problems(leaves: &Vec<(String, String)>, statuses: &Vec<Status>, opts: &LinkOpts) -> (r: Vec<(String, Status)>)
    ensures
        statuses_view(r@) == problems_of(pairs_view(leaves@), statuses@, *opts, leaves@.len() as int),
{
    let ghost lv = pairs_view(leaves@);
    let mut out: Vec<(String, Status)> = Vec::new();
    let mut i: usize = 0;
    proof {
        assert(statuses_view(out@) =~= Seq::empty());
    }
    while i < leaves.len()
        invariant
            i <= leaves.len(),
            lv == pairs_view(leaves@),
            statuses_view(out@) == problems_of(lv, statuses@, *opts, i as int),
        decreases leaves.len() - i,
    {
        let status = if i < statuses.len() {
            statuses[i]
        } else {
            Status::Unknown
        };
        assert(status == status_at(statuses@, i as int));
        if status.is_problem(opts) {
            out.push((leaves[i].1.clone(), status));
            proof {
                assert(statuses_view(out@) =~= problems_of(lv, statuses@, *opts, i as int).push(
                    (lv[i as int].1, status),
                ));
            }
        }
        i += 1;
    }
    out
}

impl Tree {
    /// The link path and status of each leaf, in preorder, whose status blocks linking
    /// under the tree's options.
    pub fn problems(&self) -> (r: Vec<(String, Status)>)
        requires
            self.wf(),
        ensures
            statuses_view(r@) == problems_of(
                leaves_of(self.root@),
                self.statuses@,
                self.link_opts,
                leaves_of(self.root@).len() as int,
            ),
    {
        let leaves = self.leaves();
        collect_problems(&leaves, &self.statuses, &self.link_opts)
    }

    /// Decides the filesystem work that links the analyzed tree, before any of it is
    /// done. When some leaf's status blocks linking, the answer is `BadFiles` with
    /// every such leaf. Otherwise each leaf that is not `Done` gives one step, in
    /// preorder, unless some leaf's status cannot be linked at all, which is an
    /// `InternalError` naming the first such link path.
    pub fn plan_links(&self) -> (r: Result<Vec<LinkStep>, Error>)
        requires
            self.wf(),
        ensures
            ({
                let leaves = leaves_of(self.root@);
                let problems = problems_of(leaves, self.statuses@, self.link_opts, leaves.len() as int);
                if problems.len() > 0 {
                    r is Err && r->Err_0 is BadFiles && statuses_view(r->Err_0->BadFiles_0@) == problems
                } else {
                    match plan_of(leaves, self.statuses@, self.work_dir@, leaves.len() as int) {
                        Err(link) => r is Err && r->Err_0 is InternalError
                            && r->Err_0->InternalError_0@ == link,
                        Ok(steps) => r is Ok && steps_view(r->Ok_0@) == steps,
                    }
                }
            }),
    {
        let leaves = self.leaves();
        let ghost lv = pairs_view(leaves@);
        let problems = collect_problems(&leaves, &self.statuses, &self.link_opts);
        if problems.len() > 0 {
            return Err(Error::BadFiles(problems));
        }
        let mut steps: Vec<LinkStep> = Vec::new();
        let mut i: usize = 0;
        proof {
            assert(steps_view(steps@) =~= Seq::empty());
        }
        while i < leaves.len()
            invariant
                i <= leaves.len(),
                lv == pairs_view(leaves@),
                lv == leaves_of(self.root@),
                problems_of(lv, self.statuses@, self.link_opts, lv.len() as int).len() == 0,
                plan_of(lv, self.statuses@, self.work_dir@, i as int) == Ok::<Seq<StepView>, Seq<char>>(
                    steps_view(steps@),
                ),
            decreases leaves.len() - i,
        {
            let status = if i < self.statuses.len() {
                self.statuses[i]
            } else {
                Status::Unknown
            };
            assert(status == status_at(self.statuses@, i as int));
            match status {
                Status::Done => {},
                Status::Unknown | Status::Conflict | Status::Obstructed => {
                    proof {
                        lemma_plan_err(lv, self.statuses@, self.work_dir@, i + 1);
                    }
                    return Err(Error::InternalError(leaves[i].1.clone()));
                },
                _ => {
                    let preparation = match status {
                        Status::Mismatch => Preparation::RemoveLink,
                        Status::Unparented => Preparation::CreateParents,
                        _ => Preparation::Nothing,
                    };
                    let target_path = join_path(self.work_dir.as_str(), leaves[i].0.as_str());
                    let step = LinkStep { target_path, link_path: leaves[i].1.clone(), preparation };
                    let ghost before = steps@;
                    let ghost added = step@;
                    steps.push(step);
                    proof {
                        assert(steps_view(steps@) =~= steps_view(before).push(added));
                    }
                },
            }
            i += 1;
        }
        Ok(steps)
    }
}

/// Once planning fails, it fails with that link path whatever leaves follow.
proof fn lemma_plan_err(
    leaves: Seq<(Seq<char>, Seq<char>)>,
    statuses: Seq<Status>,
    work_dir: Seq<char>,
    k: int,
)
    requires
        0 <= k <= leaves.len(),
        plan_of(leaves, statuses, work_dir, k) is Err,
    ensures
        plan_of(leaves, statuses, work_dir, leaves.len() as int) == plan_of(leaves, statuses, work_dir, k),
    decreases leaves.len() - k,
{
    if k < leaves.len() {
        lemma_plan_err(leaves, statuses, work_dir, k + 1);
    }
}

/// Analysis is idempotent: analyzing again a tree that was just analyzed, with the
/// filesystem unchanged (the same probes), gives the same statuses.
pub proof fn lemma_analyze_idempotent(before: Tree, after: Tree, probes: Seq<Probe>)
    requires
        after.root == before.root,
        after.work_dir == before.work_dir,
        after.statuses@ == analysis(leaves_of(before.root@), before.work_dir@, probes),
    ensures
        analysis(leaves_of(after.root@), after.work_dir@, probes) == after.statuses@,
{
}

/// How many of the first `k` leaves are `Done`.
pub open spec fn done_count(statuses: Seq<Status>, k: int) -> int
    decreases k,
{
    if k <= 0 {
        0
    } else {
        done_count(statuses, k - 1) + if status_at(statuses, k - 1) == Status::Done {
            1int
        } else {
            0int
        }
    }
}

/// A leaf that is `Done` causes no filesystem work: every step of a plan comes from a
/// leaf that is not `Done`, and there is one step for each such leaf.
pub proof fn lemma_done_leaves_untouched(
    leaves: Seq<(Seq<char>, Seq<char>)>,
    statuses: Seq<Status>,
    work_dir: Seq<char>,
    k: int,
)
    requires
        0 <= k <= leaves.len(),
        plan_of(leaves, statuses, work_dir, k) is Ok,
    ensures
        ({
            let steps = plan_of(leaves, statuses, work_dir, k)->Ok_0;
            &&& steps.len() == k - done_count(statuses, k)
            &&& forall|j: int|
                0 <= j < steps.len() ==> exists|i: int|
                    0 <= i < k && status_at(statuses, i) != Status::Done && (#[trigger] steps[j]).link_path
                        == leaves[i].1 && steps[j].target_path == path_join(work_dir, leaves[i].0)
        }),
    decreases k,
{
    if k > 0 {
        lemma_done_leaves_untouched(leaves, statuses, work_dir, k - 1);
        let before = plan_of(leaves, statuses, work_dir, k - 1)->Ok_0;
        let steps = plan_of(leaves, statuses, work_dir, k)->Ok_0;
        if status_at(statuses, k - 1) != Status::Done {
            assert forall|j: int| 0 <= j < steps.len() implies exists|i: int|
                0 <= i < k && status_at(statuses, i) != Status::Done && (#[trigger] steps[j]).link_path
                    == leaves[i].1 && steps[j].target_path == path_join(work_dir, leaves[i].0) by {
                if j < before.len() {
                    assert(steps[j] == before[j]);
                } else {
                    assert(status_at(statuses, k - 1) != Status::Done);
                }
            }
        }
    }
}

} // verus!
