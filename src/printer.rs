use vstd::prelude::*;

use crate::iter::{elements_view, ElementView};
use crate::node::{strings_view, Status};
use crate::path::{path_segments, split_path};
use crate::tree::{last_segment, leaf_entries, status_at, Tree};

verus! {

/// One column of the drawn tree in front of a node's name.
#[derive(Debug, PartialEq, Eq, Clone, Copy, Structural)]
pub enum Guide {
    /// An ancestor with siblings still to come: `│   `.
    Pipe,
    /// An ancestor that was the last of its siblings: four spaces.
    Blank,
    /// The node itself, with siblings still to come: `├── `.
    Tee,
    /// The node itself, last of its siblings: `└── `.
    Elbow,
}

/// One line of the preview: a node of the tree with what is shown of it.
#[derive(Debug, PartialEq, Eq)]
pub struct Row {
    /// Level of the node; the root is at level 0.
    pub level: usize,
    /// The columns drawn before the name, one per level.
    pub guides: Vec<Guide>,
    /// The target path of the node.
    pub target_path: String,
    /// The last component of the target path.
    pub name: String,
    /// Whether the node sits as deep as its target path is long.
    pub is_leaf: bool,
    /// For a leaf, its link path and status.
    pub link: Option<(String, Status)>,
}

/// The mathematical content of a [`Row`].
pub struct RowView {
    pub level: nat,
    pub guides: Seq<Guide>,
    pub target_path: Seq<char>,
    pub name: Seq<char>,
    pub is_leaf: bool,
    pub link: Option<(Seq<char>, Status)>,
}

impl View for Row {
    type V = RowView;

    open spec fn view(&self) -> RowView {
        RowView {
            level: self.level as nat,
            guides: self.guides@,
            target_path: self.target_path@,
            name: self.name@,
            is_leaf: self.is_leaf,
            link: match self.link {
                Some((l, s)) => Some((l@, s)),
                None => None,
            },
        }
    }
}

/// The views of some rows.
pub open spec fn rows_view(v: Seq<Row>) -> Seq<RowView> {
    v.map_values(|r: Row| r@)
}

/// The `last_sibling` flags of the open ancestors after drawing the first `k`
/// elements: a node at level `l` closes every column from `l` on and opens its own.
pub open spec fn open_columns(elems: Seq<ElementView>, k: int) -> Seq<bool>
    decreases k,
{
    if k <= 0 {
        Seq::empty()
    } else {
        let before = open_columns(elems, k - 1);
        let e = elems[k - 1];
        if e.level == 0 {
            before
        } else {
            let keep = if before.len() < e.level - 1 {
                before.len() as int
            } else {
                e.level - 1
            };
            before.subrange(0, keep).push(e.last_sibling)
        }
    }
}

/// The guide of a column whose ancestor flag is `last`; `own` marks the node's own column.
pub open spec fn guide_for(last: bool, own: bool) -> Guide {
    if own {
        if last {
            Guide::Elbow
        } else {
            Guide::Tee
        }
    } else if last {
        Guide::Blank
    } else {
        Guide::Pipe
    }
}

/// The guides drawn for a node at `level` under the open columns `columns`.
pub open spec fn guides_for(columns: Seq<bool>, level: nat) -> Seq<Guide> {
    Seq::new(columns.len(), |idx: int| guide_for(columns[idx], idx == level - 1))
}

/// The row of element `i` of `elems`, leaves taking their statuses from `statuses`
/// in order.
pub open spec fn row_at(elems: Seq<ElementView>, statuses: Seq<Status>, i: int) -> RowView {
    let e = elems[i];
    RowView {
        level: e.level,
        guides: if e.level == 0 {
            Seq::empty()
        } else {
            guides_for(open_columns(elems, i + 1), e.level)
        },
        target_path: e.target_path,
        name: last_segment(path_segments(e.target_path)),
        is_leaf: e.level == path_segments(e.target_path).len(),
        link: match e.link_path {
            Some(l) => Some((l, status_at(statuses, leaf_entries(elems.subrange(0, i)).len() as int))),
            None => None,
        },
    }
}

/// Draws the guides of a node at `level` under the open columns `columns`.
fn draw_guides(columns: &Vec<bool>, level: usize) -> (r: Vec<Guide>)
    ensures
        r@ == guides_for(columns@, level as nat),
{
    let mut out: Vec<Guide> = Vec::new();
    let mut idx: usize = 0;
    while idx < columns.len()
        invariant
            idx <= columns.len(),
            out@ =~= guides_for(columns@, level as nat).subrange(0, idx as int),
        decreases columns.len() - idx,
    {
        let own = level > 0 && idx == level - 1;
        let guide = if own {
            if columns[idx] {
                Guide::Elbow
            } else {
                Guide::Tee
            }
        } else if columns[idx] {
            Guide::Blank
        } else {
            Guide::Pipe
        };
        out.push(guide);
        idx += 1;
    }
    out
}

impl Tree {
    /// The preview of the tree: one row per node, in preorder.
    pub fn rows(&self) -> (r: Vec<Row>)
        requires
            self.wf(),
        ensures
            ({
                let elems = crate::iter::preorder(self.root@, Seq::empty(), 0, false);
                rows_view(r@) == Seq::new(elems.len(), |i: int| row_at(elems, self.statuses@, i))
            }),
    {
        let elements = self.root.elements();
        let ghost elems = elements_view(elements@);
        let ghost goal = Seq::new(elems.len(), |i: int| row_at(elems, self.statuses@, i));
        let mut rows: Vec<Row> = Vec::new();
        let mut columns: Vec<bool> = Vec::new();
        let mut leaf_index: usize = 0;
        let mut i: usize = 0;
        proof {
            assert(elems.subrange(0, 0) =~= Seq::<ElementView>::empty());
        }
        while i < elements.len()
            invariant
                i <= elements.len(),
                elems == elements_view(elements@),
                goal == Seq::new(elems.len(), |j: int| row_at(elems, self.statuses@, j)),
                rows_view(rows@) =~= goal.subrange(0, i as int),
                columns@ == open_columns(elems, i as int),
                leaf_index as int == leaf_entries(elems.subrange(0, i as int)).len(),
                leaf_index <= i,
            decreases elements.len() - i,
        {
            let element = &elements[i];
            let level = element.metadata.level;
            assert(elems[i as int] == element@);
            let ghost before = open_columns(elems, i as int);
            let ghost keep: int = if before.len() < level - 1 {
                before.len() as int
            } else {
                level - 1
            };
            if level > 0 {
                while level <= columns.len()
                    invariant
                        level > 0,
                        keep <= level - 1,
                        columns.len() <= before.len(),
                        keep <= columns.len(),
                        columns@ == before.subrange(0, columns.len() as int),
                    decreases columns.len(),
                {
                    columns.pop();
                }
                columns.push(element.metadata.last_sibling);
            }
            proof {
                if level > 0 {
                    assert(columns@ =~= before.subrange(0, keep).push(element.metadata.last_sibling));
                }
            }
            let guides = if level > 0 {
                draw_guides(&columns, level)
            } else {
                Vec::new()
            };
            let segments = split_path(element.target_path.as_str());
            let name = if segments.len() > 0 {
                assert(strings_view(segments@).last() == segments@[segments.len() - 1]@);
                segments[segments.len() - 1].clone()
            } else {
                String::new()
            };
            let link = match &element.link_path {
                Some(link) => {
                    let status = if leaf_index < self.statuses.len() {
                        self.statuses[leaf_index]
                    } else {
                        Status::Unknown
                    };
                    leaf_index += 1;
                    Some((link.clone(), status))
                },
                None => None,
            };
            let row = Row {
                level,
                guides,
                target_path: element.target_path.clone(),
                name,
                is_leaf: level == segments.len(),
                link,
            };
            let ghost before_rows = rows@;
            let ghost added = row@;
            rows.push(row);
            proof {
                assert(elems.subrange(0, i + 1).drop_last() =~= elems.subrange(0, i as int));
                assert(added == row_at(elems, self.statuses@, i as int));
                assert(rows_view(rows@) =~= rows_view(before_rows).push(added));
            }
            i += 1;
        }
        proof {
            assert(goal.subrange(0, i as int) =~= goal);
        }
        rows
    }
}

/// The text drawn for a guide.
pub open spec fn guide_symbol(guide: Guide) -> Seq<char> {
    match guide {
        Guide::Pipe => "│   "@,
        Guide::Blank => "    "@,
        Guide::Tee => "├── "@,
        Guide::Elbow => "└── "@,
    }
}

/// The badge text of a status.
pub open spec fn status_label(status: Status) -> Seq<char> {
    match status {
        Status::Unknown => "UNKNOWN"@,
        Status::Ready => "READY"@,
        Status::Done => "DONE"@,
        Status::Mismatch => "MISMATCH"@,
        Status::Unparented => "UNPARENTED"@,
        Status::Conflict => "CONFLICT"@,
        Status::Obstructed => "OBSTRUCTED"@,
    }
}

impl Guide {
    /// The text drawn for this guide.
    pub fn symbol(&self) -> (r: &'static str)
        ensures
            r@ == guide_symbol(*self),
    {
        match self {
            Guide::Pipe => "│   ",
            Guide::Blank => "    ",
            Guide::Tee => "├── ",
            Guide::Elbow => "└── ",
        }
    }
}

impl Status {
    /// The badge text of this status: its name in capitals.
    pub fn label(&self) -> (r: &'static str)
        ensures
            r@ == status_label(*self),
    {
        match self {
            Status::Unknown => "UNKNOWN",
            Status::Ready => "READY",
            Status::Done => "DONE",
            Status::Mismatch => "MISMATCH",
            Status::Unparented => "UNPARENTED",
            Status::Conflict => "CONFLICT",
            Status::Obstructed => "OBSTRUCTED",
        }
    }
}

} // verus!
