//! The parsed (or emitted) form of a tmux layout string: a tree of cells.
//!
//! A leaf stands for one terminal cell and carries the numeric pane id; a
//! container groups its children in one direction.  The body serialization
//! is `WxH,X,Y,<id>` for a leaf and `WxH,X,Y` followed by the children in
//! `[...]` (vertical split) or `{...}` (horizontal split) for a container.

use vstd::prelude::*;

use crate::config::SplitType;
use crate::text::{dec_digits, push_dec};

verus! {

broadcast use vstd::std_specs::vec::group_vec_axioms;

/// One node of a window's layout tree.
#[derive(Debug)]
pub enum LayoutNode {
    /// A terminal cell: geometry plus the numeric pane id (without the `%`
    /// marker).
    Leaf { width: usize, height: usize, x: usize, y: usize, pane_id: String },
    /// A container: geometry, the orientation of its dividers, and the
    /// children in order.
    Split {
        width: usize,
        height: usize,
        x: usize,
        y: usize,
        split_type: SplitType,
        children: Vec<LayoutNode>,
    },
}

impl LayoutNode {
    /// The width of the node's cell or container.
    pub open spec fn spec_width(self) -> int {
        match self {
            LayoutNode::Leaf { width, .. } => width as int,
            LayoutNode::Split { width, .. } => width as int,
        }
    }

    /// The height of the node's cell or container.
    pub open spec fn spec_height(self) -> int {
        match self {
            LayoutNode::Leaf { height, .. } => height as int,
            LayoutNode::Split { height, .. } => height as int,
        }
    }
}

/// The serialized geometry prefix `WxH,X,Y` shared by leaves and containers.
pub open spec fn dims_text(w: int, h: int, x: int, y: int) -> Seq<char> {
    dec_digits(w) + seq!['x'] + dec_digits(h) + seq![','] + dec_digits(x) + seq![','] + dec_digits(
        y,
    )
}

/// The opening bracket of a container: `{` groups a horizontal split,
/// `[` a vertical one.
pub open spec fn open_char(st: SplitType) -> char {
    match st {
        SplitType::Horizontal => '{',
        SplitType::Vertical => '[',
    }
}

/// The closing bracket of a container.
pub open spec fn close_char(st: SplitType) -> char {
    match st {
        SplitType::Horizontal => '}',
        SplitType::Vertical => ']',
    }
}

/// The serialized body of a layout node.
pub open spec fn node_body(n: LayoutNode) -> Seq<char>
    decreases n,
{
    match n {
        LayoutNode::Leaf { width, height, x, y, pane_id } => dims_text(
            width as int,
            height as int,
            x as int,
            y as int,
        ) + seq![','] + pane_id@,
        LayoutNode::Split { width, height, x, y, split_type, children } => dims_text(
            width as int,
            height as int,
            x as int,
            y as int,
        ) + seq![open_char(split_type)] + bodies_text(children@) + seq![close_char(split_type)],
    }
}

/// The serialized bodies of sibling nodes, joined with commas.
pub open spec fn bodies_text(s: Seq<LayoutNode>) -> Seq<char>
    decreases s,
{
    if s.len() == 0 {
        Seq::empty()
    } else if s.len() == 1 {
        node_body(s.last())
    } else {
        bodies_text(s.drop_last()) + seq![','] + node_body(s.last())
    }
}

/// The number of terminal cells in the tree.
pub open spec fn leaf_count(n: LayoutNode) -> int
    decreases n,
{
    match n {
        LayoutNode::Leaf { .. } => 1,
        LayoutNode::Split { children, .. } => leaf_count_list(children@),
    }
}

/// The number of terminal cells under all nodes of the list.
pub open spec fn leaf_count_list(s: Seq<LayoutNode>) -> int
    decreases s,
{
    if s.len() == 0 {
        0
    } else {
        leaf_count_list(s.drop_last()) + leaf_count(s.last())
    }
}

/// The extent of a node along the axis that a container of the given
/// orientation partitions.
pub open spec fn extent_on(n: LayoutNode, st: SplitType) -> int {
    match st {
        SplitType::Horizontal => n.spec_width(),
        SplitType::Vertical => n.spec_height(),
    }
}

/// The summed extents of sibling nodes along the partitioned axis.
pub open spec fn sum_axis(s: Seq<LayoutNode>, st: SplitType) -> int
    decreases s,
{
    if s.len() == 0 {
        0
    } else {
        sum_axis(s.drop_last(), st) + extent_on(s.last(), st)
    }
}

/// The geometry invariant of an emitted layout tree: every container holds
/// at least two children, the children's extents along the partitioned
/// axis sum to the container's extent less one divider cell per adjacent
/// pair, and every child spans the container on the cross axis.
pub open spec fn node_geom_ok(n: LayoutNode) -> bool
    decreases n,
{
    match n {
        LayoutNode::Leaf { .. } => true,
        LayoutNode::Split { width, height, x, y, split_type, children } => {
            &&& children@.len() >= 2
            &&& sum_axis(children@, split_type) + children@.len() - 1 == (match split_type {
                SplitType::Horizontal => width as int,
                SplitType::Vertical => height as int,
            })
            &&& forall|i: int|
                0 <= i < children@.len() ==> (match split_type {
                    SplitType::Horizontal => (#[trigger] children@[i]).spec_height()
                        == height as int,
                    SplitType::Vertical => children@[i].spec_width() == width as int,
                })
            &&& forall|i: int| 0 <= i < children@.len() ==> node_geom_ok(#[trigger] children@[i])
        },
    }
}

/// Appends the serialized geometry prefix of a node to `out`.
fn push_dims(out: &mut String, w: usize, h: usize, x: usize, y: usize)
    ensures
        final(out)@ == old(out)@ + dims_text(w as int, h as int, x as int, y as int),
{
    proof {
        reveal_strlit("x");
        reveal_strlit(",");
    }
    push_dec(out, w);
    out.append("x");
    push_dec(out, h);
    out.append(",");
    push_dec(out, x);
    out.append(",");
    push_dec(out, y);
    proof {
        assert(final(out)@ =~= old(out)@ + dims_text(w as int, h as int, x as int, y as int));
    }
}

/// Appends the serialized body of a node to `out`.
pub fn render_into(n: &LayoutNode, out: &mut String)
    ensures
        final(out)@ == old(out)@ + node_body(*n),
    decreases *n,
{
    proof {
        reveal_strlit(",");
        reveal_strlit("{");
        reveal_strlit("}");
        reveal_strlit("[");
        reveal_strlit("]");
    }
    match n {
        LayoutNode::Leaf { width, height, x, y, pane_id } => {
            push_dims(out, *width, *height, *x, *y);
            out.append(",");
            out.append(pane_id.as_str());
            proof {
                assert(final(out)@ =~= old(out)@ + node_body(*n));
            }
        },
        LayoutNode::Split { width, height, x, y, split_type, children } => {
            push_dims(out, *width, *height, *x, *y);
            match split_type {
                SplitType::Horizontal => out.append("{"),
                SplitType::Vertical => out.append("["),
            }
            let ghost before: Seq<char> = out@;
            let mut i: usize = 0;
            while i < children.len()
                invariant
                    i <= children@.len(),
                    before == old(out)@ + dims_text(
                        n->Split_width as int,
                        n->Split_height as int,
                        n->Split_x as int,
                        n->Split_y as int,
                    ) + seq![open_char(n->Split_split_type)],
                    n matches LayoutNode::Split { children: c, .. } && c == *children,
                    out@ == before + bodies_text(children@.subrange(0, i as int)),
                decreases children@.len() - i,
            {
                if i > 0 {
                    out.append(",");
                }
                render_into(&children[i], out);
                proof {
                    reveal_strlit(",");
                    let pre = children@.subrange(0, i as int);
                    let post = children@.subrange(0, i + 1 as int);
                    assert(post.drop_last() =~= pre);
                    assert(post.last() == children@[i as int]);
                    if i == 0 {
                        assert(out@ =~= before + bodies_text(post));
                    } else {
                        assert(out@ =~= before + bodies_text(post));
                    }
                }
                i = i + 1;
            }
            proof {
                assert(children@.subrange(0, children@.len() as int) =~= children@);
            }
            match split_type {
                SplitType::Horizontal => out.append("}"),
                SplitType::Vertical => out.append("]"),
            }
            proof {
                assert(final(out)@ =~= old(out)@ + node_body(*n));
            }
        },
    }
}

/// The serialized body of a layout tree.
pub fn render(n: &LayoutNode) -> (r: String)
    ensures
        r@ == node_body(*n),
{
    let mut out = String::new();
    render_into(n, &mut out);
    proof {
        assert(out@ =~= node_body(*n));
    }
    out
}

} // verus!
