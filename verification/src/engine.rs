//! The layout engine: turns a flex-weighted pane tree into the exact
//! geometry tree whose serialization tmux's `select-layout` consumes.
//!
//! For a container of extent `E` with `k` children, one cell between each
//! pair of adjacent siblings is a divider, so the usable interior is
//! `E - (k - 1)`.  A child that is neither first in the window's top-level
//! row nor last gets `floor(A * flex / sum_flex)` cells on the partitioned
//! axis, reduced by the dividers already consumed before it; the last child
//! absorbs the rounding slack, taking everything that remains of the
//! interior.  When the remaining extent would be negative the engine fails
//! with a geometry underflow instead of emitting an impossible layout.
//!
//! Pane ids are consumed from a reply feed, one per visited pane in tree
//! order: the multiplexer reports an id for every pane the engine asks it
//! to create (or, for the first pane of a window, to look up).

use vstd::prelude::*;

use crate::config::{FlexDirection, Pane, SplitType, pane_wf, panes_wf};
use crate::error::LayoutError;
use crate::node::LayoutNode;

verus! {

broadcast use vstd::std_specs::vec::group_vec_axioms;

/// The weight of a pane relative to its siblings; a weight of 0 counts
/// as 1.
pub open spec fn eff_flex(p: Pane) -> int {
    if p.flex == 0 {
        1
    } else {
        p.flex as int
    }
}

/// The sum of the effective weights of a sibling list.
pub open spec fn flex_sum(s: Seq<Pane>) -> int
    decreases s.len(),
{
    if s.len() == 0 {
        0
    } else {
        flex_sum(s.drop_last()) + eff_flex(s.last())
    }
}

/// Flex weights small enough that all geometry arithmetic stays well within
/// the machine word: every sibling list's weights sum to at most 65535.
pub open spec fn flex_bounded_list(s: Seq<Pane>) -> bool
    decreases s,
{
    flex_sum(s) <= 0xFFFF && (forall|i: int|
        0 <= i < s.len() ==> flex_bounded_pane(#[trigger] s[i]))
}

/// Bounded weights for a pane's own children, recursively.
pub open spec fn flex_bounded_pane(p: Pane) -> bool
    decreases p,
{
    match p.panes {
        Option::Some(cs) => flex_bounded_list(cs@),
        Option::None => true,
    }
}

/// The number of panes the engine visits in a sibling list: every node of
/// the tree, containers included, is one visit.
pub open spec fn visits_list(s: Seq<Pane>) -> int
    decreases s,
{
    if s.len() == 0 {
        0
    } else {
        visits_list(s.drop_last()) + visits_pane(s.last())
    }
}

/// The number of panes the engine visits in the tree rooted at `p`.
pub open spec fn visits_pane(p: Pane) -> int
    decreases p,
{
    1 + (match p.panes {
        Option::Some(cs) => visits_list(cs@),
        Option::None => 0,
    })
}

/// The views of a list of strings.
pub open spec fn strs_view(s: Seq<String>) -> Seq<Seq<char>> {
    s.map_values(|x: String| x@)
}

/// A pane id as it appears inside a layout string: the multiplexer's
/// leading `%` marker is stripped.
pub open spec fn pane_id_digits(s: Seq<char>) -> Seq<char> {
    if s.len() > 0 && s[0] == '%' {
        s.drop_first()
    } else {
        s
    }
}

/// The extent a container divides among its children: a column partitions
/// the width, a row the height.
pub open spec fn axis_extent(d: FlexDirection, w: int, h: int) -> int {
    if d is Column {
        w
    } else {
        h
    }
}

/// The split orientation that serializes a container laid out in the given
/// direction.
pub open spec fn split_of(d: FlexDirection) -> SplitType {
    match d {
        FlexDirection::Column => SplitType::Horizontal,
        FlexDirection::Row => SplitType::Vertical,
    }
}

/// The number of dividers already consumed before child `i`.  The first
/// child of the window's own top-level list (`root`) consumes none, and its
/// immediate successor still sees none.
pub open spec fn divs_before(root: bool, i: int) -> int {
    if root {
        if i > 0 {
            i - 1
        } else {
            0
        }
    } else {
        i
    }
}

/// The share of a child that is not last: its weighted part of the extent,
/// less the dividers consumed before it.
pub open spec fn middle_share(s: Seq<Pane>, a: int, root: bool, i: int) -> int {
    a * eff_flex(s[i]) / flex_sum(s) - divs_before(root, i)
}

/// The sum of the shares of the children before `i`.
pub open spec fn prev_shares(s: Seq<Pane>, a: int, root: bool, i: int) -> int
    decreases i,
{
    if i <= 0 {
        0
    } else {
        prev_shares(s, a, root, i - 1) + middle_share(s, a, root, i - 1)
    }
}

/// Child `i`'s offset from the container's origin on the partitioned axis:
/// the shares of its predecessors plus one divider per predecessor.
pub open spec fn origin_off(s: Seq<Pane>, a: int, root: bool, i: int) -> int {
    prev_shares(s, a, root, i) + i
}

/// Child `i`'s extent on the partitioned axis.  The last child takes
/// whatever remains of the container.
pub open spec fn share(s: Seq<Pane>, a: int, root: bool, i: int) -> int {
    if i == s.len() - 1 {
        a - origin_off(s, a, root, i)
    } else {
        middle_share(s, a, root, i)
    }
}

/// All of a sibling list's shares exist: no child starts beyond the
/// container's extent, and no middle share underflows or overruns what is
/// left.
pub open spec fn shares_ok(s: Seq<Pane>, a: int, root: bool) -> bool {
    forall|i: int|
        0 <= i < s.len() ==> #[trigger] origin_off(s, a, root, i) <= a && (i < s.len() - 1
            ==> a * eff_flex(s[i]) / flex_sum(s) >= divs_before(root, i) && middle_share(
            s,
            a,
            root,
            i,
        ) <= a - origin_off(s, a, root, i))
}

/// Child `i`'s width.
pub open spec fn child_w(s: Seq<Pane>, d: FlexDirection, w: int, h: int, root: bool, i: int) -> int {
    if d is Column {
        share(s, w, root, i)
    } else {
        w
    }
}

/// Child `i`'s height.
pub open spec fn child_h(s: Seq<Pane>, d: FlexDirection, w: int, h: int, root: bool, i: int) -> int {
    if d is Column {
        h
    } else {
        share(s, h, root, i)
    }
}

/// Child `i`'s absolute horizontal origin.
pub open spec fn child_x(
    s: Seq<Pane>,
    d: FlexDirection,
    w: int,
    h: int,
    root: bool,
    x0: int,
    i: int,
) -> int {
    if d is Column {
        x0 + origin_off(s, w, root, i)
    } else {
        x0
    }
}

/// Child `i`'s absolute vertical origin.
pub open spec fn child_y(
    s: Seq<Pane>,
    d: FlexDirection,
    w: int,
    h: int,
    root: bool,
    y0: int,
    i: int,
) -> int {
    if d is Column {
        y0
    } else {
        y0 + origin_off(s, h, root, i)
    }
}

/// The geometry of a whole sibling list works out: the shares exist at this
/// level and recursively inside every child.
pub open spec fn layout_ok_list(s: Seq<Pane>, d: FlexDirection, w: int, h: int, root: bool) -> bool
    decreases s,
{
    shares_ok(s, axis_extent(d, w, h), root) && (forall|i: int|
        0 <= i < s.len() ==> layout_ok_pane(
            #[trigger] s[i],
            child_w(s, d, w, h, root, i),
            child_h(s, d, w, h, root, i),
        ))
}

/// The geometry of the tree rooted at `p` works out within extents
/// `w` by `h`.
pub open spec fn layout_ok_pane(p: Pane, w: int, h: int) -> bool
    decreases p,
{
    match p.panes {
        Option::Some(cs) => layout_ok_list(cs@, p.flex_direction, w, h, false),
        Option::None => true,
    }
}

/// The layout node built for the pane tree `p`, placed at `(x, y)` with
/// extents `w` by `h`, consuming ids from `ids` starting at visit `vi`:
/// a leaf carries the id of its own visit; a container with one child
/// collapses to that child; a container with more children carries them in
/// order, each with its computed geometry.
pub open spec fn node_matches_pane(
    n: LayoutNode,
    p: Pane,
    w: int,
    h: int,
    x: int,
    y: int,
    ids: Seq<Seq<char>>,
    vi: int,
) -> bool
    decreases p,
{
    match p.panes {
        Option::None => match n {
            LayoutNode::Leaf { width, height, x: nx, y: ny, pane_id } => {
                width == w && height == h && nx == x && ny == y && pane_id@ == pane_id_digits(
                    ids[vi],
                )
            },
            _ => false,
        },
        Option::Some(cs) => if cs@.len() == 1 {
            node_matches_pane(n, cs@[0], w, h, x, y, ids, vi + 1)
        } else {
            match n {
                LayoutNode::Split { width, height, x: nx, y: ny, split_type, children } => {
                    let d = p.flex_direction;
                    width == w && height == h && nx == x && ny == y && split_type == split_of(d)
                        && children@.len() == cs@.len() && (forall|i: int|
                        0 <= i < cs@.len() ==> node_matches_pane(
                            #[trigger] children@[i],
                            cs@[i],
                            child_w(cs@, d, w, h, false, i),
                            child_h(cs@, d, w, h, false, i),
                            child_x(cs@, d, w, h, false, x, i),
                            child_y(cs@, d, w, h, false, y, i),
                            ids,
                            vi + 1 + visits_list(cs@.subrange(0, i)),
                        ))
                },
                _ => false,
            }
        },
    }
}

/// The layout node built for a whole window: a single top-level pane
/// becomes the tree itself, several top-level panes become one container
/// filling the window.
pub open spec fn window_node_matches(
    n: LayoutNode,
    panes: Seq<Pane>,
    d: FlexDirection,
    w: int,
    h: int,
    ids: Seq<Seq<char>>,
) -> bool {
    if panes.len() == 1 {
        node_matches_pane(n, panes[0], w, h, 0, 0, ids, 0)
    } else {
        match n {
            LayoutNode::Split { width, height, x, y, split_type, children } => {
                width == w && height == h && x == 0 && y == 0 && split_type == split_of(d)
                    && children@.len() == panes.len() && (forall|i: int|
                    0 <= i < panes.len() ==> node_matches_pane(
                        #[trigger] children@[i],
                        panes[i],
                        child_w(panes, d, w, h, true, i),
                        child_h(panes, d, w, h, true, i),
                        child_x(panes, d, w, h, true, 0, i),
                        child_y(panes, d, w, h, true, 0, i),
                        ids,
                        visits_list(panes.subrange(0, i)),
                    ))
            },
            _ => false,
        }
    }
}

proof fn lemma_flex_sum_ge_len(s: Seq<Pane>)
    ensures
        flex_sum(s) >= s.len(),
    decreases s.len(),
{
    if s.len() > 0 {
        lemma_flex_sum_ge_len(s.drop_last());
    }
}

proof fn lemma_eff_le_sum(s: Seq<Pane>, i: int)
    requires
        0 <= i < s.len(),
    ensures
        eff_flex(s[i]) <= flex_sum(s),
    decreases s.len(),
{
    if i == s.len() - 1 {
        lemma_flex_sum_ge_len(s.drop_last());
    } else {
        lemma_eff_le_sum(s.drop_last(), i);
        assert(s.drop_last()[i] == s[i]);
    }
}

proof fn lemma_flex_sum_prefix_step(s: Seq<Pane>, i: int)
    requires
        0 <= i < s.len(),
    ensures
        flex_sum(s.subrange(0, i + 1)) == flex_sum(s.subrange(0, i)) + eff_flex(s[i]),
{
    assert(s.subrange(0, i + 1).drop_last() =~= s.subrange(0, i));
    assert(s.subrange(0, i + 1).last() == s[i]);
}

proof fn lemma_flex_sum_prefix_le(s: Seq<Pane>, i: int)
    requires
        0 <= i <= s.len(),
    ensures
        flex_sum(s.subrange(0, i)) <= flex_sum(s),
        flex_sum(s.subrange(0, i)) >= 0,
    decreases s.len() - i,
{
    lemma_flex_sum_ge_len(s.subrange(0, i));
    if i == s.len() {
        assert(s.subrange(0, i) =~= s);
    } else {
        lemma_flex_sum_prefix_le(s, i + 1);
        lemma_flex_sum_prefix_step(s, i);
    }
}

proof fn lemma_visits_list_nonneg(s: Seq<Pane>)
    ensures
        visits_list(s) >= s.len(),
    decreases s,
{
    if s.len() > 0 {
        lemma_visits_list_nonneg(s.drop_last());
        lemma_visits_pane_pos(s.last());
    }
}

proof fn lemma_visits_pane_pos(p: Pane)
    ensures
        visits_pane(p) >= 1,
    decreases p,
{
    match p.panes {
        Option::Some(cs) => {
            lemma_visits_list_nonneg(cs@);
        },
        Option::None => {},
    }
}

proof fn lemma_visits_prefix_step(s: Seq<Pane>, i: int)
    requires
        0 <= i < s.len(),
    ensures
        visits_list(s.subrange(0, i + 1)) == visits_list(s.subrange(0, i)) + visits_pane(s[i]),
{
    assert(s.subrange(0, i + 1).drop_last() =~= s.subrange(0, i));
    assert(s.subrange(0, i + 1).last() == s[i]);
}

proof fn lemma_visits_prefix_le(s: Seq<Pane>, i: int)
    requires
        0 <= i <= s.len(),
    ensures
        visits_list(s.subrange(0, i)) <= visits_list(s),
        visits_list(s.subrange(0, i)) >= 0,
    decreases s.len() - i,
{
    lemma_visits_list_nonneg(s.subrange(0, i));
    if i == s.len() {
        assert(s.subrange(0, i) =~= s);
    } else {
        lemma_visits_prefix_le(s, i + 1);
        lemma_visits_prefix_step(s, i);
        lemma_visits_pane_pos(s[i]);
    }
}

/// The sum of the effective flex weights of a sibling list.
fn flex_total(panes: &Vec<Pane>) -> (r: usize)
    requires
        flex_sum(panes@) <= 0xFFFF,
    ensures
        r as int == flex_sum(panes@),
{
    let mut total: usize = 0;
    let mut i: usize = 0;
    while i < panes.len()
        invariant
            i <= panes@.len(),
            flex_sum(panes@) <= 0xFFFF,
            total as int == flex_sum(panes@.subrange(0, i as int)),
            total <= 0xFFFF,
        decreases panes@.len() - i,
    {
        let f: usize = if panes[i].flex == 0 {
            1
        } else {
            panes[i].flex
        };
        proof {
            lemma_flex_sum_prefix_step(panes@, i as int);
            lemma_flex_sum_prefix_le(panes@, i + 1 as int);
        }
        total = total + f;
        i = i + 1;
    }
    proof {
        assert(panes@.subrange(0, panes@.len() as int) =~= panes@);
    }
    total
}

/// Strips the multiplexer's leading `%` marker from a pane id.
pub fn clean_pane_id(id: &String) -> (r: String)
    ensures
        r@ == pane_id_digits(id@),
{
    let len = id.as_str().unicode_len();
    if len > 0 && id.as_str().get_char(0) == '%' {
        let sub = id.as_str().substring_char(1, len);
        proof {
            assert(sub@ =~= id@.drop_first());
        }
        sub.to_owned()
    } else {
        id.clone()
    }
}

/// Checks what the layout functions ask of a pane tree: every internal
/// node has at least one child, and every sibling list's flex weights sum
/// to at most 65535.
pub fn check_tree(panes: &Vec<Pane>) -> (r: bool)
    ensures
        r == (panes_wf(panes@) && flex_bounded_list(panes@)),
    decreases panes@,
{
    let mut sum: usize = 0;
    let mut i: usize = 0;
    while i < panes.len()
        invariant
            i <= panes@.len(),
            sum as int == flex_sum(panes@.subrange(0, i as int)),
            sum <= 0xFFFF,
        decreases panes@.len() - i,
    {
        let f: usize = if panes[i].flex == 0 {
            1
        } else {
            panes[i].flex
        };
        proof {
            lemma_flex_sum_prefix_step(panes@, i as int);
        }
        if f > 0xFFFF || sum + f > 0xFFFF {
            proof {
                lemma_flex_sum_prefix_le(panes@, i + 1);
            }
            return false;
        }
        sum = sum + f;
        i = i + 1;
    }
    proof {
        assert(panes@.subrange(0, panes@.len() as int) =~= panes@);
    }
    let mut j: usize = 0;
    while j < panes.len()
        invariant
            j <= panes@.len(),
            flex_sum(panes@) <= 0xFFFF,
            forall|q: int|
                0 <= q < j ==> pane_wf(#[trigger] panes@[q]) && flex_bounded_pane(panes@[q]),
        decreases panes@.len() - j,
    {
        let p = &panes[j];
        match &p.panes {
            Some(cs) => {
                if cs.len() == 0 {
                    proof {
                        assert(!pane_wf(panes@[j as int]));
                    }
                    return false;
                }
                if !check_tree(cs) {
                    proof {
                        assert(!(pane_wf(panes@[j as int]) && flex_bounded_pane(panes@[j as int])));
                    }
                    return false;
                }
            },
            None => {},
        }
        j = j + 1;
    }
    true
}

/// The number of panes the engine will visit: one id must be supplied for
/// each.  `None` when the count does not fit the machine word.
pub fn count_visits(panes: &Vec<Pane>) -> (r: Option<usize>)
    ensures
        r matches Some(n) ==> n as int == visits_list(panes@),
        visits_list(panes@) <= usize::MAX ==> r is Some,
    decreases panes@,
{
    let mut total: usize = 0;
    let mut i: usize = 0;
    while i < panes.len()
        invariant
            i <= panes@.len(),
            total as int == visits_list(panes@.subrange(0, i as int)),
        decreases panes@.len() - i,
    {
        let p = &panes[i];
        proof {
            lemma_visits_prefix_step(panes@, i as int);
            lemma_visits_prefix_le(panes@, i as int);
            lemma_visits_list_nonneg(panes@.subrange(0, i as int));
        }
        let sub: usize = match &p.panes {
            Some(cs) => {
                proof {
                    lemma_visits_list_nonneg(cs@);
                }
                match count_visits(cs) {
                    Some(m) => m,
                    None => {
                        proof {
                            lemma_visits_suffix_ge(panes@, i as int);
                        }
                        return None;
                    },
                }
            },
            None => 0,
        };
        if sub == usize::MAX || total > usize::MAX - sub - 1 {
            proof {
                lemma_visits_suffix_ge(panes@, i as int);
            }
            return None;
        }
        total = total + sub + 1;
        i = i + 1;
    }
    proof {
        assert(panes@.subrange(0, panes@.len() as int) =~= panes@);
    }
    Some(total)
}

proof fn lemma_visits_suffix_ge(s: Seq<Pane>, i: int)
    requires
        0 <= i < s.len(),
    ensures
        visits_list(s) >= visits_list(s.subrange(0, i)) + visits_pane(s[i]),
    decreases s.len() - i,
{
    lemma_visits_prefix_step(s, i);
    lemma_visits_prefix_le(s, i + 1);
}

/// Lays out one sibling list: computes every child's geometry within
/// `w` by `h` at origin `(x0, y0)`, recursing into containers, and returns
/// the nodes in order together with the next unused visit index.
///
/// Fails with `GeometryUnderflow` exactly when the extents cannot
/// accommodate the children and their dividers.
#[verifier::rlimit(60)]
pub fn layout_list(
    panes: &Vec<Pane>,
    d: FlexDirection,
    w: usize,
    h: usize,
    x0: usize,
    y0: usize,
    root: bool,
    ids: &Vec<String>,
    vi: usize,
) -> (r: Result<(Vec<LayoutNode>, usize), LayoutError>)
    requires
        panes_wf(panes@),
        flex_bounded_list(panes@),
        x0 + w <= 0xFFFF,
        y0 + h <= 0xFFFF,
        vi + visits_list(panes@) <= ids@.len(),
    ensures
        r matches Ok(t) ==> {
            &&& layout_ok_list(panes@, d, w as int, h as int, root)
            &&& t.0@.len() == panes@.len()
            &&& t.1 == vi + visits_list(panes@)
            &&& forall|i: int|
                0 <= i < panes@.len() ==> node_matches_pane(
                    #[trigger] t.0@[i],
                    panes@[i],
                    child_w(panes@, d, w as int, h as int, root, i),
                    child_h(panes@, d, w as int, h as int, root, i),
                    child_x(panes@, d, w as int, h as int, root, x0 as int, i),
                    child_y(panes@, d, w as int, h as int, root, y0 as int, i),
                    strs_view(ids@),
                    vi + visits_list(panes@.subrange(0, i)),
                )
        },
        r matches Err(e) ==> !layout_ok_list(panes@, d, w as int, h as int, root) && e
            == LayoutError::GeometryUnderflow,
    decreases panes@,
{
    let k = panes.len();
    let id_count = ids.len();
    let total = flex_total(panes);
    let a: usize = match d {
        FlexDirection::Column => w,
        FlexDirection::Row => h,
    };
    let ghost ga = axis_extent(d, w as int, h as int);
    let mut nodes: Vec<LayoutNode> = Vec::new();
    let mut off: usize = 0;
    let mut vi_cur: usize = vi;
    let mut index: usize = 0;
    while index < k
        invariant
            k == panes@.len(),
            panes_wf(panes@),
            flex_bounded_list(panes@),
            x0 + w <= 0xFFFF,
            y0 + h <= 0xFFFF,
            vi + visits_list(panes@) <= ids@.len(),
            id_count == ids@.len(),
            total as int == flex_sum(panes@),
            ga == axis_extent(d, w as int, h as int),
            a == ga,
            index <= k,
            nodes@.len() == index,
            vi_cur == vi + visits_list(panes@.subrange(0, index as int)),
            index < k ==> off == origin_off(panes@, ga, root, index as int),
            forall|j: int|
                0 <= j < index ==> #[trigger] origin_off(panes@, ga, root, j) <= ga && (j < k - 1
                    ==> ga * eff_flex(panes@[j]) / flex_sum(panes@) >= divs_before(root, j)
                    && middle_share(panes@, ga, root, j) <= ga - origin_off(panes@, ga, root, j)),
            forall|j: int|
                0 <= j < index ==> layout_ok_pane(
                    #[trigger] panes@[j],
                    child_w(panes@, d, w as int, h as int, root, j),
                    child_h(panes@, d, w as int, h as int, root, j),
                ),
            forall|j: int|
                0 <= j < index ==> node_matches_pane(
                    #[trigger] nodes@[j],
                    panes@[j],
                    child_w(panes@, d, w as int, h as int, root, j),
                    child_h(panes@, d, w as int, h as int, root, j),
                    child_x(panes@, d, w as int, h as int, root, x0 as int, j),
                    child_y(panes@, d, w as int, h as int, root, y0 as int, j),
                    strs_view(ids@),
                    vi + visits_list(panes@.subrange(0, j)),
                ),
        decreases k - index,
    {
        let ghost gi = index as int;
        let p = &panes[index];
        let f: usize = if p.flex == 0 {
            1
        } else {
            p.flex
        };
        proof {
            assert(eff_flex(panes@[gi]) == f as int);
            lemma_eff_le_sum(panes@, gi);
            lemma_flex_sum_ge_len(panes@);
        }
        if off > a {
            proof {
                assert(origin_off(panes@, ga, root, gi) > ga);
                assert(!shares_ok(panes@, ga, root));
            }
            return Err(LayoutError::GeometryUnderflow);
        }
        let sh: usize;
        if index == k - 1 {
            sh = a - off;
        } else {
            let divs: usize = if root {
                if index > 0 {
                    index - 1
                } else {
                    0
                }
            } else {
                index
            };
            proof {
                assert(divs as int == divs_before(root, gi));
                assert((a as int) * (f as int) <= 0xFFFF * 0xFFFF) by (nonlinear_arith)
                    requires
                        0 <= a <= 0xFFFF,
                        0 <= f <= 0xFFFF,
                ;
            }
            let q: usize = a * f / total;
            proof {
                assert(q as int == ga * eff_flex(panes@[gi]) / flex_sum(panes@));
                assert((a as int) * (f as int) / (total as int) <= a as int) by (nonlinear_arith)
                    requires
                        0 <= a,
                        0 < f <= total,
                ;
            }
            if q < divs {
                proof {
                    assert(!shares_ok(panes@, ga, root));
                }
                return Err(LayoutError::GeometryUnderflow);
            }
            let s0 = q - divs;
            if s0 > a - off {
                proof {
                    assert(middle_share(panes@, ga, root, gi) > ga - origin_off(
                        panes@,
                        ga,
                        root,
                        gi,
                    ));
                    assert(!shares_ok(panes@, ga, root));
                }
                return Err(LayoutError::GeometryUnderflow);
            }
            sh = s0;
        }
        proof {
            assert(sh as int == share(panes@, ga, root, gi));
            assert(off + sh <= ga);
        }
        let cw: usize = match d {
            FlexDirection::Column => sh,
            FlexDirection::Row => w,
        };
        let ch: usize = match d {
            FlexDirection::Column => h,
            FlexDirection::Row => sh,
        };
        let cx: usize = match d {
            FlexDirection::Column => x0 + off,
            FlexDirection::Row => x0,
        };
        let cy: usize = match d {
            FlexDirection::Column => y0,
            FlexDirection::Row => y0 + off,
        };
        proof {
            assert(cw as int == child_w(panes@, d, w as int, h as int, root, gi));
            assert(ch as int == child_h(panes@, d, w as int, h as int, root, gi));
            assert(cx as int == child_x(panes@, d, w as int, h as int, root, x0 as int, gi));
            assert(cy as int == child_y(panes@, d, w as int, h as int, root, y0 as int, gi));
            assert(cx + cw <= 0xFFFF);
            assert(cy + ch <= 0xFFFF);
            lemma_visits_prefix_step(panes@, gi);
            lemma_visits_prefix_le(panes@, gi + 1);
            lemma_visits_prefix_le(panes@, gi);
            lemma_visits_pane_pos(panes@[gi]);
            assert(vi_cur + visits_pane(panes@[gi]) <= ids@.len());
            assert(vi_cur < ids@.len());
        }
        match &p.panes {
            None => {
                proof {
                    assert(vi_cur < ids@.len());
                }
                let id = clean_pane_id(&ids[vi_cur]);
                nodes.push(
                    LayoutNode::Leaf { width: cw, height: ch, x: cx, y: cy, pane_id: id },
                );
                vi_cur = vi_cur + 1;
            },
            Some(cs) => {
                proof {
                    assert(pane_wf(panes@[gi]));
                    assert(flex_bounded_pane(panes@[gi]));
                    assert(visits_pane(panes@[gi]) == 1 + visits_list(cs@));
                    lemma_visits_list_nonneg(cs@);
                }
                match layout_list(cs, p.flex_direction, cw, ch, cx, cy, false, ids, vi_cur + 1) {
                    Ok((mut sub_nodes, vi2)) => {
                        if sub_nodes.len() == 1 {
                            let single = sub_nodes.remove(0);
                            proof {
                                assert(child_w(cs@, p.flex_direction, cw as int, ch as int, false, 0)
                                    == cw as int);
                                assert(child_h(cs@, p.flex_direction, cw as int, ch as int, false, 0)
                                    == ch as int);
                                assert(child_x(
                                    cs@,
                                    p.flex_direction,
                                    cw as int,
                                    ch as int,
                                    false,
                                    cx as int,
                                    0,
                                ) == cx as int);
                                assert(child_y(
                                    cs@,
                                    p.flex_direction,
                                    cw as int,
                                    ch as int,
                                    false,
                                    cy as int,
                                    0,
                                ) == cy as int);
                                assert(cs@.subrange(0, 0) =~= Seq::<Pane>::empty());
                                assert(node_matches_pane(
                                    single,
                                    panes@[gi],
                                    cw as int,
                                    ch as int,
                                    cx as int,
                                    cy as int,
                                    strs_view(ids@),
                                    vi_cur as int,
                                ));
                            }
                            nodes.push(single);
                        } else {
                            let st = match p.flex_direction {
                                FlexDirection::Column => SplitType::Horizontal,
                                FlexDirection::Row => SplitType::Vertical,
                            };
                            nodes.push(
                                LayoutNode::Split {
                                    width: cw,
                                    height: ch,
                                    x: cx,
                                    y: cy,
                                    split_type: st,
                                    children: sub_nodes,
                                },
                            );
                        }
                        vi_cur = vi2;
                    },
                    Err(e) => {
                        proof {
                            assert(!layout_ok_pane(
                                panes@[gi],
                                child_w(panes@, d, w as int, h as int, root, gi),
                                child_h(panes@, d, w as int, h as int, root, gi),
                            ));
                            assert(!layout_ok_list(panes@, d, w as int, h as int, root));
                        }
                        return Err(e);
                    },
                }
            },
        }
        proof {
            assert(panes@.subrange(0, gi + 1).drop_last() =~= panes@.subrange(0, gi));
            assert(origin_off(panes@, ga, root, gi + 1) == origin_off(panes@, ga, root, gi)
                + middle_share(panes@, ga, root, gi) + 1);
            assert(origin_off(panes@, ga, root, gi) <= ga);
            if gi < k - 1 {
                assert(ga * eff_flex(panes@[gi]) / flex_sum(panes@) >= divs_before(root, gi));
                assert(middle_share(panes@, ga, root, gi) <= ga - origin_off(panes@, ga, root, gi));
            }
            assert forall|j: int| 0 <= j < gi + 1 implies #[trigger] origin_off(panes@, ga, root, j)
                <= ga && (j < k - 1 ==> ga * eff_flex(panes@[j]) / flex_sum(panes@) >= divs_before(
                root,
                j,
            ) && middle_share(panes@, ga, root, j) <= ga - origin_off(panes@, ga, root, j)) by {
                if j < gi {
                    assert(origin_off(panes@, ga, root, j) <= ga);
                }
            }
        }
        off = off + sh + 1;
        index = index + 1;
    }
    proof {
        assert(panes@.subrange(0, k as int) =~= panes@);
        assert(shares_ok(panes@, ga, root));
        assert(layout_ok_list(panes@, d, w as int, h as int, root));
    }
    Ok((nodes, vi_cur))
}

proof fn lemma_sum_axis_prefix(
    children: Seq<LayoutNode>,
    s: Seq<Pane>,
    a: int,
    root: bool,
    st: SplitType,
    i: int,
)
    requires
        0 <= i <= s.len() - 1,
        children.len() == s.len(),
        forall|j: int|
            0 <= j < s.len() - 1 ==> crate::node::extent_on(#[trigger] children[j], st)
                == middle_share(s, a, root, j),
    ensures
        crate::node::sum_axis(children.subrange(0, i), st) == prev_shares(s, a, root, i),
    decreases i,
{
    if i > 0 {
        lemma_sum_axis_prefix(children, s, a, root, st, i - 1);
        assert(children.subrange(0, i).drop_last() =~= children.subrange(0, i - 1));
        assert(children.subrange(0, i).last() == children[i - 1]);
    }
}

proof fn lemma_leaf_count_prefix(children: Seq<LayoutNode>, s: Seq<Pane>, i: int)
    requires
        0 <= i <= s.len(),
        children.len() == s.len(),
        forall|j: int|
            0 <= j < s.len() ==> crate::node::leaf_count(#[trigger] children[j])
                == crate::steps::leaves_pane(s[j]),
    ensures
        crate::node::leaf_count_list(children.subrange(0, i)) == crate::steps::leaves_list(
            s.subrange(0, i),
        ),
    decreases i,
{
    if i > 0 {
        lemma_leaf_count_prefix(children, s, i - 1);
        assert(children.subrange(0, i).drop_last() =~= children.subrange(0, i - 1));
        assert(children.subrange(0, i).last() == children[i - 1]);
        assert(s.subrange(0, i).drop_last() =~= s.subrange(0, i - 1));
        assert(s.subrange(0, i).last() == s[i - 1]);
    }
}

/// The geometry invariant of an emitted subtree: a node built for a pane
/// tree whose layout worked out has exact extents, sums its children's
/// extents to the container extent less the dividers, and holds one leaf
/// per terminal pane.
#[verifier::rlimit(60)]
pub proof fn lemma_pane_geometry(
    n: LayoutNode,
    p: Pane,
    w: int,
    h: int,
    x: int,
    y: int,
    ids: Seq<Seq<char>>,
    vi: int,
)
    requires
        pane_wf(p),
        layout_ok_pane(p, w, h),
        node_matches_pane(n, p, w, h, x, y, ids, vi),
    ensures
        crate::node::node_geom_ok(n),
        n.spec_width() == w,
        n.spec_height() == h,
        crate::node::leaf_count(n) == crate::steps::leaves_pane(p),
    decreases p,
{
    match p.panes {
        Option::None => {
        },
        Option::Some(cs) => {
            let d = p.flex_direction;
            let a = axis_extent(d, w, h);
            let k = cs@.len() as int;
            if k == 1 {
                assert(child_w(cs@, d, w, h, false, 0) == w);
                assert(child_h(cs@, d, w, h, false, 0) == h);
                assert(child_x(cs@, d, w, h, false, x, 0) == x);
                assert(child_y(cs@, d, w, h, false, y, 0) == y);
                assert(layout_ok_pane(cs@[0], w, h));
                lemma_pane_geometry(n, cs@[0], w, h, x, y, ids, vi + 1);
                assert(cs@.subrange(0, 0) =~= Seq::<Pane>::empty());
                assert(cs@.subrange(0, 1) =~= cs@);
                let e: Seq<Pane> = Seq::empty();
                assert(cs@.drop_last() =~= e);
                assert(crate::steps::leaves_list(e) == 0);
                assert(cs@.last() == cs@[0]);
                assert(crate::steps::leaves_list(cs@) == crate::steps::leaves_list(cs@.drop_last())
                    + crate::steps::leaves_pane(cs@.last()));
                assert(crate::steps::leaves_list(cs@) == crate::steps::leaves_pane(cs@[0]));
            } else {
                match n {
                    LayoutNode::Split { width, height, x: nx, y: ny, split_type, children } => {
                        let st = split_of(d);
                        assert forall|i: int| 0 <= i < k implies {
                            &&& crate::node::node_geom_ok(#[trigger] children@[i])
                            &&& children@[i].spec_width() == child_w(cs@, d, w, h, false, i)
                            &&& children@[i].spec_height() == child_h(cs@, d, w, h, false, i)
                            &&& crate::node::leaf_count(children@[i])
                                == crate::steps::leaves_pane(cs@[i])
                        } by {
                            assert(layout_ok_pane(
                                cs@[i],
                                child_w(cs@, d, w, h, false, i),
                                child_h(cs@, d, w, h, false, i),
                            ));
                            lemma_pane_geometry(
                                children@[i],
                                cs@[i],
                                child_w(cs@, d, w, h, false, i),
                                child_h(cs@, d, w, h, false, i),
                                child_x(cs@, d, w, h, false, x, i),
                                child_y(cs@, d, w, h, false, y, i),
                                ids,
                                vi + 1 + visits_list(cs@.subrange(0, i)),
                            );
                        }
                        assert forall|j: int| 0 <= j < k - 1 implies crate::node::extent_on(
                            #[trigger] children@[j],
                            st,
                        ) == middle_share(cs@, a, false, j) by {
                            assert(children@[j].spec_width() == child_w(cs@, d, w, h, false, j));
                            assert(children@[j].spec_height() == child_h(cs@, d, w, h, false, j));
                        }
                        lemma_sum_axis_prefix(children@, cs@, a, false, st, k - 1);
                        assert(children@.subrange(0, k) =~= children@);
                        assert(children@.subrange(0, k).drop_last() =~= children@.subrange(
                            0,
                            k - 1,
                        ));
                        assert(crate::node::sum_axis(children@, st) == prev_shares(
                            cs@,
                            a,
                            false,
                            k - 1,
                        ) + crate::node::extent_on(children@[k - 1], st));
                        assert(crate::node::extent_on(children@[k - 1], st) == share(
                            cs@,
                            a,
                            false,
                            k - 1,
                        ));
                        assert(crate::node::sum_axis(children@, st) + k - 1 == a);
                        lemma_leaf_count_prefix(children@, cs@, k);
                        assert(cs@.subrange(0, k) =~= cs@);
                    },
                    _ => {
                        assert(false);
                    },
                }
            }
        },
    }
}

/// Geometry sums for a whole emitted window: in every container of the
/// layout the engine builds, the children's extents along the partitioned
/// axis plus one divider per adjacent pair equal the container's extent,
/// the tree spans the window exactly, and it holds one leaf per terminal
/// pane.
#[verifier::rlimit(60)]
pub proof fn lemma_window_geometry(
    n: LayoutNode,
    panes: Seq<Pane>,
    d: FlexDirection,
    w: int,
    h: int,
    ids: Seq<Seq<char>>,
)
    requires
        panes.len() >= 1,
        panes_wf(panes),
        layout_ok_list(panes, d, w, h, true),
        window_node_matches(n, panes, d, w, h, ids),
    ensures
        crate::node::node_geom_ok(n),
        n.spec_width() == w,
        n.spec_height() == h,
        crate::node::leaf_count(n) == crate::steps::leaves_list(panes),
{
    let a = axis_extent(d, w, h);
    let k = panes.len() as int;
    if k == 1 {
        assert(child_w(panes, d, w, h, true, 0) == w);
        assert(child_h(panes, d, w, h, true, 0) == h);
        assert(layout_ok_pane(panes[0], w, h));
        lemma_pane_geometry(n, panes[0], w, h, 0, 0, ids, 0);
        let e: Seq<Pane> = Seq::empty();
        assert(panes.drop_last() =~= e);
        assert(crate::steps::leaves_list(e) == 0);
        assert(panes.last() == panes[0]);
        assert(crate::steps::leaves_list(panes) == crate::steps::leaves_list(panes.drop_last())
            + crate::steps::leaves_pane(panes.last()));
        assert(crate::steps::leaves_list(panes) == crate::steps::leaves_pane(panes[0]));
    } else {
        match n {
            LayoutNode::Split { width, height, x: nx, y: ny, split_type, children } => {
                let st = split_of(d);
                assert forall|i: int| 0 <= i < k implies {
                    &&& crate::node::node_geom_ok(#[trigger] children@[i])
                    &&& children@[i].spec_width() == child_w(panes, d, w, h, true, i)
                    &&& children@[i].spec_height() == child_h(panes, d, w, h, true, i)
                    &&& crate::node::leaf_count(children@[i]) == crate::steps::leaves_pane(
                        panes[i],
                    )
                } by {
                    assert(layout_ok_pane(
                        panes[i],
                        child_w(panes, d, w, h, true, i),
                        child_h(panes, d, w, h, true, i),
                    ));
                    lemma_pane_geometry(
                        children@[i],
                        panes[i],
                        child_w(panes, d, w, h, true, i),
                        child_h(panes, d, w, h, true, i),
                        child_x(panes, d, w, h, true, 0, i),
                        child_y(panes, d, w, h, true, 0, i),
                        ids,
                        visits_list(panes.subrange(0, i)),
                    );
                }
                assert forall|j: int| 0 <= j < k - 1 implies crate::node::extent_on(
                    #[trigger] children@[j],
                    st,
                ) == middle_share(panes, a, true, j) by {
                    assert(children@[j].spec_width() == child_w(panes, d, w, h, true, j));
                    assert(children@[j].spec_height() == child_h(panes, d, w, h, true, j));
                }
                lemma_sum_axis_prefix(children@, panes, a, true, st, k - 1);
                assert(children@.subrange(0, k) =~= children@);
                assert(children@.subrange(0, k).drop_last() =~= children@.subrange(0, k - 1));
                assert(crate::node::sum_axis(children@, st) == prev_shares(panes, a, true, k - 1)
                    + crate::node::extent_on(children@[k - 1], st));
                assert(crate::node::extent_on(children@[k - 1], st) == share(panes, a, true, k - 1));
                assert(crate::node::sum_axis(children@, st) + k - 1 == a);
                lemma_leaf_count_prefix(children@, panes, k);
                assert(panes.subrange(0, k) =~= panes);
            },
            _ => {
                assert(false);
            },
        }
    }
}

/// The serialized body of the layout the engine builds for a pane tree at
/// `(x, y)` with extents `w` by `h`, reading ids from the reply feed: a
/// leaf is its geometry and id, a lone child collapses, a container wraps
/// its children's bodies in the brackets of its direction.
pub open spec fn spec_body_pane(
    p: Pane,
    w: int,
    h: int,
    x: int,
    y: int,
    ids: Seq<Seq<char>>,
    vi: int,
) -> Seq<char>
    decreases p, 1int, 0int,
{
    match p.panes {
        Option::None => crate::node::dims_text(w, h, x, y) + seq![','] + pane_id_digits(ids[vi]),
        Option::Some(cs) => if cs@.len() == 1 {
            spec_body_pane(cs@[0], w, h, x, y, ids, vi + 1)
        } else {
            crate::node::dims_text(w, h, x, y) + seq![
                crate::node::open_char(split_of(p.flex_direction)),
            ] + spec_bodies(cs@, p.flex_direction, w, h, x, y, false, ids, vi + 1, cs@.len() as int)
                + seq![crate::node::close_char(split_of(p.flex_direction))]
        },
    }
}

/// The comma-joined serialized bodies of the first `k` children of a
/// sibling list laid out within `w` by `h` at `(x, y)`.
pub open spec fn spec_bodies(
    s: Seq<Pane>,
    d: FlexDirection,
    w: int,
    h: int,
    x: int,
    y: int,
    root: bool,
    ids: Seq<Seq<char>>,
    vi: int,
    k: int,
) -> Seq<char>
    decreases s, 0int, k,
    when k <= s.len()
{
    if k <= 0 {
        Seq::empty()
    } else {
        spec_bodies(s, d, w, h, x, y, root, ids, vi, k - 1) + (if k > 1 {
            seq![',']
        } else {
            Seq::empty()
        }) + spec_body_pane(
            s[k - 1],
            child_w(s, d, w, h, root, k - 1),
            child_h(s, d, w, h, root, k - 1),
            child_x(s, d, w, h, root, x, k - 1),
            child_y(s, d, w, h, root, y, k - 1),
            ids,
            vi + visits_list(s.subrange(0, k - 1)),
        )
    }
}

/// The serialized body of a whole window's layout: a lone top-level pane
/// stands alone, several are wrapped in one container spanning the window.
pub open spec fn spec_window_body(
    panes: Seq<Pane>,
    d: FlexDirection,
    w: int,
    h: int,
    ids: Seq<Seq<char>>,
) -> Seq<char> {
    if panes.len() == 1 {
        spec_body_pane(panes[0], w, h, 0, 0, ids, 0)
    } else {
        crate::node::dims_text(w, h, 0, 0) + seq![crate::node::open_char(split_of(d))]
            + spec_bodies(panes, d, w, h, 0, 0, true, ids, 0, panes.len() as int) + seq![
            crate::node::close_char(split_of(d)),
        ]
    }
}

/// The full layout string of a window: the body's checksum as four hex
/// digits, a comma, and the body.
pub open spec fn spec_window_layout(
    panes: Seq<Pane>,
    d: FlexDirection,
    w: int,
    h: int,
    ids: Seq<Seq<char>>,
) -> Seq<char> {
    let body = spec_window_body(panes, d, w, h, ids);
    crate::checksum::hex4(crate::checksum::layout_checksum_spec(body)) + seq![','] + body
}

/// A node the engine built serializes to exactly the spec-level body.
pub proof fn lemma_body_of_pane(
    n: LayoutNode,
    p: Pane,
    w: int,
    h: int,
    x: int,
    y: int,
    ids: Seq<Seq<char>>,
    vi: int,
)
    requires
        node_matches_pane(n, p, w, h, x, y, ids, vi),
    ensures
        crate::node::node_body(n) == spec_body_pane(p, w, h, x, y, ids, vi),
    decreases p, 1int, 0int,
{
    match p.panes {
        Option::None => {
        },
        Option::Some(cs) => {
            if cs@.len() == 1 {
                lemma_body_of_pane(n, cs@[0], w, h, x, y, ids, vi + 1);
            } else {
                match n {
                    LayoutNode::Split { children, .. } => {
                        lemma_bodies_upto(
                            children@,
                            cs@,
                            p.flex_direction,
                            w,
                            h,
                            x,
                            y,
                            false,
                            ids,
                            vi + 1,
                            cs@.len() as int,
                        );
                        assert(children@.subrange(0, children@.len() as int) =~= children@);
                    },
                    _ => {
                        assert(false);
                    },
                }
            }
        },
    }
}

proof fn lemma_bodies_upto(
    children: Seq<LayoutNode>,
    s: Seq<Pane>,
    d: FlexDirection,
    w: int,
    h: int,
    x: int,
    y: int,
    root: bool,
    ids: Seq<Seq<char>>,
    vi: int,
    k: int,
)
    requires
        0 <= k <= s.len(),
        children.len() == s.len(),
        forall|i: int|
            0 <= i < s.len() ==> node_matches_pane(
                #[trigger] children[i],
                s[i],
                child_w(s, d, w, h, root, i),
                child_h(s, d, w, h, root, i),
                child_x(s, d, w, h, root, x, i),
                child_y(s, d, w, h, root, y, i),
                ids,
                vi + visits_list(s.subrange(0, i)),
            ),
    ensures
        crate::node::bodies_text(children.subrange(0, k)) == spec_bodies(
            s,
            d,
            w,
            h,
            x,
            y,
            root,
            ids,
            vi,
            k,
        ),
    decreases s, 0int, k,
{
    if k > 0 {
        lemma_bodies_upto(children, s, d, w, h, x, y, root, ids, vi, k - 1);
        lemma_body_of_pane(
            children[k - 1],
            s[k - 1],
            child_w(s, d, w, h, root, k - 1),
            child_h(s, d, w, h, root, k - 1),
            child_x(s, d, w, h, root, x, k - 1),
            child_y(s, d, w, h, root, y, k - 1),
            ids,
            vi + visits_list(s.subrange(0, k - 1)),
        );
        assert(children.subrange(0, k).drop_last() =~= children.subrange(0, k - 1));
        assert(children.subrange(0, k).last() == children[k - 1]);
        assert(crate::node::bodies_text(children.subrange(0, k)) =~= spec_bodies(
            s,
            d,
            w,
            h,
            x,
            y,
            root,
            ids,
            vi,
            k,
        ));
    } else {
        assert(children.subrange(0, 0) =~= Seq::<LayoutNode>::empty());
    }
}

/// A whole window's emitted layout serializes to exactly the spec-level
/// window body.
pub proof fn lemma_window_body(
    n: LayoutNode,
    panes: Seq<Pane>,
    d: FlexDirection,
    w: int,
    h: int,
    ids: Seq<Seq<char>>,
)
    requires
        panes.len() >= 1,
        window_node_matches(n, panes, d, w, h, ids),
    ensures
        crate::node::node_body(n) == spec_window_body(panes, d, w, h, ids),
{
    if panes.len() == 1 {
        lemma_body_of_pane(n, panes[0], w, h, 0, 0, ids, 0);
    } else {
        match n {
            LayoutNode::Split { children, .. } => {
                lemma_bodies_upto(
                    children@,
                    panes,
                    d,
                    w,
                    h,
                    0,
                    0,
                    true,
                    ids,
                    0,
                    panes.len() as int,
                );
                assert(children@.subrange(0, children@.len() as int) =~= children@);
            },
            _ => {
                assert(false);
            },
        }
    }
}

/// Lays out a whole window: the pane tree is placed at the origin within
/// the window's extents, and a single top-level pane stands alone while
/// several are wrapped in one container.
pub fn build_window_layout(
    panes: &Vec<Pane>,
    direction: FlexDirection,
    width: usize,
    height: usize,
    ids: &Vec<String>,
) -> (r: Result<LayoutNode, LayoutError>)
    requires
        panes@.len() >= 1,
        panes_wf(panes@),
        flex_bounded_list(panes@),
        width <= 0xFFFF,
        height <= 0xFFFF,
        visits_list(panes@) <= ids@.len(),
    ensures
        r is Ok <==> layout_ok_list(panes@, direction, width as int, height as int, true),
        r matches Ok(n) ==> window_node_matches(
            n,
            panes@,
            direction,
            width as int,
            height as int,
            strs_view(ids@),
        ),
        r matches Err(e) ==> e == LayoutError::GeometryUnderflow,
{
    match layout_list(panes, direction, width, height, 0, 0, true, ids, 0) {
        Ok((mut nodes, _next)) => {
            if nodes.len() == 1 {
                let n = nodes.remove(0);
                proof {
                    assert(panes@.subrange(0, 0) =~= Seq::<Pane>::empty());
                    assert(child_w(panes@, direction, width as int, height as int, true, 0)
                        == width as int);
                    assert(child_h(panes@, direction, width as int, height as int, true, 0)
                        == height as int);
                }
                Ok(n)
            } else {
                let st = match direction {
                    FlexDirection::Column => SplitType::Horizontal,
                    FlexDirection::Row => SplitType::Vertical,
                };
                Ok(
                    LayoutNode::Split {
                        width,
                        height,
                        x: 0,
                        y: 0,
                        split_type: st,
                        children: nodes,
                    },
                )
            }
        },
        Err(e) => Err(e),
    }
}

} // verus!
