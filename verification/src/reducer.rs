//! The flex reducer: the inverse of the layout engine's geometry.
//!
//! A parsed layout tree carries absolute cell extents.  At each container
//! the reducer rounds every sibling's extent on the partitioned axis up to
//! the nearest multiple of 3 (divider accounting perturbs extents by a cell
//! or two; rounding stabilizes the ratios), divides the rounded extents by
//! their greatest common divisor, and divides the resulting weights by
//! their own greatest common divisor once more, so that `{6,6,12}` becomes
//! `{1,1,2}`.  Pane commands are not recoverable from live state, so the
//! emitted panes carry empty command lists.

use vstd::prelude::*;

use crate::config::{FlexDirection, Pane, SplitType, Window, Session};
use crate::node::LayoutNode;

verus! {

broadcast use vstd::std_specs::vec::group_vec_axioms;

/// Euclid's greatest common divisor.
pub open spec fn spec_gcd(a: int, b: int) -> int
    decreases b,
    when 0 <= b
{
    if b == 0 {
        a
    } else {
        spec_gcd(b, a % b)
    }
}

/// The left fold of `spec_gcd` over a list, starting from 0.
pub open spec fn gcd_fold(s: Seq<int>) -> int
    decreases s.len(),
{
    if s.len() == 0 {
        0
    } else {
        spec_gcd(gcd_fold(s.drop_last()), s.last())
    }
}

/// The common divisor a list is reduced by: the fold of `spec_gcd`, or 1
/// when the list is empty or all zeros.
pub open spec fn spec_gcd_vec(s: Seq<int>) -> int {
    if s.len() == 0 || (forall|i: int| 0 <= i < s.len() ==> s[i] == 0) {
        1
    } else {
        gcd_fold(s)
    }
}

/// Rounding up to the nearest multiple of 3; exact multiples stay.
pub open spec fn spec_round3(n: int) -> int {
    if n % 3 >= 1 {
        n + 3 - n % 3
    } else {
        n
    }
}

proof fn lemma_gcd_nonneg(a: int, b: int)
    requires
        0 <= a,
        0 <= b,
    ensures
        spec_gcd(a, b) >= 0,
    decreases b,
{
    if b != 0 {
        lemma_gcd_nonneg(b, a % b);
    }
}

proof fn lemma_gcd_zero(a: int, b: int)
    requires
        0 <= a,
        0 <= b,
        spec_gcd(a, b) == 0,
    ensures
        a == 0 && b == 0,
    decreases b,
{
    if b != 0 {
        lemma_gcd_zero(b, a % b);
    }
}

proof fn lemma_fold_nonneg(s: Seq<int>)
    requires
        forall|i: int| 0 <= i < s.len() ==> s[i] >= 0,
    ensures
        gcd_fold(s) >= 0,
    decreases s.len(),
{
    if s.len() > 0 {
        lemma_fold_nonneg(s.drop_last());
        lemma_gcd_nonneg(gcd_fold(s.drop_last()), s.last());
    }
}

proof fn lemma_fold_zero(s: Seq<int>)
    requires
        forall|i: int| 0 <= i < s.len() ==> s[i] >= 0,
        gcd_fold(s) == 0,
    ensures
        forall|i: int| 0 <= i < s.len() ==> s[i] == 0,
    decreases s.len(),
{
    if s.len() > 0 {
        lemma_fold_nonneg(s.drop_last());
        lemma_gcd_zero(gcd_fold(s.drop_last()), s.last());
        lemma_fold_zero(s.drop_last());
        assert forall|i: int| 0 <= i < s.len() implies s[i] == 0 by {
            if i < s.len() - 1 {
                assert(s.drop_last()[i] == 0);
            }
        }
    }
}

/// The greatest common divisor of two numbers.
pub fn gcd(a: usize, b: usize) -> (r: usize)
    ensures
        r == spec_gcd(a as int, b as int),
        r <= a || r <= b,
    decreases b,
{
    if b == 0 {
        a
    } else {
        gcd(b, a % b)
    }
}

/// The common divisor of a list of numbers: their folded greatest common
/// divisor, or 1 when the list is empty or all zeros.  Always at least 1.
pub fn gcd_vec(numbers: &Vec<usize>) -> (r: usize)
    ensures
        r == spec_gcd_vec(numbers@.map_values(|x: usize| x as int)),
        r >= 1,
{
    let ghost sv = numbers@.map_values(|x: usize| x as int);
    let mut all_zero = true;
    let mut i: usize = 0;
    while i < numbers.len()
        invariant
            i <= numbers@.len(),
            sv == numbers@.map_values(|x: usize| x as int),
            all_zero == (forall|j: int| 0 <= j < i ==> sv[j] == 0),
        decreases numbers@.len() - i,
    {
        proof {
            assert(sv[i as int] == numbers@[i as int] as int);
        }
        if numbers[i] != 0 {
            all_zero = false;
        }
        i = i + 1;
    }
    if numbers.len() == 0 || all_zero {
        return 1;
    }
    let mut acc: usize = 0;
    let mut k: usize = 0;
    while k < numbers.len()
        invariant
            k <= numbers@.len(),
            sv == numbers@.map_values(|x: usize| x as int),
            acc == gcd_fold(sv.subrange(0, k as int)),
        decreases numbers@.len() - k,
    {
        proof {
            assert(sv.subrange(0, k + 1 as int).drop_last() =~= sv.subrange(0, k as int));
            assert(sv.subrange(0, k + 1 as int).last() == sv[k as int]);
        }
        acc = gcd(acc, numbers[k]);
        k = k + 1;
    }
    proof {
        assert(sv.subrange(0, sv.len() as int) =~= sv);
        assert(forall|i: int| 0 <= i < sv.len() ==> sv[i] >= 0);
        lemma_fold_nonneg(sv);
        if gcd_fold(sv) == 0 {
            lemma_fold_zero(sv);
            assert(false);
        }
    }
    acc
}

/// Rounds a number up to the nearest multiple of 3; exact multiples stay.
pub fn round(number: usize) -> (r: usize)
    requires
        number <= 0xFFFF_FFF0,
    ensures
        r == spec_round3(number as int),
{
    let remainder = number % 3;
    if remainder >= 1 {
        number - remainder + 3
    } else {
        number
    }
}

/// A node's extent along the axis that a container laid out in direction
/// `d` partitions.
pub open spec fn node_dim(n: LayoutNode, d: FlexDirection) -> int {
    if d is Column {
        n.spec_width()
    } else {
        n.spec_height()
    }
}

/// Extents small enough for the reducer's arithmetic: at most 65535, the
/// same machine limit the engine works under.
pub open spec fn nodes_bounded(s: Seq<LayoutNode>) -> bool
    decreases s,
{
    forall|i: int| 0 <= i < s.len() ==> node_bounded(#[trigger] s[i])
}

/// Bounded extents for one node and its subtree.
pub open spec fn node_bounded(n: LayoutNode) -> bool
    decreases n,
{
    n.spec_width() <= 0xFFFF && n.spec_height() <= 0xFFFF && (match n {
        LayoutNode::Split { children, .. } => nodes_bounded(children@),
        LayoutNode::Leaf { .. } => true,
    })
}

/// Checks that a parsed tree's extents stay within the reducer's machine
/// limit.
pub fn check_node_bounded(n: &LayoutNode) -> (r: bool)
    ensures
        r == node_bounded(*n),
    decreases *n,
{
    match n {
        LayoutNode::Leaf { width, height, .. } => *width <= 0xFFFF && *height <= 0xFFFF,
        LayoutNode::Split { width, height, children, .. } => {
            if *width > 0xFFFF || *height > 0xFFFF {
                return false;
            }
            let mut i: usize = 0;
            while i < children.len()
                invariant
                    i <= children@.len(),
                    n matches LayoutNode::Split { children: cf, .. } && cf == *children,
                    n.spec_width() <= 0xFFFF,
                    n.spec_height() <= 0xFFFF,
                    forall|j: int| 0 <= j < i ==> node_bounded(#[trigger] children@[j]),
                decreases children@.len() - i,
            {
                if !check_node_bounded(&children[i]) {
                    return false;
                }
                i = i + 1;
            }
            true
        },
    }
}

/// The rounded sibling extents of a container's children.
pub open spec fn rounded_dims(s: Seq<LayoutNode>, d: FlexDirection) -> Seq<int> {
    Seq::new(s.len(), |i: int| spec_round3(node_dim(s[i], d)))
}

/// The sibling weights before normalization: rounded extents divided by
/// their common divisor.
pub open spec fn raw_flexes(s: Seq<LayoutNode>, d: FlexDirection) -> Seq<int> {
    let g = spec_gcd_vec(rounded_dims(s, d));
    Seq::new(s.len(), |i: int| spec_round3(node_dim(s[i], d)) / g)
}

/// Child `i`'s normalized flex weight: the raw weight divided by the raw
/// weights' own common divisor, and at least 1.
pub open spec fn reduced_flex(s: Seq<LayoutNode>, d: FlexDirection, i: int) -> int {
    let f = raw_flexes(s, d)[i];
    let g2 = spec_gcd_vec(raw_flexes(s, d));
    if f / g2 >= 1 {
        f / g2
    } else {
        1
    }
}

/// The direction in which a node lays out its own children: read from a
/// container's orientation; a leaf keeps the default.
pub open spec fn node_dir(n: LayoutNode) -> FlexDirection {
    match n {
        LayoutNode::Split { split_type: SplitType::Horizontal, .. } => FlexDirection::Column,
        LayoutNode::Split { split_type: SplitType::Vertical, .. } => FlexDirection::Row,
        LayoutNode::Leaf { .. } => FlexDirection::Row,
    }
}

/// The pane the reducer emits for a node: the given weight, the enclosing
/// path, no style, no commands, no environment, and children reduced
/// recursively.
pub open spec fn reduced_pane_matches(p: Pane, n: LayoutNode, flex: int) -> bool
    decreases n,
{
    &&& p.flex == flex
    &&& p.flex_direction == node_dir(n)
    &&& (p.path matches Option::Some(q) && q@ == seq!['.'])
    &&& p.style is None
    &&& p.commands@.len() == 0
    &&& p.env@.len() == 0
    &&& (match n {
        LayoutNode::Leaf { .. } => p.panes is None,
        LayoutNode::Split { children, .. } => {
            if children@.len() == 0 {
                p.panes is None
            } else {
                p.panes matches Option::Some(cs) && cs@.len() == children@.len() && (forall|i: int|
                    0 <= i < cs@.len() ==> reduced_pane_matches(
                        #[trigger] cs@[i],
                        children@[i],
                        reduced_flex(children@, node_dir(n), i),
                    ))
            }
        },
    })
}

/// A node's extent along the partitioned axis.
fn node_dim_exec(n: &LayoutNode, d: FlexDirection) -> (r: usize)
    ensures
        r as int == node_dim(*n, d),
{
    match n {
        LayoutNode::Leaf { width, height, .. } => match d {
            FlexDirection::Column => *width,
            FlexDirection::Row => *height,
        },
        LayoutNode::Split { width, height, .. } => match d {
            FlexDirection::Column => *width,
            FlexDirection::Row => *height,
        },
    }
}

impl Pane {
    /// Reduces the children of a parsed container to a pane list with
    /// normalized flex weights; `None` when there are no children.
    #[verifier::rlimit(60)]
    pub fn from_tokens(children: &Vec<LayoutNode>, flex_direction: FlexDirection) -> (r: Option<
        Vec<Pane>,
    >)
        requires
            nodes_bounded(children@),
        ensures
            r is Some <==> children@.len() > 0,
            r matches Some(panes) ==> panes@.len() == children@.len() && (forall|i: int|
                0 <= i < panes@.len() ==> reduced_pane_matches(
                    #[trigger] panes@[i],
                    children@[i],
                    reduced_flex(children@, flex_direction, i),
                )),
        decreases children@,
    {
        if children.len() == 0 {
            return None;
        }
        let ghost rd = rounded_dims(children@, flex_direction);
        let mut dims: Vec<usize> = Vec::new();
        let mut i: usize = 0;
        while i < children.len()
            invariant
                i <= children@.len(),
                nodes_bounded(children@),
                rd == rounded_dims(children@, flex_direction),
                dims@.len() == i,
                forall|j: int| 0 <= j < i ==> #[trigger] dims@[j] as int == rd[j],
            decreases children@.len() - i,
        {
            let d = node_dim_exec(&children[i], flex_direction);
            proof {
                assert(node_bounded(children@[i as int]));
            }
            dims.push(round(d));
            i = i + 1;
        }
        proof {
            assert(dims@.map_values(|x: usize| x as int) =~= rd);
        }
        let g = gcd_vec(&dims);
        let ghost rf = raw_flexes(children@, flex_direction);
        let mut flexes: Vec<usize> = Vec::new();
        let mut k: usize = 0;
        while k < children.len()
            invariant
                k <= children@.len(),
                dims@.len() == children@.len(),
                forall|j: int| 0 <= j < dims@.len() ==> #[trigger] dims@[j] as int == rd[j],
                rd == rounded_dims(children@, flex_direction),
                rf == raw_flexes(children@, flex_direction),
                g as int == spec_gcd_vec(rd),
                g >= 1,
                flexes@.len() == k,
                forall|j: int| 0 <= j < k ==> #[trigger] flexes@[j] as int == rf[j],
            decreases children@.len() - k,
        {
            let f = dims[k] / g;
            proof {
                assert(f as int == rf[k as int]);
            }
            flexes.push(f);
            k = k + 1;
        }
        proof {
            assert(flexes@.map_values(|x: usize| x as int) =~= rf);
        }
        let g2 = gcd_vec(&flexes);
        let mut panes: Vec<Pane> = Vec::new();
        let mut m: usize = 0;
        while m < children.len()
            invariant
                m <= children@.len(),
                nodes_bounded(children@),
                flexes@.len() == children@.len(),
                forall|j: int| 0 <= j < flexes@.len() ==> #[trigger] flexes@[j] as int == rf[j],
                rf == raw_flexes(children@, flex_direction),
                g2 as int == spec_gcd_vec(rf),
                g2 >= 1,
                panes@.len() == m,
                forall|j: int|
                    0 <= j < m ==> reduced_pane_matches(
                        #[trigger] panes@[j],
                        children@[j],
                        reduced_flex(children@, flex_direction, j),
                    ),
            decreases children@.len() - m,
        {
            let f0 = flexes[m] / g2;
            let flex: usize = if f0 == 0 {
                1
            } else {
                f0
            };
            proof {
                assert(flex as int == reduced_flex(children@, flex_direction, m as int));
                assert(node_bounded(children@[m as int]));
            }
            let node = &children[m];
            let pd = match node {
                LayoutNode::Split { split_type, .. } => FlexDirection::from_split_type(split_type),
                LayoutNode::Leaf { .. } => FlexDirection::Row,
            };
            let sub: Option<Vec<Pane>> = match node {
                LayoutNode::Split { children: gc, .. } => Pane::from_tokens(gc, pd),
                LayoutNode::Leaf { .. } => None,
            };
            let dot = String::from_str(".");
            proof {
                reveal_strlit(".");
                assert(dot@ =~= seq!['.']);
            }
            let pane = Pane {
                flex_direction: pd,
                flex,
                path: Some(dot),
                style: None,
                commands: Vec::new(),
                env: Vec::new(),
                panes: sub,
            };
            proof {
                assert(pd == node_dir(children@[m as int]));
                assert(reduced_pane_matches(
                    pane,
                    children@[m as int],
                    reduced_flex(children@, flex_direction, m as int),
                ));
            }
            panes.push(pane);
            m = m + 1;
        }
        Some(panes)
    }
}

/// The window the reducer emits for a parsed layout tree: the given name
/// (or the placeholder), no path, no commands, the root's orientation, and
/// the reduced pane list -- one default pane for a lone leaf.
pub open spec fn reduced_window_matches(w: Window, name: Option<String>, token: LayoutNode) -> bool {
    &&& (match name {
        Option::Some(q) => w.name@ == q@,
        Option::None => w.name@ == "foo"@,
    })
    &&& w.path is None
    &&& w.commands@.len() == 0
    &&& w.flex_direction == node_dir(token)
    &&& (match token {
        LayoutNode::Split { children, .. } => children@.len() > 0 ==> w.panes@.len()
            == children@.len() && (forall|i: int|
            0 <= i < w.panes@.len() ==> reduced_pane_matches(
                #[trigger] w.panes@[i],
                children@[i],
                reduced_flex(children@, node_dir(token), i),
            )),
        LayoutNode::Leaf { .. } => w.panes@.len() == 1 && w.panes@[0].flex == 1
            && w.panes@[0].panes is None && w.panes@[0].commands@.len() == 0,
    })
}

impl Window {
    /// Builds the window a parsed layout tree describes: the root's
    /// orientation sets the window's direction, a lone leaf becomes one
    /// default pane, and a missing name falls back to a placeholder.
    pub fn from_tokens(name: &Option<String>, token: &LayoutNode) -> (r: Window)
        requires
            node_bounded(*token),
        ensures
            reduced_window_matches(r, *name, *token),
    {
        let wname = match name {
            Some(q) => q.clone(),
            None => String::from_str("foo"),
        };
        let dir = match token {
            LayoutNode::Split { split_type, .. } => FlexDirection::from_split_type(split_type),
            LayoutNode::Leaf { .. } => FlexDirection::Row,
        };
        let panes: Vec<Pane> = match token {
            LayoutNode::Split { children, .. } => match Pane::from_tokens(children, dir) {
                Some(ps) => ps,
                None => Vec::new(),
            },
            LayoutNode::Leaf { .. } => {
                let dot = String::from_str(".");
                proof {
                    reveal_strlit(".");
                    assert(dot@ =~= seq!['.']);
                }
                let mut ps: Vec<Pane> = Vec::new();
                ps.push(
                    Pane {
                        flex_direction: FlexDirection::Row,
                        flex: 1,
                        path: Some(dot),
                        style: None,
                        commands: Vec::new(),
                        env: Vec::new(),
                        panes: None,
                    },
                );
                ps
            },
        };
        Window { name: wname, path: None, flex_direction: dir, panes, commands: Vec::new() }
    }
}

impl Session {
    /// Builds the session a list of parsed windows describes: reduced
    /// windows in order, the enclosing path, and no startup or shutdown
    /// commands (they are not recoverable from live state).
    pub fn from_tokens(name: &String, tokens: &Vec<(Option<String>, LayoutNode)>) -> (r: Session)
        requires
            forall|i: int| 0 <= i < tokens@.len() ==> node_bounded(#[trigger] tokens@[i].1),
        ensures
            r.name@ == name@,
            r.path matches Option::Some(q) && q@ == seq!['.'],
            r.startup@.len() == 0,
            r.shutdown@.len() == 0,
            r.env@.len() == 0,
            r.windows@.len() == tokens@.len(),
            forall|i: int|
                0 <= i < tokens@.len() ==> reduced_window_matches(
                    #[trigger] r.windows@[i],
                    tokens@[i].0,
                    tokens@[i].1,
                ),
    {
        let mut windows: Vec<Window> = Vec::new();
        let mut i: usize = 0;
        while i < tokens.len()
            invariant
                i <= tokens@.len(),
                forall|j: int| 0 <= j < tokens@.len() ==> node_bounded(#[trigger] tokens@[j].1),
                windows@.len() == i,
                forall|j: int|
                    0 <= j < i ==> reduced_window_matches(
                        #[trigger] windows@[j],
                        tokens@[j].0,
                        tokens@[j].1,
                    ),
            decreases tokens@.len() - i,
        {
            let t = &tokens[i];
            windows.push(Window::from_tokens(&t.0, &t.1));
            i = i + 1;
        }
        let dot = String::from_str(".");
        proof {
            reveal_strlit(".");
            assert(dot@ =~= seq!['.']);
        }
        Session {
            name: name.clone(),
            path: Some(dot),
            startup: Vec::new(),
            shutdown: Vec::new(),
            env: Vec::new(),
            windows,
        }
    }
}

} // verus!
