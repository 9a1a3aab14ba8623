//! The session model: a session holds windows, a window holds a tree of
//! flex-weighted panes.  Values are built from a configuration file (or from
//! live inspection), validated once, and immutable afterwards.

use vstd::prelude::*;

verus! {

broadcast use vstd::std_specs::vec::group_vec_axioms;

/// The direction along which a container divides its extent among its
/// children: a `Row` container stacks children top to bottom (partitioning
/// the height), a `Column` container places them side by side
/// (partitioning the width).
#[derive(Clone, Copy, Debug, PartialEq, Eq, Structural)]
pub enum FlexDirection {
    Row,
    Column,
}

impl Default for FlexDirection {
    fn default() -> (r: Self)
        ensures
            r == FlexDirection::Row,
    {
        FlexDirection::Row
    }
}

/// The orientation of a parsed layout container: `[...]` groups in a
/// `Vertical` split (panes stacked, horizontal dividers), `{...}` groups in
/// a `Horizontal` split (panes side by side, vertical dividers).
#[derive(Clone, Copy, Debug, PartialEq, Eq, Structural)]
pub enum SplitType {
    Horizontal,
    Vertical,
}

impl FlexDirection {
    /// The flex direction that lays panes out the way the given split does.
    pub fn from_split_type(split_type: &SplitType) -> (r: Self)
        ensures
            r == (match split_type {
                SplitType::Horizontal => FlexDirection::Column,
                SplitType::Vertical => FlexDirection::Row,
            }),
    {
        match split_type {
            SplitType::Horizontal => Self::Column,
            SplitType::Vertical => Self::Row,
        }
    }
}

/// A node of the pane tree.  A pane with `panes == None` is a leaf: a real
/// terminal cell.  A pane with children is an internal node that only
/// groups its children; it does not host a shell of its own.
#[derive(Debug)]
pub struct Pane {
    /// How this pane's own children are laid out.
    pub flex_direction: FlexDirection,
    /// This pane's weight relative to its siblings; 0 counts as 1.
    pub flex: usize,
    /// Working directory, resolved against the enclosing path.
    pub path: Option<String>,
    /// Opaque style string, forwarded to the multiplexer.
    pub style: Option<String>,
    /// Shell commands sent to the pane once it exists.
    pub commands: Vec<String>,
    /// Environment variables for the pane, in declaration order.
    pub env: Vec<(String, String)>,
    /// Child panes; `None` for a leaf.
    pub panes: Option<Vec<Pane>>,
}

/// A window: a named tree of panes.
#[derive(Debug)]
pub struct Window {
    pub name: String,
    /// Base path for the window; inherits the session path when relative.
    pub path: Option<String>,
    /// How the window's top-level panes are laid out.
    pub flex_direction: FlexDirection,
    pub panes: Vec<Pane>,
    /// Window-level startup commands, sent before any pane commands.
    pub commands: Vec<String>,
}

/// A session: a named, ordered list of windows.
#[derive(Debug)]
pub struct Session {
    pub name: String,
    /// Base path of the session.
    pub path: Option<String>,
    /// Commands run when the session starts.
    pub startup: Vec<String>,
    /// Commands run when the session stops.
    pub shutdown: Vec<String>,
    /// Session-wide environment variables, in declaration order.
    pub env: Vec<(String, String)>,
    pub windows: Vec<Window>,
}

/// The default flex weight of a pane.
pub fn default_flex() -> (r: usize)
    ensures
        r == 1,
{
    1
}

/// The default path of a pane or session: the enclosing path.
pub fn default_path() -> (r: Option<String>)
    ensures
        r is Some && r->0@ == seq!['.'],
{
    proof {
        reveal_strlit(".");
    }
    Some(String::from_str("."))
}

/// A pane tree is well formed when every internal node has at least one
/// child.
pub open spec fn pane_wf(p: Pane) -> bool
    decreases p,
{
    match p.panes {
        Option::Some(cs) => cs@.len() >= 1 && (forall|i: int|
            0 <= i < cs@.len() ==> pane_wf(#[trigger] cs@[i])),
        Option::None => true,
    }
}

/// Every pane of the list is well formed.
pub open spec fn panes_wf(s: Seq<Pane>) -> bool {
    forall|i: int| 0 <= i < s.len() ==> pane_wf(#[trigger] s[i])
}

/// The validation error reported for a window without panes.
pub open spec fn window_error_text() -> Seq<char> {
    "Panes cannot be empty"@
}

/// The validation error reported for a session without windows.
pub open spec fn session_error_text() -> Seq<char> {
    "Windows cannot be empty"@
}

/// The aggregated validation errors of a session: one entry when the window
/// list is empty, then one entry per window whose pane list is empty, in
/// window order.
pub open spec fn session_validation_errors(windows: Seq<Window>) -> Seq<Seq<char>>
    decreases windows.len(),
{
    let head: Seq<Seq<char>> = if windows.len() == 0 {
        seq![session_error_text()]
    } else {
        Seq::empty()
    };
    head + window_validation_errors(windows)
}

/// One error entry per window whose pane list is empty, in window order.
pub open spec fn window_validation_errors(windows: Seq<Window>) -> Seq<Seq<char>>
    decreases windows.len(),
{
    if windows.len() == 0 {
        Seq::empty()
    } else {
        window_validation_errors(windows.drop_last()) + (if windows.last().panes@.len() == 0 {
            seq![window_error_text()]
        } else {
            Seq::empty()
        })
    }
}

impl Window {
    /// Checks that the window has at least one pane.
    pub fn validate(&self) -> (r: Result<(), String>)
        ensures
            r is Ok <==> self.panes@.len() > 0,
            r is Err ==> r->Err_0@ == window_error_text(),
    {
        if self.panes.len() == 0 {
            Err(String::from_str("Panes cannot be empty"))
        } else {
            Ok(())
        }
    }
}

impl Session {
    /// Checks that the session has at least one window and every window at
    /// least one pane; all problems are reported together.
    pub fn validate(&self) -> (r: Result<(), Vec<String>>)
        ensures
            r is Ok <==> session_validation_errors(self.windows@).len() == 0,
            r matches Err(es) ==> es@.len() == session_validation_errors(self.windows@).len()
                && (forall|i: int|
                    0 <= i < es@.len() ==> es@[i]@ == session_validation_errors(
                        self.windows@,
                    )[i]),
    {
        let mut errors: Vec<String> = Vec::new();
        if self.windows.len() == 0 {
            errors.push(String::from_str("Windows cannot be empty"));
        }
        let ghost head: Seq<Seq<char>> = if self.windows@.len() == 0 {
            seq![session_error_text()]
        } else {
            Seq::empty()
        };
        let mut i: usize = 0;
        while i < self.windows.len()
            invariant
                i <= self.windows@.len(),
                head == (if self.windows@.len() == 0 {
                    seq![session_error_text()]
                } else {
                    Seq::<Seq<char>>::empty()
                }),
                errors@.len() == (head + window_validation_errors(
                    self.windows@.subrange(0, i as int),
                )).len(),
                forall|j: int|
                    0 <= j < errors@.len() ==> errors@[j]@ == (head + window_validation_errors(
                        self.windows@.subrange(0, i as int),
                    ))[j],
            decreases self.windows@.len() - i,
        {
            let w = &self.windows[i];
            proof {
                assert(self.windows@.subrange(0, i + 1 as int).drop_last() =~= self.windows@
                    .subrange(0, i as int));
                assert(self.windows@.subrange(0, i + 1 as int).last() == self.windows@[i as int]);
            }
            match w.validate() {
                Ok(_) => {},
                Err(e) => {
                    errors.push(e);
                },
            }
            i = i + 1;
        }
        proof {
            assert(self.windows@.subrange(0, self.windows@.len() as int) =~= self.windows@);
        }
        if errors.len() == 0 {
            Ok(())
        } else {
            Err(errors)
        }
    }
}

} // verus!
