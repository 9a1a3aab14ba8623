//! tmux target addresses: `"session"[:window][.pane]`.

use vstd::prelude::*;

verus! {

/// A tmux-addressable path: a session, optionally narrowed to a window and
/// a pane.  The session name is always quoted, since it may contain
/// spaces.
#[derive(Debug)]
pub struct Target {
    pub session: String,
    pub window: Option<String>,
    pub pane: Option<String>,
}

/// The serialized form of a target.
pub open spec fn target_text(t: Target) -> Seq<char> {
    seq!['"'] + t.session@ + seq!['"'] + (match t.window {
        Option::Some(w) => seq![':'] + w@,
        Option::None => Seq::empty(),
    }) + (match t.pane {
        Option::Some(p) => seq!['.'] + p@,
        Option::None => Seq::empty(),
    })
}

impl Target {
    /// A target addressing a whole session.
    pub fn new(session: &str) -> (r: Self)
        ensures
            r.session@ == session@,
            r.window is None,
            r.pane is None,
    {
        Target { session: session.to_owned(), window: None, pane: None }
    }

    /// Narrows the target to a window.
    pub fn window(self, window: &str) -> (r: Self)
        ensures
            r.session == self.session,
            r.window matches Option::Some(w) && w@ == window@,
            r.pane == self.pane,
    {
        Target { window: Some(window.to_owned()), ..self }
    }

    /// Narrows the target to a pane.
    pub fn pane(self, pane: &str) -> (r: Self)
        ensures
            r.session == self.session,
            r.window == self.window,
            r.pane matches Option::Some(p) && p@ == pane@,
    {
        Target { pane: Some(pane.to_owned()), ..self }
    }

    /// The target as tmux's `-t` argument: the quoted session, then
    /// `:window` and `.pane` when present.
    pub fn to_target_string(&self) -> (r: String)
        ensures
            r@ == target_text(*self),
    {
        proof {
            reveal_strlit("\"");
            reveal_strlit(":");
            reveal_strlit(".");
        }
        let mut out = String::new();
        out.append("\"");
        out.append(self.session.as_str());
        out.append("\"");
        match &self.window {
            Some(w) => {
                out.append(":");
                out.append(w.as_str());
            },
            None => {},
        }
        match &self.pane {
            Some(p) => {
                out.append(".");
                out.append(p.as_str());
            },
            None => {},
        }
        proof {
            assert(out@ =~= target_text(*self));
        }
        out
    }
}

} // verus!
