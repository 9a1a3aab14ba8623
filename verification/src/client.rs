//! Typed argument vectors for the tmux verbs the orchestrator drives.
//!
//! Arguments are built as vectors, never as shell-joined strings, so no
//! quoting ambiguity arises.  Each builder pins the exact argv it
//! produces.

use vstd::prelude::*;

use crate::engine::strs_view;
use crate::parser::{lemma_number_region, num_ok, num_val};
use crate::text::{
    dec_digits, is_digit, lemma_dec_digits_shape, lemma_digits_roundtrip, parse_number,
    scan_digits,
};

verus! {

broadcast use vstd::std_specs::vec::group_vec_axioms;

/// The argument form of `has-session -t <name>`.
pub open spec fn has_session_args(name: Seq<char>) -> Seq<Seq<char>> {
    seq!["tmux"@, "has-session"@, "-t"@, name]
}

/// The argument form of `new-session -d -s <name> -c <path>`.
pub open spec fn create_session_args(name: Seq<char>, path: Seq<char>) -> Seq<Seq<char>> {
    seq!["tmux"@, "new-session"@, "-d"@, "-s"@, name, "-c"@, path]
}

/// The argument form of `set-environment -t <name> <key> <value>`.
pub open spec fn set_environment_args(name: Seq<char>, key: Seq<char>, value: Seq<char>) -> Seq<
    Seq<char>,
> {
    seq!["tmux"@, "set-environment"@, "-t"@, name, key, value]
}

/// The argument form of `new-window -Pd -t <session> -n <name> -c <path>`
/// printing the window id.
pub open spec fn new_window_args(session: Seq<char>, name: Seq<char>, path: Seq<char>) -> Seq<
    Seq<char>,
> {
    seq![
        "tmux"@,
        "new-window"@,
        "-Pd"@,
        "-t"@,
        session,
        "-n"@,
        name,
        "-c"@,
        path,
        "-F"@,
        "#{window_id}"@,
    ]
}

/// The argument form of `kill-window -t <target>`.
pub open spec fn kill_window_args(target: Seq<char>) -> Seq<Seq<char>> {
    seq!["tmux"@, "kill-window"@, "-t"@, target]
}

/// The argument form of `move-window -r -s <session> -t <session>`.
pub open spec fn move_windows_args(session: Seq<char>) -> Seq<Seq<char>> {
    seq!["tmux"@, "move-window"@, "-r"@, "-s"@, session, "-t"@, session]
}

/// The argument form of `display-message -t <target> -p "#P"`.
pub open spec fn current_pane_args(target: Seq<char>) -> Seq<Seq<char>> {
    seq!["tmux"@, "display-message"@, "-t"@, target, "-p"@, "#P"@]
}

/// The argument form of the window-geometry query.
pub open spec fn window_dimensions_args() -> Seq<Seq<char>> {
    seq!["tmux"@, "display-message"@, "-p"@, "width: #{window_width}\nheight: #{window_height}"@]
}

/// The argument form of `split-window -t <target> -c <path>` printing the
/// pane id.
pub open spec fn split_window_args(target: Seq<char>, path: Seq<char>) -> Seq<Seq<char>> {
    seq!["tmux"@, "split-window"@, "-t"@, target, "-c"@, path, "-P"@, "-F"@, "#{pane_id}"@]
}

/// The argument form of `select-layout -t <target> <layout>`.
pub open spec fn select_layout_args(target: Seq<char>, layout: Seq<char>) -> Seq<Seq<char>> {
    seq!["tmux"@, "select-layout"@, "-t"@, target, layout]
}

/// The argument form of `send-keys -t <target> <command> C-m`.
pub open spec fn send_keys_args(target: Seq<char>, command: Seq<char>) -> Seq<Seq<char>> {
    seq!["tmux"@, "send-keys"@, "-t"@, target, command, "C-m"@]
}

/// The argument form of `attach-session -t <name>`.
pub open spec fn attach_args(name: Seq<char>) -> Seq<Seq<char>> {
    seq!["tmux"@, "attach-session"@, "-t"@, name]
}

/// The argument form of `switch-client -t <name>`.
pub open spec fn switch_client_args(name: Seq<char>) -> Seq<Seq<char>> {
    seq!["tmux"@, "switch-client"@, "-t"@, name]
}

/// The argument form of `kill-session -t <name>`.
pub open spec fn kill_session_args(name: Seq<char>) -> Seq<Seq<char>> {
    seq!["tmux"@, "kill-session"@, "-t"@, name]
}


/// The exact reply of the window-geometry query for a window of `w` by
/// `h` cells.
pub open spec fn dims_reply(w: int, h: int) -> Seq<char> {
    "width: "@ + dec_digits(w) + seq!['\n'] + "height: "@ + dec_digits(h)
}

/// Whether `s` carries exactly `p` starting at position `i`.
fn has_prefix(s: &str, i: usize, p: &str) -> (r: bool)
    requires
        i <= s@.len(),
    ensures
        r == (i + p@.len() <= s@.len() && s@.subrange(i as int, i + p@.len()) == p@),
{
    let plen = p.unicode_len();
    let len = s.unicode_len();
    if plen > len - i {
        return false;
    }
    let mut m: usize = 0;
    while m < plen
        invariant
            m <= plen,
            plen == p@.len(),
            len == s@.len(),
            i + plen <= len,
            forall|q: int| 0 <= q < m ==> s@[i + q] == #[trigger] p@[q],
        decreases plen - m,
    {
        let a = s.get_char(i + m);
        let b = p.get_char(m);
        if a != b {
            proof {
                if s@.subrange(i as int, i + p@.len()) == p@ {
                    assert(s@.subrange(i as int, i + p@.len())[m as int] == p@[m as int]);
                }
            }
            return false;
        }
        m = m + 1;
    }
    proof {
        assert(s@.subrange(i as int, i + p@.len()) =~= p@);
    }
    true
}

/// Everything a well-formed geometry reply pins down: its pieces and
/// where its two digit runs sit.
proof fn lemma_dims_reply_parts(s: Seq<char>, w: int, h: int)
    requires
        0 <= w <= 0xFFFF_FFFF,
        0 <= h <= 0xFFFF_FFFF,
        s == dims_reply(w, h),
    ensures
        s.len() == 16 + dec_digits(w).len() + dec_digits(h).len(),
        s.subrange(0, 7) == "width: "@,
        num_ok(s, 7) && num_val(s, 7) == w,
        scan_digits(s, 7) == 7 + dec_digits(w).len(),
        s[7 + dec_digits(w).len() as int] == '\n',
        s.subrange(8 + dec_digits(w).len() as int, 16 + dec_digits(w).len() as int)
            == "height: "@,
        num_ok(s, 16 + dec_digits(w).len() as int),
        num_val(s, 16 + dec_digits(w).len() as int) == h,
        scan_digits(s, 16 + dec_digits(w).len() as int) == s.len(),
{
    reveal_strlit("width: ");
    reveal_strlit("height: ");
    lemma_dec_digits_shape(w);
    lemma_dec_digits_shape(h);
    let lw = dec_digits(w).len() as int;
    let lh = dec_digits(h).len() as int;
    assert(s.len() == 16 + lw + lh);
    assert(s.subrange(0, 7) =~= "width: "@);
    assert forall|m: int| 0 <= m < lw implies s[7 + m] == #[trigger] dec_digits(w)[m] by {}
    assert(s[7 + lw] == '\n');
    assert(!is_digit('\n'));
    lemma_number_region(s, 7, w);
    assert(s.subrange(8 + lw, 16 + lw) =~= "height: "@);
    assert forall|m: int| 0 <= m < lh implies s[16 + lw + m] == #[trigger] dec_digits(h)[m] by {}
    lemma_number_region(s, 16 + lw, h);
}

/// Reads the window geometry from the query's reply: succeeds exactly on
/// a reply of the form `width: <w>`, a line break, `height: <h>`, and
/// returns the two numbers.
#[verifier::rlimit(100)]
pub fn parse_dimensions_reply(reply: &str) -> (r: Option<(usize, usize)>)
    ensures
        r matches Some(p) ==> reply@ == dims_reply(p.0 as int, p.1 as int) && p.0 <= 0xFFFF_FFFF
            && p.1 <= 0xFFFF_FFFF,
        r is None ==> forall|w: int, h: int|
            0 <= w <= 0xFFFF_FFFF && 0 <= h <= 0xFFFF_FFFF ==> reply@ != dims_reply(w, h),
{
    let len = reply.unicode_len();
    proof {
        reveal_strlit("width: ");
        reveal_strlit("height: ");
    }
    if !has_prefix(reply, 0, "width: ") {
        proof {
            assert forall|w: int, h: int|
                0 <= w <= 0xFFFF_FFFF && 0 <= h <= 0xFFFF_FFFF implies reply@ != dims_reply(
                w,
                h,
            ) by {
                if reply@ == dims_reply(w, h) {
                    lemma_dims_reply_parts(reply@, w, h);
                }
            }
        }
        return None;
    }
    let (w, j) = match parse_number(reply, 7) {
        Ok(t) => t,
        Err(_) => {
            proof {
                assert forall|w0: int, h0: int|
                    0 <= w0 <= 0xFFFF_FFFF && 0 <= h0 <= 0xFFFF_FFFF implies reply@ != dims_reply(
                    w0,
                    h0,
                ) by {
                    if reply@ == dims_reply(w0, h0) {
                        lemma_dims_reply_parts(reply@, w0, h0);
                    }
                }
            }
            return None;
        },
    };
    if !(j < len && reply.get_char(j) == '\n') {
        proof {
            assert forall|w0: int, h0: int|
                0 <= w0 <= 0xFFFF_FFFF && 0 <= h0 <= 0xFFFF_FFFF implies reply@ != dims_reply(
                w0,
                h0,
            ) by {
                if reply@ == dims_reply(w0, h0) {
                    lemma_dims_reply_parts(reply@, w0, h0);
                }
            }
        }
        return None;
    }
    if !has_prefix(reply, j + 1, "height: ") {
        proof {
            assert forall|w0: int, h0: int|
                0 <= w0 <= 0xFFFF_FFFF && 0 <= h0 <= 0xFFFF_FFFF implies reply@ != dims_reply(
                w0,
                h0,
            ) by {
                if reply@ == dims_reply(w0, h0) {
                    lemma_dims_reply_parts(reply@, w0, h0);
                }
            }
        }
        return None;
    }
    let (h, j2) = match parse_number(reply, j + 9) {
        Ok(t) => t,
        Err(_) => {
            proof {
                assert forall|w0: int, h0: int|
                    0 <= w0 <= 0xFFFF_FFFF && 0 <= h0 <= 0xFFFF_FFFF implies reply@ != dims_reply(
                    w0,
                    h0,
                ) by {
                    if reply@ == dims_reply(w0, h0) {
                        lemma_dims_reply_parts(reply@, w0, h0);
                    }
                }
            }
            return None;
        },
    };
    if j2 != len {
        proof {
            assert forall|w0: int, h0: int|
                0 <= w0 <= 0xFFFF_FFFF && 0 <= h0 <= 0xFFFF_FFFF implies reply@ != dims_reply(
                w0,
                h0,
            ) by {
                if reply@ == dims_reply(w0, h0) {
                    lemma_dims_reply_parts(reply@, w0, h0);
                }
            }
        }
        return None;
    }
    proof {
        lemma_digits_roundtrip(reply@, 7, j as int);
        lemma_digits_roundtrip(reply@, j + 9 as int, j2 as int);
        assert(reply@ =~= dims_reply(w as int, h as int));
    }
    Some((w, h))
}

/// Appends one literal argument.
fn arg_lit(v: &mut Vec<String>, s: &str)
    ensures
        strs_view(final(v)@) == strs_view(old(v)@).push(s@),
{
    let c = s.to_owned();
    proof {
        assert(c@ == s@);
    }
    v.push(c);
    proof {
        assert(strs_view(v@) =~= strs_view(old(v)@).push(s@));
    }
}

/// Appends one computed argument.
fn arg_str(v: &mut Vec<String>, s: &String)
    ensures
        strs_view(final(v)@) == strs_view(old(v)@).push(s@),
{
    let c = s.clone();
    proof {
        assert(c@ == s@);
    }
    v.push(c);
    proof {
        assert(strs_view(v@) =~= strs_view(old(v)@).push(s@));
    }
}

/// A target under a session: `session:suffix` (a window id, a pane id, or
/// a window index).
pub fn scoped_target(session: &String, suffix: &String) -> (r: String)
    ensures
        r@ == session@ + seq![':'] + suffix@,
{
    proof {
        reveal_strlit(":");
    }
    let mut out = session.clone();
    out.append(":");
    out.append(suffix.as_str());
    proof {
        assert(out@ =~= session@ + seq![':'] + suffix@);
    }
    out
}

/// `has-session -t <name>`: succeeds exactly when the session exists.
pub fn has_session_argv(name: &String) -> (r: Vec<String>)
    ensures
        strs_view(r@) == has_session_args(name@),
{
    let mut v: Vec<String> = Vec::new();
    arg_lit(&mut v, "tmux");
    arg_lit(&mut v, "has-session");
    arg_lit(&mut v, "-t");
    arg_str(&mut v, name);
    proof {
        assert(strs_view(v@) =~= seq!["tmux"@, "has-session"@, "-t"@, name@]);
    }
    v
}

/// `new-session -d -s <name> -c <path>`: creates the session detached.
pub fn create_session_argv(name: &String, path: &String) -> (r: Vec<String>)
    ensures
        strs_view(r@) == create_session_args(name@, path@),
{
    let mut v: Vec<String> = Vec::new();
    arg_lit(&mut v, "tmux");
    arg_lit(&mut v, "new-session");
    arg_lit(&mut v, "-d");
    arg_lit(&mut v, "-s");
    arg_str(&mut v, name);
    arg_lit(&mut v, "-c");
    arg_str(&mut v, path);
    proof {
        assert(strs_view(v@) =~= seq!["tmux"@, "new-session"@, "-d"@, "-s"@, name@, "-c"@, path@]);
    }
    v
}

/// `set-environment -t <name> <key> <value>`.
pub fn set_environment_argv(name: &String, key: &String, value: &String) -> (r: Vec<String>)
    ensures
        strs_view(r@) == set_environment_args(name@, key@, value@),
{
    let mut v: Vec<String> = Vec::new();
    arg_lit(&mut v, "tmux");
    arg_lit(&mut v, "set-environment");
    arg_lit(&mut v, "-t");
    arg_str(&mut v, name);
    arg_str(&mut v, key);
    arg_str(&mut v, value);
    proof {
        assert(strs_view(v@) =~= seq!["tmux"@, "set-environment"@, "-t"@, name@, key@, value@]);
    }
    v
}

/// `new-window -Pd -t <session> -n <name> -c <path> -F "#{window_id}"`:
/// opens a window and prints its id.
pub fn new_window_argv(session: &String, name: &String, path: &String) -> (r: Vec<String>)
    ensures
        strs_view(r@) == new_window_args(session@, name@, path@),
{
    let mut v: Vec<String> = Vec::new();
    arg_lit(&mut v, "tmux");
    arg_lit(&mut v, "new-window");
    arg_lit(&mut v, "-Pd");
    arg_lit(&mut v, "-t");
    arg_str(&mut v, session);
    arg_lit(&mut v, "-n");
    arg_str(&mut v, name);
    arg_lit(&mut v, "-c");
    arg_str(&mut v, path);
    arg_lit(&mut v, "-F");
    arg_lit(&mut v, "#{window_id}");
    proof {
        assert(strs_view(v@) =~= seq![
            "tmux"@,
            "new-window"@,
            "-Pd"@,
            "-t"@,
            session@,
            "-n"@,
            name@,
            "-c"@,
            path@,
            "-F"@,
            "#{window_id}"@,
        ]);
    }
    v
}

/// `kill-window -t <target>`.
pub fn kill_window_argv(target: &String) -> (r: Vec<String>)
    ensures
        strs_view(r@) == kill_window_args(target@),
{
    let mut v: Vec<String> = Vec::new();
    arg_lit(&mut v, "tmux");
    arg_lit(&mut v, "kill-window");
    arg_lit(&mut v, "-t");
    arg_str(&mut v, target);
    proof {
        assert(strs_view(v@) =~= seq!["tmux"@, "kill-window"@, "-t"@, target@]);
    }
    v
}

/// `move-window -r -s <session> -t <session>`: renumbers the session's
/// windows.
pub fn move_windows_argv(session: &String) -> (r: Vec<String>)
    ensures
        strs_view(r@) == move_windows_args(session@),
{
    let mut v: Vec<String> = Vec::new();
    arg_lit(&mut v, "tmux");
    arg_lit(&mut v, "move-window");
    arg_lit(&mut v, "-r");
    arg_lit(&mut v, "-s");
    arg_str(&mut v, session);
    arg_lit(&mut v, "-t");
    arg_str(&mut v, session);
    proof {
        assert(strs_view(v@) =~= seq![
            "tmux"@,
            "move-window"@,
            "-r"@,
            "-s"@,
            session@,
            "-t"@,
            session@,
        ]);
    }
    v
}

/// `display-message -t <target> -p "#P"`: prints the current pane of a
/// window.
pub fn current_pane_argv(target: &String) -> (r: Vec<String>)
    ensures
        strs_view(r@) == current_pane_args(target@),
{
    let mut v: Vec<String> = Vec::new();
    arg_lit(&mut v, "tmux");
    arg_lit(&mut v, "display-message");
    arg_lit(&mut v, "-t");
    arg_str(&mut v, target);
    arg_lit(&mut v, "-p");
    arg_lit(&mut v, "#P");
    proof {
        assert(strs_view(v@) =~= seq!["tmux"@, "display-message"@, "-t"@, target@, "-p"@, "#P"@]);
    }
    v
}

/// `display-message -p` with the window geometry format: prints
/// `width: <w>` and `height: <h>` on two lines.
pub fn window_dimensions_argv() -> (r: Vec<String>)
    ensures
        strs_view(r@) == window_dimensions_args(),
{
    let mut v: Vec<String> = Vec::new();
    arg_lit(&mut v, "tmux");
    arg_lit(&mut v, "display-message");
    arg_lit(&mut v, "-p");
    arg_lit(&mut v, "width: #{window_width}\nheight: #{window_height}");
    proof {
        assert(strs_view(v@) =~= seq![
            "tmux"@,
            "display-message"@,
            "-p"@,
            "width: #{window_width}\nheight: #{window_height}"@,
        ]);
    }
    v
}

/// `split-window -t <target> -c <path> -P -F "#{pane_id}"`: splits the
/// window and prints the new pane's id.
pub fn split_window_argv(target: &String, path: &String) -> (r: Vec<String>)
    ensures
        strs_view(r@) == split_window_args(target@, path@),
{
    let mut v: Vec<String> = Vec::new();
    arg_lit(&mut v, "tmux");
    arg_lit(&mut v, "split-window");
    arg_lit(&mut v, "-t");
    arg_str(&mut v, target);
    arg_lit(&mut v, "-c");
    arg_str(&mut v, path);
    arg_lit(&mut v, "-P");
    arg_lit(&mut v, "-F");
    arg_lit(&mut v, "#{pane_id}");
    proof {
        assert(strs_view(v@) =~= seq![
            "tmux"@,
            "split-window"@,
            "-t"@,
            target@,
            "-c"@,
            path@,
            "-P"@,
            "-F"@,
            "#{pane_id}"@,
        ]);
    }
    v
}

/// `select-layout -t <target> <layout>`.
pub fn select_layout_argv(target: &String, layout: &String) -> (r: Vec<String>)
    ensures
        strs_view(r@) == select_layout_args(target@, layout@),
{
    let mut v: Vec<String> = Vec::new();
    arg_lit(&mut v, "tmux");
    arg_lit(&mut v, "select-layout");
    arg_lit(&mut v, "-t");
    arg_str(&mut v, target);
    arg_str(&mut v, layout);
    proof {
        assert(strs_view(v@) =~= seq!["tmux"@, "select-layout"@, "-t"@, target@, layout@]);
    }
    v
}

/// `send-keys -t <target> <command> C-m`: types a command into a pane and
/// presses enter.
pub fn send_keys_argv(target: &String, command: &String) -> (r: Vec<String>)
    ensures
        strs_view(r@) == send_keys_args(target@, command@),
{
    let mut v: Vec<String> = Vec::new();
    arg_lit(&mut v, "tmux");
    arg_lit(&mut v, "send-keys");
    arg_lit(&mut v, "-t");
    arg_str(&mut v, target);
    arg_str(&mut v, command);
    arg_lit(&mut v, "C-m");
    proof {
        assert(strs_view(v@) =~= seq!["tmux"@, "send-keys"@, "-t"@, target@, command@, "C-m"@]);
    }
    v
}

/// `attach-session -t <name>`.
pub fn attach_argv(name: &String) -> (r: Vec<String>)
    ensures
        strs_view(r@) == attach_args(name@),
{
    let mut v: Vec<String> = Vec::new();
    arg_lit(&mut v, "tmux");
    arg_lit(&mut v, "attach-session");
    arg_lit(&mut v, "-t");
    arg_str(&mut v, name);
    proof {
        assert(strs_view(v@) =~= seq!["tmux"@, "attach-session"@, "-t"@, name@]);
    }
    v
}

/// `switch-client -t <name>`: used instead of attaching when already
/// inside the multiplexer.
pub fn switch_client_argv(name: &String) -> (r: Vec<String>)
    ensures
        strs_view(r@) == switch_client_args(name@),
{
    let mut v: Vec<String> = Vec::new();
    arg_lit(&mut v, "tmux");
    arg_lit(&mut v, "switch-client");
    arg_lit(&mut v, "-t");
    arg_str(&mut v, name);
    proof {
        assert(strs_view(v@) =~= seq!["tmux"@, "switch-client"@, "-t"@, name@]);
    }
    v
}

/// `kill-session -t <name>`.
pub fn kill_session_argv(name: &String) -> (r: Vec<String>)
    ensures
        strs_view(r@) == kill_session_args(name@),
{
    let mut v: Vec<String> = Vec::new();
    arg_lit(&mut v, "tmux");
    arg_lit(&mut v, "kill-session");
    arg_lit(&mut v, "-t");
    arg_str(&mut v, name);
    proof {
        assert(strs_view(v@) =~= seq!["tmux"@, "kill-session"@, "-t"@, name@]);
    }
    v
}

} // verus!
