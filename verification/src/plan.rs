//! The ordered command transcript that realizes a session.
//!
//! Creating a session issues, in order: `new-session` (with one
//! `set-environment` per variable), then per window `new-window` (the
//! first window replaces the one the session opened with, via
//! `kill-window` and a `move-window` renumber), the pane creation actions
//! each followed by the stock `tiled` layout, and the window's final
//! checksummed `select-layout`; then, if asked for, one `attach-session`
//! or `switch-client`; and only then the deferred `send-keys` queue, so
//! keystrokes land in stable panes.  `spec_transcript` states that
//! sequence exactly, and the builder is proved equal to it.
//!
//! The driver executes the transcript front to back, reading the
//! multiplexer's replies (window ids, pane ids) between the phases; the
//! replies are inputs here, so the whole transcript is a function of the
//! session and what the multiplexer answered.

use vstd::prelude::*;

use crate::checksum::layout_with_checksum;
use crate::client::{
    attach_args, attach_argv, create_session_args, create_session_argv, current_pane_args,
    current_pane_argv, kill_window_args, kill_window_argv, move_windows_args, move_windows_argv,
    new_window_args, new_window_argv, scoped_target, select_layout_args, select_layout_argv,
    send_keys_args, send_keys_argv, set_environment_args, set_environment_argv, split_window_args,
    split_window_argv, switch_client_args, switch_client_argv,
};
use crate::config::{Session, Window, panes_wf};
use crate::engine::{
    build_window_layout, flex_bounded_list, layout_ok_list, lemma_window_body, spec_window_layout,
    strs_view, visits_list,
};
use crate::error::LayoutError;
use crate::node::render;
use crate::path::{opt_str_view, sanitize_path, sanitize_path_spec};
use crate::steps::{
    CreationStep, StepView, cmds_of_list, collect_commands, count_splits, creation_steps,
    leaves_list, lemma_splits_are_leaves_minus_one, steps_of_list, steps_view,
};
use crate::text::dec_digits;

verus! {

broadcast use vstd::std_specs::vec::group_vec_axioms;

/// The view of a whole transcript: each command as its argument views.
pub open spec fn transcript_view(t: Seq<Vec<String>>) -> Seq<Seq<Seq<char>>> {
    t.map_values(|v: Vec<String>| strs_view(v@))
}

/// A tmux invocation of the given verb.
pub open spec fn is_verb(a: Seq<Seq<char>>, verb: Seq<char>) -> bool {
    a.len() >= 2 && a[0] == "tmux"@ && a[1] == verb
}

/// A `send-keys` command.
pub open spec fn is_send_keys(a: Seq<Seq<char>>) -> bool {
    is_verb(a, "send-keys"@)
}

/// Any `select-layout` command, the stock `tiled` included.
pub open spec fn is_select_layout(a: Seq<Seq<char>>) -> bool {
    is_verb(a, "select-layout"@)
}

/// A `split-window` command.
pub open spec fn is_split_window(a: Seq<Seq<char>>) -> bool {
    is_verb(a, "split-window"@)
}

/// A window's final `select-layout`: it carries a checksummed layout
/// string, never the stock `tiled`.
pub open spec fn is_final_select_layout(a: Seq<Seq<char>>) -> bool {
    is_select_layout(a) && a.len() == 5 && a[4] != "tiled"@
}

/// The `-t` target of a command.
pub open spec fn cmd_target(a: Seq<Seq<char>>) -> Seq<char> {
    a[3]
}

/// The number of `send-keys` commands in a transcript.
pub open spec fn count_sends(ts: Seq<Seq<Seq<char>>>) -> int
    decreases ts.len(),
{
    if ts.len() == 0 {
        0
    } else {
        count_sends(ts.drop_last()) + (if is_send_keys(ts.last()) {
            1int
        } else {
            0int
        })
    }
}

/// The number of `split-window` commands in a transcript.
pub open spec fn count_split_cmds(ts: Seq<Seq<Seq<char>>>) -> int
    decreases ts.len(),
{
    if ts.len() == 0 {
        0
    } else {
        count_split_cmds(ts.drop_last()) + (if is_split_window(ts.last()) {
            1int
        } else {
            0int
        })
    }
}

/// The number of final `select-layout` commands in a transcript.
pub open spec fn count_final_layouts(ts: Seq<Seq<Seq<char>>>) -> int
    decreases ts.len(),
{
    if ts.len() == 0 {
        0
    } else {
        count_final_layouts(ts.drop_last()) + (if is_final_select_layout(ts.last()) {
            1int
        } else {
            0int
        })
    }
}

/// One split per terminal cell beyond the first, summed over the first
/// `k` windows.
pub open spec fn windows_splits(ws: Seq<Window>, k: int) -> int
    decreases k,
{
    if k <= 0 {
        0
    } else {
        windows_splits(ws, k - 1) + leaves_list(ws[k - 1].panes@) - 1
    }
}

/// All commands registered for the first `k` windows: the window-level
/// commands plus every pane's deferred commands.
pub open spec fn windows_sends(ws: Seq<Window>, pids: Seq<Vec<String>>, k: int) -> int
    decreases k,
{
    if k <= 0 {
        0
    } else {
        windows_sends(ws, pids, k - 1) + ws[k - 1].commands@.len() + cmds_of_list(
            ws[k - 1].panes@,
            strs_view(pids[k - 1]@),
            0,
        ).len()
    }
}

/// The `-t` target addressing a window of the session.
pub open spec fn window_target(sname: Seq<char>, wid: Seq<char>) -> Seq<char> {
    sname + seq![':'] + wid
}

/// The `set-environment` commands for the session's variables, in order.
pub open spec fn env_cmds(env: Seq<(String, String)>, name: Seq<char>) -> Seq<Seq<Seq<char>>> {
    env.map_values(|p: (String, String)| set_environment_args(name, p.0@, p.1@))
}

/// The pane-creation commands of a plan: each action immediately followed
/// by the stock `tiled` layout, so the next split always has room.
pub open spec fn step_cmds(steps: Seq<StepView>, wt: Seq<char>) -> Seq<Seq<Seq<char>>>
    decreases steps.len(),
{
    if steps.len() == 0 {
        Seq::empty()
    } else {
        step_cmds(steps.drop_last(), wt) + seq![
            match steps.last() {
                StepView::UseCurrentPane => current_pane_args(wt),
                StepView::Split { path } => split_window_args(wt, path),
            },
            select_layout_args(wt, "tiled"@),
        ]
    }
}

/// The commands that build window `u`: open it (the first window also
/// kills the session's auto-created window `1` and renumbers), create its
/// panes with `tiled` in between, and apply its final checksummed layout.
pub open spec fn window_cmds(
    ws: Seq<Window>,
    sname: Seq<char>,
    spath: Seq<char>,
    wids: Seq<String>,
    pids: Seq<Vec<String>>,
    w: int,
    h: int,
    u: int,
) -> Seq<Seq<Seq<char>>> {
    let wpath = sanitize_path_spec(opt_str_view(ws[u].path), spath);
    let wt = window_target(sname, wids[u]@);
    seq![new_window_args(sname, ws[u].name@, wpath)] + (if u == 0 {
        seq![kill_window_args(window_target(sname, dec_digits(1))), move_windows_args(sname)]
    } else {
        Seq::empty()
    }) + step_cmds(steps_of_list(ws[u].panes@, wpath), wt) + seq![
        select_layout_args(
            wt,
            spec_window_layout(ws[u].panes@, ws[u].flex_direction, w, h, strs_view(pids[u]@)),
        ),
    ]
}

/// The window-building commands of the first `k` windows, in order.
pub open spec fn windows_cmds(
    ws: Seq<Window>,
    sname: Seq<char>,
    spath: Seq<char>,
    wids: Seq<String>,
    pids: Seq<Vec<String>>,
    w: int,
    h: int,
    k: int,
) -> Seq<Seq<Seq<char>>>
    decreases k,
{
    if k <= 0 {
        Seq::empty()
    } else {
        windows_cmds(ws, sname, spath, wids, pids, w, h, k - 1) + window_cmds(
            ws,
            sname,
            spath,
            wids,
            pids,
            w,
            h,
            k - 1,
        )
    }
}

/// The `send-keys` commands for a window's own commands, addressed to the
/// window, in declaration order.
pub open spec fn wcmd_sends(cmds: Seq<String>, wt: Seq<char>) -> Seq<Seq<Seq<char>>> {
    cmds.map_values(|c: String| send_keys_args(wt, c@))
}

/// The `send-keys` commands for a deferred pane-command queue, each
/// addressed to its pane under the session.
pub open spec fn queue_sends(q: Seq<(Seq<char>, Seq<char>)>, sname: Seq<char>) -> Seq<
    Seq<Seq<char>>,
> {
    q.map_values(|pr: (Seq<char>, Seq<char>)| send_keys_args(sname + seq![':'] + pr.0, pr.1))
}

/// All deferred `send-keys` of window `u`: its window-level commands
/// first, then its panes' commands in creation order.
pub open spec fn send_cmds_of_window(
    ws: Seq<Window>,
    sname: Seq<char>,
    wids: Seq<String>,
    pids: Seq<Vec<String>>,
    u: int,
) -> Seq<Seq<Seq<char>>> {
    wcmd_sends(ws[u].commands@, window_target(sname, wids[u]@)) + queue_sends(
        cmds_of_list(ws[u].panes@, strs_view(pids[u]@), 0),
        sname,
    )
}

/// The deferred `send-keys` of the first `k` windows, in window order.
pub open spec fn send_cmds(
    ws: Seq<Window>,
    sname: Seq<char>,
    wids: Seq<String>,
    pids: Seq<Vec<String>>,
    k: int,
) -> Seq<Seq<Seq<char>>>
    decreases k,
{
    if k <= 0 {
        Seq::empty()
    } else {
        send_cmds(ws, sname, wids, pids, k - 1) + send_cmds_of_window(ws, sname, wids, pids, k - 1)
    }
}

/// The whole command transcript that realizes a session: `new-session`
/// and its environment, every window's building commands, the optional
/// `switch-client` (inside the multiplexer) or `attach-session`, and the
/// deferred `send-keys` queue last.
pub open spec fn spec_transcript(
    session: Session,
    w: int,
    h: int,
    wids: Seq<String>,
    pids: Seq<Vec<String>>,
    attach: bool,
    inside: bool,
) -> Seq<Seq<Seq<char>>> {
    let sname = session.name@;
    let spath = session.path->0@;
    let ws = session.windows@;
    seq![create_session_args(sname, spath)] + env_cmds(session.env@, sname) + windows_cmds(
        ws,
        sname,
        spath,
        wids,
        pids,
        w,
        h,
        ws.len() as int,
    ) + (if attach {
        seq![
            if inside {
                switch_client_args(sname)
            } else {
                attach_args(sname)
            },
        ]
    } else {
        Seq::empty()
    }) + send_cmds(ws, sname, wids, pids, ws.len() as int)
}

proof fn lemma_counts_push(ts: Seq<Seq<Seq<char>>>, a: Seq<Seq<char>>)
    ensures
        count_sends(ts.push(a)) == count_sends(ts) + (if is_send_keys(a) {
            1int
        } else {
            0int
        }),
        count_split_cmds(ts.push(a)) == count_split_cmds(ts) + (if is_split_window(a) {
            1int
        } else {
            0int
        }),
        count_final_layouts(ts.push(a)) == count_final_layouts(ts) + (if is_final_select_layout(
            a,
        ) {
            1int
        } else {
            0int
        }),
{
    assert(ts.push(a).drop_last() =~= ts);
    assert(ts.push(a).last() == a);
}

proof fn lemma_scoped_inj(s: Seq<char>, a: Seq<char>, b: Seq<char>)
    requires
        s + seq![':'] + a == s + seq![':'] + b,
    ensures
        a == b,
{
    let l = s + seq![':'] + a;
    let r = s + seq![':'] + b;
    assert(l.len() == r.len());
    assert(a.len() == b.len());
    assert forall|i: int| 0 <= i < a.len() implies a[i] == b[i] by {
        assert(l[s.len() + 1 + i] == a[i]);
        assert(r[s.len() + 1 + i] == b[i]);
    }
    assert(a =~= b);
}

/// A command of one of the bookkeeping verbs is neither a `send-keys` nor
/// any kind of `select-layout` or `split-window`.
proof fn lemma_cmd_neutral(a: Seq<Seq<char>>)
    requires
        a.len() >= 2,
        a[1] == "new-session"@ || a[1] == "set-environment"@ || a[1] == "new-window"@ || a[1]
            == "kill-window"@ || a[1] == "move-window"@ || a[1] == "display-message"@ || a[1]
            == "switch-client"@ || a[1] == "attach-session"@,
    ensures
        !is_send_keys(a),
        !is_select_layout(a),
        !is_split_window(a),
        !is_final_select_layout(a),
{
    reveal_strlit("send-keys");
    reveal_strlit("select-layout");
    reveal_strlit("split-window");
    reveal_strlit("new-session");
    reveal_strlit("set-environment");
    reveal_strlit("new-window");
    reveal_strlit("kill-window");
    reveal_strlit("move-window");
    reveal_strlit("display-message");
    reveal_strlit("switch-client");
    reveal_strlit("attach-session");
    assert("new-session"@.len() != "send-keys"@.len());
    assert("new-session"@.len() != "select-layout"@.len());
    assert("new-session"@.len() != "split-window"@.len());
    assert("set-environment"@.len() != "send-keys"@.len());
    assert("set-environment"@.len() != "select-layout"@.len());
    assert("set-environment"@.len() != "split-window"@.len());
    assert("new-window"@.len() != "send-keys"@.len());
    assert("new-window"@.len() != "select-layout"@.len());
    assert("new-window"@.len() != "split-window"@.len());
    assert("kill-window"@.len() != "send-keys"@.len());
    assert("kill-window"@.len() != "select-layout"@.len());
    assert("kill-window"@.len() != "split-window"@.len());
    assert("move-window"@.len() != "send-keys"@.len());
    assert("move-window"@.len() != "select-layout"@.len());
    assert("move-window"@.len() != "split-window"@.len());
    assert("display-message"@.len() != "send-keys"@.len());
    assert("display-message"@.len() != "select-layout"@.len());
    assert("display-message"@.len() != "split-window"@.len());
    assert("switch-client"@.len() != "send-keys"@.len());
    assert("switch-client"@[1] != "select-layout"@[1]);
    assert("switch-client"@.len() != "split-window"@.len());
    assert("attach-session"@.len() != "send-keys"@.len());
    assert("attach-session"@.len() != "select-layout"@.len());
    assert("attach-session"@.len() != "split-window"@.len());
}

/// A `send-keys` command is nothing else.
proof fn lemma_cmd_send(a: Seq<Seq<char>>)
    requires
        a.len() >= 2,
        a[0] == "tmux"@,
        a[1] == "send-keys"@,
    ensures
        is_send_keys(a),
        !is_select_layout(a),
        !is_split_window(a),
        !is_final_select_layout(a),
{
    reveal_strlit("send-keys");
    reveal_strlit("select-layout");
    reveal_strlit("split-window");
    assert("send-keys"@.len() != "select-layout"@.len());
    assert("send-keys"@.len() != "split-window"@.len());
}

/// A `select-layout` command is neither a `send-keys` nor a
/// `split-window`.
proof fn lemma_cmd_select(a: Seq<Seq<char>>)
    requires
        a.len() >= 2,
        a[0] == "tmux"@,
        a[1] == "select-layout"@,
    ensures
        is_select_layout(a),
        !is_send_keys(a),
        !is_split_window(a),
{
    reveal_strlit("send-keys");
    reveal_strlit("select-layout");
    reveal_strlit("split-window");
    assert("select-layout"@.len() != "send-keys"@.len());
    assert("select-layout"@.len() != "split-window"@.len());
}

/// A `split-window` command is nothing else.
proof fn lemma_cmd_split(a: Seq<Seq<char>>)
    requires
        a.len() >= 2,
        a[0] == "tmux"@,
        a[1] == "split-window"@,
    ensures
        is_split_window(a),
        !is_send_keys(a),
        !is_select_layout(a),
        !is_final_select_layout(a),
{
    reveal_strlit("send-keys");
    reveal_strlit("select-layout");
    reveal_strlit("split-window");
    assert("split-window"@.len() != "send-keys"@.len());
    assert("split-window"@.len() != "select-layout"@.len());
}

/// Appends one command to the transcript.
fn push_cmd(t: &mut Vec<Vec<String>>, c: Vec<String>)
    ensures
        transcript_view(final(t)@) == transcript_view(old(t)@).push(strs_view(c@)),
{
    let ghost cv = strs_view(c@);
    t.push(c);
    proof {
        assert(transcript_view(t@) =~= transcript_view(old(t)@).push(cv));
    }
}

/// Whether every window of the session can be laid out within the given
/// extents.
pub open spec fn all_windows_layout_ok(ws: Seq<Window>, w: int, h: int) -> bool {
    forall|u: int|
        0 <= u < ws.len() ==> layout_ok_list(
            (#[trigger] ws[u]).panes@,
            ws[u].flex_direction,
            w,
            h,
            true,
        )
}

/// The full command transcript that realizes a validated session, given
/// the multiplexer's replies: one window id per window and one pane id per
/// visited pane of each window.
///
/// On success the transcript is exactly `spec_transcript`, and in
/// particular obeys the orchestration order: every `send-keys` comes after
/// every `select-layout`; within each window every `split-window` comes
/// before the window's final `select-layout`; each window gets exactly one
/// final `select-layout`; the number of `split-window` commands is one per
/// terminal pane beyond each window's first; and every registered window
/// and pane command becomes exactly one `send-keys`.  It succeeds exactly
/// when every window's geometry works out.
#[verifier::rlimit(100)]
pub fn session_start_transcript(
    session: &Session,
    width: usize,
    height: usize,
    window_ids: &Vec<String>,
    pane_ids: &Vec<Vec<String>>,
    attach: bool,
    inside: bool,
) -> (r: Result<Vec<Vec<String>>, LayoutError>)
    requires
        session.windows@.len() >= 1,
        session.path is Some,
        window_ids@.len() == session.windows@.len(),
        pane_ids@.len() == session.windows@.len(),
        width <= 0xFFFF,
        height <= 0xFFFF,
        forall|u: int|
            0 <= u < session.windows@.len() ==> {
                &&& (#[trigger] session.windows@[u]).panes@.len() >= 1
                &&& panes_wf(session.windows@[u].panes@)
                &&& flex_bounded_list(session.windows@[u].panes@)
                &&& visits_list(session.windows@[u].panes@) <= pane_ids@[u]@.len()
            },
        forall|u1: int, u2: int|
            0 <= u1 < u2 < window_ids@.len() ==> (#[trigger] window_ids@[u1])@ != (
            #[trigger] window_ids@[u2])@,
    ensures
        r is Ok <==> all_windows_layout_ok(session.windows@, width as int, height as int),
        r matches Err(e) ==> e == LayoutError::GeometryUnderflow,
        r matches Ok(t) ==> transcript_view(t@) == spec_transcript(
            *session,
            width as int,
            height as int,
            window_ids@,
            pane_ids@,
            attach,
            inside,
        ),
        r matches Ok(t) ==> ({
            let tv = transcript_view(t@);
            &&& forall|i: int, j: int|
                0 <= i < tv.len() && 0 <= j < tv.len() && is_send_keys(#[trigger] tv[i])
                    && is_select_layout(#[trigger] tv[j]) ==> j < i
            &&& forall|i: int, j: int|
                0 <= i < tv.len() && 0 <= j < tv.len() && is_split_window(#[trigger] tv[i])
                    && is_final_select_layout(#[trigger] tv[j]) && cmd_target(tv[i]) == cmd_target(
                    tv[j],
                ) ==> i < j
            &&& count_final_layouts(tv) == session.windows@.len()
            &&& count_split_cmds(tv) == windows_splits(
                session.windows@,
                session.windows@.len() as int,
            )
            &&& count_sends(tv) == windows_sends(
                session.windows@,
                pane_ids@,
                session.windows@.len() as int,
            )
        }),
{
    let spath = match &session.path {
        Some(p) => p.clone(),
        None => {
            proof {
                assert(false);
            }
            String::new()
        },
    };
    let ghost sname = session.name@;
    let ghost spathv = session.path->0@;
    let ghost wcount = session.windows@.len() as int;
    let ghost head = seq![create_session_args(sname, spathv)];
    let mut t: Vec<Vec<String>> = Vec::new();
    let ghost prev0 = transcript_view(t@);
    push_cmd(&mut t, create_session_argv(&session.name, &spath));
    proof {
        lemma_counts_push(prev0, transcript_view(t@).last());
        lemma_cmd_neutral(transcript_view(t@).last());
        assert(transcript_view(t@) =~= head);
    }
    let mut e: usize = 0;
    while e < session.env.len()
        invariant
            e <= session.env@.len(),
            head == seq![create_session_args(sname, spathv)],
            sname == session.name@,
            spathv == session.path->0@,
            transcript_view(t@) == head + env_cmds(session.env@.subrange(0, e as int), sname),
            forall|i: int|
                0 <= i < transcript_view(t@).len() ==> !is_send_keys(
                    #[trigger] transcript_view(t@)[i],
                ) && !is_split_window(transcript_view(t@)[i]) && !is_final_select_layout(
                    transcript_view(t@)[i],
                ),
            count_sends(transcript_view(t@)) == 0,
            count_split_cmds(transcript_view(t@)) == 0,
            count_final_layouts(transcript_view(t@)) == 0,
        decreases session.env@.len() - e,
    {
        let ghost prev = transcript_view(t@);
        let pair = &session.env[e];
        push_cmd(&mut t, set_environment_argv(&session.name, &pair.0, &pair.1));
        proof {
            lemma_counts_push(prev, transcript_view(t@).last());
            lemma_cmd_neutral(transcript_view(t@).last());
            let pre = session.env@.subrange(0, e as int);
            let post = session.env@.subrange(0, e + 1 as int);
            assert(post =~= pre.push(session.env@[e as int]));
            assert(env_cmds(post, sname) =~= env_cmds(pre, sname).push(
                set_environment_args(sname, session.env@[e as int].0@, session.env@[e as int].1@),
            ));
            assert(transcript_view(t@) =~= head + env_cmds(post, sname));
        }
        e = e + 1;
    }
    proof {
        assert(session.env@.subrange(0, session.env@.len() as int) =~= session.env@);
    }
    let ghost base1 = head + env_cmds(session.env@, sname);
    let mut w: usize = 0;
    while w < session.windows.len()
        invariant
            w <= session.windows@.len(),
            wcount == session.windows@.len(),
            sname == session.name@,
            spathv == session.path->0@,
            spath@ == spathv,
            session.path is Some,
            width <= 0xFFFF,
            height <= 0xFFFF,
            window_ids@.len() == wcount,
            pane_ids@.len() == wcount,
            base1 == seq![create_session_args(sname, spathv)] + env_cmds(session.env@, sname),
            transcript_view(t@) == base1 + windows_cmds(
                session.windows@,
                sname,
                spathv,
                window_ids@,
                pane_ids@,
                width as int,
                height as int,
                w as int,
            ),
            forall|u: int|
                0 <= u < wcount ==> {
                    &&& (#[trigger] session.windows@[u]).panes@.len() >= 1
                    &&& panes_wf(session.windows@[u].panes@)
                    &&& flex_bounded_list(session.windows@[u].panes@)
                    &&& visits_list(session.windows@[u].panes@) <= pane_ids@[u]@.len()
                },
            forall|u1: int, u2: int|
                0 <= u1 < u2 < wcount ==> (#[trigger] window_ids@[u1])@ != (
                #[trigger] window_ids@[u2])@,
            forall|u: int|
                0 <= u < w ==> layout_ok_list(
                    (#[trigger] session.windows@[u]).panes@,
                    session.windows@[u].flex_direction,
                    width as int,
                    height as int,
                    true,
                ),
            forall|i: int|
                0 <= i < transcript_view(t@).len() ==> !is_send_keys(
                    #[trigger] transcript_view(t@)[i],
                ),
            forall|i: int, j: int|
                0 <= i < transcript_view(t@).len() && 0 <= j < transcript_view(t@).len()
                    && is_split_window(#[trigger] transcript_view(t@)[i]) && is_final_select_layout(
                    #[trigger] transcript_view(t@)[j],
                ) && cmd_target(transcript_view(t@)[i]) == cmd_target(transcript_view(t@)[j])
                    ==> i < j,
            forall|j: int, u: int|
                0 <= j < transcript_view(t@).len() && w <= u < wcount && is_final_select_layout(
                    #[trigger] transcript_view(t@)[j],
                ) ==> cmd_target(transcript_view(t@)[j]) != window_target(
                    sname,
                    (#[trigger] window_ids@[u])@,
                ),
            count_sends(transcript_view(t@)) == 0,
            count_split_cmds(transcript_view(t@)) == windows_splits(session.windows@, w as int),
            count_final_layouts(transcript_view(t@)) == w as int,
        decreases session.windows@.len() - w,
    {
        let ghost wbase = transcript_view(t@);
        let window = &session.windows[w];
        let wpath = sanitize_path(&window.path, &spath);
        let ghost prev1 = transcript_view(t@);
        push_cmd(&mut t, new_window_argv(&session.name, &window.name, &wpath));
        proof {
            lemma_counts_push(prev1, transcript_view(t@).last());
            lemma_cmd_neutral(transcript_view(t@).last());
        }
        if w == 0 {
            let one = crate::text::dec_string(1);
            let first_target = scoped_target(&session.name, &one);
            let ghost prev2 = transcript_view(t@);
            push_cmd(&mut t, kill_window_argv(&first_target));
            proof {
                lemma_counts_push(prev2, transcript_view(t@).last());
                lemma_cmd_neutral(transcript_view(t@).last());
                assert(first_target@ == window_target(sname, dec_digits(1)));
            }
            let ghost prev3 = transcript_view(t@);
            push_cmd(&mut t, move_windows_argv(&session.name));
            proof {
                lemma_counts_push(prev3, transcript_view(t@).last());
                lemma_cmd_neutral(transcript_view(t@).last());
            }
        }
        let wtarget = scoped_target(&session.name, &window_ids[w]);
        proof {
            assert(wtarget@ == window_target(sname, window_ids@[w as int]@));
        }
        let ghost whead = wbase + seq![
            new_window_args(
                sname,
                session.windows@[w as int].name@,
                sanitize_path_spec(opt_str_view(session.windows@[w as int].path), spathv),
            ),
        ] + (if w == 0 {
            seq![
                kill_window_args(window_target(sname, dec_digits(1))),
                move_windows_args(sname),
            ]
        } else {
            Seq::<Seq<Seq<char>>>::empty()
        });
        proof {
            assert(transcript_view(t@) =~= whead);
        }
        let steps = creation_steps(&window.panes, &wpath);
        let ghost sv = steps_view(steps@);
        proof {
            assert(sv.subrange(0, 0) =~= Seq::<StepView>::empty());
            assert(count_splits(Seq::<StepView>::empty()) == 0);
        }
        let mut k: usize = 0;
        while k < steps.len()
            invariant
                k <= steps@.len(),
                sv == steps_view(steps@),
                sv == steps_of_list(
                    session.windows@[w as int].panes@,
                    sanitize_path_spec(opt_str_view(session.windows@[w as int].path), spathv),
                ),
                sname == session.name@,
                wtarget@ == window_target(sname, window_ids@[w as int]@),
                w < wcount,
                wcount == session.windows@.len(),
                window_ids@.len() == wcount,
                transcript_view(t@) == whead + step_cmds(sv.subrange(0, k as int), wtarget@),
                forall|u1: int, u2: int|
                    0 <= u1 < u2 < wcount ==> (#[trigger] window_ids@[u1])@ != (
                    #[trigger] window_ids@[u2])@,
                forall|i: int|
                    0 <= i < transcript_view(t@).len() ==> !is_send_keys(
                        #[trigger] transcript_view(t@)[i],
                    ),
                forall|i: int, j: int|
                    0 <= i < transcript_view(t@).len() && 0 <= j < transcript_view(t@).len()
                        && is_split_window(#[trigger] transcript_view(t@)[i])
                        && is_final_select_layout(#[trigger] transcript_view(t@)[j]) && cmd_target(
                        transcript_view(t@)[i],
                    ) == cmd_target(transcript_view(t@)[j]) ==> i < j,
                forall|j: int, u: int|
                    0 <= j < transcript_view(t@).len() && w <= u < wcount
                        && is_final_select_layout(#[trigger] transcript_view(t@)[j])
                        ==> cmd_target(transcript_view(t@)[j]) != window_target(
                        sname,
                        (#[trigger] window_ids@[u])@,
                    ),
                count_sends(transcript_view(t@)) == 0,
                count_split_cmds(transcript_view(t@)) == windows_splits(session.windows@, w as int)
                    + count_splits(sv.subrange(0, k as int)),
                count_final_layouts(transcript_view(t@)) == w as int,
            decreases steps@.len() - k,
        {
            let step = &steps[k];
            let ghost prev4 = transcript_view(t@);
            match step {
                CreationStep::UseCurrentPane => {
                    push_cmd(&mut t, current_pane_argv(&wtarget));
                },
                CreationStep::Split { path } => {
                    push_cmd(&mut t, split_window_argv(&wtarget, path));
                },
            }
            proof {
                lemma_counts_push(prev4, transcript_view(t@).last());
                match steps@[k as int] {
                    CreationStep::UseCurrentPane => {
                        lemma_cmd_neutral(transcript_view(t@).last());
                    },
                    CreationStep::Split { .. } => {
                        lemma_cmd_split(transcript_view(t@).last());
                        assert(cmd_target(transcript_view(t@).last()) == window_target(
                            sname,
                            window_ids@[w as int]@,
                        ));
                    },
                }
                assert(sv.subrange(0, k + 1 as int).drop_last() =~= sv.subrange(0, k as int));
                assert(sv.subrange(0, k + 1 as int).last() == sv[k as int]);
                assert(sv[k as int] == steps@[k as int]@);
            }
            let tiled = String::from_str("tiled");
            let ghost prev5 = transcript_view(t@);
            push_cmd(&mut t, select_layout_argv(&wtarget, &tiled));
            proof {
                reveal_strlit("tiled");
                lemma_counts_push(prev5, transcript_view(t@).last());
                lemma_cmd_select(transcript_view(t@).last());
                assert(!is_final_select_layout(transcript_view(t@).last()));
                assert(transcript_view(t@) =~= whead + step_cmds(
                    sv.subrange(0, k + 1 as int),
                    wtarget@,
                ));
            }
            k = k + 1;
        }
        proof {
            assert(sv.subrange(0, sv.len() as int) =~= sv);
            lemma_splits_are_leaves_minus_one(window.panes@, wpath@);
            assert(count_splits(sv) == leaves_list(window.panes@) - 1);
        }
        let node = match build_window_layout(
            &window.panes,
            window.flex_direction,
            width,
            height,
            &pane_ids[w],
        ) {
            Ok(n) => n,
            Err(err) => {
                proof {
                    assert(!layout_ok_list(
                        session.windows@[w as int].panes@,
                        session.windows@[w as int].flex_direction,
                        width as int,
                        height as int,
                        true,
                    ));
                }
                return Err(err);
            },
        };
        let body = render(&node);
        let layout = layout_with_checksum(body.as_str());
        proof {
            lemma_window_body(
                node,
                session.windows@[w as int].panes@,
                session.windows@[w as int].flex_direction,
                width as int,
                height as int,
                strs_view(pane_ids@[w as int]@),
            );
            assert(layout@ == spec_window_layout(
                session.windows@[w as int].panes@,
                session.windows@[w as int].flex_direction,
                width as int,
                height as int,
                strs_view(pane_ids@[w as int]@),
            ));
        }
        let ghost prev6 = transcript_view(t@);
        push_cmd(&mut t, select_layout_argv(&wtarget, &layout));
        proof {
            reveal_strlit("tiled");
            lemma_counts_push(prev6, transcript_view(t@).last());
            lemma_cmd_select(transcript_view(t@).last());
            let a = transcript_view(t@).last();
            assert(a[4].len() >= 5);
            assert(a[4][4] == ',');
            assert(a[4] != "tiled"@);
            assert(is_final_select_layout(a));
            assert(cmd_target(a) == window_target(sname, window_ids@[w as int]@));
            assert forall|j: int, u: int|
                0 <= j < transcript_view(t@).len() && w + 1 <= u < wcount
                    && is_final_select_layout(#[trigger] transcript_view(t@)[j]) implies cmd_target(
                transcript_view(t@)[j],
            ) != window_target(sname, (#[trigger] window_ids@[u])@) by {
                if j == transcript_view(t@).len() - 1 {
                    if cmd_target(transcript_view(t@)[j]) == window_target(
                        sname,
                        window_ids@[u]@,
                    ) {
                        lemma_scoped_inj(sname, window_ids@[w as int]@, window_ids@[u]@);
                    }
                }
            }
            assert(windows_splits(session.windows@, w + 1 as int) == windows_splits(
                session.windows@,
                w as int,
            ) + leaves_list(session.windows@[w as int].panes@) - 1);
            assert(transcript_view(t@) =~= wbase + window_cmds(
                session.windows@,
                sname,
                spathv,
                window_ids@,
                pane_ids@,
                width as int,
                height as int,
                w as int,
            ));
            assert(transcript_view(t@) =~= base1 + windows_cmds(
                session.windows@,
                sname,
                spathv,
                window_ids@,
                pane_ids@,
                width as int,
                height as int,
                w + 1 as int,
            ));
        }
        w = w + 1;
    }
    let ghost base2 = transcript_view(t@);
    if attach {
        let ghost prev7 = transcript_view(t@);
        if inside {
            push_cmd(&mut t, switch_client_argv(&session.name));
            proof {
                lemma_counts_push(prev7, transcript_view(t@).last());
                lemma_cmd_neutral(transcript_view(t@).last());
                assert(transcript_view(t@) =~= base2 + seq![switch_client_args(sname)]);
            }
        } else {
            push_cmd(&mut t, attach_argv(&session.name));
            proof {
                lemma_counts_push(prev7, transcript_view(t@).last());
                lemma_cmd_neutral(transcript_view(t@).last());
                assert(transcript_view(t@) =~= base2 + seq![attach_args(sname)]);
            }
        }
    } else {
        proof {
            assert(transcript_view(t@) =~= base2 + Seq::<Seq<Seq<char>>>::empty());
        }
    }
    let ghost base = transcript_view(t@);
    let mut u: usize = 0;
    while u < session.windows.len()
        invariant
            u <= session.windows@.len(),
            wcount == session.windows@.len(),
            sname == session.name@,
            window_ids@.len() == wcount,
            pane_ids@.len() == wcount,
            transcript_view(t@) == base + send_cmds(
                session.windows@,
                sname,
                window_ids@,
                pane_ids@,
                u as int,
            ),
            forall|q: int|
                0 <= q < wcount ==> {
                    &&& (#[trigger] session.windows@[q]).panes@.len() >= 1
                    &&& visits_list(session.windows@[q].panes@) <= pane_ids@[q]@.len()
                },
            forall|i: int, j: int|
                0 <= i < transcript_view(t@).len() && 0 <= j < transcript_view(t@).len()
                    && is_split_window(#[trigger] transcript_view(t@)[i]) && is_final_select_layout(
                    #[trigger] transcript_view(t@)[j],
                ) && cmd_target(transcript_view(t@)[i]) == cmd_target(transcript_view(t@)[j])
                    ==> i < j,
            forall|i: int, j: int|
                0 <= i < transcript_view(t@).len() && 0 <= j < transcript_view(t@).len()
                    && is_send_keys(#[trigger] transcript_view(t@)[i]) && is_select_layout(
                    #[trigger] transcript_view(t@)[j],
                ) ==> j < i,
            count_split_cmds(transcript_view(t@)) == windows_splits(session.windows@, wcount),
            count_final_layouts(transcript_view(t@)) == wcount,
            count_sends(transcript_view(t@)) == windows_sends(session.windows@, pane_ids@, u as int),
        decreases session.windows@.len() - u,
    {
        let ghost ubase = transcript_view(t@);
        let window = &session.windows[u];
        let wtarget = scoped_target(&session.name, &window_ids[u]);
        proof {
            assert(wtarget@ == window_target(sname, window_ids@[u as int]@));
        }
        let mut c: usize = 0;
        while c < window.commands.len()
            invariant
                c <= window.commands@.len(),
                u < wcount,
                wcount == session.windows@.len(),
                sname == session.name@,
                window == session.windows@[u as int],
                wtarget@ == window_target(sname, window_ids@[u as int]@),
                transcript_view(t@) == ubase + wcmd_sends(
                    session.windows@[u as int].commands@.subrange(0, c as int),
                    wtarget@,
                ),
                forall|i: int, j: int|
                    0 <= i < transcript_view(t@).len() && 0 <= j < transcript_view(t@).len()
                        && is_split_window(#[trigger] transcript_view(t@)[i])
                        && is_final_select_layout(#[trigger] transcript_view(t@)[j]) && cmd_target(
                        transcript_view(t@)[i],
                    ) == cmd_target(transcript_view(t@)[j]) ==> i < j,
                forall|i: int, j: int|
                    0 <= i < transcript_view(t@).len() && 0 <= j < transcript_view(t@).len()
                        && is_send_keys(#[trigger] transcript_view(t@)[i]) && is_select_layout(
                        #[trigger] transcript_view(t@)[j],
                    ) ==> j < i,
                count_split_cmds(transcript_view(t@)) == windows_splits(session.windows@, wcount),
                count_final_layouts(transcript_view(t@)) == wcount,
                count_sends(transcript_view(t@)) == windows_sends(
                    session.windows@,
                    pane_ids@,
                    u as int,
                ) + c as int,
            decreases window.commands@.len() - c,
        {
            let ghost prev8 = transcript_view(t@);
            push_cmd(&mut t, send_keys_argv(&wtarget, &window.commands[c]));
            proof {
                lemma_counts_push(prev8, transcript_view(t@).last());
                lemma_cmd_send(transcript_view(t@).last());
                let cs = session.windows@[u as int].commands@;
                let pre = cs.subrange(0, c as int);
                let post = cs.subrange(0, c + 1 as int);
                assert(post =~= pre.push(cs[c as int]));
                assert(wcmd_sends(post, wtarget@) =~= wcmd_sends(pre, wtarget@).push(
                    send_keys_args(wtarget@, cs[c as int]@),
                ));
                assert(transcript_view(t@) =~= ubase + wcmd_sends(post, wtarget@));
            }
            c = c + 1;
        }
        proof {
            let cs = session.windows@[u as int].commands@;
            assert(cs.subrange(0, cs.len() as int) =~= cs);
        }
        let queue = collect_commands(&window.panes, &pane_ids[u]);
        let ghost qv = crate::steps::pairs_view(queue@);
        let ghost qbase = transcript_view(t@);
        proof {
            assert(qv.subrange(0, 0) =~= Seq::<(Seq<char>, Seq<char>)>::empty());
            assert(queue_sends(Seq::<(Seq<char>, Seq<char>)>::empty(), sname) =~= Seq::<
                Seq<Seq<char>>,
            >::empty());
            assert(transcript_view(t@) =~= qbase + queue_sends(qv.subrange(0, 0), sname));
        }
        let mut q: usize = 0;
        while q < queue.len()
            invariant
                q <= queue@.len(),
                u < wcount,
                wcount == session.windows@.len(),
                sname == session.name@,
                window == session.windows@[u as int],
                qv == crate::steps::pairs_view(queue@),
                qv == cmds_of_list(
                    session.windows@[u as int].panes@,
                    strs_view(pane_ids@[u as int]@),
                    0,
                ),
                transcript_view(t@) == qbase + queue_sends(qv.subrange(0, q as int), sname),
                forall|i: int, j: int|
                    0 <= i < transcript_view(t@).len() && 0 <= j < transcript_view(t@).len()
                        && is_split_window(#[trigger] transcript_view(t@)[i])
                        && is_final_select_layout(#[trigger] transcript_view(t@)[j]) && cmd_target(
                        transcript_view(t@)[i],
                    ) == cmd_target(transcript_view(t@)[j]) ==> i < j,
                forall|i: int, j: int|
                    0 <= i < transcript_view(t@).len() && 0 <= j < transcript_view(t@).len()
                        && is_send_keys(#[trigger] transcript_view(t@)[i]) && is_select_layout(
                        #[trigger] transcript_view(t@)[j],
                    ) ==> j < i,
                count_split_cmds(transcript_view(t@)) == windows_splits(session.windows@, wcount),
                count_final_layouts(transcript_view(t@)) == wcount,
                count_sends(transcript_view(t@)) == windows_sends(
                    session.windows@,
                    pane_ids@,
                    u as int,
                ) + session.windows@[u as int].commands@.len() + q as int,
            decreases queue@.len() - q,
        {
            let pair = &queue[q];
            let ptarget = scoped_target(&session.name, &pair.0);
            let ghost prev9 = transcript_view(t@);
            push_cmd(&mut t, send_keys_argv(&ptarget, &pair.1));
            proof {
                lemma_counts_push(prev9, transcript_view(t@).last());
                lemma_cmd_send(transcript_view(t@).last());
                let pre = qv.subrange(0, q as int);
                let post = qv.subrange(0, q + 1 as int);
                assert(qv[q as int] == (queue@[q as int].0@, queue@[q as int].1@));
                assert(ptarget@ == sname + seq![':'] + qv[q as int].0);
                assert(post =~= pre.push(qv[q as int]));
                assert(queue_sends(post, sname) =~= queue_sends(pre, sname).push(
                    send_keys_args(sname + seq![':'] + qv[q as int].0, qv[q as int].1),
                ));
                assert(transcript_view(t@) =~= qbase + queue_sends(post, sname));
            }
            q = q + 1;
        }
        proof {
            assert(crate::steps::pairs_view(queue@).len() == queue@.len());
            assert(qv.subrange(0, qv.len() as int) =~= qv);
            assert(windows_sends(session.windows@, pane_ids@, u + 1 as int) == windows_sends(
                session.windows@,
                pane_ids@,
                u as int,
            ) + session.windows@[u as int].commands@.len() + cmds_of_list(
                session.windows@[u as int].panes@,
                strs_view(pane_ids@[u as int]@),
                0,
            ).len());
            assert(transcript_view(t@) =~= base + send_cmds(
                session.windows@,
                sname,
                window_ids@,
                pane_ids@,
                u + 1 as int,
            ));
        }
        u = u + 1;
    }
    proof {
        assert(transcript_view(t@) =~= spec_transcript(
            *session,
            width as int,
            height as int,
            window_ids@,
            pane_ids@,
            attach,
            inside,
        ));
    }
    Ok(t)
}

} // verus!
