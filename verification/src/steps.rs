//! The ordered pane-creation plan for a window, and the deferred command
//! queue.
//!
//! Realizing a pane tree issues one multiplexer action per visited pane, in
//! tree order: the first pane of every sibling list reuses the pane that is
//! already current, every other pane is split off.  After each action the
//! driver applies the `tiled` stock layout so that the next split always
//! has room.  The multiplexer's reply to action number `i` is the pane id
//! of visit number `i`; those ids feed the layout engine and address the
//! deferred `send-keys` queue.

use vstd::prelude::*;

use crate::config::{Pane, panes_wf};
use crate::engine::{visits_list, visits_pane, strs_view};
use crate::path::{opt_str_view, sanitize_path, sanitize_path_spec};

verus! {

broadcast use vstd::std_specs::vec::group_vec_axioms;

/// One pane-creation action.
#[derive(Debug)]
pub enum CreationStep {
    /// Use the pane the window already shows: the first pane of a sibling
    /// list.
    UseCurrentPane,
    /// Split the window, opening the new pane in the given directory.
    Split { path: String },
}

/// The view of a creation step.
pub enum StepView {
    UseCurrentPane,
    Split { path: Seq<char> },
}

impl View for CreationStep {
    type V = StepView;

    open spec fn view(&self) -> StepView {
        match self {
            CreationStep::UseCurrentPane => StepView::UseCurrentPane,
            CreationStep::Split { path } => StepView::Split { path: path@ },
        }
    }
}

/// The views of a list of creation steps.
pub open spec fn steps_view(s: Seq<CreationStep>) -> Seq<StepView> {
    s.map_values(|c: CreationStep| c@)
}

/// The creation actions for one pane and its subtree: its own action
/// first, then its children's, in order.  A relative pane path is resolved
/// against the enclosing path, and the children inherit the resolved path.
pub open spec fn steps_of_pane(p: Pane, base: Seq<char>, first: bool) -> Seq<StepView>
    decreases p,
{
    let rp = sanitize_path_spec(opt_str_view(p.path), base);
    (if first {
        seq![StepView::UseCurrentPane]
    } else {
        seq![StepView::Split { path: rp }]
    }) + (match p.panes {
        Option::Some(cs) => steps_of_list(cs@, rp),
        Option::None => Seq::empty(),
    })
}

/// The creation actions for a sibling list, in order; the first sibling
/// reuses the current pane.
pub open spec fn steps_of_list(s: Seq<Pane>, base: Seq<char>) -> Seq<StepView>
    decreases s,
{
    if s.len() == 0 {
        Seq::empty()
    } else {
        steps_of_list(s.drop_last(), base) + steps_of_pane(s.last(), base, s.len() == 1)
    }
}

/// The number of split actions in a plan.
pub open spec fn count_splits(s: Seq<StepView>) -> int
    decreases s.len(),
{
    if s.len() == 0 {
        0
    } else {
        count_splits(s.drop_last()) + (if s.last() is Split {
            1int
        } else {
            0int
        })
    }
}

/// The number of terminal cells in a pane's subtree.
pub open spec fn leaves_pane(p: Pane) -> int
    decreases p,
{
    match p.panes {
        Option::Some(cs) => leaves_list(cs@),
        Option::None => 1,
    }
}

/// The number of terminal cells under all panes of a sibling list.
pub open spec fn leaves_list(s: Seq<Pane>) -> int
    decreases s,
{
    if s.len() == 0 {
        0
    } else {
        leaves_list(s.drop_last()) + leaves_pane(s.last())
    }
}

proof fn lemma_count_splits_concat(a: Seq<StepView>, b: Seq<StepView>)
    ensures
        count_splits(a + b) == count_splits(a) + count_splits(b),
    decreases b.len(),
{
    if b.len() == 0 {
        assert(a + b =~= a);
    } else {
        lemma_count_splits_concat(a, b.drop_last());
        assert((a + b).drop_last() =~= a + b.drop_last());
        assert((a + b).last() == b.last());
    }
}

proof fn lemma_splits_of_pane(p: Pane, base: Seq<char>, first: bool)
    requires
        pane_wf_for_splits(p),
    ensures
        count_splits(steps_of_pane(p, base, first)) == leaves_pane(p) - (if first {
            1int
        } else {
            0int
        }),
    decreases p,
{
    let rp = sanitize_path_spec(opt_str_view(p.path), base);
    let own: Seq<StepView> = if first {
        seq![StepView::UseCurrentPane]
    } else {
        seq![StepView::Split { path: rp }]
    };
    assert(own.len() == 1);
    assert(own.drop_last() =~= Seq::<StepView>::empty());
    assert(count_splits(own) == count_splits(own.drop_last()) + (if own.last() is Split {
        1int
    } else {
        0int
    }));
    assert(count_splits(own) == (if first {
        0int
    } else {
        1int
    }));
    match p.panes {
        Option::Some(cs) => {
            lemma_splits_of_list(cs@, rp);
            lemma_count_splits_concat(own, steps_of_list(cs@, rp));
        },
        Option::None => {
            assert(steps_of_pane(p, base, first) =~= own);
        },
    }
}

/// Well-formedness needed for the split count: internal nodes have
/// children.
pub open spec fn pane_wf_for_splits(p: Pane) -> bool
    decreases p,
{
    match p.panes {
        Option::Some(cs) => cs@.len() >= 1 && (forall|i: int|
            0 <= i < cs@.len() ==> pane_wf_for_splits(#[trigger] cs@[i])),
        Option::None => true,
    }
}

proof fn lemma_splits_of_list(s: Seq<Pane>, base: Seq<char>)
    requires
        s.len() >= 1,
        forall|i: int| 0 <= i < s.len() ==> pane_wf_for_splits(#[trigger] s[i]),
    ensures
        count_splits(steps_of_list(s, base)) == leaves_list(s) - 1,
    decreases s,
{
    if s.len() == 1 {
        lemma_splits_of_pane(s.last(), base, true);
        lemma_count_splits_concat(Seq::empty(), steps_of_pane(s.last(), base, true));
        assert(steps_of_list(s.drop_last(), base) =~= Seq::<StepView>::empty());
        assert(leaves_list(s.drop_last()) == 0);
    } else {
        assert(forall|i: int|
            0 <= i < s.drop_last().len() ==> pane_wf_for_splits(#[trigger] s.drop_last()[i]));
        lemma_splits_of_list(s.drop_last(), base);
        lemma_splits_of_pane(s.last(), base, false);
        lemma_count_splits_concat(steps_of_list(s.drop_last(), base), steps_of_pane(s.last(), base, false));
    }
}

/// One split for every terminal cell but the first: in the creation plan of
/// a window's pane list, the number of split actions is the number of
/// leaves minus one, whatever the paths are.
pub proof fn lemma_splits_are_leaves_minus_one(s: Seq<Pane>, base: Seq<char>)
    requires
        s.len() >= 1,
        panes_wf(s),
    ensures
        count_splits(steps_of_list(s, base)) == leaves_list(s) - 1,
{
    assert forall|i: int| 0 <= i < s.len() implies pane_wf_for_splits(#[trigger] s[i]) by {
        lemma_wf_implies_wf_for_splits(s[i]);
    }
    lemma_splits_of_list(s, base);
}

proof fn lemma_wf_implies_wf_for_splits(p: Pane)
    requires
        crate::config::pane_wf(p),
    ensures
        pane_wf_for_splits(p),
    decreases p,
{
    match p.panes {
        Option::Some(cs) => {
            assert forall|i: int| 0 <= i < cs@.len() implies pane_wf_for_splits(
                #[trigger] cs@[i],
            ) by {
                lemma_wf_implies_wf_for_splits(cs@[i]);
            }
        },
        Option::None => {},
    }
}

/// Appends the creation actions of one pane's subtree to `out`.
fn push_steps_pane(p: &Pane, base: &String, first: bool, out: &mut Vec<CreationStep>)
    ensures
        steps_view(final(out)@) == steps_view(old(out)@) + steps_of_pane(*p, base@, first),
    decreases *p,
{
    let rp = sanitize_path(&p.path, base);
    if first {
        out.push(CreationStep::UseCurrentPane);
    } else {
        out.push(CreationStep::Split { path: rp.clone() });
    }
    proof {
        assert(steps_view(out@) =~= steps_view(old(out)@) + (if first {
            seq![StepView::UseCurrentPane]
        } else {
            seq![StepView::Split { path: sanitize_path_spec(opt_str_view(p.path), base@) }]
        }));
    }
    match &p.panes {
        Some(cs) => {
            push_steps_list(cs, &rp, out);
            proof {
                assert(steps_view(out@) =~= steps_view(old(out)@) + steps_of_pane(
                    *p,
                    base@,
                    first,
                ));
            }
        },
        None => {
            proof {
                assert(steps_view(out@) =~= steps_view(old(out)@) + steps_of_pane(
                    *p,
                    base@,
                    first,
                ));
            }
        },
    }
}

/// Appends the creation actions of a sibling list to `out`.
fn push_steps_list(panes: &Vec<Pane>, base: &String, out: &mut Vec<CreationStep>)
    ensures
        steps_view(final(out)@) == steps_view(old(out)@) + steps_of_list(panes@, base@),
    decreases panes@,
{
    let mut i: usize = 0;
    while i < panes.len()
        invariant
            i <= panes@.len(),
            steps_view(out@) == steps_view(old(out)@) + steps_of_list(
                panes@.subrange(0, i as int),
                base@,
            ),
        decreases panes@.len() - i,
    {
        push_steps_pane(&panes[i], base, i == 0, out);
        proof {
            let pre = panes@.subrange(0, i as int);
            let post = panes@.subrange(0, i + 1 as int);
            assert(post.drop_last() =~= pre);
            assert(post.last() == panes@[i as int]);
            assert(steps_view(out@) =~= steps_view(old(out)@) + steps_of_list(post, base@));
        }
        i = i + 1;
    }
    proof {
        assert(panes@.subrange(0, panes@.len() as int) =~= panes@);
    }
}

/// The ordered pane-creation plan for a window's pane list under the
/// window's resolved path.
pub fn creation_steps(panes: &Vec<Pane>, window_path: &String) -> (r: Vec<CreationStep>)
    ensures
        steps_view(r@) == steps_of_list(panes@, window_path@),
{
    let mut out: Vec<CreationStep> = Vec::new();
    push_steps_list(panes, window_path, &mut out);
    proof {
        assert(steps_view(out@) =~= steps_of_list(panes@, window_path@));
    }
    out
}

/// The deferred command queue of one pane's subtree: the pane's own
/// commands, addressed to the id of its visit, then its children's, in
/// creation order.
pub open spec fn cmds_of_pane(p: Pane, ids: Seq<Seq<char>>, vi: int) -> Seq<(Seq<char>, Seq<char>)>
    decreases p,
{
    p.commands@.map_values(|c: String| (ids[vi], c@)) + (match p.panes {
        Option::Some(cs) => cmds_of_list(cs@, ids, vi + 1),
        Option::None => Seq::empty(),
    })
}

/// The deferred command queue of a sibling list.
pub open spec fn cmds_of_list(s: Seq<Pane>, ids: Seq<Seq<char>>, vi: int) -> Seq<
    (Seq<char>, Seq<char>),
>
    decreases s,
{
    if s.len() == 0 {
        Seq::empty()
    } else {
        cmds_of_list(s.drop_last(), ids, vi) + cmds_of_pane(
            s.last(),
            ids,
            vi + visits_list(s.drop_last()),
        )
    }
}

/// The views of a queue of (pane id, command) pairs.
pub open spec fn pairs_view(s: Seq<(String, String)>) -> Seq<(Seq<char>, Seq<char>)> {
    s.map_values(|t: (String, String)| (t.0@, t.1@))
}

/// Appends one pane's commands, addressed to `id`, to the queue.
fn push_pane_cmds(cmds: &Vec<String>, id: &String, out: &mut Vec<(String, String)>)
    ensures
        pairs_view(final(out)@) == pairs_view(old(out)@) + cmds@.map_values(
            |c: String| (id@, c@),
        ),
{
    let mut i: usize = 0;
    while i < cmds.len()
        invariant
            i <= cmds@.len(),
            pairs_view(out@) == pairs_view(old(out)@) + cmds@.subrange(0, i as int).map_values(
                |c: String| (id@, c@),
            ),
        decreases cmds@.len() - i,
    {
        let ghost prev = out@;
        let c0 = id.clone();
        let c1 = cmds[i].clone();
        proof {
            assert(c0@ == id@);
            assert(c1@ == cmds@[i as int]@);
        }
        out.push((c0, c1));
        proof {
            let f = |c: String| (id@, c@);
            let pre = cmds@.subrange(0, i as int);
            let post = cmds@.subrange(0, i + 1 as int);
            assert(post =~= pre.push(cmds@[i as int]));
            assert(post.map_values(f) =~= pre.map_values(f).push(f(cmds@[i as int])));
            assert(out@ == prev.push((c0, c1)));
            assert(pairs_view(out@) =~= pairs_view(prev).push((id@, cmds@[i as int]@)));
            assert(pairs_view(out@) =~= pairs_view(old(out)@) + post.map_values(f));
        }
        i = i + 1;
    }
    proof {
        assert(cmds@.subrange(0, cmds@.len() as int) =~= cmds@);
    }
}

/// Appends the command queue of one pane's subtree to `out`, consuming one
/// id per visit starting at `vi`.
fn push_cmds_pane(p: &Pane, ids: &Vec<String>, vi: usize, out: &mut Vec<(String, String)>) -> (r:
    usize)
    requires
        vi + visits_pane(*p) <= ids@.len(),
    ensures
        r == vi + visits_pane(*p),
        pairs_view(final(out)@) == pairs_view(old(out)@) + cmds_of_pane(
            *p,
            strs_view(ids@),
            vi as int,
        ),
    decreases *p,
{
    let id_count = ids.len();
    proof {
        lemma_visits_pane_ge_one(*p);
    }
    push_pane_cmds(&p.commands, &ids[vi], out);
    match &p.panes {
        Some(cs) => {
            let r = push_cmds_list(cs, ids, vi + 1, out);
            proof {
                assert(pairs_view(out@) =~= pairs_view(old(out)@) + cmds_of_pane(
                    *p,
                    strs_view(ids@),
                    vi as int,
                ));
            }
            r
        },
        None => {
            proof {
                assert(pairs_view(out@) =~= pairs_view(old(out)@) + cmds_of_pane(
                    *p,
                    strs_view(ids@),
                    vi as int,
                ));
            }
            vi + 1
        },
    }
}

proof fn lemma_visits_pane_ge_one(p: Pane)
    ensures
        visits_pane(p) >= 1,
    decreases p,
{
    match p.panes {
        Option::Some(cs) => {
            lemma_visits_list_ge_zero(cs@);
        },
        Option::None => {},
    }
}

proof fn lemma_visits_list_ge_zero(s: Seq<Pane>)
    ensures
        visits_list(s) >= 0,
    decreases s,
{
    if s.len() > 0 {
        lemma_visits_list_ge_zero(s.drop_last());
        lemma_visits_pane_ge_one(s.last());
    }
}

/// Appends the command queue of a sibling list to `out`, consuming one id
/// per visit starting at `vi`.
fn push_cmds_list(panes: &Vec<Pane>, ids: &Vec<String>, vi: usize, out: &mut Vec<(String, String)>)
    -> (r: usize)
    requires
        vi + visits_list(panes@) <= ids@.len(),
    ensures
        r == vi + visits_list(panes@),
        pairs_view(final(out)@) == pairs_view(old(out)@) + cmds_of_list(
            panes@,
            strs_view(ids@),
            vi as int,
        ),
    decreases panes@,
{
    let mut i: usize = 0;
    let mut vi_cur: usize = vi;
    while i < panes.len()
        invariant
            i <= panes@.len(),
            vi + visits_list(panes@) <= ids@.len(),
            vi_cur == vi + visits_list(panes@.subrange(0, i as int)),
            pairs_view(out@) == pairs_view(old(out)@) + cmds_of_list(
                panes@.subrange(0, i as int),
                strs_view(ids@),
                vi as int,
            ),
        decreases panes@.len() - i,
    {
        proof {
            lemma_visits_split(panes@, i as int);
        }
        let vi2 = push_cmds_pane(&panes[i], ids, vi_cur, out);
        proof {
            let pre = panes@.subrange(0, i as int);
            let post = panes@.subrange(0, i + 1 as int);
            assert(post.drop_last() =~= pre);
            assert(post.last() == panes@[i as int]);
            assert(pairs_view(out@) =~= pairs_view(old(out)@) + cmds_of_list(
                post,
                strs_view(ids@),
                vi as int,
            ));
        }
        vi_cur = vi2;
        i = i + 1;
    }
    proof {
        assert(panes@.subrange(0, panes@.len() as int) =~= panes@);
    }
    vi_cur
}

proof fn lemma_visits_split(s: Seq<Pane>, i: int)
    requires
        0 <= i < s.len(),
    ensures
        visits_list(s.subrange(0, i)) + visits_pane(s[i]) == visits_list(s.subrange(0, i + 1)),
        visits_list(s.subrange(0, i + 1)) <= visits_list(s),
        visits_list(s.subrange(0, i)) >= 0,
    decreases s.len() - i,
{
    assert(s.subrange(0, i + 1).drop_last() =~= s.subrange(0, i));
    assert(s.subrange(0, i + 1).last() == s[i]);
    lemma_visits_list_ge_zero(s.subrange(0, i));
    if i + 1 == s.len() {
        assert(s.subrange(0, i + 1) =~= s);
    } else {
        lemma_visits_split(s, i + 1);
        lemma_visits_list_ge_zero(s.subrange(0, i + 1));
        lemma_visits_pane_ge_one(s[i + 1]);
    }
}

/// The deferred command queue of a window's pane list: every pane's
/// commands addressed to the id of the pane's own visit, in creation
/// order.
pub fn collect_commands(panes: &Vec<Pane>, ids: &Vec<String>) -> (r: Vec<(String, String)>)
    requires
        visits_list(panes@) <= ids@.len(),
    ensures
        pairs_view(r@) == cmds_of_list(panes@, strs_view(ids@), 0),
{
    let mut out: Vec<(String, String)> = Vec::new();
    let _ = push_cmds_list(panes, ids, 0, &mut out);
    proof {
        assert(pairs_view(out@) =~= cmds_of_list(panes@, strs_view(ids@), 0));
    }
    out
}

} // verus!
