//! The forge: the scheduler's decisions and the per-unit attempt protocol.
//!
//! The loop that runs agents, shells and git lives with the caller; each
//! turn of it asks these functions what to do next and hands back what
//! happened. The ledger is reloaded and saved around every call that
//! changes it.

use vstd::prelude::*;
use vstd::string::*;
use crate::crucible::{
    Crucible, CrucibleView, any_pending, count_status, first_with_id, has_id, heat_after,
    replaced_at, string_views, with_heat, with_status, is_solo_ore,
};
use crate::directive::{cmd_of, extract_cmd};
use crate::error::SlagError;
use crate::parser::ingots_of_text;
use crate::resmelt::{fresh, may_resmelt, reply_recasts, resmelt_ingot};
use crate::crucible::{stamped, index_of};
use crate::sexp::{Ingot, IngotView, Status};

verus! {

/// A unit that was completed, with its branch and working tree when it was
/// worked in isolation.
#[derive(Debug, Clone)]
pub struct ForgeResult {
    pub id: String,
    pub branch: Option<String>,
    pub worktree_path: Option<String>,
}

pub open spec fn branch_text(id: Seq<char>) -> Seq<char> {
    "forge/"@ + id
}

/// The branch a unit is worked on in isolation: `forge/<id>`.
pub fn branch_name(id: &str) -> (r: String)
    ensures
        r@ == branch_text(id@),
{
    let mut s = String::new();
    s.append("forge/");
    s.append(id);
    s
}

impl ForgeResult {
    /// The result of a completed unit: a branch exactly when it was worked
    /// in its own working tree.
    pub fn finished(id: &str, worktree_path: Option<String>) -> (r: ForgeResult)
        ensures
            r.id@ == id@,
            r.worktree_path == worktree_path,
            worktree_path is Some <==> r.branch is Some,
            r.branch matches Some(b) ==> b@ == branch_text(id@),
    {
        let branch = match &worktree_path {
            Some(_) => Some(branch_name(id)),
            None => None,
        };
        ForgeResult { id: id.to_string(), branch, worktree_path }
    }
}

/// What the scheduler does next.
#[derive(Debug)]
pub enum ForgeStep {
    /// No unit is pending and none failed.
    Complete,
    /// No unit is pending and this many failed.
    Exhausted(usize),
    /// Work these units concurrently; they are marked in progress.
    Parallel(Vec<String>),
    /// Work this unit alone; it is marked in progress.
    Sequential(String),
}

/// A unit left in progress by an earlier run goes back to the queue.
pub open spec fn unstale(u: IngotView) -> IngotView {
    if u.status == Status::Molten {
        with_status(u, Status::Ore)
    } else {
        u
    }
}

pub open spec fn reset_stale(us: Seq<IngotView>) -> Seq<IngotView> {
    us.map_values(|u: IngotView| unstale(u))
}

/// The ids of the first `n` queued independent units, in ledger order.
pub open spec fn batch(us: Seq<IngotView>, n: nat) -> Seq<Seq<char>>
    decreases us.len(),
{
    if us.len() == 0 {
        seq![]
    } else {
        let b = batch(us.drop_last(), n);
        if is_solo_ore(us.last()) && b.len() < n {
            b.push(us.last().id)
        } else {
            b
        }
    }
}

/// Whether the unit at `i` is among the first `n` queued independent units.
pub open spec fn picked(us: Seq<IngotView>, i: int, n: nat) -> bool {
    is_solo_ore(us[i]) && batch(us.subrange(0, i), n).len() < n
}

/// `i` is the first queued unit.
pub open spec fn first_ore(us: Seq<IngotView>, i: int) -> bool {
    0 <= i < us.len() && us[i].status == Status::Ore && forall|j: int|
        0 <= j < i ==> (#[trigger] us[j]).status != Status::Ore
}

pub proof fn lemma_batch_prefix(us: Seq<IngotView>, j: int, n: nat)
    requires
        0 <= j <= us.len(),
    ensures
        batch(us.subrange(0, j), n).len() <= batch(us, n).len(),
    decreases us.len(),
{
    if j == us.len() {
        assert(us.subrange(0, j) =~= us);
    } else {
        lemma_batch_prefix(us.drop_last(), j, n);
        assert(us.drop_last().subrange(0, j) =~= us.subrange(0, j));
    }
}

/// Decides the scheduler's next step and marks what it dispatches as in
/// progress. Units left in progress by an earlier run are queued again
/// first. When nothing is pending the run is complete, or exhausted with
/// the count of failed units. Otherwise the first `max_anvils` queued
/// independent units are dispatched together; when there are none, the
/// first queued unit runs alone.
pub fn plan_forge_step(crucible: &mut Crucible, max_anvils: usize) -> (r: ForgeStep)
    ensures
        final(crucible)@.path == old(crucible)@.path,
        final(crucible)@.header == old(crucible)@.header,
        ({
            let us = old(crucible)@.ingots;
            let rs = reset_stale(us);
            let fs = final(crucible)@.ingots;
            match r {
                ForgeStep::Complete => !any_pending(us) && count_status(us, Status::Cracked) == 0
                    && fs == us,
                ForgeStep::Exhausted(n) => !any_pending(us) && n == count_status(
                    us,
                    Status::Cracked,
                ) && n > 0 && fs == us,
                ForgeStep::Parallel(ids) => any_pending(us) && ids.len() > 0 && string_views(ids@)
                    == batch(rs, max_anvils as nat) && fs.len() == rs.len() && forall|i: int|
                    0 <= i < rs.len() ==> #[trigger] fs[i] == if picked(rs, i, max_anvils as nat) {
                        with_status(rs[i], Status::Molten)
                    } else {
                        rs[i]
                    },
                ForgeStep::Sequential(id) => any_pending(us) && batch(rs, max_anvils as nat).len()
                    == 0 && exists|k: int|
                    first_ore(rs, k) && id@ == rs[k].id && fs == rs.update(
                        k,
                        with_status(rs[k], Status::Molten),
                    ),
            }
        }),
{
    let ghost us = crucible@.ingots;
    let ghost rs = reset_stale(us);
    let mut i: usize = 0;
    while i < crucible.ingots.len()
        invariant
            0 <= i <= crucible.ingots.len(),
            crucible.ingots.len() == us.len(),
            rs.len() == us.len(),
            rs == reset_stale(us),
            crucible@.path == old(crucible)@.path,
            crucible@.header == old(crucible)@.header,
            forall|j: int| 0 <= j < i ==> #[trigger] crucible@.ingots[j] == rs[j],
            forall|j: int| i <= j < us.len() ==> #[trigger] crucible@.ingots[j] == us[j],
        decreases crucible.ingots.len() - i,
    {
        assert(crucible@.ingots[i as int] == crucible.ingots@[i as int]@);
        assert(rs[i as int] == unstale(us[i as int]));
        if crucible.ingots[i].status == Status::Molten {
            crucible.set_status_at(i, Status::Ore);
            assert(crucible@.ingots.len() == crucible.ingots.len());
        }
        i += 1;
    }
    assert(crucible@.ingots =~= rs);
    if !crucible.has_pending() {
        assert(forall|j: int| 0 <= j < us.len() ==> #[trigger] rs[j] == us[j]) by {
            assert forall|j: int| 0 <= j < us.len() implies #[trigger] rs[j] == us[j] by {
                if us[j].status == Status::Molten {
                    assert(crate::crucible::is_pending(rs[j]));
                }
            }
        }
        assert(rs =~= us);
        let counts = crucible.counts();
        if counts.cracked > 0 {
            return ForgeStep::Exhausted(counts.cracked);
        }
        return ForgeStep::Complete;
    }
    assert(any_pending(us)) by {
        let j = choose|j: int| 0 <= j < rs.len() && crate::crucible::is_pending(#[trigger] rs[j]);
        assert(crate::crucible::is_pending(us[j]));
    }
    let ghost n = max_anvils as nat;
    let mut ids: Vec<String> = Vec::new();
    let mut i: usize = 0;
    while i < crucible.ingots.len()
        invariant
            0 <= i <= crucible.ingots.len(),
            crucible.ingots.len() == rs.len(),
            rs == reset_stale(us),
            us == old(crucible)@.ingots,
            any_pending(us),
            n == max_anvils as nat,
            crucible@.path == old(crucible)@.path,
            crucible@.header == old(crucible)@.header,
            string_views(ids@) == batch(rs.subrange(0, i as int), n),
            forall|j: int|
                0 <= j < i ==> #[trigger] crucible@.ingots[j] == if picked(rs, j, n) {
                    with_status(rs[j], Status::Molten)
                } else {
                    rs[j]
                },
            forall|j: int| i <= j < rs.len() ==> #[trigger] crucible@.ingots[j] == rs[j],
        decreases crucible.ingots.len() - i,
    {
        let ghost pre = rs.subrange(0, i as int);
        let ghost nxt = rs.subrange(0, i + 1);
        assert(nxt.drop_last() =~= pre);
        assert(crucible@.ingots[i as int] == crucible.ingots@[i as int]@);
        assert(nxt.last() == rs[i as int]);
        if crucible.ingots[i].status == Status::Ore && crucible.ingots[i].solo && ids.len()
            < max_anvils {
            let id = crucible.ingots[i].id.clone();
            crucible.set_status_at(i, Status::Molten);
            assert(crucible@.ingots.len() == crucible.ingots.len());
            let ghost before = ids@;
            ids.push(id);
            assert(string_views(ids@) =~= string_views(before).push(id@));
        }
        i += 1;
    }
    assert(rs.subrange(0, rs.len() as int) =~= rs);
    if ids.len() > 0 {
        return ForgeStep::Parallel(ids);
    }
    assert(batch(rs, n).len() == 0);
    assert forall|j: int| 0 <= j < rs.len() implies !#[trigger] picked(rs, j, n) by {
        if picked(rs, j, n) {
            lemma_batch_prefix(rs, j + 1, n);
            assert(rs.subrange(0, j + 1).drop_last() =~= rs.subrange(0, j));
        }
    }
    assert(crucible@.ingots =~= rs);
    let mut k: usize = 0;
    while k < crucible.ingots.len()
        invariant
            0 <= k <= crucible.ingots.len(),
            crucible@.ingots == rs,
            rs == reset_stale(us),
            us == old(crucible)@.ingots,
            any_pending(us),
            n == max_anvils as nat,
            batch(rs, n).len() == 0,
            crucible@.path == old(crucible)@.path,
            crucible@.header == old(crucible)@.header,
            forall|j: int| 0 <= j < k ==> (#[trigger] rs[j]).status != Status::Ore,
        decreases crucible.ingots.len() - k,
    {
        assert(crucible@.ingots[k as int] == crucible.ingots@[k as int]@);
        if crucible.ingots[k].status == Status::Ore {
            let id = crucible.ingots[k].id.clone();
            crucible.set_status_at(k, Status::Molten);
            assert(first_ore(rs, k as int));
            assert(id@ == rs[k as int].id);
            assert(crucible@.ingots == rs.update(k as int, with_status(rs[k as int], Status::Molten)));
            assert(batch(rs, max_anvils as nat).len() == 0);
            assert(any_pending(us));
            return ForgeStep::Sequential(id);
        }
        k += 1;
    }
    assert(false) by {
        let j = choose|j: int| 0 <= j < us.len() && crate::crucible::is_pending(#[trigger] us[j]);
        assert(rs[j].status == Status::Ore);
    }
    ForgeStep::Complete
}

/// What happened since the attempt loop last decided.
#[derive(Debug)]
pub enum StrikeEvent {
    /// An attempt was asked for; whether the unit had one left.
    Counted(bool),
    /// The agent could not be run, with the reason.
    AgentFailed(String),
    /// The agent's reply.
    AgentReplied(String),
    /// The extracted command ran: whether it succeeded, and its output.
    CommandRan(bool, String),
    /// The unit's proof ran: whether it succeeded, and its output.
    ProofRan(bool, String),
}

/// What the attempt loop does next.
#[derive(Debug, PartialEq, Eq)]
pub enum StrikeAction {
    /// Count an attempt on the ledger, and report whether one was left.
    CountAttempt,
    /// Send the agent the request built from the unit and the last failure.
    Invoke,
    /// Run this command.
    RunCommand(String),
    /// Run the unit's proof.
    RunProof(String),
    /// Commit the work: the unit is done.
    Commit,
    /// Stop: the unit is out of attempts.
    GiveUp,
}

pub enum ActionView {
    CountAttempt,
    Invoke,
    RunCommand(Seq<char>),
    RunProof(Seq<char>),
    Commit,
    GiveUp,
}

pub open spec fn action_view(a: StrikeAction) -> ActionView {
    match a {
        StrikeAction::CountAttempt => ActionView::CountAttempt,
        StrikeAction::Invoke => ActionView::Invoke,
        StrikeAction::RunCommand(c) => ActionView::RunCommand(c@),
        StrikeAction::RunProof(p) => ActionView::RunProof(p@),
        StrikeAction::Commit => ActionView::Commit,
        StrikeAction::GiveUp => ActionView::GiveUp,
    }
}

/// The state of one unit's attempt loop: its proof, the message of the last
/// failed attempt, and the command of the current attempt.
pub struct Strike {
    pub proof: String,
    pub slag: Option<String>,
    pub command: Option<String>,
}

pub struct StrikeView {
    pub proof: Seq<char>,
    pub slag: Option<Seq<char>>,
    pub command: Option<Seq<char>>,
}

pub open spec fn opt_text(o: Option<String>) -> Option<Seq<char>> {
    match o {
        Some(s) => Some(s@),
        None => None,
    }
}

impl View for Strike {
    type V = StrikeView;

    open spec fn view(&self) -> StrikeView {
        StrikeView { proof: self.proof@, slag: opt_text(self.slag), command: opt_text(self.command) }
    }
}

/// The proof must run on its own unless it is empty, trivial, or the very
/// command that just succeeded.
pub open spec fn proof_needed(proof: Seq<char>, command: Seq<char>) -> bool {
    proof.len() > 0 && proof != command && proof != "true"@
}

pub open spec fn failed(s: StrikeView, msg: Seq<char>) -> (StrikeView, ActionView) {
    (StrikeView { slag: Some(msg), ..s }, ActionView::CountAttempt)
}

/// The attempt protocol: count an attempt, ask the agent, extract its
/// command, run it, run the proof where it is needed, commit. Any failure
/// becomes the message for the next attempt, which is counted again.
pub open spec fn strike_step(s: StrikeView, e: StrikeEvent) -> (StrikeView, ActionView) {
    match e {
        StrikeEvent::Counted(left) => if left {
            (s, ActionView::Invoke)
        } else {
            (s, ActionView::GiveUp)
        },
        StrikeEvent::AgentFailed(m) => failed(s, "Smith error: "@ + m@),
        StrikeEvent::AgentReplied(t) => match cmd_of(t@) {
            None => failed(s, "NO COMMAND: line in response"@),
            Some(c) => (StrikeView { command: Some(c), ..s }, ActionView::RunCommand(c)),
        },
        StrikeEvent::CommandRan(ok, out) => if !ok {
            failed(s, "CMD failed (exit 1): "@ + out@)
        } else if s.command is Some && proof_needed(s.proof, s.command->0) {
            (s, ActionView::RunProof(s.proof))
        } else {
            (s, ActionView::Commit)
        },
        StrikeEvent::ProofRan(ok, out) => if !ok {
            failed(s, "Proof failed ["@ + s.proof + "]: "@ + out@)
        } else {
            (s, ActionView::Commit)
        },
    }
}

impl Strike {
    /// The attempt loop of a unit, before its first attempt; its first
    /// action is `CountAttempt`.
    pub fn new(ingot: &Ingot) -> (r: Strike)
        ensures
            r@.proof == ingot@.proof,
            r@.slag is None,
            r@.command is None,
    {
        Strike { proof: ingot.proof.clone(), slag: None, command: None }
    }

    fn fail(&mut self, head: &str, tail: &str, extra: &str) -> (r: StrikeAction)
        ensures
            final(self)@ == (StrikeView { slag: Some(head@ + tail@ + extra@), ..old(self)@ }),
            r == StrikeAction::CountAttempt,
    {
        let mut m = String::new();
        m.append(head);
        m.append(tail);
        m.append(extra);
        assert(m@ =~= head@ + tail@ + extra@);
        self.slag = Some(m);
        StrikeAction::CountAttempt
    }

    /// Takes what happened and says what to do next.
    pub fn next(&mut self, event: StrikeEvent) -> (r: StrikeAction)
        ensures
            (final(self)@, action_view(r)) == strike_step(old(self)@, event),
    {
        proof {
            reveal_strlit("");
        }
        match event {
            StrikeEvent::Counted(left) => if left {
                StrikeAction::Invoke
            } else {
                StrikeAction::GiveUp
            },
            StrikeEvent::AgentFailed(m) => {
                let r = self.fail("Smith error: ", m.as_str(), "");
                assert("Smith error: "@ + m@ + ""@ =~= "Smith error: "@ + m@);
                r
            },
            StrikeEvent::AgentReplied(t) => match extract_cmd(t.as_str()) {
                None => {
                    let r = self.fail("NO COMMAND: line in response", "", "");
                    assert("NO COMMAND: line in response"@ + ""@ + ""@ =~= "NO COMMAND: line in response"@);
                    r
                },
                Some(c) => {
                    let run = c.clone();
                    self.command = Some(c);
                    StrikeAction::RunCommand(run)
                },
            },
            StrikeEvent::CommandRan(ok, out) => {
                if !ok {
                    let r = self.fail("CMD failed (exit 1): ", out.as_str(), "");
                    assert("CMD failed (exit 1): "@ + out@ + ""@ =~= "CMD failed (exit 1): "@ + out@);
                    r
                } else {
                    let needed = match &self.command {
                        Some(c) => self.proof.as_str().unicode_len() > 0 && self.proof != *c && self.proof
                            != "true".to_string(),
                        None => false,
                    };
                    if needed {
                        StrikeAction::RunProof(self.proof.clone())
                    } else {
                        StrikeAction::Commit
                    }
                }
            },
            StrikeEvent::ProofRan(ok, out) => {
                if !ok {
                    let mut head = String::new();
                    head.append("Proof failed [");
                    head.append(self.proof.as_str());
                    let r = self.fail(head.as_str(), "]: ", out.as_str());
                    assert("Proof failed ["@ + old(self)@.proof + "]: "@ + out@ =~= head@ + "]: "@
                        + out@);
                    r
                } else {
                    StrikeAction::Commit
                }
            },
        }
    }
}

/// Settles a unit whose attempts ran out. With the agent's reply to a
/// re-smelt request, and a unit that may still be re-smelted, a reply that
/// recasts it replaces it; in every other case the unit is marked failed.
/// Says whether the unit was replaced.
pub fn settle_failure(crucible: &mut Crucible, id: &str, reply: Option<&str>) -> (r: bool)
    ensures
        final(crucible)@.path == old(crucible)@.path,
        final(crucible)@.header == old(crucible)@.header,
        match old(crucible).position_spec(id@) {
            None => !r && final(crucible)@.ingots == old(crucible)@.ingots,
            Some(i) => {
                let u = old(crucible)@.ingots[i];
                if reply is Some && may_resmelt(u) && reply_recasts(reply->0@) {
                    &&& r
                    &&& final(crucible)@.ingots == replaced_at(
                        old(crucible)@.ingots,
                        i,
                        fresh(ingots_of_text(reply->0@)),
                    )
                } else {
                    &&& !r
                    &&& final(crucible)@.ingots == old(crucible)@.ingots.update(
                        i,
                        with_status(u, Status::Cracked),
                    )
                }
            },
        },
{
    match crucible.position(id) {
        None => {
            proof {
                crucible.lemma_position_spec_none(id@);
            }
            false
        },
        Some(i) => {
            proof {
                crucible.lemma_position_spec(id@, i as int);
            }
            let u = crucible.ingots[i].duplicate();
            assert(u@ == old(crucible)@.ingots[i as int]);
            match reply {
                Some(t) => {
                    if resmelt_ingot(crucible, &u, t).is_ok() {
                        return true;
                    }
                },
                None => {},
            }
            crucible.set_status_at(i, Status::Cracked);
            false
        },
    }
}

/// No unit has used more attempts than it is allowed.
pub open spec fn heats_within(us: Seq<IngotView>) -> bool {
    forall|i: int| 0 <= i < us.len() ==> (#[trigger] us[i]).heat <= us[i].max
}

/// Every unit in progress is one of `ids`.
pub open spec fn molten_among(us: Seq<IngotView>, ids: Seq<Seq<char>>) -> bool {
    forall|i: int| 0 <= i < us.len() && (#[trigger] us[i]).status == Status::Molten ==> ids.contains(us[i].id)
}

/// After the scheduler dispatches a batch, the units in progress are exactly
/// the dispatched ones, and no unit has used more attempts than allowed if
/// none had before.
pub proof fn lemma_dispatch_marks_batch(us: Seq<IngotView>, n: nat, fs: Seq<IngotView>)
    requires
        fs.len() == reset_stale(us).len(),
        forall|i: int|
            0 <= i < fs.len() ==> #[trigger] fs[i] == if picked(reset_stale(us), i, n) {
                with_status(reset_stale(us)[i], Status::Molten)
            } else {
                reset_stale(us)[i]
            },
    ensures
        heats_within(us) ==> heats_within(fs),
        forall|i: int|
            0 <= i < fs.len() ==> ((#[trigger] fs[i]).status == Status::Molten <==> picked(
                reset_stale(us),
                i,
                n,
            )),
{
    let rs = reset_stale(us);
    assert forall|i: int| 0 <= i < fs.len() implies (#[trigger] fs[i]).status == Status::Molten
        <==> picked(rs, i, n) by {
        assert(rs[i] == unstale(us[i]));
    }
    if heats_within(us) {
        assert forall|i: int| 0 <= i < fs.len() implies (#[trigger] fs[i]).heat <= fs[i].max by {
            assert(rs[i] == unstale(us[i]));
            assert(us[i].heat <= us[i].max);
        }
    }
}

/// Running a unit alone puts exactly that unit in progress.
pub proof fn lemma_sequential_marks_one(us: Seq<IngotView>, k: int)
    requires
        first_ore(reset_stale(us), k),
    ensures
        heats_within(us) ==> heats_within(reset_stale(us).update(k, with_status(reset_stale(us)[k], Status::Molten))),
        forall|i: int|
            0 <= i < us.len() ==> ((#[trigger] reset_stale(us).update(k, with_status(reset_stale(us)[k], Status::Molten))[i]).status == Status::Molten <==> i == k),
{
    let rs = reset_stale(us);
    let fs = rs.update(k, with_status(rs[k], Status::Molten));
    assert forall|i: int| 0 <= i < us.len() implies ((#[trigger] fs[i]).status == Status::Molten <==> i == k) by {
        assert(rs[i] == unstale(us[i]));
    }
    if heats_within(us) {
        assert forall|i: int| 0 <= i < fs.len() implies (#[trigger] fs[i]).heat <= fs[i].max by {
            assert(rs[i] == unstale(us[i]));
            assert(us[i].heat <= us[i].max);
        }
    }
}

/// Counting an attempt never takes a unit past its limit, and puts no unit
/// in progress.
pub proof fn lemma_attempt_within(us: Seq<IngotView>, i: int, ids: Seq<Seq<char>>)
    requires
        0 <= i < us.len(),
        us[i].heat < us[i].max,
    ensures
        heats_within(us) ==> heats_within(us.update(i, with_heat(us[i], (us[i].heat + 1) as u8))),
        molten_among(us, ids) ==> molten_among(us.update(i, with_heat(us[i], (us[i].heat + 1) as u8)), ids),
{
    let fs = us.update(i, with_heat(us[i], (us[i].heat + 1) as u8));
    if molten_among(us, ids) {
        assert forall|j: int| 0 <= j < fs.len() && (#[trigger] fs[j]).status == Status::Molten implies ids.contains(fs[j].id) by {
            assert(us[j].status == Status::Molten);
        }
    }
}

/// Settling a unit, as done or failed or by replacing it with fresh units,
/// keeps every unit within its attempts and puts no unit in progress.
pub proof fn lemma_settle_within(us: Seq<IngotView>, i: int, s: Status, new: Seq<IngotView>, ids: Seq<Seq<char>>)
    requires
        0 <= i < us.len(),
        s != Status::Molten,
    ensures
        heats_within(us) ==> heats_within(us.update(i, with_status(us[i], s))),
        molten_among(us, ids) ==> molten_among(us.update(i, with_status(us[i], s)), ids),
        heats_within(us) ==> heats_within(replaced_at(us, i, fresh(new))),
        molten_among(us, ids) ==> molten_among(replaced_at(us, i, fresh(new)), ids),
{
    let fs = us.update(i, with_status(us[i], s));
    if molten_among(us, ids) {
        assert forall|j: int| 0 <= j < fs.len() && (#[trigger] fs[j]).status == Status::Molten implies ids.contains(fs[j].id) by {
            assert(us[j].status == Status::Molten);
        }
    }
    let rs = replaced_at(us, i, fresh(new));
    let mid = stamped(fresh(new), crate::crucible::smelt_after(us[i].smelt));
    if heats_within(us) {
        assert forall|j: int| 0 <= j < rs.len() implies (#[trigger] rs[j]).heat <= rs[j].max by {
            if i <= j < i + mid.len() {
                assert(rs[j] == mid[j - i]);
            } else if j >= i + mid.len() {
                assert(rs[j] == us[j - mid.len() + 1]);
            }
        }
    }
    if molten_among(us, ids) {
        assert forall|j: int| 0 <= j < rs.len() && (#[trigger] rs[j]).status == Status::Molten implies ids.contains(rs[j].id) by {
            if i <= j < i + mid.len() {
                assert(rs[j] == mid[j - i]);
            } else if j >= i + mid.len() {
                assert(rs[j] == us[j - mid.len() + 1]);
                assert(us[j - mid.len() + 1].status == Status::Molten);
            } else {
                assert(us[j].status == Status::Molten);
            }
        }
    }
}

/// A change the forge makes to the ledger while a dispatch is worked:
/// count an attempt, settle a unit with a status, or recast it into fresh
/// units (each as the ledger operation of that name does it).
pub enum ForgeOp {
    Attempt(Seq<char>),
    Settle(Seq<char>, Status),
    Recast(Seq<char>, Seq<IngotView>),
}

pub open spec fn op_result(us: Seq<IngotView>, op: ForgeOp) -> Seq<IngotView> {
    match op {
        ForgeOp::Attempt(id) => match index_of(us, id) {
            Some(i) => if us[i].heat < us[i].max {
                us.update(i, with_heat(us[i], (us[i].heat + 1) as u8))
            } else {
                us
            },
            None => us,
        },
        ForgeOp::Settle(id, st) => match index_of(us, id) {
            Some(i) => us.update(i, with_status(us[i], st)),
            None => us,
        },
        ForgeOp::Recast(id, new) => match index_of(us, id) {
            Some(i) => replaced_at(us, i, fresh(new)),
            None => us,
        },
    }
}

pub open spec fn run_ops(us: Seq<IngotView>, ops: Seq<ForgeOp>) -> Seq<IngotView>
    decreases ops.len(),
{
    if ops.len() == 0 {
        us
    } else {
        op_result(run_ops(us, ops.drop_last()), ops.last())
    }
}

/// Settling never puts a unit back in progress.
pub open spec fn op_settles(op: ForgeOp) -> bool {
    match op {
        ForgeOp::Settle(_, st) => st != Status::Molten,
        _ => true,
    }
}

proof fn lemma_index_in(us: Seq<IngotView>, id: Seq<char>)
    ensures
        index_of(us, id) matches Some(i) ==> first_with_id(us, id, i),
{
    if has_id(us, id) {
        let i = choose|i: int| 0 <= i < us.len() && (#[trigger] us[i]).id == id;
        assert(exists|k: int| first_with_id(us, id, k)) by {
            lemma_first_exists(us, id, i);
        }
    }
}

proof fn lemma_first_exists(us: Seq<IngotView>, id: Seq<char>, i: int)
    requires
        0 <= i < us.len(),
        us[i].id == id,
    ensures
        exists|k: int| first_with_id(us, id, k),
    decreases i,
{
    if exists|j: int| 0 <= j < i && (#[trigger] us[j]).id == id {
        let j = choose|j: int| 0 <= j < i && (#[trigger] us[j]).id == id;
        lemma_first_exists(us, id, j);
    } else {
        assert(first_with_id(us, id, i));
    }
}

proof fn lemma_ops_keep(us: Seq<IngotView>, ids: Seq<Seq<char>>, ops: Seq<ForgeOp>)
    requires
        heats_within(us),
        molten_among(us, ids),
        forall|k: int| 0 <= k < ops.len() ==> op_settles(#[trigger] ops[k]),
    ensures
        heats_within(run_ops(us, ops)),
        molten_among(run_ops(us, ops), ids),
    decreases ops.len(),
{
    if ops.len() > 0 {
        assert forall|k: int| 0 <= k < ops.drop_last().len() implies op_settles(#[trigger] ops.drop_last()[k]) by {
            assert(ops.drop_last()[k] == ops[k]);
        }
        lemma_ops_keep(us, ids, ops.drop_last());
        let prev = run_ops(us, ops.drop_last());
        let op = ops.last();
        assert(op_settles(ops[ops.len() - 1]));
        match op {
            ForgeOp::Attempt(id) => {
                lemma_index_in(prev, id);
                if let Some(i) = index_of(prev, id) {
                    if prev[i].heat < prev[i].max {
                        lemma_attempt_within(prev, i, ids);
                    }
                }
            },
            ForgeOp::Settle(id, st) => {
                lemma_index_in(prev, id);
                if let Some(i) = index_of(prev, id) {
                    lemma_settle_within(prev, i, st, seq![], ids);
                }
            },
            ForgeOp::Recast(id, new) => {
                lemma_index_in(prev, id);
                if let Some(i) = index_of(prev, id) {
                    lemma_settle_within(prev, i, Status::Cracked, new, ids);
                }
            },
        }
    }
}

proof fn lemma_batch_member(us: Seq<IngotView>, i: int, n: nat)
    requires
        0 <= i < us.len(),
        picked(us, i, n),
    ensures
        batch(us, n).contains(us[i].id),
    decreases us.len(),
{
    if i == us.len() - 1 {
        assert(us.subrange(0, i) =~= us.drop_last());
        assert(batch(us, n) == batch(us.drop_last(), n).push(us[i].id));
        assert(batch(us, n)[batch(us, n).len() - 1] == us[i].id);
    } else {
        let d = us.drop_last();
        assert(d.subrange(0, i) =~= us.subrange(0, i));
        assert(d[i] == us[i]);
        lemma_batch_member(d, i, n);
        let j = choose|j: int| 0 <= j < batch(d, n).len() && batch(d, n)[j] == us[i].id;
        if is_solo_ore(us.last()) && batch(d, n).len() < n {
            assert(batch(us, n)[j] == us[i].id);
        }
    }
}

/// Over a whole forge iteration: once a batch is dispatched and while its
/// units are worked and settled, in any order and with any attempt counts,
/// no unit uses more attempts than it is allowed (if none did before), and
/// every unit in progress is one of the dispatched batch.
pub proof fn lemma_forge_iteration(us: Seq<IngotView>, n: nat, fs: Seq<IngotView>, ops: Seq<ForgeOp>)
    requires
        heats_within(us),
        fs.len() == reset_stale(us).len(),
        forall|i: int|
            0 <= i < fs.len() ==> #[trigger] fs[i] == if picked(reset_stale(us), i, n) {
                with_status(reset_stale(us)[i], Status::Molten)
            } else {
                reset_stale(us)[i]
            },
        forall|k: int| 0 <= k < ops.len() ==> op_settles(#[trigger] ops[k]),
    ensures
        heats_within(run_ops(fs, ops)),
        molten_among(run_ops(fs, ops), batch(reset_stale(us), n)),
{
    let rs = reset_stale(us);
    lemma_dispatch_marks_batch(us, n, fs);
    assert forall|i: int| 0 <= i < fs.len() && (#[trigger] fs[i]).status == Status::Molten implies batch(rs, n).contains(fs[i].id) by {
        assert(picked(rs, i, n));
        lemma_batch_member(rs, i, n);
        assert(fs[i].id == rs[i].id);
    }
    lemma_ops_keep(fs, batch(rs, n), ops);
}

/// Over a whole forge iteration that runs one unit alone: while it is
/// worked and settled, no unit uses more attempts than it is allowed (if
/// none did before), and the only unit that can be in progress is that one.
pub proof fn lemma_forge_sequential_iteration(us: Seq<IngotView>, k: int, ops: Seq<ForgeOp>)
    requires
        heats_within(us),
        first_ore(reset_stale(us), k),
        forall|j: int| 0 <= j < ops.len() ==> op_settles(#[trigger] ops[j]),
    ensures
        heats_within(run_ops(reset_stale(us).update(k, with_status(reset_stale(us)[k], Status::Molten)), ops)),
        molten_among(
            run_ops(reset_stale(us).update(k, with_status(reset_stale(us)[k], Status::Molten)), ops),
            seq![reset_stale(us)[k].id],
        ),
{
    let rs = reset_stale(us);
    let fs = rs.update(k, with_status(rs[k], Status::Molten));
    lemma_sequential_marks_one(us, k);
    assert forall|i: int| 0 <= i < fs.len() && (#[trigger] fs[i]).status == Status::Molten implies seq![rs[k].id].contains(fs[i].id) by {
        assert(i == k);
        assert(seq![rs[k].id][0] == fs[i].id);
    }
    lemma_ops_keep(fs, seq![rs[k].id], ops);
}

/// The attempt loop run against the ledger's attempt counter with an agent
/// that always gives the same reply: the final state, the number of agent
/// calls, the final attempt count and the last action, once the loop stops
/// or leaves the path of counting and asking.
pub open spec fn drive(s: StrikeView, heat: u8, max: u8, reply: String) -> (StrikeView, nat, u8, ActionView)
    decreases max - heat,
{
    let (s1, a1) = strike_step(s, StrikeEvent::Counted(heat < max));
    if heat < max {
        let (s2, a2) = strike_step(s1, StrikeEvent::AgentReplied(reply));
        if a2 == ActionView::CountAttempt {
            let r = drive(s2, (heat + 1) as u8, max, reply);
            (r.0, r.1 + 1, r.2, r.3)
        } else {
            (s2, 1, (heat + 1) as u8, a2)
        }
    } else {
        (s1, 0, heat, a1)
    }
}

/// A unit whose agent never replies with a directive uses up exactly its
/// remaining attempts, one agent call each, and then gives up, with the
/// protocol failure as its last message.
pub proof fn lemma_no_directive_exhausts(s: StrikeView, heat: u8, max: u8, reply: String)
    requires
        heat <= max,
        cmd_of(reply@) is None,
    ensures
        drive(s, heat, max, reply).1 == max - heat,
        drive(s, heat, max, reply).2 == max,
        drive(s, heat, max, reply).3 == ActionView::GiveUp,
        heat < max ==> drive(s, heat, max, reply).0.slag == Some("NO COMMAND: line in response"@),
    decreases max - heat,
{
    if heat < max {
        let (s1, a1) = strike_step(s, StrikeEvent::Counted(true));
        let (s2, a2) = strike_step(s1, StrikeEvent::AgentReplied(reply));
        assert(a2 == ActionView::CountAttempt);
        lemma_no_directive_exhausts(s2, (heat + 1) as u8, max, reply);
        if heat + 1 == max {
            assert(drive(s2, (heat + 1) as u8, max, reply).0 == s2);
        }
    }
}

} // verus!
