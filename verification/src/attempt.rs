//! The ownership of lights, and the attempts that take it, use it and end it.
//!
//! An attempt on a light is a dialogue: the daemon is told what to do next (read
//! the light, write it, save the journal), does it, and reports what came of it.
//! The journal records a light before the daemon sets it, and holds it until the
//! light stands again as it was, or until someone else is seen to have set it.

use vstd::prelude::*;

use crate::change::Change;
use crate::config::SelectedLight;
use crate::domain;
use crate::domain::{
    ownership_matches, session_target_states, LogicalLightState, OwnedLight, Ownership,
    OwnershipJournal, PresetLight,
};
use crate::text_map::TextMap;

verus! {

// ---- the model ----

/// What an attempt is for.
#[derive(Clone, Copy, Debug, PartialEq, Eq, Structural)]
pub enum Goal {
    /// Set the light for a camera session.
    Activate,
    /// Put the light back as it was.
    Restore,
    /// Change the light as a user asked.
    Change { change: Change },
}

/// What a camera session sets a light to, beyond the light's own state.
#[derive(Clone, Copy, Debug, PartialEq, Eq, Structural)]
pub struct Aim {
    pub brightness: Option<u8>,
    pub look: Option<PresetLight>,
}

/// Who holds what: the journal in memory, the lights whose entries stem from an
/// earlier run and were not compared with the light yet, and the journal as it
/// was last saved.
#[verifier::ext_equal]
pub struct Ledger {
    pub journal: Map<Seq<char>, Ownership>,
    pub unreconciled: Set<Seq<char>>,
    pub stored: Map<Seq<char>, Ownership>,
}

/// Where an attempt stands: what was asked for last, and why.
pub enum Phase {
    /// The light was read, to compare it with its entry.
    Reconcile,
    /// The journal was saved, without the light that someone else has set.
    Abandon,
    /// The light was read, to record how it was.
    Capture,
    /// The journal was saved, with the light in it.
    Record,
    /// The light was set for the session.
    Apply,
    /// The light was put back.
    Revert,
    /// The journal was saved, without the light.
    Release,
    /// The light was read, to change it.
    Observe,
    /// The light was set to the changed states.
    Alter(Seq<LogicalLightState>),
    /// The journal was saved, with the changed states in it.
    Note,
    /// Nothing is asked for any more.
    Over,
}

/// What is asked for next.
pub enum Move {
    Read,
    Write(Seq<LogicalLightState>),
    Save,
    Finish(bool),
}

/// What came of it.
pub enum Answer {
    States(Option<Seq<LogicalLightState>>),
    Written(bool),
    Saved(bool),
}

impl Answer {
    /// The states that were read, where they could be.
    pub open spec fn states(self) -> Option<Seq<LogicalLightState>> {
        match self {
            Answer::States(states) => states,
            _ => None,
        }
    }

    /// Whether it says that the light was written.
    pub open spec fn written(self) -> bool {
        self == Answer::Written(true)
    }

    /// Whether it says that the journal was saved.
    pub open spec fn saved(self) -> bool {
        self == Answer::Saved(true)
    }
}

/// The ledger after a step of an attempt, and how the attempt goes on.
pub struct Turn {
    pub ledger: Ledger,
    pub phase: Phase,
    pub act: Move,
}

impl Ledger {
    /// The ledger with the light `id` compared.
    pub open spec fn reconciled(self, id: Seq<char>) -> Ledger {
        Ledger { unreconciled: self.unreconciled.remove(id), ..self }
    }

    /// The ledger with no entry for the light `id`.
    pub open spec fn without(self, id: Seq<char>) -> Ledger {
        Ledger { journal: self.journal.remove(id), ..self }
    }

    /// The ledger with an entry for the light `id`.
    pub open spec fn with(self, id: Seq<char>, entry: Ownership) -> Ledger {
        Ledger { journal: self.journal.insert(id, entry), ..self }
    }

    /// The ledger with its journal saved.
    pub open spec fn saved(self) -> Ledger {
        Ledger { stored: self.journal, ..self }
    }
}

/// The attempt is over.
pub open spec fn over(ledger: Ledger, success: bool) -> Turn {
    Turn { ledger, phase: Phase::Over, act: Move::Finish(success) }
}

/// How an attempt goes on once nothing is left to compare.
pub open spec fn settled(ledger: Ledger, id: Seq<char>, goal: Goal) -> Turn {
    match goal {
        Goal::Activate => if ledger.journal.contains_key(id) {
            Turn { ledger, phase: Phase::Apply, act: Move::Write(ledger.journal[id].applied) }
        } else {
            Turn { ledger, phase: Phase::Capture, act: Move::Read }
        },
        Goal::Restore => if ledger.journal.contains_key(id) {
            Turn { ledger, phase: Phase::Revert, act: Move::Write(ledger.journal[id].original) }
        } else {
            over(ledger, false)
        },
        Goal::Change { .. } => Turn { ledger, phase: Phase::Observe, act: Move::Read },
    }
}

/// How an attempt begins. An entry of an earlier run is compared first.
pub open spec fn opening(ledger: Ledger, id: Seq<char>, goal: Goal) -> Turn {
    if goal is Change {
        settled(ledger, id, goal)
    } else if ledger.unreconciled.contains(id) && ledger.journal.contains_key(id) {
        Turn { ledger, phase: Phase::Reconcile, act: Move::Read }
    } else {
        settled(ledger.reconciled(id), id, goal)
    }
}

/// The states that a camera session sets a light to.
pub open spec fn session_states(aim: Aim, original: Seq<LogicalLightState>) -> Seq<
    LogicalLightState,
> {
    original.map_values(|s: LogicalLightState| domain::session_target(s, aim.brightness, aim.look))
}

/// How an attempt at `phase` goes on after `answer`. An answer that does not
/// confirm what was asked for is a failure of it.
pub open spec fn answered(
    ledger: Ledger,
    selection: SelectedLight,
    goal: Goal,
    aim: Aim,
    phase: Phase,
    answer: Answer,
) -> Turn {
    let id = selection.id@;
    match phase {
        Phase::Reconcile => match answer.states() {
            None => over(ledger, false),
            Some(current) => if ledger.journal.contains_key(id) && current
                != ledger.journal[id].applied {
                Turn {
                    ledger: ledger.reconciled(id).without(id),
                    phase: if goal is Restore {
                        Phase::Release
                    } else {
                        Phase::Abandon
                    },
                    act: Move::Save,
                }
            } else {
                settled(ledger.reconciled(id), id, goal)
            },
        },
        Phase::Abandon => if answer.saved() {
            settled(ledger.saved(), id, goal)
        } else {
            over(ledger, false)
        },
        Phase::Capture => match answer.states() {
            None => over(ledger, false),
            Some(original) => Turn {
                ledger: ledger.with(
                    id,
                    Ownership { selection, original, applied: session_states(aim, original) },
                ),
                phase: Phase::Record,
                act: Move::Save,
            },
        },
        Phase::Record => if answer.saved() {
            settled(ledger.saved(), id, goal)
        } else {
            over(ledger.without(id), false)
        },
        Phase::Apply => over(ledger, answer.written()),
        Phase::Revert => if answer.written() {
            Turn { ledger: ledger.without(id), phase: Phase::Release, act: Move::Save }
        } else {
            over(ledger, false)
        },
        Phase::Release => if answer.saved() {
            over(ledger.saved(), true)
        } else {
            over(ledger, false)
        },
        Phase::Observe => match (answer.states(), goal) {
            (Some(states), Goal::Change { change }) => Turn {
                ledger,
                phase: Phase::Alter(change.result(states)),
                act: Move::Write(change.result(states)),
            },
            _ => over(ledger, false),
        },
        Phase::Alter(states) => if !answer.written() {
            over(ledger, false)
        } else if ledger.journal.contains_key(id) {
            Turn {
                ledger: ledger.with(id, Ownership { applied: states, ..ledger.journal[id] }),
                phase: Phase::Note,
                act: Move::Save,
            }
        } else {
            over(ledger, true)
        },
        Phase::Note => if answer.saved() {
            over(ledger.saved(), true)
        } else {
            over(ledger, false)
        },
        Phase::Over => over(ledger, false),
    }
}

// ---- the code ----

/// Where an attempt stands.
#[derive(Debug)]
pub enum Stage {
    Reconcile,
    Abandon,
    Capture,
    Record,
    Apply,
    Revert,
    Release,
    Observe,
    Alter { states: Vec<LogicalLightState> },
    Note,
    Over,
}

impl Stage {
    pub open spec fn view(&self) -> Phase {
        match *self {
            Stage::Reconcile => Phase::Reconcile,
            Stage::Abandon => Phase::Abandon,
            Stage::Capture => Phase::Capture,
            Stage::Record => Phase::Record,
            Stage::Apply => Phase::Apply,
            Stage::Revert => Phase::Revert,
            Stage::Release => Phase::Release,
            Stage::Observe => Phase::Observe,
            Stage::Alter { states } => Phase::Alter(states@),
            Stage::Note => Phase::Note,
            Stage::Over => Phase::Over,
        }
    }
}

/// What the daemon is to do next.
#[derive(Debug)]
pub enum Action {
    ReadStates,
    WriteStates { states: Vec<LogicalLightState> },
    SaveJournal,
    Finish { success: bool },
}

impl Action {
    pub open spec fn view(&self) -> Move {
        match *self {
            Action::ReadStates => Move::Read,
            Action::WriteStates { states } => Move::Write(states@),
            Action::SaveJournal => Move::Save,
            Action::Finish { success } => Move::Finish(success),
        }
    }
}

/// What came of it.
#[derive(Debug)]
pub enum Report {
    States { states: Option<Vec<LogicalLightState>> },
    Written { success: bool },
    Saved { success: bool },
}

impl Report {
    pub open spec fn view(&self) -> Answer {
        match *self {
            Report::States { states } => Answer::States(
                match states {
                    Some(states) => Some(states@),
                    None => None,
                },
            ),
            Report::Written { success } => Answer::Written(success),
            Report::Saved { success } => Answer::Saved(success),
        }
    }

    fn into_states(self) -> (r: Option<Vec<LogicalLightState>>)
        ensures
            match (r, self@.states()) {
                (Some(r), Some(states)) => r@ == states,
                (None, None) => true,
                _ => false,
            },
    {
        match self {
            Report::States { states } => states,
            _ => None,
        }
    }

    fn is_written(&self) -> (r: bool)
        ensures
            r == self@.written(),
    {
        match self {
            Report::Written { success } => *success,
            _ => false,
        }
    }

    fn is_saved(&self) -> (r: bool)
        ensures
            r == self@.saved(),
    {
        match self {
            Report::Saved { success } => *success,
            _ => false,
        }
    }
}

/// An attempt on a light that is under way.
#[derive(Debug)]
pub struct Attempt {
    pub selection: SelectedLight,
    pub goal: Goal,
    pub stage: Stage,
}

/// A list of states, copied.
fn copied(states: &Vec<LogicalLightState>) -> (r: Vec<LogicalLightState>)
    ensures
        r@ == states@,
{
    let mut out: Vec<LogicalLightState> = Vec::new();
    let mut i: usize = 0;
    while i < states.len()
        invariant
            i <= states@.len(),
            out@ =~= states@.take(i as int),
        decreases states@.len() - i,
    {
        out.push(states[i]);
        i += 1;
    }
    assert(states@.take(i as int) =~= states@);
    out
}

/// The lights that the daemon holds.
pub struct Holdings {
    pub journal: OwnershipJournal,
    /// The lights whose entries stem from an earlier run and were not compared
    /// with the light yet.
    pub unreconciled: TextMap<()>,
    /// The journal as it was last saved.
    pub stored: Ghost<Map<Seq<char>, Ownership>>,
}

impl Holdings {
    pub open spec fn view(&self) -> Ledger {
        Ledger {
            journal: self.journal@,
            unreconciled: self.unreconciled@.dom(),
            stored: self.stored@,
        }
    }

    pub open spec fn wf(self) -> bool {
        &&& self.journal.wf()
        &&& self.unreconciled.wf()
    }

    /// Takes up the journal that an earlier run left. Every light in it has to
    /// be compared before it counts.
    pub fn recover(journal: OwnershipJournal) -> (r: Self)
        requires
            journal.wf(),
        ensures
            r.wf(),
            r.journal == journal,
            r@ == (Ledger {
                journal: journal@,
                unreconciled: journal@.dom(),
                stored: journal@,
            }),
    {
        let mut unreconciled: TextMap<()> = TextMap::new();
        let mut i: usize = 0;
        let count: usize = journal.lights.len();
        let ghost keys = journal.lights.keys();
        while i < count
            invariant
                journal.wf(),
                unreconciled.wf(),
                keys == journal.lights.keys(),
                i <= count == keys.len(),
                forall|k: Seq<char>|
                    unreconciled@.contains_key(k) <==> keys.take(i as int).contains(k),
            decreases count - i,
        {
            let key = journal.lights.key(i).to_string();
            let ghost held = keys.take(i as int);
            let ghost added = key@;
            let ghost before = unreconciled@;
            unreconciled.insert(key, ());
            i += 1;
            proof {
                assert(keys.take(i as int) =~= held.push(added));
                assert forall|k: Seq<char>|
                    unreconciled@.contains_key(k) <==> keys.take(i as int).contains(k) by {
                    assert(before.contains_key(k) <==> held.contains(k));
                    if held.contains(k) {
                        assert(held.push(added)[held.index_of(k)] == k);
                    }
                    if k == added {
                        assert(held.push(added)[held.len() as int] == k);
                    }
                    if held.push(added).contains(k) && k != added {
                        assert(held[held.push(added).index_of(k)] == k);
                    }
                }
            }
        }
        assert(keys.take(i as int) =~= keys);
        let ghost stored = journal@;
        let r = Holdings { journal, unreconciled, stored: Ghost(stored) };
        assert(r@.unreconciled =~= journal@.dom());
        r
    }
}

impl Holdings {
    /// Nothing but the ledger's model of these holdings changes with an entry.
    fn drop_entry(&mut self, id: &str)
        requires
            old(self).wf(),
        ensures
            final(self).wf(),
            final(self)@ == old(self)@.without(id@),
            final(self).journal.version == old(self).journal.version,
    {
        let ghost before = self.journal@;
        let _ = self.journal.lights.remove(id);
        assert(self.journal@ =~= before.remove(id@));
    }

    fn put_entry(&mut self, id: String, entry: OwnedLight)
        requires
            old(self).wf(),
        ensures
            final(self).wf(),
            final(self)@ == old(self)@.with(id@, entry@),
            final(self).journal.version == old(self).journal.version,
    {
        let ghost before = self.journal@;
        let ghost key = id@;
        let ghost value = entry@;
        self.journal.lights.insert(id, entry);
        assert(self.journal@ =~= before.insert(key, value));
    }

    fn mark_reconciled(&mut self, id: &str)
        requires
            old(self).wf(),
        ensures
            final(self).wf(),
            final(self)@ == old(self)@.reconciled(id@),
            final(self).journal == old(self).journal,
    {
        let ghost before = self.unreconciled@;
        let _ = self.unreconciled.remove(id);
        assert(self.unreconciled@.dom() =~= before.dom().remove(id@));
    }

    fn mark_saved(&mut self)
        requires
            old(self).wf(),
        ensures
            final(self).wf(),
            final(self)@ == old(self)@.saved(),
            final(self).journal == old(self).journal,
    {
        self.stored = Ghost(self.journal@);
    }

    fn settle(&self, id: &str, goal: Goal) -> (r: (Stage, Action))
        requires
            self.wf(),
        ensures
            settled(self@, id@, goal) == (Turn { ledger: self@, phase: r.0@, act: r.1@ }),
    {
        match goal {
            Goal::Activate => match self.journal.lights.get(id) {
                Some(owned) => (
                    Stage::Apply,
                    Action::WriteStates { states: copied(&owned.applied) },
                ),
                None => (Stage::Capture, Action::ReadStates),
            },
            Goal::Restore => match self.journal.lights.get(id) {
                Some(owned) => (
                    Stage::Revert,
                    Action::WriteStates { states: copied(&owned.original) },
                ),
                None => (Stage::Over, Action::Finish { success: false }),
            },
            Goal::Change { .. } => (Stage::Observe, Action::ReadStates),
        }
    }

    /// Begins an attempt on a light.
    pub fn begin(&mut self, selection: &SelectedLight, goal: Goal) -> (r: (Attempt, Action))
        requires
            old(self).wf(),
        ensures
            final(self).wf(),
            r.0.selection == *selection,
            r.0.goal == goal,
            opening(old(self)@, selection.id@, goal) == (Turn {
                ledger: final(self)@,
                phase: r.0.stage@,
                act: r.1@,
            }),
            final(self).journal == old(self).journal,
    {
        let id = selection.id.as_str();
        let fresh = match goal {
            Goal::Change { .. } => false,
            _ => true,
        };
        if fresh && self.unreconciled.contains_key(id) && self.journal.lights.contains_key(id) {
            return (
                Attempt { selection: selection.clone(), goal, stage: Stage::Reconcile },
                Action::ReadStates,
            );
        }
        if fresh {
            self.mark_reconciled(id);
        }
        let (stage, action) = self.settle(id, goal);
        (Attempt { selection: selection.clone(), goal, stage }, action)
    }

    fn compare(&mut self, id: &str, goal: Goal, current: Vec<LogicalLightState>) -> (r: (
        Stage,
        Action,
    ))
        requires
            old(self).wf(),
        ensures
            final(self).wf(),
            forall|selection: SelectedLight, aim: Aim|
                selection.id@ == id@ ==> #[trigger] answered(
                    old(self)@,
                    selection,
                    goal,
                    aim,
                    Phase::Reconcile,
                    Answer::States(Some(current@)),
                ) == (Turn { ledger: final(self)@, phase: r.0@, act: r.1@ }),
            final(self).journal.version == old(self).journal.version,
    {
        let abandoned = match self.journal.lights.get(id) {
            Some(owned) => !ownership_matches(current.as_slice(), owned),
            None => false,
        };
        self.mark_reconciled(id);
        if abandoned {
            self.drop_entry(id);
            let stage = match goal {
                Goal::Restore => Stage::Release,
                _ => Stage::Abandon,
            };
            (stage, Action::SaveJournal)
        } else {
            self.settle(id, goal)
        }
    }

    /// Carries an attempt on, after a report of what came of the last action.
    pub fn advance(&mut self, attempt: &mut Attempt, aim: Aim, report: Report) -> (r: Action)
        requires
            old(self).wf(),
        ensures
            final(self).wf(),
            final(attempt).selection == old(attempt).selection,
            final(attempt).goal == old(attempt).goal,
            answered(
                old(self)@,
                old(attempt).selection,
                old(attempt).goal,
                aim,
                old(attempt).stage@,
                report@,
            ) == (Turn { ledger: final(self)@, phase: final(attempt).stage@, act: r@ }),
            final(self).journal.version == old(self).journal.version,
    {
        let selection = attempt.selection.clone();
        let id = selection.id.as_str();
        let goal = attempt.goal;
        let mut stage = Stage::Over;
        std::mem::swap(&mut stage, &mut attempt.stage);
        let (next, action) = match stage {
            Stage::Reconcile => match report.into_states() {
                None => (Stage::Over, Action::Finish { success: false }),
                Some(current) => self.compare(id, goal, current),
            },
            Stage::Abandon => if report.is_saved() {
                self.mark_saved();
                self.settle(id, goal)
            } else {
                (Stage::Over, Action::Finish { success: false })
            },
            Stage::Capture => match report.into_states() {
                None => (Stage::Over, Action::Finish { success: false }),
                Some(original) => {
                    let applied = session_target_states(
                        original.as_slice(),
                        aim.brightness,
                        aim.look,
                    );
                    let entry = OwnedLight { selection: selection.clone(), original, applied };
                    self.put_entry(selection.id.clone(), entry);
                    (Stage::Record, Action::SaveJournal)
                },
            },
            Stage::Record => if report.is_saved() {
                self.mark_saved();
                self.settle(id, goal)
            } else {
                self.drop_entry(id);
                (Stage::Over, Action::Finish { success: false })
            },
            Stage::Apply => (Stage::Over, Action::Finish { success: report.is_written() }),
            Stage::Revert => if report.is_written() {
                self.drop_entry(id);
                (Stage::Release, Action::SaveJournal)
            } else {
                (Stage::Over, Action::Finish { success: false })
            },
            Stage::Release => {
                let success = report.is_saved();
                if success {
                    self.mark_saved();
                }
                (Stage::Over, Action::Finish { success })
            },
            Stage::Observe => match (report.into_states(), goal) {
                (Some(states), Goal::Change { change }) => {
                    let changed = change.apply(&states);
                    let written = copied(&changed);
                    (Stage::Alter { states: changed }, Action::WriteStates { states: written })
                },
                _ => (Stage::Over, Action::Finish { success: false }),
            },
            Stage::Alter { states } => if report.is_written() {
                match self.journal.lights.remove(id) {
                    Some(owned) => {
                        let entry = OwnedLight {
                            selection: owned.selection,
                            original: owned.original,
                            applied: states,
                        };
                        self.put_entry(selection.id.clone(), entry);
                        assert(self@ =~= old(self)@.with(
                            id@,
                            Ownership { applied: states@, ..old(self)@.journal[id@] },
                        ));
                        (Stage::Note, Action::SaveJournal)
                    },
                    None => {
                        assert(self@ =~= old(self)@);
                        (Stage::Over, Action::Finish { success: true })
                    },
                }
            } else {
                (Stage::Over, Action::Finish { success: false })
            },
            Stage::Note => {
                let success = report.is_saved();
                if success {
                    self.mark_saved();
                }
                (Stage::Over, Action::Finish { success })
            },
            Stage::Over => (Stage::Over, Action::Finish { success: false }),
        };
        attempt.stage = next;
        action
    }
}

// ---- what holds of every attempt ----

/// What holds between the steps of an attempt on the light `id`: the saved
/// journal knows how every held light was, but for a light whose entry is just
/// being saved; and an attempt that sets or puts back a light holds it.
pub open spec fn sound(ledger: Ledger, id: Seq<char>, phase: Phase) -> bool {
    &&& forall|k: Seq<char>| #[trigger]
        ledger.journal.contains_key(k) && !(k == id && phase is Record) ==> recorded(ledger, k)
    &&& phase is Capture ==> !ledger.journal.contains_key(id)
    &&& phase is Reconcile || phase is Record || phase is Apply || phase is Revert
        ==> ledger.journal.contains_key(id)
}

/// Whether the saved journal knows how the held light `id` was.
pub open spec fn recorded(ledger: Ledger, id: Seq<char>) -> bool {
    &&& ledger.stored.contains_key(id)
    &&& ledger.stored[id].original == ledger.journal[id].original
    &&& ledger.stored[id].selection == ledger.journal[id].selection
}

/// The ledger of a daemon that starts with the journal `stored`.
pub open spec fn restarted(stored: Map<Seq<char>, Ownership>) -> Ledger {
    Ledger { journal: stored, unreconciled: stored.dom(), stored }
}

/// A recovered journal is sound.
pub proof fn recovery_is_sound(journal: Map<Seq<char>, Ownership>, id: Seq<char>)
    ensures
        sound(restarted(journal), id, Phase::Over),
{
}

/// Every attempt begins soundly.
pub proof fn attempts_begin_sound(ledger: Ledger, id: Seq<char>, other: Seq<char>, goal: Goal)
    requires
        sound(ledger, other, Phase::Over),
    ensures
        sound(opening(ledger, id, goal).ledger, id, opening(ledger, id, goal).phase),
        set_as_recorded(opening(ledger, id, goal), id),
{
}

/// Where a step sets a light for a session, the saved journal already knows how
/// the light was, and the light is set to what the journal says; where a step
/// puts a light back, it is to exactly the states that the journal recorded.
pub open spec fn set_as_recorded(turn: Turn, id: Seq<char>) -> bool {
    let ledger = turn.ledger;
    &&& turn.phase is Apply ==> recorded(ledger, id) && turn.act == Move::Write(
        ledger.journal[id].applied,
    )
    &&& turn.phase is Revert ==> recorded(ledger, id) && turn.act == Move::Write(
        ledger.journal[id].original,
    )
}

/// Restoration intent is saved before the light is set. Whatever the daemon
/// reports, and whichever step fails, every step of an attempt keeps the ledger
/// sound, and a step that sets a light for a session or puts it back does so
/// from an entry that is saved.
pub proof fn intent_is_saved_before_the_light_is_set(
    ledger: Ledger,
    selection: SelectedLight,
    goal: Goal,
    aim: Aim,
    phase: Phase,
    answer: Answer,
)
    requires
        sound(ledger, selection.id@, phase),
    ensures
        sound(
            answered(ledger, selection, goal, aim, phase, answer).ledger,
            selection.id@,
            answered(ledger, selection, goal, aim, phase, answer).phase,
        ),
        set_as_recorded(answered(ledger, selection, goal, aim, phase, answer), selection.id@),
{
}

/// The record of how a light was is never altered: a light that is held before
/// and after a step of an attempt, on whichever light and with whichever goal,
/// keeps its original states. In particular no manual change alters them.
pub proof fn originals_are_never_altered(
    ledger: Ledger,
    selection: SelectedLight,
    goal: Goal,
    aim: Aim,
    phase: Phase,
    answer: Answer,
    id: Seq<char>,
)
    requires
        sound(ledger, selection.id@, phase),
        ledger.journal.contains_key(id),
        answered(ledger, selection, goal, aim, phase, answer).ledger.journal.contains_key(id),
    ensures
        answered(ledger, selection, goal, aim, phase, answer).ledger.journal[id].original
            == ledger.journal[id].original,
{
}

/// An attempt touches the entry of no other light.
pub proof fn attempts_are_independent(
    ledger: Ledger,
    selection: SelectedLight,
    goal: Goal,
    aim: Aim,
    phase: Phase,
    answer: Answer,
    id: Seq<char>,
)
    requires
        id != selection.id@,
    ensures
        ({
            let after = answered(ledger, selection, goal, aim, phase, answer).ledger;
            &&& after.journal.contains_key(id) == ledger.journal.contains_key(id)
            &&& after.journal[id] == ledger.journal[id]
            &&& after.unreconciled.contains(id) == ledger.unreconciled.contains(id)
        }),
{
}

/// A light stays held until it was put back, or until it was seen in a state
/// that the daemon had not set, or, where its entry could not be saved, before
/// it was ever set.
pub proof fn ownership_ends_only_in_time(
    ledger: Ledger,
    selection: SelectedLight,
    goal: Goal,
    aim: Aim,
    phase: Phase,
    answer: Answer,
)
    requires
        ledger.journal.contains_key(selection.id@),
        !answered(ledger, selection, goal, aim, phase, answer).ledger.journal.contains_key(
            selection.id@,
        ),
    ensures
        ({
            ||| phase is Revert && answer.written()
            ||| phase is Reconcile && answer.states() is Some && answer.states()->0
                != ledger.journal[selection.id@].applied
            ||| phase is Record && !answer.saved()
        }),
{
}

/// An entry of an earlier run is compared with the light before it counts: if
/// the light cannot be read, the entry stays and waits; if the light stands as
/// the daemon had set it, the light stays held; if it differs, it is given up.
pub proof fn earlier_entries_are_compared(
    ledger: Ledger,
    selection: SelectedLight,
    goal: Goal,
    aim: Aim,
    answer: Answer,
)
    requires
        !(goal is Change),
        ledger.unreconciled.contains(selection.id@),
        ledger.journal.contains_key(selection.id@),
    ensures
        opening(ledger, selection.id@, goal) == (Turn {
            ledger,
            phase: Phase::Reconcile,
            act: Move::Read,
        }),
        ({
            let id = selection.id@;
            let turn = answered(ledger, selection, goal, aim, Phase::Reconcile, answer);
            match answer.states() {
                None => turn == over(ledger, false),
                Some(current) => if current == ledger.journal[id].applied {
                    &&& turn.ledger == ledger.reconciled(id)
                    &&& turn.act == Move::Write(
                        if goal is Activate {
                            ledger.journal[id].applied
                        } else {
                            ledger.journal[id].original
                        },
                    )
                } else {
                    &&& turn.ledger == ledger.reconciled(id).without(id)
                    &&& turn.act == Move::Save
                },
            }
        }),
{
}

/// The saved journal changes only by being saved, and then it is the journal.
pub proof fn the_saved_journal_changes_only_by_saving(
    ledger: Ledger,
    selection: SelectedLight,
    goal: Goal,
    aim: Aim,
    phase: Phase,
    answer: Answer,
)
    ensures
        ({
            let after = answered(ledger, selection, goal, aim, phase, answer).ledger;
            ||| after.stored == ledger.stored
            ||| answer.saved() && after.stored == ledger.journal
        }),
{
}

/// Whether every entry stands under the identity of its light.
pub open spec fn by_identity(journal: Map<Seq<char>, Ownership>) -> bool {
    forall|id: Seq<char>| #[trigger]
        journal.contains_key(id) ==> journal[id].selection.id@ == id
}

/// Entries keep standing under the identity of their light.
pub proof fn entries_stay_under_their_identity(
    ledger: Ledger,
    selection: SelectedLight,
    goal: Goal,
    aim: Aim,
    phase: Phase,
    answer: Answer,
)
    requires
        by_identity(ledger.journal),
    ensures
        by_identity(answered(ledger, selection, goal, aim, phase, answer).ledger.journal),
{
}

// ---- whole attempts ----

/// What a device in the states `device` answers, where nothing fails, and the
/// states that it is in then.
pub open spec fn obliging(device: Seq<LogicalLightState>, act: Move) -> (
    Answer,
    Seq<LogicalLightState>,
) {
    match act {
        Move::Read => (Answer::States(Some(device)), device),
        Move::Write(states) => (Answer::Written(true), states),
        Move::Save => (Answer::Saved(true), device),
        Move::Finish(_) => (Answer::Saved(false), device),
    }
}

/// How up to `steps` further steps of an attempt end, where nothing fails.
pub open spec fn carried_on(
    turn: Turn,
    selection: SelectedLight,
    goal: Goal,
    aim: Aim,
    device: Seq<LogicalLightState>,
    steps: nat,
) -> (Turn, Seq<LogicalLightState>)
    decreases steps,
{
    if steps == 0 || turn.act is Finish {
        (turn, device)
    } else {
        let (answer, after) = obliging(device, turn.act);
        carried_on(
            answered(turn.ledger, selection, goal, aim, turn.phase, answer),
            selection,
            goal,
            aim,
            after,
            (steps - 1) as nat,
        )
    }
}

/// How an attempt ends, where nothing fails.
pub open spec fn performed(
    ledger: Ledger,
    selection: SelectedLight,
    goal: Goal,
    aim: Aim,
    device: Seq<LogicalLightState>,
) -> (Turn, Seq<LogicalLightState>) {
    carried_on(opening(ledger, selection.id@, goal), selection, goal, aim, device, 5)
}

/// Every attempt on a device where nothing fails comes to an end.
pub proof fn attempts_end(
    ledger: Ledger,
    selection: SelectedLight,
    goal: Goal,
    aim: Aim,
    device: Seq<LogicalLightState>,
)
    ensures
        performed(ledger, selection, goal, aim, device).0.act is Finish,
{
    reveal_with_fuel(carried_on, 6);
}

/// Whether the light `id` is held, from the states `original`.
pub open spec fn held_from(ledger: Ledger, id: Seq<char>, original: Seq<LogicalLightState>) -> bool {
    &&& ledger.journal.contains_key(id)
    &&& ledger.journal[id].original == original
    &&& !ledger.unreconciled.contains(id)
}

/// Activation of a light that is not held records the states that it is in and
/// sets it to the session's; the saved journal holds it then.
pub proof fn activation_takes_hold(
    ledger: Ledger,
    selection: SelectedLight,
    aim: Aim,
    device: Seq<LogicalLightState>,
)
    requires
        !ledger.journal.contains_key(selection.id@),
    ensures
        ({
            let (turn, after) = performed(ledger, selection, Goal::Activate, aim, device);
            &&& turn.act == Move::Finish(true)
            &&& held_from(turn.ledger, selection.id@, device)
            &&& turn.ledger.stored == turn.ledger.journal
            &&& after == session_states(aim, device)
            &&& turn.ledger.journal[selection.id@].applied == after
            &&& turn.ledger.journal[selection.id@].original == device
            &&& turn.ledger.journal[selection.id@].selection == selection
        }),
{
    reveal_with_fuel(carried_on, 6);
}

/// Activity that returns while a light is still held sets the light again and
/// leaves the record of how it was before the first session.
pub proof fn activation_reuses_the_hold(
    ledger: Ledger,
    selection: SelectedLight,
    aim: Aim,
    device: Seq<LogicalLightState>,
    original: Seq<LogicalLightState>,
)
    requires
        held_from(ledger, selection.id@, original),
    ensures
        ({
            let (turn, after) = performed(ledger, selection, Goal::Activate, aim, device);
            &&& turn.act == Move::Finish(true)
            &&& turn.ledger == ledger
            &&& after == ledger.journal[selection.id@].applied
        }),
{
    reveal_with_fuel(carried_on, 6);
    assert(ledger.unreconciled.remove(selection.id@) =~= ledger.unreconciled);
}

/// A manual change of a held light changes the light and the record of how the
/// daemon set it, so that the daemon does not fight it and a restart finds the
/// light as recorded; how the light was before the session stays recorded.
pub proof fn manual_change_keeps_the_hold(
    ledger: Ledger,
    selection: SelectedLight,
    change: Change,
    aim: Aim,
    device: Seq<LogicalLightState>,
    original: Seq<LogicalLightState>,
)
    requires
        held_from(ledger, selection.id@, original),
    ensures
        ({
            let goal = Goal::Change { change };
            let (turn, after) = performed(ledger, selection, goal, aim, device);
            &&& turn.act == Move::Finish(true)
            &&& held_from(turn.ledger, selection.id@, original)
            &&& turn.ledger.stored == turn.ledger.journal
            &&& after == change.result(device)
            &&& turn.ledger.journal[selection.id@].applied == after
        }),
{
    reveal_with_fuel(carried_on, 6);
}

/// A manual change of a light that is not held changes the light alone; what it
/// leaves is what the next session records and restores.
pub proof fn manual_change_at_rest_is_the_next_original(
    ledger: Ledger,
    selection: SelectedLight,
    change: Change,
    aim: Aim,
    device: Seq<LogicalLightState>,
)
    requires
        !ledger.journal.contains_key(selection.id@),
    ensures
        ({
            let goal = Goal::Change { change };
            let (changed, at_rest) = performed(ledger, selection, goal, aim, device);
            let (active, _) = performed(changed.ledger, selection, Goal::Activate, aim, at_rest);
            &&& changed.act == Move::Finish(true)
            &&& changed.ledger == ledger
            &&& at_rest == change.result(device)
            &&& held_from(active.ledger, selection.id@, at_rest)
        }),
{
    reveal_with_fuel(carried_on, 6);
    activation_takes_hold(ledger, selection, aim, change.result(device));
}

/// Restoration puts a held light back exactly as it was, whatever was done to
/// the light meanwhile, and gives it up.
pub proof fn restoration_is_exact(
    ledger: Ledger,
    selection: SelectedLight,
    aim: Aim,
    device: Seq<LogicalLightState>,
    original: Seq<LogicalLightState>,
)
    requires
        held_from(ledger, selection.id@, original),
    ensures
        ({
            let (turn, after) = performed(ledger, selection, Goal::Restore, aim, device);
            &&& turn.act == Move::Finish(true)
            &&& after == original
            &&& turn.ledger.journal == ledger.journal.remove(selection.id@)
            &&& turn.ledger.stored == turn.ledger.journal
        }),
{
    reveal_with_fuel(carried_on, 6);
}

/// A light that goes through a session, whatever manual changes it sees and
/// whatever else is done to it, ends as it began.
pub proof fn sessions_leave_no_trace(
    ledger: Ledger,
    selection: SelectedLight,
    aim: Aim,
    changes: Seq<Change>,
    device: Seq<LogicalLightState>,
    meddled: Seq<LogicalLightState>,
)
    requires
        !ledger.journal.contains_key(selection.id@),
    ensures
        ({
            let (active, set) = performed(ledger, selection, Goal::Activate, aim, device);
            let (changed, _) = changed_by(active.ledger, selection, aim, changes, set);
            let (restored, after) = performed(changed, selection, Goal::Restore, aim, meddled);
            &&& after == device
            &&& restored.act == Move::Finish(true)
            &&& !restored.ledger.journal.contains_key(selection.id@)
        }),
{
    activation_takes_hold(ledger, selection, aim, device);
    let (active, set) = performed(ledger, selection, Goal::Activate, aim, device);
    changes_keep_the_hold(active.ledger, selection, aim, changes, set, device);
    let (changed, _) = changed_by(active.ledger, selection, aim, changes, set);
    restoration_is_exact(changed, selection, aim, meddled, device);
}

/// After a crash the saved journal is enough to put a light back: a light that
/// still stands as the daemon set it is restored exactly; one that someone else
/// has set since is left as it is. Either way it is given up.
pub proof fn a_restart_recovers(
    stored: Map<Seq<char>, Ownership>,
    selection: SelectedLight,
    aim: Aim,
    device: Seq<LogicalLightState>,
)
    requires
        stored.contains_key(selection.id@),
    ensures
        ({
            let (turn, after) = performed(
                restarted(stored),
                selection,
                Goal::Restore,
                aim,
                device,
            );
            &&& turn.act == Move::Finish(true)
            &&& after == (if device == stored[selection.id@].applied {
                stored[selection.id@].original
            } else {
                device
            })
            &&& turn.ledger.journal == stored.remove(selection.id@)
            &&& turn.ledger.stored == turn.ledger.journal
        }),
{
    reveal_with_fuel(carried_on, 6);
}

/// A restart into a session goes on holding a light that still stands as the
/// daemon set it, from the states of before the crash; a light that someone else
/// has set since is taken anew, from the states that it is in.
pub proof fn a_restart_into_a_session_goes_on(
    stored: Map<Seq<char>, Ownership>,
    selection: SelectedLight,
    aim: Aim,
    device: Seq<LogicalLightState>,
)
    requires
        stored.contains_key(selection.id@),
    ensures
        ({
            let (turn, after) = performed(
                restarted(stored),
                selection,
                Goal::Activate,
                aim,
                device,
            );
            &&& turn.act == Move::Finish(true)
            &&& if device == stored[selection.id@].applied {
                held_from(turn.ledger, selection.id@, stored[selection.id@].original) && after
                    == device
            } else {
                held_from(turn.ledger, selection.id@, device) && after == session_states(
                    aim,
                    device,
                )
            }
        }),
{
    reveal_with_fuel(carried_on, 6);
}

/// The ledger and the light after manual changes, one after the other.
pub open spec fn changed_by(
    ledger: Ledger,
    selection: SelectedLight,
    aim: Aim,
    changes: Seq<Change>,
    device: Seq<LogicalLightState>,
) -> (Ledger, Seq<LogicalLightState>)
    decreases changes.len(),
{
    if changes.len() == 0 {
        (ledger, device)
    } else {
        let (before, states) = changed_by(ledger, selection, aim, changes.drop_last(), device);
        let goal = Goal::Change { change: changes.last() };
        let (turn, after) = performed(before, selection, goal, aim, states);
        (turn.ledger, after)
    }
}

proof fn changes_keep_the_hold(
    ledger: Ledger,
    selection: SelectedLight,
    aim: Aim,
    changes: Seq<Change>,
    device: Seq<LogicalLightState>,
    original: Seq<LogicalLightState>,
)
    requires
        held_from(ledger, selection.id@, original),
    ensures
        held_from(changed_by(ledger, selection, aim, changes, device).0, selection.id@, original),
    decreases changes.len(),
{
    if changes.len() > 0 {
        changes_keep_the_hold(ledger, selection, aim, changes.drop_last(), device, original);
        let (before, states) = changed_by(ledger, selection, aim, changes.drop_last(), device);
        manual_change_keeps_the_hold(before, selection, changes.last(), aim, states, original);
    }
}

/// A session that begins sets each logical light of a light that is not held: to
/// the calibrated brightness, lit and at its own temperature; without one to the
/// saved look, lit or not; with neither it is lit as it is.
pub proof fn sessions_set_what_they_aim_at(
    ledger: Ledger,
    selection: SelectedLight,
    aim: Aim,
    device: Seq<LogicalLightState>,
    k: int,
)
    requires
        !ledger.journal.contains_key(selection.id@),
        0 <= k < device.len(),
    ensures
        ({
            let (turn, after) = performed(ledger, selection, Goal::Activate, aim, device);
            &&& turn.act == Move::Finish(true)
            &&& after.len() == device.len()
            &&& aim.brightness is Some ==> {
                &&& after[k].on
                &&& after[k].brightness == aim.brightness->0
                &&& after[k].temperature == device[k].temperature
            }
            &&& aim.brightness is None && aim.look is Some ==> {
                &&& after[k].on == aim.look->0.on
                &&& after[k].brightness == aim.look->0.brightness
                &&& after[k].temperature == aim.look->0.temperature
            }
            &&& aim.brightness is None && aim.look is None ==> {
                &&& after[k].on
                &&& after[k].brightness == device[k].brightness
                &&& after[k].temperature == device[k].temperature
            }
        }),
{
    activation_takes_hold(ledger, selection, aim, device);
    domain::targets_by_field(device[k], aim.brightness, aim.look);
}

/// How an attempt begins. A change reads the light; an entry of an earlier run is
/// compared first, for which the light is read; else a held light is set to what
/// its entry says, for a session or to put it back, a light that is not held is
/// read for a session, and there is nothing to put back of it.
pub proof fn attempts_begin_with(ledger: Ledger, id: Seq<char>, goal: Goal)
    ensures
        ({
            let turn = opening(ledger, id, goal);
            let held = ledger.journal.contains_key(id);
            &&& turn.ledger.journal == ledger.journal
            &&& turn.ledger.stored == ledger.stored
            &&& forall|other: Seq<char>|
                other != id ==> (#[trigger] turn.ledger.unreconciled.contains(other)
                    <==> ledger.unreconciled.contains(other))
            &&& goal is Change ==> turn.act == Move::Read && turn.ledger == ledger
            &&& !(goal is Change) && held && ledger.unreconciled.contains(id) ==> turn.act
                == Move::Read && turn.ledger == ledger
            &&& goal is Activate && held && !ledger.unreconciled.contains(id) ==> turn.act
                == Move::Write(ledger.journal[id].applied)
            &&& goal is Restore && held && !ledger.unreconciled.contains(id) ==> turn.act
                == Move::Write(ledger.journal[id].original)
            &&& goal is Activate && !held ==> turn.act == Move::Read
            &&& goal is Restore && !held ==> turn.act == Move::Finish(false)
        }),
{
}

/// A step that fails ends the attempt without success, and leaves the holdings as
/// they are; only an entry that could not be saved is dropped again. So does an
/// answer to a question that was not asked.
pub proof fn failures_end_the_attempt(
    ledger: Ledger,
    selection: SelectedLight,
    goal: Goal,
    aim: Aim,
    phase: Phase,
    answer: Answer,
)
    ensures
        ({
            let turn = answered(ledger, selection, goal, aim, phase, answer);
            let unread = !(answer matches Answer::States(Some(_)));
            let unwritten = answer != Answer::Written(true);
            let unsaved = answer != Answer::Saved(true);
            &&& (phase is Reconcile || phase is Capture || phase is Observe) && unread ==> turn.act
                == Move::Finish(false) && turn.ledger == ledger
            &&& (phase is Apply || phase is Revert || phase is Alter) && unwritten ==> turn.act
                == Move::Finish(false) && turn.ledger == ledger
            &&& (phase is Abandon || phase is Release || phase is Note) && unsaved ==> turn.act
                == Move::Finish(false) && turn.ledger == ledger
            &&& phase is Record && unsaved ==> {
                &&& turn.act == Move::Finish(false)
                &&& turn.ledger.journal == ledger.journal.remove(selection.id@)
                &&& turn.ledger.stored == ledger.stored
                &&& turn.ledger.unreconciled == ledger.unreconciled
            }
            &&& phase is Over ==> turn.act == Move::Finish(false) && turn.ledger == ledger
        }),
{
}

/// An attempt ends with success only once the light was set for the session, or
/// the journal without the light was saved, or the light that is not held was
/// changed, or the changed entry was saved.
pub proof fn success_is_earned(
    ledger: Ledger,
    selection: SelectedLight,
    goal: Goal,
    aim: Aim,
    phase: Phase,
    answer: Answer,
)
    requires
        answered(ledger, selection, goal, aim, phase, answer).act == Move::Finish(true),
    ensures
        ({
            ||| phase is Apply && answer == Answer::Written(true)
            ||| phase is Release && answer == Answer::Saved(true)
            ||| phase is Alter && answer == Answer::Written(true) && !ledger.journal.contains_key(
                selection.id@,
            )
            ||| phase is Note && answer == Answer::Saved(true)
        }),
{
}

/// What a step comes to that does not fail, in the order in which a session, a
/// restoration and a change take their steps.
pub proof fn steps_go_on(
    ledger: Ledger,
    selection: SelectedLight,
    goal: Goal,
    aim: Aim,
    states: Seq<LogicalLightState>,
)
    ensures
        ({
            let id = selection.id@;
            let captured = answered(
                ledger,
                selection,
                goal,
                aim,
                Phase::Capture,
                Answer::States(Some(states)),
            );
            &&& captured.act == Move::Save
            &&& captured.phase is Record
            &&& captured.ledger.stored == ledger.stored
            &&& captured.ledger.journal.contains_key(id)
            &&& captured.ledger.journal[id].selection == selection
            &&& captured.ledger.journal[id].original == states
            &&& captured.ledger.journal[id].applied.len() == states.len()
        }),
        ledger.journal.contains_key(selection.id@) ==> {
            let id = selection.id@;
            let recorded = answered(
                ledger,
                selection,
                Goal::Activate,
                aim,
                Phase::Record,
                Answer::Saved(true),
            );
            &&& recorded.act == Move::Write(ledger.journal[id].applied)
            &&& recorded.phase is Apply
            &&& recorded.ledger.journal == ledger.journal
            &&& recorded.ledger.stored == ledger.journal
        },
        ({
            let applied = answered(
                ledger,
                selection,
                goal,
                aim,
                Phase::Apply,
                Answer::Written(true),
            );
            applied.act == Move::Finish(true) && applied.ledger == ledger
        }),
        ({
            let reverted = answered(
                ledger,
                selection,
                goal,
                aim,
                Phase::Revert,
                Answer::Written(true),
            );
            &&& reverted.act == Move::Save
            &&& reverted.phase is Release
            &&& reverted.ledger.journal == ledger.journal.remove(selection.id@)
            &&& reverted.ledger.stored == ledger.stored
        }),
        ({
            let released = answered(
                ledger,
                selection,
                goal,
                aim,
                Phase::Release,
                Answer::Saved(true),
            );
            &&& released.act == Move::Finish(true)
            &&& released.ledger.journal == ledger.journal
            &&& released.ledger.stored == ledger.journal
        }),
        goal matches Goal::Change { change } ==> {
            let observed = answered(
                ledger,
                selection,
                goal,
                aim,
                Phase::Observe,
                Answer::States(Some(states)),
            );
            &&& observed.act == Move::Write(change.result(states))
            &&& observed.phase == Phase::Alter(change.result(states))
            &&& observed.ledger == ledger
        },
        ({
            let id = selection.id@;
            let altered = answered(
                ledger,
                selection,
                goal,
                aim,
                Phase::Alter(states),
                Answer::Written(true),
            );
            if ledger.journal.contains_key(id) {
                &&& altered.act == Move::Save
                &&& altered.phase is Note
                &&& altered.ledger.journal[id].applied == states
                &&& altered.ledger.journal[id].original == ledger.journal[id].original
                &&& altered.ledger.journal[id].selection == ledger.journal[id].selection
                &&& altered.ledger.stored == ledger.stored
            } else {
                altered.act == Move::Finish(true) && altered.ledger == ledger
            }
        }),
        ({
            let noted = answered(ledger, selection, goal, aim, Phase::Note, Answer::Saved(true));
            &&& noted.act == Move::Finish(true)
            &&& noted.ledger.journal == ledger.journal
            &&& noted.ledger.stored == ledger.journal
        }),
        ledger.journal.contains_key(selection.id@) && !(goal is Change) ==> {
            let id = selection.id@;
            let compared = answered(
                ledger,
                selection,
                goal,
                aim,
                Phase::Reconcile,
                Answer::States(Some(states)),
            );
            &&& !compared.ledger.unreconciled.contains(id)
            &&& compared.ledger.stored == ledger.stored
            &&& states != ledger.journal[id].applied ==> compared.act == Move::Save
                && compared.ledger.journal == ledger.journal.remove(id)
            &&& states == ledger.journal[id].applied ==> {
                &&& compared.ledger.journal == ledger.journal
                &&& goal is Activate ==> compared.act == Move::Write(ledger.journal[id].applied)
                &&& goal is Restore ==> compared.act == Move::Write(ledger.journal[id].original)
            }
        },
        !ledger.journal.contains_key(selection.id@) ==> {
            let abandoned = answered(
                ledger,
                selection,
                Goal::Activate,
                aim,
                Phase::Abandon,
                Answer::Saved(true),
            );
            &&& abandoned.act == Move::Read
            &&& abandoned.phase is Capture
            &&& abandoned.ledger.stored == ledger.journal
        },
{
}

/// Actions, reports and entries mean what their fields hold.
pub proof fn actions_and_reports_by_field(
    states: Vec<LogicalLightState>,
    success: bool,
    entry: OwnedLight,
    holdings: Holdings,
)
    ensures
        Action::ReadStates@ == Move::Read,
        (Action::WriteStates { states })@ == Move::Write(states@),
        Action::SaveJournal@ == Move::Save,
        (Action::Finish { success })@ == Move::Finish(success),
        (Report::States { states: Some(states) })@ == Answer::States(Some(states@)),
        (Report::States { states: None })@ == Answer::States(None),
        (Report::Written { success })@ == Answer::Written(success),
        (Report::Saved { success })@ == Answer::Saved(success),
        entry@.selection == entry.selection,
        entry@.original == entry.original@,
        entry@.applied == entry.applied@,
        holdings@.journal == holdings.journal@,
        holdings@.unreconciled == holdings.unreconciled@.dom(),
        holdings@.stored == holdings.stored@,
{
}

} // verus!
