//! The controller: the one place from which lights are written.

use vstd::prelude::*;

use crate::attempt;
use crate::attempt::{Action, Aim, Attempt, Goal, Holdings, Report};
use crate::change::Change;
use crate::config::{copied_lights, Config, SelectedLight};
use crate::control;
use crate::control::{ManualCommand, Status};
use crate::domain::{
    CameraActivity, LogicalLightState, OwnedLight, Ownership, OwnershipJournal, STATE_VERSION,
};
use crate::preset;
use crate::preset::{captured_preset, preset_changes, LookChange, Reading};
use crate::session;
use crate::session::{holds_lights, Plan, Session};

verus! {

/// A configuration that was read anew, with the lights that it selects.
#[derive(Debug)]
pub struct Loaded {
    pub config: Config,
    pub selected: Vec<SelectedLight>,
}

/// What happens to the daemon from outside.
#[derive(Debug)]
pub enum Event {
    /// The configuration has to be read again; `None` where it could not be.
    Reload { loaded: Option<Loaded> },
    Shutdown,
    /// The machine is about to sleep, or awake again.
    Suspend { start: bool, awaited: bool },
}

/// The controller.
pub struct Controller {
    pub config: Config,
    pub selected: Vec<SelectedLight>,
    pub holdings: Holdings,
    pub session: Session,
}

impl Controller {
    pub open spec fn wf(self) -> bool {
        &&& self.holdings.wf()
        &&& self.session.wf()
    }

    /// What the cameras are taken to do: nothing, while the machine is about
    /// to sleep or the daemon has to stop.
    pub open spec fn effective(self, observed: CameraActivity) -> CameraActivity {
        if self.session@.suspended || self.session@.shutting_down {
            CameraActivity::Inactive
        } else {
            observed
        }
    }

    /// What a session that is on sets the light `id` to.
    pub open spec fn aim_for(self, id: Seq<char>) -> Aim {
        Aim { brightness: self.session@.brightness, look: self.config.light.look_of(id) }
    }

    /// The daemon starts, with the journal that an earlier run left.
    pub fn new(
        config: Config,
        selected: Vec<SelectedLight>,
        journal: OwnershipJournal,
        now: u64,
    ) -> (r: Self)
        requires
            journal.wf(),
        ensures
            r.wf(),
            r.config == config,
            r.selected == selected,
            r.holdings.journal == journal,
            r.holdings@ == (attempt::Ledger {
                journal: journal@,
                unreconciled: journal@.dom(),
                stored: journal@,
            }),
            r.session@ == (session::Course {
                retries: session::scheduled(Map::empty(), journal@.dom(), true, now),
                camera_active: false,
                camera_initialized: false,
                grace_deadline: None,
                restoring: false,
                suspended: false,
                shutting_down: false,
                brightness: None,
                suspend_awaited: false,
            }),
    {
        let session = Session::new(&journal, now);
        Controller { config, selected, holdings: Holdings::recover(journal), session }
    }

    /// Takes note of an event.
    pub fn handle_event(&mut self, event: Event, now: u64)
        requires
            old(self).wf(),
        ensures
            final(self).wf(),
            final(self).holdings == old(self).holdings,
            match event {
                Event::Reload { loaded: Some(loaded) } => {
                    &&& final(self).config == loaded.config
                    &&& final(self).selected == loaded.selected
                },
                _ => {
                    &&& final(self).config == old(self).config
                    &&& final(self).selected == old(self).selected
                },
            },
            final(self).session@ == (match event {
                Event::Reload { .. } => old(self).session@,
                Event::Shutdown => old(self).session@.stopped(old(self).holdings@.journal, now),
                Event::Suspend { start: true, awaited } => old(self).session@.put_to_sleep(
                    old(self).holdings@.journal,
                    awaited,
                    now,
                ),
                Event::Suspend { start: false, .. } => old(self).session@.woken(),
            }),
    {
        match event {
            Event::Reload { loaded: Some(loaded) } => {
                self.config = loaded.config;
                self.selected = loaded.selected;
            },
            Event::Reload { loaded: None } => {},
            Event::Shutdown => {
                self.session.stop(&self.holdings.journal, now);
            },
            Event::Suspend { start, awaited } => {
                if start {
                    self.session.suspend(&self.holdings.journal, awaited, now);
                } else {
                    self.session.resume();
                }
            },
        }
    }

    /// What the control surface is told.
    pub fn status(&self) -> (r: Status)
        ensures
            r == (Status {
                camera_active: self.session@.camera_active,
                has_preset: self.config.light.preset is Some,
            }),
    {
        Status {
            camera_active: self.session.camera_active,
            has_preset: self.config.light.preset.is_some(),
        }
    }

    /// What the cameras are taken to do.
    pub fn effective_activity(&self, observed: CameraActivity) -> (r: CameraActivity)
        ensures
            r == self.effective(observed),
            self.session@.suspended || self.session@.shutting_down ==> r is Inactive,
            !self.session@.suspended && !self.session@.shutting_down ==> r == observed,
    {
        if self.session.watches_cameras() {
            observed
        } else {
            CameraActivity::Inactive
        }
    }

    /// Whether a session begins, so that the ambient brightness has to be
    /// sampled before [`Controller::tick`].
    pub fn starts_session(&self, observed: CameraActivity) -> (r: bool)
        ensures
            r == (self.effective(observed) is Active && !self.session@.camera_active),
    {
        self.session.starts(self.effective_activity(observed))
    }

    /// Takes note of what the cameras do, and says which lights to try.
    /// `sampled` is the calibrated brightness, for a session that begins.
    pub fn tick(&mut self, observed: CameraActivity, sampled: Option<u8>, now: u64) -> (r: Plan)
        requires
            old(self).wf(),
        ensures
            final(self).wf(),
            final(self).config == old(self).config,
            final(self).selected == old(self).selected,
            final(self).holdings == old(self).holdings,
            final(self).session@ == old(self).session@.ticked(
                old(self).effective(observed),
                old(self).selected@,
                old(self).holdings@.journal,
                sampled,
                old(self).config.camera.restore_grace_seconds,
                now,
            ),
            session::plan_fits(
                r,
                old(self).effective(observed),
                old(self).selected@,
                old(self).holdings.journal,
                final(self).session@,
                now,
            ),
    {
        let activity = self.effective_activity(observed);
        self.session.tick(
            activity,
            &self.selected,
            &self.holdings.journal,
            sampled,
            self.config.camera.restore_grace_seconds,
            now,
        )
    }

    /// Begins an attempt on a light.
    pub fn begin_attempt(&mut self, selection: &SelectedLight, goal: Goal) -> (r: (Attempt, Action))
        requires
            old(self).wf(),
        ensures
            final(self).wf(),
            final(self).config == old(self).config,
            final(self).selected == old(self).selected,
            final(self).session == old(self).session,
            final(self).holdings.journal == old(self).holdings.journal,
            r.0.selection == *selection,
            r.0.goal == goal,
            attempt::opening(old(self).holdings@, selection.id@, goal) == (attempt::Turn {
                ledger: final(self).holdings@,
                phase: r.0.stage@,
                act: r.1@,
            }),
    {
        self.holdings.begin(selection, goal)
    }

    /// Carries an attempt on, after a report of what came of the last action.
    pub fn advance(&mut self, attempt: &mut Attempt, report: Report) -> (r: Action)
        requires
            old(self).wf(),
        ensures
            final(self).wf(),
            final(self).config == old(self).config,
            final(self).selected == old(self).selected,
            final(self).session == old(self).session,
            final(attempt).selection == old(attempt).selection,
            final(attempt).goal == old(attempt).goal,
            attempt::answered(
                old(self).holdings@,
                old(attempt).selection,
                old(attempt).goal,
                old(self).aim_for(old(attempt).selection.id@),
                old(attempt).stage@,
                report@,
            ) == (attempt::Turn {
                ledger: final(self).holdings@,
                phase: final(attempt).stage@,
                act: r@,
            }),
            final(self).holdings.journal.version == old(self).holdings.journal.version,
    {
        let aim = Aim {
            brightness: self.session.brightness,
            look: self.config.light.preset_for(attempt.selection.id.as_str()),
        };
        self.holdings.advance(attempt, aim, report)
    }

    /// Takes note of how an attempt on the light `id` ended.
    pub fn finish_attempt(&mut self, id: &str, success: bool, now: u64)
        requires
            old(self).wf(),
        ensures
            final(self).wf(),
            final(self).config == old(self).config,
            final(self).selected == old(self).selected,
            final(self).holdings == old(self).holdings,
            final(self).session@ == old(self).session@.attempted(id@, success, now),
    {
        self.session.finish_attempt(id, success, now);
    }

    /// Ends restoration, after attempts at it, where nothing is held any more.
    pub fn conclude_restoration(&mut self)
        requires
            old(self).wf(),
        ensures
            final(self).wf(),
            final(self).config == old(self).config,
            final(self).selected == old(self).selected,
            final(self).holdings == old(self).holdings,
            final(self).session@ == old(self).session@.settled(old(self).holdings@.journal),
    {
        self.session.settle(&self.holdings.journal);
    }

    /// Whether the one who waits for suspend is to be told, now and once, that
    /// the lights are put back.
    pub fn take_suspend_ready(&mut self) -> (r: bool)
        requires
            old(self).wf(),
        ensures
            final(self).wf(),
            final(self).config == old(self).config,
            final(self).selected == old(self).selected,
            final(self).holdings == old(self).holdings,
            r == (old(self).session@.suspended && old(self).session@.suspend_awaited
                && !session::holds_any(old(self).holdings@.journal)),
            final(self).session@ == (session::Course {
                suspend_awaited: old(self).session@.suspend_awaited && !r,
                ..old(self).session@
            }),
    {
        self.session.take_suspend_ready(&self.holdings.journal)
    }

    /// Whether the daemon may exit: it has to stop, and every light is put back.
    pub fn may_exit(&self) -> (r: bool)
        requires
            self.wf(),
        ensures
            r == (self.session@.shutting_down && !session::holds_any(self.holdings@.journal)),
    {
        self.session.may_exit(&self.holdings.journal)
    }
}

// ---- manual control ----

/// What a command of the user comes to.
#[derive(Debug)]
pub enum ManualWork {
    Nothing,
    /// Change one light.
    Change { selection: SelectedLight, change: Change },
    /// Read these lights and save what they show as the preset.
    SavePreset { lights: Vec<SelectedLight> },
    /// Change these lights, one after the other.
    ApplyPreset { changes: Vec<LookChange> },
}

/// Whether a command is obeyed by a logical light at place `i` of a device that
/// was in the states `states` and is in the state `is` there afterwards.
pub open spec fn obeyed_by(
    command: ManualCommand,
    states: Seq<LogicalLightState>,
    i: int,
    is: LogicalLightState,
) -> bool {
    control::obeyed(
        command,
        exists|j: int| 0 <= j < states.len() && (#[trigger] states[j]).on,
        states[i],
        is,
    )
}

impl Controller {
    /// What a command comes to. One for a light that is not selected comes to
    /// nothing, and so does the preset where none is saved.
    pub fn handle_manual(&self, command: ManualCommand) -> (r: ManualWork)
        ensures
            match command.asks() {
                Some((light, change)) => if light < self.selected@.len() {
                    r == (ManualWork::Change { selection: self.selected@[light as int], change })
                } else {
                    r is Nothing
                },
                None => if command is SavePreset {
                    r is SavePreset && r->lights@ == self.selected@
                } else if self.config.light.preset is None {
                    r is Nothing
                } else {
                    r is ApplyPreset && r->changes@ == preset::look_changes(
                        self.selected@,
                        self.config.light,
                    )
                },
            },
            r is Change ==> forall|states: Seq<LogicalLightState>, i: int|
                0 <= i < states.len() ==> obeyed_by(
                    command,
                    states,
                    i,
                    #[trigger] r->change.result(states)[i],
                ),
    {
        proof {
            if command.asks() is Some {
                let (_, change) = command.asks()->0;
                assert forall|states: Seq<LogicalLightState>, i: int|
                    0 <= i < states.len() implies obeyed_by(
                    command,
                    states,
                    i,
                    #[trigger] change.result(states)[i],
                ) by {
                    control::commands_are_obeyed(command, states, i, crate::change::lit(states));
                }
            }
        }
        match command.request() {
            Some((light, change)) => if light < self.selected.len() {
                ManualWork::Change { selection: self.selected[light].clone(), change }
            } else {
                ManualWork::Nothing
            },
            None => match command {
                ManualCommand::SavePreset => ManualWork::SavePreset {
                    lights: copied_lights(&self.selected),
                },
                _ => if self.config.light.preset.is_none() {
                    ManualWork::Nothing
                } else {
                    ManualWork::ApplyPreset {
                        changes: preset_changes(&self.selected, &self.config.light),
                    }
                },
            },
        }
    }

    /// Takes what was read of the chosen lights as the preset, and says whether
    /// it did: where any of them could not be read, the preset stays as it is.
    pub fn adopt_preset(&mut self, readings: &Vec<Option<Reading>>) -> (r: bool)
        requires
            old(self).wf(),
        ensures
            final(self).wf(),
            r == preset::all_read(readings@),
            r <==> forall|i: int| 0 <= i < readings@.len() ==> (#[trigger] readings@[i]) is Some,
            !r ==> *final(self) == *old(self),
            final(self).selected == old(self).selected,
            final(self).holdings == old(self).holdings,
            final(self).session == old(self).session,
            final(self).config.camera == old(self).config.camera,
            final(self).config.ambient == old(self).config.ambient,
            final(self).config.light.selected == old(self).config.light.selected,
            final(self).config.light.address == old(self).config.light.address,
            old(self).config.light.discovery_timeout_seconds
                == final(self).config.light.discovery_timeout_seconds,
            r ==> final(self).config.light.preset is Some
                && final(self).config.light.preset->0@ == preset::entries_of(
                preset::what_was_read(readings@),
            ),
    {
        match captured_preset(readings) {
            Some(entries) => {
                self.config.light.preset = Some(entries);
                true
            },
            None => false,
        }
    }
}

// ---- the journal ----

/// The journal to start from, given what was read of the stored one. One that
/// cannot be understood, or that another version of the daemon left, counts as
/// none.
pub fn recovered_journal(parsed: Option<OwnershipJournal>) -> (r: OwnershipJournal)
    requires
        parsed is Some ==> parsed->0.wf(),
    ensures
        r.wf(),
        r.version == STATE_VERSION,
        match parsed {
            Some(journal) => if journal.version == STATE_VERSION {
                r == journal
            } else {
                r@ == Map::<Seq<char>, Ownership>::empty()
            },
            None => r@ == Map::<Seq<char>, Ownership>::empty(),
        },
        r.version == 2,
        parsed matches Some(journal) ==> (journal.version == 2 ==> r == journal),
        parsed matches Some(journal) ==> (journal.version != 2 ==> r@ == Map::<
            Seq<char>,
            Ownership,
        >::empty()),
{
    match parsed {
        Some(journal) => if journal.version == STATE_VERSION {
            journal
        } else {
            OwnershipJournal::default()
        },
        None => OwnershipJournal::default(),
    }
}

/// The lights to start with where none are selected and an earlier run left
/// some: those. `None` where the configuration decides.
pub fn startup_selection(config: &Config, journal: &OwnershipJournal) -> (r: Option<
    Vec<SelectedLight>,
>)
    requires
        journal.wf(),
    ensures
        match r {
            Some(lights) => {
                &&& config.light.selected is None
                &&& session::holds_any(journal@)
                &&& lights@ == journal.lights.values().map_values(|o: OwnedLight| o.selection)
            },
            None => config.light.selected is Some || !session::holds_any(journal@),
        },
{
    if config.light.selected.is_some() || !holds_lights(journal) {
        return None;
    }
    let mut out: Vec<SelectedLight> = Vec::new();
    let mut i: usize = 0;
    let count: usize = journal.lights.len();
    let ghost all = journal.lights.values().map_values(|o: OwnedLight| o.selection);
    while i < count
        invariant
            journal.wf(),
            all == journal.lights.values().map_values(|o: OwnedLight| o.selection),
            i <= count == all.len(),
            all.len() == journal.lights.keys().len(),
            out@ =~= all.take(i as int),
        decreases count - i,
    {
        out.push(journal.lights.value(i).selection.clone());
        i += 1;
    }
    assert(all.take(i as int) =~= all);
    Some(out)
}

// ---- what holds of the controller ----

/// A stop or a suspend is not overtaken by what the cameras do: once lights are
/// being put back for it, they are put back until none is held.
pub proof fn stop_and_suspend_are_not_overtaken(
    controller: Controller,
    observed: CameraActivity,
    sampled: Option<u8>,
    now: u64,
)
    requires
        controller.session@.shutting_down || controller.session@.suspended,
        controller.session@.restoring,
    ensures
        ({
            let after = controller.session@.ticked(
                controller.effective(observed),
                controller.selected@,
                controller.holdings@.journal,
                sampled,
                controller.config.camera.restore_grace_seconds,
                now,
            );
            &&& after.restoring == session::holds_any(controller.holdings@.journal)
            &&& after.shutting_down == controller.session@.shutting_down
            &&& after.suspended == controller.session@.suspended
        }),
{
}

/// While the machine is about to sleep or the daemon has to stop the cameras count
/// for nothing; else they count as they are. A light is set to the calibrated
/// brightness of the session and to its own saved look.
pub proof fn cameras_count_unless_lights_go_back(
    controller: Controller,
    observed: CameraActivity,
    id: Seq<char>,
)
    ensures
        controller.session@.suspended || controller.session@.shutting_down
            ==> controller.effective(observed) is Inactive,
        !controller.session@.suspended && !controller.session@.shutting_down
            ==> controller.effective(observed) == observed,
        controller.aim_for(id).brightness == controller.session@.brightness,
        controller.aim_for(id).look == controller.config.light.look_of(id),
{
}

/// A session that begins without a calibrated brightness shows, on a light that is
/// not held, what the preset was captured from.
pub proof fn sessions_show_the_preset(
    controller: Controller,
    readings: Seq<Reading>,
    i: int,
    selection: SelectedLight,
    device: Seq<LogicalLightState>,
)
    requires
        preset::reading_ids(readings).no_duplicates(),
        0 <= i < readings.len(),
        readings[i].states@.len() > 0,
        143 <= readings[i].states@[0].temperature <= 344,
        controller.config.light.preset is Some,
        controller.config.light.preset->0@ == preset::entries_of(readings),
        controller.session@.brightness is None,
        selection.id@ == readings[i].id@,
        !controller.holdings@.journal.contains_key(selection.id@),
    ensures
        ({
            let (turn, after) = attempt::performed(
                controller.holdings@,
                selection,
                Goal::Activate,
                controller.aim_for(selection.id@),
                device,
            );
            let first = readings[i].states@[0];
            &&& turn.act == attempt::Move::Finish(true)
            &&& after.len() == device.len()
            &&& forall|k: int|
                0 <= k < device.len() ==> (#[trigger] after[k]).on == first.on
                    && after[k].brightness == first.brightness && after[k].temperature
                    == first.temperature
        }),
{
    preset::sessions_show_what_was_captured(
        readings,
        controller.config.light,
        i,
        controller.holdings@,
        selection,
        device,
    );
}

} // verus!
