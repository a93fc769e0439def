use keylightd::attempt::{Action, Goal, Report};
use keylightd::change::Change;
use keylightd::config::{Config, PresetLightConfig, SelectedLight};
use keylightd::control::ManualCommand;
use keylightd::daemon::{
    recovered_journal, startup_selection, Controller, Event, Loaded, ManualWork,
};
use keylightd::domain::{
    CameraActivity, LogicalLightState, OwnedLight, OwnershipJournal, STATE_VERSION,
};
use keylightd::preset::Reading;
use keylightd::retry::{Retry, INITIAL_RETRY, MAX_RETRY};
use keylightd::session::Plan;

const SECOND: u64 = 1_000_000_000;

fn state(on: bool, brightness: u8, temperature: u16) -> LogicalLightState {
    LogicalLightState {
        on,
        brightness,
        temperature,
    }
}

fn chosen(id: &str) -> SelectedLight {
    SelectedLight {
        id: id.to_owned(),
        name: format!("name of {id}"),
        service_name: None,
        fallback_address: None,
    }
}

fn controller(ids: &[&str], journal: OwnershipJournal) -> Controller {
    let selected = ids.iter().map(|id| chosen(id)).collect();
    Controller::new(Config::default(), selected, journal, 0)
}

fn journal(id: &str, original: LogicalLightState, applied: LogicalLightState) -> OwnershipJournal {
    let mut journal = OwnershipJournal::default();
    journal.lights.insert(
        id.to_owned(),
        OwnedLight {
            selection: chosen(id),
            original: vec![original],
            applied: vec![applied],
        },
    );
    journal
}

fn reading(id: &str, states: Vec<LogicalLightState>) -> Option<Reading> {
    Some(Reading {
        id: id.to_owned(),
        states,
    })
}

struct Device {
    states: Vec<LogicalLightState>,
    readable: bool,
    writable: bool,
    journal_saves: bool,
    log: Vec<&'static str>,
}

impl Device {
    fn new(states: Vec<LogicalLightState>) -> Self {
        Device {
            states,
            readable: true,
            writable: true,
            journal_saves: true,
            log: Vec::new(),
        }
    }

    fn run(&mut self, controller: &mut Controller, id: &str, goal: Goal) -> bool {
        let (mut attempt, mut action) = controller.begin_attempt(&chosen(id), goal);
        loop {
            let report = match action {
                Action::ReadStates => {
                    self.log.push("read");
                    Report::States {
                        states: if self.readable {
                            Some(self.states.clone())
                        } else {
                            None
                        },
                    }
                }
                Action::WriteStates { states } => {
                    self.log.push("write");
                    if self.writable {
                        self.states = states;
                    }
                    Report::Written {
                        success: self.writable,
                    }
                }
                Action::SaveJournal => {
                    self.log.push("save");
                    Report::Saved {
                        success: self.journal_saves,
                    }
                }
                Action::Finish { success } => return success,
            };
            action = controller.advance(&mut attempt, report);
        }
    }
}

fn lights(plan: Plan) -> Vec<String> {
    match plan {
        Plan::Activate { lights } | Plan::Restore { lights } => {
            lights.into_iter().map(|light| light.id).collect()
        }
        Plan::Rest => Vec::new(),
    }
}

#[test]
fn retry_backoff_is_capped() {
    let mut retry = Retry::immediate(0);
    for _ in 0..10 {
        retry = retry.failed(0);
    }
    assert_eq!(retry.backoff, MAX_RETRY);
}

#[test]
fn retries_double_from_the_first() {
    let retry = Retry::immediate(7);
    assert_eq!(retry.backoff, INITIAL_RETRY);
    assert!(retry.due(7) && !retry.due(6));
    let retry = retry.failed(7);
    assert_eq!(retry.at, 7 + u128::from(SECOND));
    assert_eq!(retry.backoff, 2);
    let waits: Vec<u64> = (0..5)
        .scan(retry, |retry, _| {
            *retry = retry.failed(0);
            Some(retry.backoff)
        })
        .collect();
    assert_eq!(waits, vec![4, 8, 16, 30, 30]);
}

#[test]
fn a_session_restores_the_exact_state_it_found() {
    let mut controller = controller(&["one"], OwnershipJournal::default());
    let mut device = Device::new(vec![state(false, 33, 210), state(true, 70, 250)]);
    let before = device.states.clone();
    assert!(controller.starts_session(CameraActivity::Active));
    let plan = controller.tick(CameraActivity::Active, Some(50), 0);
    assert_eq!(lights(plan), vec!["one".to_owned()]);
    assert!(device.run(&mut controller, "one", Goal::Activate));
    controller.finish_attempt("one", true, 0);
    assert_eq!(device.log, vec!["read", "save", "write"]);
    assert_eq!(device.states, vec![state(true, 50, 210), state(true, 50, 250)]);
    assert!(controller.status().camera_active);

    assert!(device.run(
        &mut controller,
        "one",
        Goal::Change {
            change: Change::Brightness { brightness: 9 }
        }
    ));
    assert_eq!(device.states, vec![state(true, 9, 210), state(true, 9, 250)]);
    device.states = vec![state(false, 1, 143), state(false, 1, 143)];

    let plan = controller.tick(CameraActivity::Inactive, None, SECOND);
    assert_eq!(lights(plan), vec!["one".to_owned()]);
    assert!(device.run(&mut controller, "one", Goal::Restore));
    controller.finish_attempt("one", true, SECOND);
    controller.conclude_restoration();
    assert_eq!(device.states, before);
    assert!(controller.holdings.journal.lights.is_empty());
    assert!(!controller.session.restoring);
    assert_eq!(controller.session.brightness, None);
}

#[test]
fn nothing_is_set_before_the_journal_is_saved() {
    let mut controller = controller(&["one"], OwnershipJournal::default());
    let mut device = Device::new(vec![state(false, 33, 210)]);
    device.journal_saves = false;
    controller.tick(CameraActivity::Active, None, 0);
    assert!(!device.run(&mut controller, "one", Goal::Activate));
    assert_eq!(device.log, vec!["read", "save"]);
    assert_eq!(device.states, vec![state(false, 33, 210)]);
    assert!(controller.holdings.journal.lights.is_empty());
    device.journal_saves = true;
    assert!(device.run(&mut controller, "one", Goal::Activate));
    assert_eq!(device.states, vec![state(true, 33, 210)]);
}

#[test]
fn a_light_that_was_not_put_back_stays_held() {
    let mut controller = controller(&["one"], OwnershipJournal::default());
    let mut device = Device::new(vec![state(false, 33, 210)]);
    controller.tick(CameraActivity::Active, None, 0);
    assert!(device.run(&mut controller, "one", Goal::Activate));
    controller.finish_attempt("one", true, 0);
    device.writable = false;
    controller.tick(CameraActivity::Inactive, None, SECOND);
    assert!(!device.run(&mut controller, "one", Goal::Restore));
    controller.finish_attempt("one", false, SECOND);
    controller.conclude_restoration();
    assert!(controller.session.restoring);
    assert_eq!(controller.holdings.journal.lights.len(), 1);
    assert!(lights(controller.tick(CameraActivity::Inactive, None, SECOND)).is_empty());
    let plan = controller.tick(CameraActivity::Inactive, None, 2 * SECOND);
    assert_eq!(lights(plan), vec!["one".to_owned()]);
}

#[test]
fn activity_during_restoration_keeps_the_first_original() {
    let mut controller = controller(&["one"], OwnershipJournal::default());
    let mut device = Device::new(vec![state(false, 33, 210)]);
    controller.tick(CameraActivity::Active, Some(80), 0);
    assert!(device.run(&mut controller, "one", Goal::Activate));
    controller.finish_attempt("one", true, 0);
    controller.tick(CameraActivity::Inactive, None, SECOND);
    let plan = controller.tick(CameraActivity::Active, Some(10), 2 * SECOND);
    assert_eq!(lights(plan), vec!["one".to_owned()]);
    assert!(!controller.session.restoring);
    assert!(device.run(&mut controller, "one", Goal::Activate));
    assert_eq!(device.states, vec![state(true, 80, 210)]);
    let owned = controller.holdings.journal.lights.get("one").unwrap();
    assert_eq!(owned.original, vec![state(false, 33, 210)]);
}

#[test]
fn brightness_is_sampled_once_per_session() {
    let mut controller = controller(&["one"], OwnershipJournal::default());
    controller.tick(CameraActivity::Active, Some(80), 0);
    assert!(!controller.starts_session(CameraActivity::Active));
    controller.tick(CameraActivity::Active, Some(10), 1);
    assert_eq!(controller.session.brightness, Some(80));
}

#[test]
fn unreachable_lights_are_retried_on_their_own() {
    let mut controller = controller(&["one", "two"], OwnershipJournal::default());
    let plan = controller.tick(CameraActivity::Active, None, 0);
    assert_eq!(lights(plan), vec!["one".to_owned(), "two".to_owned()]);
    let mut device = Device::new(vec![state(false, 33, 210)]);
    assert!(device.run(&mut controller, "two", Goal::Activate));
    controller.finish_attempt("two", true, 0);
    controller.finish_attempt("one", false, 0);
    assert!(lights(controller.tick(CameraActivity::Active, None, SECOND - 1)).is_empty());
    let plan = controller.tick(CameraActivity::Active, None, SECOND);
    assert_eq!(lights(plan), vec!["one".to_owned()]);
}

#[test]
fn stale_helper_state_starts_a_grace_period() {
    let mut controller = controller(&["one"], OwnershipJournal::default());
    let mut device = Device::new(vec![state(false, 33, 210)]);
    controller.tick(CameraActivity::Active, None, 0);
    assert!(device.run(&mut controller, "one", Goal::Activate));
    controller.finish_attempt("one", true, 0);
    let grace = controller.config.camera.restore_grace_seconds * SECOND;
    controller.tick(CameraActivity::Stale, None, 5);
    assert!(!controller.session.restoring);
    controller.tick(CameraActivity::Stale, None, 5 + grace - 1);
    assert!(!controller.session.restoring);
    let plan = controller.tick(CameraActivity::Stale, None, 5 + grace);
    assert!(controller.session.restoring);
    assert_eq!(lights(plan), vec!["one".to_owned()]);
}

#[test]
fn activity_within_the_grace_period_cancels_it() {
    let mut controller = controller(&["one"], OwnershipJournal::default());
    controller.tick(CameraActivity::Active, Some(80), 0);
    controller.tick(CameraActivity::Stale, None, 5);
    assert!(controller.session.grace_deadline.is_some());
    controller.tick(CameraActivity::Active, Some(20), 6);
    assert_eq!(controller.session.grace_deadline, None);
    assert_eq!(controller.session.brightness, Some(20));
}

#[test]
fn a_restart_goes_on_where_the_light_was_left() {
    let original = state(false, 33, 210);
    let applied = state(true, 50, 210);
    let mut controller = controller(&["one"], journal("one", original, applied));
    let mut device = Device::new(vec![applied]);
    controller.tick(CameraActivity::Inactive, None, 0);
    assert!(controller.session.restoring);
    assert!(device.run(&mut controller, "one", Goal::Restore));
    assert_eq!(device.log, vec!["read", "write", "save"]);
    assert_eq!(device.states, vec![original]);
    assert!(controller.holdings.journal.lights.is_empty());
}

#[test]
fn a_restart_gives_up_a_light_that_someone_else_has_set() {
    let mut controller = controller(
        &["one"],
        journal("one", state(false, 33, 210), state(true, 50, 210)),
    );
    let meddled = state(true, 77, 300);
    let mut device = Device::new(vec![meddled]);
    assert!(device.run(&mut controller, "one", Goal::Restore));
    assert_eq!(device.log, vec!["read", "save"]);
    assert_eq!(device.states, vec![meddled]);
    assert!(controller.holdings.journal.lights.is_empty());
}

#[test]
fn a_restart_into_activity_captures_a_light_that_someone_else_has_set_anew() {
    let mut controller = controller(
        &["one"],
        journal("one", state(false, 33, 210), state(true, 50, 210)),
    );
    let meddled = state(false, 77, 300);
    let mut device = Device::new(vec![meddled]);
    controller.tick(CameraActivity::Active, Some(60), 0);
    assert!(device.run(&mut controller, "one", Goal::Activate));
    assert_eq!(device.log, vec!["read", "save", "read", "save", "write"]);
    assert_eq!(device.states, vec![state(true, 60, 300)]);
    let owned = controller.holdings.journal.lights.get("one").unwrap();
    assert_eq!(owned.original, vec![meddled]);
}

#[test]
fn reconciliation_waits_for_an_unreadable_light() {
    let mut controller = controller(
        &["one"],
        journal("one", state(false, 33, 210), state(true, 50, 210)),
    );
    let mut device = Device::new(vec![state(true, 77, 300)]);
    device.readable = false;
    assert!(!device.run(&mut controller, "one", Goal::Restore));
    assert_eq!(controller.holdings.journal.lights.len(), 1);
    device.readable = true;
    device.log.clear();
    assert!(device.run(&mut controller, "one", Goal::Restore));
    assert_eq!(device.log, vec!["read", "save"]);
    assert_eq!(device.states, vec![state(true, 77, 300)]);
}

#[test]
fn a_light_that_is_not_held_cannot_be_restored() {
    let mut controller = controller(&["one"], OwnershipJournal::default());
    let mut device = Device::new(vec![state(true, 77, 300)]);
    assert!(!device.run(&mut controller, "one", Goal::Restore));
    assert!(device.log.is_empty());
}

#[test]
fn manual_changes_at_rest_are_what_the_next_session_restores() {
    let mut controller = controller(&["one"], OwnershipJournal::default());
    let mut device = Device::new(vec![state(true, 77, 300)]);
    let change = Change::Power { on: false };
    assert!(device.run(&mut controller, "one", Goal::Change { change }));
    assert_eq!(device.log, vec!["read", "write"]);
    controller.tick(CameraActivity::Active, None, 0);
    assert!(device.run(&mut controller, "one", Goal::Activate));
    assert_eq!(device.states, vec![state(true, 77, 300)]);
    assert!(device.run(&mut controller, "one", Goal::Restore));
    assert_eq!(device.states, vec![state(false, 77, 300)]);
}

#[test]
fn a_stop_restores_and_exits_when_nothing_is_held() {
    let mut controller = controller(&["one"], OwnershipJournal::default());
    let mut device = Device::new(vec![state(false, 33, 210)]);
    controller.tick(CameraActivity::Active, None, 0);
    assert!(device.run(&mut controller, "one", Goal::Activate));
    controller.finish_attempt("one", true, 0);
    controller.handle_event(Event::Shutdown, 1);
    assert!(!controller.may_exit());
    assert_eq!(
        controller.effective_activity(CameraActivity::Active),
        CameraActivity::Inactive
    );
    let plan = controller.tick(CameraActivity::Active, None, 1);
    assert_eq!(lights(plan), vec!["one".to_owned()]);
    assert!(device.run(&mut controller, "one", Goal::Restore));
    controller.finish_attempt("one", true, 1);
    controller.conclude_restoration();
    assert!(controller.may_exit());
}

#[test]
fn suspend_restores_and_resume_begins_a_new_session() {
    let mut controller = controller(&["one"], OwnershipJournal::default());
    let mut device = Device::new(vec![state(false, 33, 210)]);
    controller.tick(CameraActivity::Active, Some(80), 0);
    assert!(device.run(&mut controller, "one", Goal::Activate));
    controller.finish_attempt("one", true, 0);
    controller.handle_event(
        Event::Suspend {
            start: true,
            awaited: true,
        },
        1,
    );
    assert!(!controller.take_suspend_ready());
    controller.tick(CameraActivity::Active, None, 1);
    assert!(device.run(&mut controller, "one", Goal::Restore));
    assert!(controller.take_suspend_ready());
    assert!(!controller.take_suspend_ready());
    controller.handle_event(
        Event::Suspend {
            start: false,
            awaited: false,
        },
        2,
    );
    assert!(controller.starts_session(CameraActivity::Active));
    controller.tick(CameraActivity::Active, Some(20), 2);
    assert_eq!(controller.session.brightness, Some(20));
}

#[test]
fn a_failed_reload_keeps_the_configuration() {
    let mut controller = controller(&["one"], OwnershipJournal::default());
    controller.handle_event(Event::Reload { loaded: None }, 0);
    assert_eq!(controller.selected[0].id, "one");
    let mut config = Config::default();
    config.camera.poll_interval_ms = 77;
    controller.handle_event(
        Event::Reload {
            loaded: Some(Loaded {
                config,
                selected: vec![chosen("two")],
            }),
        },
        0,
    );
    assert_eq!(controller.selected[0].id, "two");
    assert_eq!(controller.config.camera.poll_interval_ms, 77);
}

#[test]
fn manual_commands_come_to_changes_of_the_selected_light() {
    let controller = controller(&["one", "two"], OwnershipJournal::default());
    match controller.handle_manual(ManualCommand::SetBrightness {
        light: 1,
        brightness: 200,
    }) {
        ManualWork::Change { selection, change } => {
            assert_eq!(selection.id, "two");
            assert_eq!(change, Change::Brightness { brightness: 200 });
        }
        other => panic!("unexpected {other:?}"),
    }
    assert!(matches!(
        controller.handle_manual(ManualCommand::TogglePower { light: 2 }),
        ManualWork::Nothing
    ));
    assert!(matches!(
        controller.handle_manual(ManualCommand::ApplyPreset),
        ManualWork::Nothing
    ));
    match controller.handle_manual(ManualCommand::SavePreset) {
        ManualWork::SavePreset { lights } => assert_eq!(lights.len(), 2),
        other => panic!("unexpected {other:?}"),
    }
}

#[test]
fn a_saved_preset_reproduces_every_light() {
    let mut controller = controller(&["one", "two", "three"], OwnershipJournal::default());
    assert!(!controller.status().has_preset);
    assert!(!controller.adopt_preset(&vec![reading("one", vec![state(true, 1, 200)]), None]));
    assert!(!controller.status().has_preset);
    assert!(controller.adopt_preset(&vec![
        reading("one", vec![state(false, 33, 211)]),
        reading("two", Vec::new()),
        reading("three", vec![state(true, 66, 344), state(true, 1, 143)]),
    ]));
    assert!(controller.status().has_preset);
    let changes = match controller.handle_manual(ManualCommand::ApplyPreset) {
        ManualWork::ApplyPreset { changes } => changes,
        other => panic!("unexpected {other:?}"),
    };
    assert_eq!(changes.len(), 2);
    assert_eq!(changes[0].selection.id, "one");
    assert_eq!(
        changes[0].change.apply(&vec![state(true, 90, 150)]),
        vec![state(false, 33, 211)]
    );
    assert_eq!(changes[1].selection.id, "three");
    assert_eq!(
        changes[1].change.apply(&vec![state(false, 90, 150)]),
        vec![state(true, 66, 344)]
    );
}

#[test]
fn a_session_shows_the_preset_where_nothing_is_calibrated() {
    let mut controller = controller(&["one"], OwnershipJournal::default());
    controller.config.light.preset = Some(vec![PresetLightConfig {
        id: "one".to_owned(),
        on: false,
        brightness: 60,
        temperature_kelvin: 4500,
    }]);
    let mut device = Device::new(vec![state(true, 33, 210)]);
    controller.tick(CameraActivity::Active, None, 0);
    assert!(device.run(&mut controller, "one", Goal::Activate));
    assert_eq!(device.states, vec![state(false, 60, 222)]);
}

#[test]
fn a_journal_of_another_version_counts_as_none() {
    let mut left = journal("one", state(false, 33, 210), state(true, 50, 210));
    assert!(recovered_journal(None).lights.is_empty());
    left.version = STATE_VERSION + 1;
    let recovered = recovered_journal(Some(left));
    assert!(recovered.lights.is_empty());
    assert_eq!(recovered.version, STATE_VERSION);
    let left = journal("one", state(false, 33, 210), state(true, 50, 210));
    assert_eq!(recovered_journal(Some(left)).lights.len(), 1);
}

#[test]
fn lights_that_were_left_are_selected_where_none_are() {
    let left = journal("one", state(false, 33, 210), state(true, 50, 210));
    let mut config = Config::default();
    let selected = startup_selection(&config, &left).unwrap();
    assert_eq!(selected.len(), 1);
    assert_eq!(selected[0].id, "one");
    assert!(startup_selection(&config, &OwnershipJournal::default()).is_none());
    config.light.selected = Some(vec![chosen("two")]);
    assert!(startup_selection(&config, &left).is_none());
}
