use keylightd::config::{CameraConfig, SelectedCamera, SelectedLight};
use keylightd::domain::{
    kelvin_to_mired, mired_to_kelvin, observed_activity, ownership_matches, session_target_states,
    states_equal, CameraActivity, CameraObservation, CameraSnapshot, LogicalLightState, OwnedLight,
    OwnershipJournal, PresetLight, KELVIN_MAX, KELVIN_MIN, MIRED_MAX, MIRED_MIN, STATE_VERSION,
};

fn snapshot(heartbeat_ms: u64, frames: &[(&str, Option<u64>)]) -> CameraSnapshot {
    CameraSnapshot {
        version: STATE_VERSION,
        heartbeat_ms,
        cameras: frames
            .iter()
            .map(|(id, last_frame_ms)| CameraObservation {
                id: (*id).to_owned(),
                name: (*id).to_owned(),
                devices: Vec::new(),
                last_frame_ms: *last_frame_ms,
            })
            .collect(),
    }
}

#[test]
fn aggregates_all_recent_cameras() {
    let config = CameraConfig::default();
    let mut active = snapshot(10_000, &[("one", Some(9_000)), ("two", Some(8_000))])
        .active_camera_ids(10_000, &config);
    active.sort();
    assert_eq!(active, vec!["one".to_owned(), "two".to_owned()]);
}

#[test]
fn stale_helper_state_is_inactive() {
    let config = CameraConfig::default();
    assert!(snapshot(1_000, &[("one", Some(1_000))])
        .active_camera_ids(10_000, &config)
        .is_empty());
    assert_eq!(
        snapshot(1_000, &[("one", Some(1_000))]).activity(10_000, &config),
        CameraActivity::Stale
    );
}

#[test]
fn explicit_selection_filters_and_uses_per_camera_timeout() {
    let config = CameraConfig {
        selected: Some(vec![SelectedCamera {
            id: "slow".to_owned(),
            name: "Slow".to_owned(),
            inactive_seconds: Some(10),
        }]),
        ..CameraConfig::default()
    };
    let active = snapshot(
        20_000,
        &[("slow", Some(11_000)), ("unselected", Some(20_000))],
    )
    .active_camera_ids(20_000, &config);
    assert_eq!(active, vec!["slow".to_owned()]);
}

#[test]
fn calibration_sets_brightness_and_preserves_temperature() {
    let original = vec![
        LogicalLightState {
            on: false,
            brightness: 20,
            temperature: 200,
        },
        LogicalLightState {
            on: true,
            brightness: 70,
            temperature: 250,
        },
    ];
    assert_eq!(
        session_target_states(&original, Some(50), None),
        vec![
            LogicalLightState {
                on: true,
                brightness: 50,
                temperature: 200,
            },
            LogicalLightState {
                on: true,
                brightness: 50,
                temperature: 250,
            },
        ]
    );
}

#[test]
fn preserve_powers_on_and_keeps_brightness_and_temperature() {
    let original = vec![LogicalLightState {
        on: false,
        brightness: 33,
        temperature: 210,
    }];
    assert_eq!(
        session_target_states(&original, None, None),
        vec![LogicalLightState {
            on: true,
            brightness: 33,
            temperature: 210,
        }]
    );
}

#[test]
fn preset_is_applied_faithfully_including_saved_off() {
    let original = vec![LogicalLightState {
        on: true,
        brightness: 90,
        temperature: 150,
    }];
    let off_preset = PresetLight {
        on: false,
        brightness: 60,
        temperature: 222,
    };
    assert_eq!(
        session_target_states(&original, None, Some(off_preset)),
        vec![LogicalLightState {
            on: false,
            brightness: 60,
            temperature: 222,
        }]
    );
}

#[test]
fn calibration_takes_precedence_over_preset() {
    let original = vec![LogicalLightState {
        on: true,
        brightness: 40,
        temperature: 300,
    }];
    let preset = PresetLight {
        on: false,
        brightness: 10,
        temperature: 143,
    };
    assert_eq!(
        session_target_states(&original, Some(80), Some(preset)),
        vec![LogicalLightState {
            on: true,
            brightness: 80,
            temperature: 300,
        }]
    );
}

#[test]
fn device_mired_values_round_trip_through_kelvin() {
    for mired in MIRED_MIN..=MIRED_MAX {
        assert_eq!(kelvin_to_mired(mired_to_kelvin(mired)), mired);
    }
}

#[test]
fn kelvin_and_mired_conversions_clamp_to_range() {
    assert_eq!(kelvin_to_mired(1_000), MIRED_MAX);
    assert_eq!(kelvin_to_mired(60_000), MIRED_MIN);
    assert_eq!(mired_to_kelvin(0), mired_to_kelvin(MIRED_MIN));
    assert_eq!(mired_to_kelvin(10_000), mired_to_kelvin(MIRED_MAX));
}

#[test]
fn inactivity_and_restoration_grace_overlap() {
    let mut config = CameraConfig {
        default_inactive_seconds: 2,
        restore_grace_seconds: 5,
        ..CameraConfig::default()
    };
    let state = snapshot(10_000, &[("one", Some(6_000))]);
    assert_eq!(state.activity(10_000, &config), CameraActivity::Active);
    assert_eq!(state.activity(11_001, &config), CameraActivity::Inactive);

    config.default_inactive_seconds = 8;
    assert_eq!(state.activity(13_000, &config), CameraActivity::Active);
}

#[test]
fn conversions_round_to_the_nearest_unit() {
    assert_eq!(kelvin_to_mired(4_500), 222);
    assert_eq!(kelvin_to_mired(KELVIN_MIN), 344);
    assert_eq!(kelvin_to_mired(KELVIN_MAX), 143);
    assert_eq!(mired_to_kelvin(222), 4_505);
    assert_eq!(mired_to_kelvin(143), 6_993);
    assert_eq!(mired_to_kelvin(344), 2_907);
}

#[test]
fn cooler_light_has_fewer_mired() {
    assert!(kelvin_to_mired(6_000) < kelvin_to_mired(3_000));
    assert!(mired_to_kelvin(150) > mired_to_kelvin(300));
}

#[test]
fn a_snapshot_of_another_version_is_stale() {
    let config = CameraConfig::default();
    let mut state = snapshot(10_000, &[("one", Some(10_000))]);
    state.version = STATE_VERSION + 1;
    assert_eq!(state.activity(10_000, &config), CameraActivity::Stale);
    assert!(state.active_camera_ids(10_000, &config).is_empty());
}

#[test]
fn a_camera_listed_twice_is_active_once() {
    let config = CameraConfig::default();
    let active = snapshot(10_000, &[("one", Some(9_000)), ("one", Some(10_000))])
        .active_camera_ids(10_000, &config);
    assert_eq!(active, vec!["one".to_owned()]);
}

#[test]
fn a_camera_without_frames_is_inactive() {
    let config = CameraConfig::default();
    let state = snapshot(10_000, &[("one", None)]);
    assert_eq!(state.activity(10_000, &config), CameraActivity::Inactive);
}

#[test]
fn frames_and_heartbeats_ahead_of_the_clock_count_as_now() {
    let config = CameraConfig::default();
    let state = snapshot(20_000, &[("one", Some(20_000))]);
    assert_eq!(state.activity(10_000, &config), CameraActivity::Active);
}

#[test]
fn a_missing_snapshot_is_stale_and_a_missing_clock_stands_at_zero() {
    let config = CameraConfig::default();
    assert_eq!(
        observed_activity(None, Some(10_000), &config),
        CameraActivity::Stale
    );
    assert_eq!(
        observed_activity(Some(snapshot(10_000, &[("one", Some(9_000))])), None, &config),
        CameraActivity::Active
    );
    assert_eq!(
        observed_activity(
            Some(snapshot(10_000, &[("one", Some(9_000))])),
            Some(10_000),
            &config
        ),
        CameraActivity::Active
    );
}

#[test]
fn ownership_matches_the_applied_states_alone() {
    let state = LogicalLightState {
        on: true,
        brightness: 40,
        temperature: 300,
    };
    let other = LogicalLightState {
        on: false,
        ..state
    };
    let owned = OwnedLight {
        selection: SelectedLight {
            id: "serial:one".to_owned(),
            name: "Desk".to_owned(),
            service_name: None,
            fallback_address: None,
        },
        original: vec![other],
        applied: vec![state],
    };
    assert!(ownership_matches(&[state], &owned));
    assert!(!ownership_matches(&[other], &owned));
    assert!(!ownership_matches(&[state, state], &owned));
    assert!(states_equal(&[], &[]));
}

#[test]
fn a_new_journal_holds_nothing() {
    let journal = OwnershipJournal::default();
    assert_eq!(journal.version, STATE_VERSION);
    assert!(journal.lights.is_empty());
}

#[test]
fn by_default_a_camera_counts_for_five_seconds_after_a_frame() {
    let config = CameraConfig::default();
    let at = |now: u64| snapshot(now, &[("one", Some(10_000))]).activity(now, &config);
    assert_eq!(at(15_000), CameraActivity::Active);
    assert_eq!(at(15_001), CameraActivity::Inactive);
}
