use keylightd::config::{
    validate_unique_ids, CalibrationPoint, Config, IdentityKind, LightConfig, PresetLightConfig,
    SelectedCamera, SelectedLight,
};
use keylightd::domain::PresetLight;
use keylightd::lux::Lux;

fn lux(value: f64) -> Lux {
    Lux {
        bits: value.to_bits(),
    }
}

fn light(id: &str) -> SelectedLight {
    SelectedLight {
        id: id.to_owned(),
        name: "Desk".to_owned(),
        service_name: None,
        fallback_address: None,
    }
}

fn camera(id: &str, inactive_seconds: Option<u64>) -> SelectedCamera {
    SelectedCamera {
        id: id.to_owned(),
        name: "Brio".to_owned(),
        inactive_seconds,
    }
}

fn message(config: &Config) -> String {
    config.validate().unwrap_err().message()
}

#[test]
fn defaults_leave_device_selection_implicit() {
    let config = Config::default();
    assert!(config.light.selected.is_none());
    assert!(config.camera.selected.is_none());
    config.validate().unwrap();
}

#[test]
fn explicit_empty_light_selection_is_invalid() {
    let mut config = Config::default();
    config.light.selected = Some(Vec::new());
    assert!(config
        .validate()
        .unwrap_err()
        .message()
        .contains("light selection"));
}

#[test]
fn calibration_must_be_finite_unique_and_monotonic() {
    let mut config = Config::default();
    config.ambient.calibration = vec![
        CalibrationPoint {
            lux: lux(10.0),
            brightness: 50,
        },
        CalibrationPoint {
            lux: lux(10.0),
            brightness: 40,
        },
    ];
    assert!(config.validate().is_err());

    config.ambient.calibration[1].lux = lux(20.0);
    assert!(config.validate().is_err());

    config.ambient.calibration[1].brightness = 60;
    assert!(config.validate().is_ok());

    config.ambient.calibration[1].lux = lux(f64::NAN);
    assert!(config.validate().is_err());
}

#[test]
fn explicit_empty_camera_selection_is_invalid() {
    let mut config = Config::default();
    config.camera.selected = Some(Vec::new());
    assert!(message(&config).contains("camera selection"));
}

#[test]
fn timing_must_not_be_zero() {
    let mut config = Config::default();
    config.camera.poll_interval_ms = 0;
    assert!(config.validate().is_err());
    let mut config = Config::default();
    config.camera.helper_stale_seconds = 0;
    assert!(config.validate().is_err());
    let mut config = Config::default();
    config.camera.default_inactive_seconds = 0;
    assert!(config.validate().is_err());
    let mut config = Config::default();
    config.camera.restore_grace_seconds = 0;
    assert!(config.validate().is_ok());
}

#[test]
fn identities_must_be_there_and_unique() {
    let mut config = Config::default();
    config.light.selected = Some(vec![light("serial:one"), light("serial:one")]);
    assert!(config.validate().is_err());
    config.light.selected = Some(vec![light("")]);
    assert!(config.validate().is_err());
    config.light.selected = Some(vec![light("serial:one"), light("serial:two")]);
    assert!(config.validate().is_ok());
    config.camera.selected = Some(vec![camera("serial:one", None), camera("serial:one", None)]);
    assert!(config.validate().is_err());

    let ids = vec!["a".to_owned(), "b".to_owned()];
    assert!(validate_unique_ids(&ids, IdentityKind::Camera).is_ok());
    let ids = vec!["a".to_owned(), "a".to_owned()];
    assert!(validate_unique_ids(&ids, IdentityKind::Camera).is_err());
}

#[test]
fn camera_timeouts_must_not_be_zero() {
    let mut config = Config::default();
    config.camera.selected = Some(vec![camera("serial:one", Some(0))]);
    assert!(config.validate().is_err());
    config.camera.selected = Some(vec![camera("serial:one", Some(1))]);
    assert!(config.validate().is_ok());
}

#[test]
fn calibrated_brightness_must_be_in_range() {
    let mut config = Config::default();
    config.ambient.calibration = vec![CalibrationPoint {
        lux: lux(1.0),
        brightness: 0,
    }];
    assert!(config.validate().is_err());
    config.ambient.calibration[0].brightness = 101;
    assert!(config.validate().is_err());
    config.ambient.calibration[0].brightness = 100;
    assert!(config.validate().is_ok());
    config.ambient.calibration[0].lux = lux(-1.0);
    assert!(config.validate().is_err());
}

#[test]
fn a_missing_file_gives_the_defaults() {
    let config = Config::load(None).unwrap();
    assert_eq!(config.light.discovery_timeout_seconds, 3);
    assert_eq!(config.camera.state_file, "/run/keylightd/camera-state.json");
    assert!(config.ambient.calibration.is_empty());
}

#[test]
fn a_file_that_breaks_a_rule_is_refused() {
    let mut broken = Config::default();
    broken.light.selected = Some(Vec::new());
    assert!(Config::load(Some(broken)).is_err());
    let mut sound = Config::default();
    sound.camera.poll_interval_ms = 77;
    assert_eq!(Config::load(Some(sound)).unwrap().camera.poll_interval_ms, 77);
}

#[test]
fn the_preset_is_looked_up_by_identity_and_given_in_mired() {
    let mut light = LightConfig::default();
    assert_eq!(light.preset_for("serial:one"), None);
    light.preset = Some(vec![PresetLightConfig {
        id: "serial:one".to_owned(),
        on: false,
        brightness: 60,
        temperature_kelvin: 4_500,
    }]);
    assert_eq!(
        light.preset_for("serial:one"),
        Some(PresetLight {
            on: false,
            brightness: 60,
            temperature: 222,
        })
    );
    assert_eq!(light.preset_for("serial:two"), None);
}
