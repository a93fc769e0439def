use keylightd::calibration::{calibrate, parse_brightness, BrightnessError};
use keylightd::config::{CalibrationPoint, Config, SelectedLight};
use keylightd::domain::CameraObservation;
use keylightd::light::{discover_all, DiscoveredLight};
use keylightd::lux::Lux;
use keylightd::selection::{
    ensure_light_selection, needs_light_discovery, parse_selection, select_cameras, select_lights,
    AutoSelectError,
};

fn lux(value: f64) -> Lux {
    Lux {
        bits: value.to_bits(),
    }
}

fn found(id: &str) -> DiscoveredLight {
    DiscoveredLight {
        id: id.to_owned(),
        name: format!("name of {id}"),
        service_name: Some("Desk._elg._tcp.local.".to_owned()),
        endpoint: format!("http://{id}:9123"),
    }
}

fn seen(id: &str) -> CameraObservation {
    CameraObservation {
        id: id.to_owned(),
        name: format!("name of {id}"),
        devices: Vec::new(),
        last_frame_ms: None,
    }
}

#[test]
fn parses_multiple_unique_selections() {
    assert_eq!(parse_selection("2, 1, 2", 3).unwrap(), vec![1, 0]);
    assert!(parse_selection("4", 3).is_err());
    assert!(parse_selection("", 3).unwrap().is_empty());
}

#[test]
fn selection_errors_name_what_is_wrong() {
    assert_eq!(
        parse_selection("1, x ", 3).unwrap_err().message(),
        "invalid selection x"
    );
    assert_eq!(
        parse_selection("4", 3).unwrap_err().message(),
        "selection 4 is outside 1-3"
    );
    assert_eq!(
        parse_selection("0", 3).unwrap_err().message(),
        "selection 0 is outside 1-3"
    );
    assert_eq!(
        parse_selection("1,", 3).unwrap_err().message(),
        "invalid selection "
    );
    assert_eq!(
        parse_selection("99999999999999999999", 3)
            .unwrap_err()
            .message(),
        "invalid selection 99999999999999999999"
    );
    assert_eq!(parse_selection(" \t\n", 3).unwrap(), Vec::<usize>::new());
    assert_eq!(parse_selection("+3", 3).unwrap(), vec![2]);
}

#[test]
fn chosen_lights_replace_the_selection() {
    let mut config = Config::default();
    config.light.address = Some("192.0.2.7".to_owned());
    let lights = vec![found("a"), found("b")];
    assert!(!select_lights(&mut config, &lights, "\n").unwrap());
    assert!(config.light.selected.is_none());
    assert_eq!(config.light.address.as_deref(), Some("192.0.2.7"));
    assert!(select_lights(&mut config, &lights, "3").is_err());
    assert!(config.light.selected.is_none());
    assert!(select_lights(&mut config, &lights, "2,1").unwrap());
    let selected = config.light.selected.unwrap();
    assert_eq!(selected[0].id, "b");
    assert_eq!(
        selected[0].fallback_address.as_deref(),
        Some("http://b:9123")
    );
    assert_eq!(selected[1].name, "name of a");
    assert!(config.light.address.is_none());
}

#[test]
fn chosen_cameras_replace_the_selection() {
    let mut config = Config::default();
    let cameras = vec![seen("a"), seen("b")];
    assert!(!select_cameras(&mut config, &cameras, "").unwrap());
    assert!(config.camera.selected.is_none());
    assert!(select_cameras(&mut config, &cameras, "2").unwrap());
    let selected = config.camera.selected.unwrap();
    assert_eq!(selected.len(), 1);
    assert_eq!(selected[0].id, "b");
    assert_eq!(selected[0].inactive_seconds, None);
}

#[test]
fn a_single_light_is_adopted() {
    let mut config = Config::default();
    assert!(needs_light_discovery(&config));
    let ensured = ensure_light_selection(&mut config, &vec![found("a")]).unwrap();
    assert!(ensured.adopted);
    assert_eq!(
        ensured.selected[0].fallback_address.as_deref(),
        Some("http://a:9123")
    );
    assert!(!needs_light_discovery(&config));
    let ensured = ensure_light_selection(&mut config, &Vec::new()).unwrap();
    assert!(!ensured.adopted);
    assert_eq!(ensured.selected[0].id, "a");
}

#[test]
fn a_configured_address_is_the_fallback_of_the_adopted_light() {
    let mut config = Config::default();
    config.light.address = Some("192.0.2.7".to_owned());
    let ensured = ensure_light_selection(&mut config, &vec![found("a")]).unwrap();
    assert_eq!(
        ensured.selected[0].fallback_address.as_deref(),
        Some("192.0.2.7")
    );
    assert!(config.light.address.is_none());
    assert_eq!(
        config.light.selected.unwrap()[0].fallback_address.as_deref(),
        Some("192.0.2.7")
    );
}

#[test]
fn no_light_or_several_need_a_choice() {
    let mut config = Config::default();
    let error = ensure_light_selection(&mut config, &Vec::new()).unwrap_err();
    assert_eq!(error, AutoSelectError::NoneFound);
    assert!(error.message().starts_with("no Key Lights discovered"));
    let error = ensure_light_selection(&mut config, &vec![found("a"), found("b")]).unwrap_err();
    assert_eq!(error, AutoSelectError::SeveralFound);
    assert!(error.message().starts_with("multiple Key Lights discovered"));
    assert!(config.light.selected.is_none());
    config.light.selected = Some(vec![SelectedLight {
        id: "c".to_owned(),
        name: "C".to_owned(),
        service_name: None,
        fallback_address: None,
    }]);
    let ensured = ensure_light_selection(&mut config, &vec![found("a"), found("b")]).unwrap();
    assert_eq!(ensured.selected[0].id, "c");
}

#[test]
fn brightness_is_read_from_the_prompt() {
    assert_eq!(parse_brightness("\n", 33), Ok(33));
    assert_eq!(parse_brightness(" 50 \n", 33), Ok(50));
    assert_eq!(
        parse_brightness("x", 33),
        Err(BrightnessError::NotAnInteger)
    );
    assert_eq!(
        parse_brightness("256", 33),
        Err(BrightnessError::NotAnInteger)
    );
    assert_eq!(parse_brightness("0", 33), Err(BrightnessError::OutOfRange));
    assert_eq!(
        parse_brightness("101", 33),
        Err(BrightnessError::OutOfRange)
    );
    assert_eq!(parse_brightness("", 0), Err(BrightnessError::OutOfRange));
    assert_eq!(
        BrightnessError::OutOfRange.message(),
        "brightness must be between 1 and 100"
    );
    assert_eq!(
        BrightnessError::NotAnInteger.message(),
        "brightness must be an integer"
    );
}

fn calibrated(points: &[(f64, u8)]) -> Config {
    let mut config = Config::default();
    config.ambient.calibration = points
        .iter()
        .map(|(level, brightness)| CalibrationPoint {
            lux: lux(*level),
            brightness: *brightness,
        })
        .collect();
    config
}

#[test]
fn a_new_point_is_put_in_order() {
    let config = calibrate(calibrated(&[(10.0, 20), (30.0, 60)]), lux(20.0), 40).unwrap();
    let levels: Vec<u8> = config
        .ambient
        .calibration
        .iter()
        .map(|point| point.brightness)
        .collect();
    assert_eq!(levels, vec![20, 40, 60]);
}

#[test]
fn a_point_of_the_same_level_is_replaced() {
    let config = calibrate(calibrated(&[(10.0, 20), (30.0, 60)]), lux(10.0), 50).unwrap();
    assert_eq!(config.ambient.calibration.len(), 2);
    assert_eq!(config.ambient.calibration[0].brightness, 50);
}

#[test]
fn a_point_that_makes_the_curve_fall_is_refused() {
    assert!(calibrate(calibrated(&[(10.0, 20), (30.0, 60)]), lux(20.0), 70).is_err());
    assert!(calibrate(calibrated(&[(0.0, 20)]), lux(-0.0), 20).is_err());
    assert!(calibrate(calibrated(&[]), lux(f64::NAN), 20).is_err());
}

#[test]
fn a_selection_from_discovered_lights_is_valid() {
    let lights = discover_all(vec![Some(found("b")), Some(found("a")), Some(found("b"))]);
    assert_eq!(lights.len(), 2);
    let mut config = Config::default();
    assert!(select_lights(&mut config, &lights, "1, 2, 1").unwrap());
    config.validate().unwrap();
}
