use keylightd::change::{adjust, Change};
use keylightd::config::SelectedLight;
use keylightd::control::{
    light_path, light_paths, light_poll_due, object_path, poll_light, Light, LightAnswer,
    LightChanges, ManualCommand, Root, RootChanges, Status, LIGHT_POLL_INTERVAL, ROOT_PATH,
};
use keylightd::domain::{LogicalLightState, PresetLight};

fn state(on: bool, brightness: u8, temperature: u16) -> LogicalLightState {
    LogicalLightState {
        on,
        brightness,
        temperature,
    }
}

fn desk() -> Light {
    Light::new(
        3,
        &SelectedLight {
            id: "serial:one".to_owned(),
            name: "Desk".to_owned(),
            service_name: None,
            fallback_address: None,
        },
    )
}

#[test]
fn light_objects_have_paths_below_the_root() {
    assert_eq!(ROOT_PATH, "/im/heiber/keylightd");
    assert_eq!(light_path(12).unwrap(), "/im/heiber/keylightd/light/12");
    assert_eq!(
        light_paths(2).unwrap(),
        vec![
            "/im/heiber/keylightd/light/0".to_owned(),
            "/im/heiber/keylightd/light/1".to_owned()
        ]
    );
    assert!(light_paths(0).unwrap().is_empty());
}

#[test]
fn texts_that_are_no_object_paths_are_refused() {
    assert_eq!(object_path("/").unwrap(), "/");
    assert_eq!(object_path("/Path/t0/0bject_").unwrap(), "/Path/t0/0bject_");
    for text in ["", "a", "/a/", "//", "/a//b", "/a-b", "/\u{e9}", "/ha.d", "/a/b/"] {
        let error = object_path(text).unwrap_err();
        assert_eq!(error.message(), format!("build light object path {text}"));
    }
}

#[test]
fn objects_forward_commands() {
    let light = desk();
    assert_eq!(
        light.set_power(true),
        ManualCommand::SetPower { light: 3, on: true }
    );
    assert_eq!(light.toggle_power(), ManualCommand::TogglePower { light: 3 });
    assert_eq!(
        light.set_brightness(7),
        ManualCommand::SetBrightness {
            light: 3,
            brightness: 7
        }
    );
    assert_eq!(
        light.adjust_brightness(-7),
        ManualCommand::AdjustBrightness {
            light: 3,
            delta: -7
        }
    );
    assert_eq!(
        light.set_temperature_kelvin(4000),
        ManualCommand::SetTemperatureKelvin {
            light: 3,
            kelvin: 4000
        }
    );
    assert_eq!(
        light.adjust_temperature_kelvin(100),
        ManualCommand::AdjustTemperatureKelvin {
            light: 3,
            delta: 100
        }
    );
    let root = Root::new(Vec::new());
    assert_eq!(root.save_preset(), ManualCommand::SavePreset);
    assert_eq!(root.apply_preset(), ManualCommand::ApplyPreset);
    assert_eq!(ManualCommand::SavePreset.request(), None);
    assert_eq!(
        light.set_brightness(7).request(),
        Some((3, Change::Brightness { brightness: 7 }))
    );
}

#[test]
fn the_root_tells_what_changed() {
    let mut root = Root::new(Vec::new());
    let status = Status::default();
    assert!(!status.camera_active && !status.has_preset);
    assert_eq!(
        root.publish(status),
        RootChanges {
            camera_active: false,
            has_preset: false
        }
    );
    assert_eq!(
        root.publish(Status {
            camera_active: true,
            has_preset: false
        }),
        RootChanges {
            camera_active: true,
            has_preset: false
        }
    );
    assert!(root.camera_active);
}

#[test]
fn a_light_is_shown_by_its_first_logical_light() {
    let view = poll_light(Some(LightAnswer {
        name: "Renamed".to_owned(),
        states: vec![state(true, 40, 222), state(false, 50, 300)],
    }));
    assert!(view.reachable && view.on);
    assert_eq!(view.brightness, 40);
    assert_eq!(view.temperature_kelvin, 4505);
    assert_eq!(view.name, "Renamed");
    assert!(!poll_light(None).reachable);
    assert!(
        !poll_light(Some(LightAnswer {
            name: "Empty".to_owned(),
            states: Vec::new(),
        }))
        .reachable
    );
}

#[test]
fn an_unreachable_light_keeps_its_last_state_and_name() {
    let mut light = desk();
    let changes = light.publish(poll_light(Some(LightAnswer {
        name: "Renamed".to_owned(),
        states: vec![state(true, 40, 222)],
    })));
    assert_eq!(
        changes,
        LightChanges {
            reachable: true,
            name: true,
            on: true,
            brightness: true,
            temperature_kelvin: true
        }
    );
    let changes = light.publish(poll_light(None));
    assert_eq!(
        changes,
        LightChanges {
            reachable: true,
            name: false,
            on: false,
            brightness: false,
            temperature_kelvin: false
        }
    );
    assert_eq!(light.name, "Renamed");
    assert_eq!(light.brightness, 40);
    assert!(light.on && !light.reachable);
}

#[test]
fn changes_are_clamped_to_range() {
    let states = vec![state(true, 90, 200), state(false, 5, 300)];
    assert_eq!(
        Change::BrightnessBy { delta: 20 }.apply(&states),
        vec![state(true, 100, 200), state(false, 25, 300)]
    );
    assert_eq!(
        Change::BrightnessBy { delta: i32::MIN }.apply(&states),
        vec![state(true, 1, 200), state(false, 1, 300)]
    );
    assert_eq!(
        Change::Brightness { brightness: 0 }.apply(&states),
        vec![state(true, 1, 200), state(false, 1, 300)]
    );
    assert_eq!(
        Change::Kelvin { kelvin: 9000 }.apply(&states),
        vec![state(true, 90, 143), state(false, 5, 143)]
    );
    assert_eq!(
        Change::KelvinBy { delta: 100 }.apply(&vec![state(true, 90, 222)]),
        vec![state(true, 90, 217)]
    );
    assert_eq!(
        Change::KelvinBy { delta: i32::MAX }.apply(&vec![state(true, 90, 222)]),
        vec![state(true, 90, 143)]
    );
    assert_eq!(adjust(5, 10, 1, 12), 12);
    assert_eq!(adjust(i32::MAX, 1, 1, 12), 12);
}

#[test]
fn a_toggle_acts_on_all_logical_lights_alike() {
    let mixed = vec![state(true, 90, 200), state(false, 5, 300)];
    let off = Change::Toggle.apply(&mixed);
    assert_eq!(off, vec![state(false, 90, 200), state(false, 5, 300)]);
    assert_eq!(
        Change::Toggle.apply(&off),
        vec![state(true, 90, 200), state(true, 5, 300)]
    );
    assert_eq!(
        Change::Power { on: true }.apply(&off),
        vec![state(true, 90, 200), state(true, 5, 300)]
    );
}

#[test]
fn a_look_is_taken_as_it_stands() {
    let look = PresetLight {
        on: false,
        brightness: 60,
        temperature: 222,
    };
    assert_eq!(
        Change::Look { look }.apply(&vec![state(true, 90, 200), state(true, 5, 300)]),
        vec![state(false, 60, 222), state(false, 60, 222)]
    );
}

#[test]
fn lights_are_read_every_two_seconds() {
    assert_eq!(LIGHT_POLL_INTERVAL, 2_000_000_000);
    assert!(light_poll_due(None, 0));
    assert!(!light_poll_due(Some(7), 7 + LIGHT_POLL_INTERVAL - 1));
    assert!(light_poll_due(Some(7), 7 + LIGHT_POLL_INTERVAL));
    assert!(!light_poll_due(Some(7), 6));
}
