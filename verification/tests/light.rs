use keylightd::config::SelectedLight;
use keylightd::domain::LogicalLightState;
use keylightd::light::{
    accessory_info_url, discover_all, display_name, fallback_endpoint, identify_endpoint,
    needs_discovery, normalize_endpoint, note_service, preferred_address, resolve_selected,
    selected_from_discovered, AccessoryInfo, ApiLight, DiscoveredLight, KeyLight, LightError,
    LightsResponse, ServiceAddress,
};
use keylightd::text_map::TextMap;

fn found(id: &str, name: &str, endpoint: &str) -> DiscoveredLight {
    DiscoveredLight {
        id: id.to_owned(),
        name: name.to_owned(),
        service_name: None,
        endpoint: endpoint.to_owned(),
    }
}

fn chosen(id: &str, fallback: Option<&str>) -> SelectedLight {
    SelectedLight {
        id: id.to_owned(),
        name: id.to_owned(),
        service_name: None,
        fallback_address: fallback.map(str::to_owned),
    }
}

fn state(on: bool, brightness: u8, temperature: u16) -> LogicalLightState {
    LogicalLightState {
        on,
        brightness,
        temperature,
    }
}

fn info(serial: &str, mac: &str, given: &str) -> AccessoryInfo {
    AccessoryInfo {
        product_name: "Elgato Key Light".to_owned(),
        serial_number: serial.to_owned(),
        mac_address: mac.to_owned(),
        display_name: given.to_owned(),
    }
}

#[test]
fn display_name_prefers_mobile_app_name() {
    assert_eq!(
        display_name("Elgato Key Light".to_owned(), "Desk".to_owned()),
        "Desk"
    );
}

#[test]
fn display_name_falls_back_to_product_when_blank() {
    assert_eq!(
        display_name("Elgato Key Light".to_owned(), "   ".to_owned()),
        "Elgato Key Light"
    );
}

#[test]
fn normalizes_configured_addresses() {
    assert_eq!(normalize_endpoint("192.0.2.1"), "http://192.0.2.1:9123");
    assert_eq!(
        normalize_endpoint("192.0.2.1:9123"),
        "http://192.0.2.1:9123"
    );
}

#[test]
fn selected_light_retains_stable_identity_and_resolution_hints() {
    let selected = selected_from_discovered(&DiscoveredLight {
        id: "serial:one".to_owned(),
        name: "Desk".to_owned(),
        service_name: Some("Desk._elg._tcp.local.".to_owned()),
        endpoint: "http://192.0.2.1:9123".to_owned(),
    });
    assert_eq!(selected.id, "serial:one");
    assert_eq!(
        selected.fallback_address.as_deref(),
        Some("http://192.0.2.1:9123")
    );
}

#[test]
fn whole_urls_keep_their_scheme_and_lose_trailing_slashes() {
    assert_eq!(
        normalize_endpoint("http://192.0.2.1:9123/"),
        "http://192.0.2.1:9123"
    );
    assert_eq!(normalize_endpoint("192.0.2.1/"), "http://192.0.2.1:9123");
}

#[test]
fn urls_of_a_light() {
    let light = KeyLight::connect(found("serial:one", "Desk", "http://192.0.2.1:9123"));
    assert_eq!(light.lights_url(), "http://192.0.2.1:9123/elgato/lights");
    assert_eq!(light.discovered().id, "serial:one");
    assert_eq!(
        accessory_info_url("http://192.0.2.1:9123"),
        "http://192.0.2.1:9123/elgato/accessory-info"
    );
}

#[test]
fn states_are_read_from_the_answer() {
    let light = KeyLight::connect(found("serial:one", "Desk", "http://192.0.2.1:9123"));
    let response = LightsResponse {
        lights: vec![
            ApiLight {
                on: 1,
                brightness: 20,
                temperature: 200,
            },
            ApiLight {
                on: 0,
                brightness: 30,
                temperature: 300,
            },
        ],
    };
    assert_eq!(
        light.states(&response).unwrap(),
        vec![state(true, 20, 200), state(false, 30, 300)]
    );
    let error = light.states(&LightsResponse { lights: Vec::new() });
    assert_eq!(
        error.unwrap_err().message(),
        "Key Light serial:one returned no logical lights"
    );
}

#[test]
fn told_states_read_back_as_they_were() {
    let light = KeyLight::connect(found("serial:one", "Desk", "http://192.0.2.1:9123"));
    let states = vec![state(true, 20, 200), state(false, 100, 344)];
    let update = light.set_states(&states).unwrap();
    assert_eq!(update.number_of_lights, 2);
    let response = LightsResponse {
        lights: update.lights,
    };
    assert_eq!(light.states(&response).unwrap(), states);
}

#[test]
fn updates_out_of_range_are_refused() {
    let light = KeyLight::connect(found("serial:one", "Desk", "http://192.0.2.1:9123"));
    assert_eq!(light.set_states(&[]).unwrap_err(), LightError::EmptyUpdate);
    assert_eq!(
        light.set_states(&[state(true, 0, 200)]).unwrap_err(),
        LightError::BrightnessOutOfRange
    );
    assert_eq!(
        light.set_states(&[state(true, 101, 142)]).unwrap_err(),
        LightError::BrightnessOutOfRange
    );
    assert_eq!(
        light.set_states(&[state(true, 50, 142)]).unwrap_err(),
        LightError::TemperatureOutOfRange
    );
    assert_eq!(
        light.set_states(&[state(true, 50, 345)]).unwrap_err(),
        LightError::TemperatureOutOfRange
    );
    assert!(light.set_states(&[state(false, 1, 143)]).is_ok());
}

#[test]
fn the_serial_comes_before_the_hardware_address() {
    let endpoint = "http://192.0.2.1:9123";
    let light = identify_endpoint(info("A2", "aa:bb", "Desk"), endpoint, None).unwrap();
    assert_eq!(light.id, "serial:A2");
    assert_eq!(light.name, "Desk");
    assert_eq!(light.endpoint, endpoint);
    let light = identify_endpoint(info("", "aa:bb", ""), endpoint, None).unwrap();
    assert_eq!(light.id, "mac:AA:BB");
    assert_eq!(light.name, "Elgato Key Light");
    let error = identify_endpoint(info("", "", ""), endpoint, None).unwrap_err();
    assert_eq!(
        error.message(),
        "accessory-info at http://192.0.2.1:9123 has no stable hardware identity"
    );
}

#[test]
fn discovered_lights_are_listed_once_and_in_order() {
    let lights = discover_all(vec![
        Some(found("serial:b", "Same", "http://b")),
        None,
        Some(found("serial:a", "Same", "http://a")),
        Some(found("serial:c", "Early", "http://c")),
        Some(found("serial:a", "Later", "http://other")),
    ]);
    let ids: Vec<&str> = lights.iter().map(|light| light.id.as_str()).collect();
    assert_eq!(ids, vec!["serial:c", "serial:a", "serial:b"]);
    assert_eq!(lights[1].endpoint, "http://a");
    assert!(discover_all(Vec::new()).is_empty());
}

#[test]
fn the_first_ipv4_address_is_preferred() {
    let address = |ipv4, text: &str| ServiceAddress {
        ipv4,
        text: text.to_owned(),
    };
    assert_eq!(
        preferred_address(&vec![
            address(false, "fe80::1"),
            address(true, "192.0.2.1"),
            address(true, "192.0.2.2")
        ]),
        Some("192.0.2.1".to_owned())
    );
    assert_eq!(
        preferred_address(&vec![address(false, "fe80::1")]),
        Some("fe80::1".to_owned())
    );
    assert_eq!(preferred_address(&Vec::new()), None);
}

#[test]
fn services_are_noted_under_their_name() {
    let mut services: TextMap<String> = TextMap::new();
    let addresses = vec![ServiceAddress {
        ipv4: true,
        text: "192.0.2.1".to_owned(),
    }];
    let name = "Desk._elg._tcp.local.";
    note_service(&mut services, name.to_owned(), &addresses, 9123);
    assert_eq!(services.len(), 1);
    assert_eq!(services.key(0), name);
    assert_eq!(services.value(0), "http://192.0.2.1:9123");
    note_service(&mut services, "None".to_owned(), &Vec::new(), 9123);
    assert_eq!(services.len(), 1);
    note_service(&mut services, name.to_owned(), &addresses, 80);
    assert_eq!(services.value(0), "http://192.0.2.1:80");
}

#[test]
fn a_fallback_of_another_device_is_not_taken_for_the_light() {
    let selected = vec![chosen("serial:one", Some("192.0.2.1"))];
    let answers = vec![Some(found("serial:other", "Other", "http://192.0.2.1:9123"))];
    assert!(needs_discovery(&selected, &answers));
    let resolved = resolve_selected(&selected, &answers, &Vec::new());
    assert_eq!(resolved.len(), 1);
    assert_eq!(
        resolved[0].light.as_ref().unwrap_err().message(),
        "selected Key Light serial:one is unreachable"
    );
    let discovered = vec![found("serial:one", "Desk", "http://192.0.2.9:9123")];
    let resolved = resolve_selected(&selected, &answers, &discovered);
    assert_eq!(
        resolved[0].light.as_ref().unwrap().discovered().endpoint,
        "http://192.0.2.9:9123"
    );
}

#[test]
fn a_fallback_of_the_light_itself_needs_no_discovery() {
    let selected = vec![chosen("serial:one", Some("192.0.2.1"))];
    let answers = vec![Some(found("serial:one", "Desk", "http://192.0.2.1:9123"))];
    assert!(!needs_discovery(&selected, &answers));
    let resolved = resolve_selected(&selected, &answers, &Vec::new());
    assert_eq!(resolved[0].selection.id, "serial:one");
    assert!(resolved[0].light.is_ok());
}

#[test]
fn lights_are_resolved_in_the_order_of_choice() {
    let selected = vec![
        chosen("serial:b", None),
        chosen("serial:a", Some("192.0.2.1")),
        chosen("serial:c", None),
    ];
    let answers = vec![
        None,
        Some(found("serial:a", "A", "http://192.0.2.1:9123")),
        None,
    ];
    let discovered = vec![found("serial:c", "C", "http://192.0.2.3:9123")];
    let resolved = resolve_selected(&selected, &answers, &discovered);
    let ids: Vec<&str> = resolved.iter().map(|r| r.selection.id.as_str()).collect();
    assert_eq!(ids, vec!["serial:b", "serial:a", "serial:c"]);
    assert!(resolved[0].light.is_err());
    assert!(resolved[1].light.is_ok());
    assert!(resolved[2].light.is_ok());
}

#[test]
fn a_fallback_address_is_normalized() {
    assert_eq!(
        fallback_endpoint(&chosen("serial:one", Some("192.0.2.1"))),
        Some("http://192.0.2.1:9123".to_owned())
    );
    assert_eq!(fallback_endpoint(&chosen("serial:one", None)), None);
}

#[test]
fn an_identity_chosen_twice_is_reported_with_its_first_place() {
    let selected = vec![
        chosen("serial:a", None),
        chosen("serial:b", None),
        chosen("serial:a", Some("192.0.2.1")),
    ];
    let answers = vec![
        None,
        None,
        Some(found("serial:a", "A", "http://192.0.2.1:9123")),
    ];
    let resolved = resolve_selected(&selected, &answers, &Vec::new());
    let ids: Vec<&str> = resolved.iter().map(|r| r.selection.id.as_str()).collect();
    assert_eq!(ids, vec!["serial:a", "serial:a", "serial:b"]);
    assert!(resolved[0].light.is_ok());
    assert!(resolved[1].light.is_err());
}

#[test]
fn choices_that_all_hold_are_reported_as_they_were_made() {
    let selected = vec![
        chosen("serial:a", Some("192.0.2.1")),
        chosen("serial:b", Some("192.0.2.2")),
        chosen("serial:a", Some("192.0.2.3")),
    ];
    let answers = vec![
        Some(found("serial:a", "A", "http://192.0.2.1:9123")),
        Some(found("serial:b", "B", "http://192.0.2.2:9123")),
        Some(found("serial:a", "A", "http://192.0.2.3:9123")),
    ];
    let resolved = resolve_selected(&selected, &answers, &Vec::new());
    let endpoints: Vec<&str> = resolved
        .iter()
        .map(|r| r.light.as_ref().unwrap().discovered().endpoint.as_str())
        .collect();
    assert_eq!(
        endpoints,
        vec![
            "http://192.0.2.1:9123",
            "http://192.0.2.2:9123",
            "http://192.0.2.3:9123"
        ]
    );
    assert!(resolve_selected(&Vec::new(), &Vec::new(), &Vec::new()).is_empty());
}
