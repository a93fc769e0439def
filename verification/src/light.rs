//! Key Lights: what they answer, what they are told, and which is which.

use vstd::prelude::*;

use crate::config::SelectedLight;
use crate::domain::{LogicalLightState, MIRED_MAX, MIRED_MIN};
use crate::text;
use crate::text_map::TextMap;

verus! {

/// A light that answered with its identity.
#[derive(Debug)]
pub struct DiscoveredLight {
    pub id: String,
    pub name: String,
    pub service_name: Option<String>,
    pub endpoint: String,
}

impl Clone for DiscoveredLight {
    fn clone(&self) -> (r: Self)
        ensures
            r == *self,
    {
        DiscoveredLight {
            id: self.id.clone(),
            name: self.name.clone(),
            service_name: self.service_name.clone(),
            endpoint: self.endpoint.clone(),
        }
    }
}

/// A light that can be spoken to.
#[derive(Clone, Debug)]
pub struct KeyLight {
    pub discovered: DiscoveredLight,
}

/// What a device says of itself.
#[derive(Clone, Debug)]
pub struct AccessoryInfo {
    pub product_name: String,
    pub serial_number: String,
    pub mac_address: String,
    pub display_name: String,
}

/// A logical light as a device writes it.
#[derive(Clone, Copy, Debug, PartialEq, Eq, Structural)]
pub struct ApiLight {
    pub on: u8,
    pub brightness: u8,
    pub temperature: u16,
}

/// The answer of a device that was asked for its lights.
#[derive(Clone, Debug)]
pub struct LightsResponse {
    pub lights: Vec<ApiLight>,
}

/// What a device is told.
#[derive(Clone, Debug)]
pub struct LightsUpdate {
    pub number_of_lights: usize,
    pub lights: Vec<ApiLight>,
}

/// Why a light was not understood, or not told.
#[derive(Clone, Debug, PartialEq, Eq)]
pub enum LightError {
    NoLogicalLights { id: String },
    EmptyUpdate,
    BrightnessOutOfRange,
    TemperatureOutOfRange,
    NoIdentity { endpoint: String },
    Unreachable { id: String },
}

/// The fault that a [`LightError`] reports.
pub enum LightFault {
    NoLogicalLights { id: Seq<char> },
    EmptyUpdate,
    BrightnessOutOfRange,
    TemperatureOutOfRange,
    NoIdentity { endpoint: Seq<char> },
    Unreachable { id: Seq<char> },
}

impl LightFault {
    /// The fault in words.
    pub open spec fn words(self) -> Seq<char> {
        match self {
            LightFault::NoLogicalLights { id } => "Key Light "@ + id
                + " returned no logical lights"@,
            LightFault::EmptyUpdate => "cannot apply an empty logical light state"@,
            LightFault::BrightnessOutOfRange => "brightness must be between 1 and 100"@,
            LightFault::TemperatureOutOfRange =>
                "colour temperature must be between 143 and 344 mired"@,
            LightFault::NoIdentity { endpoint } => "accessory-info at "@ + endpoint
                + " has no stable hardware identity"@,
            LightFault::Unreachable { id } => "selected Key Light "@ + id + " is unreachable"@,
        }
    }
}

impl LightError {
    pub open spec fn view(&self) -> LightFault {
        match *self {
            LightError::NoLogicalLights { id } => LightFault::NoLogicalLights { id: id@ },
            LightError::EmptyUpdate => LightFault::EmptyUpdate,
            LightError::BrightnessOutOfRange => LightFault::BrightnessOutOfRange,
            LightError::TemperatureOutOfRange => LightFault::TemperatureOutOfRange,
            LightError::NoIdentity { endpoint } => LightFault::NoIdentity { endpoint: endpoint@ },
            LightError::Unreachable { id } => LightFault::Unreachable { id: id@ },
        }
    }

    /// The error in words.
    pub fn message(&self) -> (r: String)
        ensures
            r@ == self@.words(),
    {
        match self {
            LightError::NoLogicalLights { id } => "Key Light ".to_owned().concat(
                id.as_str(),
            ).concat(" returned no logical lights"),
            LightError::EmptyUpdate => "cannot apply an empty logical light state".to_owned(),
            LightError::BrightnessOutOfRange => "brightness must be between 1 and 100".to_owned(),
            LightError::TemperatureOutOfRange =>
                "colour temperature must be between 143 and 344 mired".to_owned(),
            LightError::NoIdentity { endpoint } => "accessory-info at ".to_owned().concat(
                endpoint.as_str(),
            ).concat(" has no stable hardware identity"),
            LightError::Unreachable { id } => "selected Key Light ".to_owned().concat(
                id.as_str(),
            ).concat(" is unreachable"),
        }
    }
}

// ---- reading and writing states ----

impl ApiLight {
    /// The state that a device wrote.
    pub open spec fn state(self) -> LogicalLightState {
        LogicalLightState {
            on: self.on != 0,
            brightness: self.brightness,
            temperature: self.temperature,
        }
    }
}

/// A state as a device is told.
pub open spec fn told(state: LogicalLightState) -> ApiLight {
    ApiLight {
        on: if state.on {
            1
        } else {
            0
        },
        brightness: state.brightness,
        temperature: state.temperature,
    }
}

/// Whether the brightness is one that a device accepts.
pub open spec fn brightness_in_range(state: LogicalLightState) -> bool {
    1 <= state.brightness <= 100
}

/// Whether the temperature is one that a device accepts.
pub open spec fn temperature_in_range(state: LogicalLightState) -> bool {
    MIRED_MIN <= state.temperature <= MIRED_MAX
}

/// Why a device would not be told `states`.
pub open spec fn update_fault(states: Seq<LogicalLightState>) -> Option<LightFault> {
    if states.len() == 0 {
        Some(LightFault::EmptyUpdate)
    } else if exists|i: int| 0 <= i < states.len() && !brightness_in_range(#[trigger] states[i]) {
        Some(LightFault::BrightnessOutOfRange)
    } else if exists|i: int| 0 <= i < states.len() && !temperature_in_range(#[trigger] states[i]) {
        Some(LightFault::TemperatureOutOfRange)
    } else {
        None
    }
}

/// Where the lights of the device at `endpoint` are read and written.
pub open spec fn lights_address(endpoint: Seq<char>) -> Seq<char> {
    endpoint + "/elgato/lights"@
}

impl KeyLight {
    /// Takes up a light that was found.
    pub fn connect(discovered: DiscoveredLight) -> (r: Self)
        ensures
            r.discovered == discovered,
    {
        KeyLight { discovered }
    }

    /// The light as it was found.
    pub fn discovered(&self) -> (r: &DiscoveredLight)
        ensures
            *r == self.discovered,
    {
        &self.discovered
    }

    /// Where the lights of the device are read and written.
    pub fn lights_url(&self) -> (r: String)
        ensures
            r@ == lights_address(self.discovered.endpoint@),
            r@ == self.discovered.endpoint@ + "/elgato/lights"@,
    {
        self.discovered.endpoint.clone().concat("/elgato/lights")
    }

    /// The states in the device's answer.
    pub fn states(&self, response: &LightsResponse) -> (r: Result<Vec<LogicalLightState>, LightError>)
        ensures
            match r {
                Ok(states) => response.lights@.len() > 0 && states@ == response.lights@.map_values(
                    |l: ApiLight| l.state(),
                ),
                Err(e) => response.lights@.len() == 0 && e@ == (LightFault::NoLogicalLights {
                    id: self.discovered.id@,
                }),
            },
            r matches Ok(states) ==> states@.len() == response.lights@.len() && forall|i: int|
                0 <= i < states@.len() ==> ((#[trigger] states@[i]).on <==> response.lights@[i].on
                    != 0) && states@[i].brightness == response.lights@[i].brightness
                    && states@[i].temperature == response.lights@[i].temperature,
    {
        if response.lights.len() == 0 {
            return Err(LightError::NoLogicalLights { id: self.discovered.id.clone() });
        }
        let ghost read = |l: ApiLight| l.state();
        let mut out: Vec<LogicalLightState> = Vec::new();
        let mut i: usize = 0;
        while i < response.lights.len()
            invariant
                i <= response.lights@.len(),
                read == (|l: ApiLight| l.state()),
                out@ =~= response.lights@.take(i as int).map_values(read),
            decreases response.lights@.len() - i,
        {
            let light = response.lights[i];
            let state = LogicalLightState {
                on: light.on != 0,
                brightness: light.brightness,
                temperature: light.temperature,
            };
            assert(state == read(response.lights@[i as int]));
            out.push(state);
            i += 1;
        }
        assert(response.lights@.take(i as int) =~= response.lights@);
        Ok(out)
    }

    /// What the device is told to take the states `states`, or why it is not.
    pub fn set_states(&self, states: &[LogicalLightState]) -> (r: Result<LightsUpdate, LightError>)
        ensures
            match r {
                Ok(update) => {
                    &&& update_fault(states@) is None
                    &&& update.number_of_lights == states@.len()
                    &&& update.lights@ == states@.map_values(|s: LogicalLightState| told(s))
                },
                Err(e) => update_fault(states@) == Some(e@),
            },
            r matches Ok(update) ==> update.lights@.len() == states@.len() && forall|i: int|
                0 <= i < states@.len() ==> (#[trigger] update.lights@[i]).on == (if states@[i].on {
                    1u8
                } else {
                    0u8
                }) && update.lights@[i].brightness == states@[i].brightness
                    && update.lights@[i].temperature == states@[i].temperature,
            r is Ok <==> states@.len() > 0 && forall|i: int|
                0 <= i < states@.len() ==> 1 <= (#[trigger] states@[i]).brightness <= 100 && 143
                    <= states@[i].temperature <= 344,
    {
        proof {
            updates_are_refused_for_what_is_outside(states@);
        }
        if states.len() == 0 {
            return Err(LightError::EmptyUpdate);
        }
        let n: usize = states.len();
        let mut i: usize = 0;
        while i < n
            invariant
                n == states@.len(),
                n > 0,
                i <= n,
                forall|j: int| 0 <= j < i ==> brightness_in_range(#[trigger] states@[j]),
            decreases n - i,
        {
            if states[i].brightness < 1 || states[i].brightness > 100 {
                assert(!brightness_in_range(states@[i as int]));
                return Err(LightError::BrightnessOutOfRange);
            }
            i += 1;
        }
        let ghost tell = |s: LogicalLightState| told(s);
        let mut lights: Vec<ApiLight> = Vec::new();
        let mut k: usize = 0;
        while k < n
            invariant
                n == states@.len(),
                n > 0,
                k <= n,
                forall|j: int| 0 <= j < n ==> brightness_in_range(#[trigger] states@[j]),
                forall|j: int| 0 <= j < k ==> temperature_in_range(#[trigger] states@[j]),
                tell == (|s: LogicalLightState| told(s)),
                lights@ =~= states@.take(k as int).map_values(tell),
            decreases n - k,
        {
            let state = states[k];
            if state.temperature < MIRED_MIN || state.temperature > MIRED_MAX {
                assert(!temperature_in_range(states@[k as int]));
                return Err(LightError::TemperatureOutOfRange);
            }
            let light = ApiLight {
                on: if state.on { 1 } else { 0 },
                brightness: state.brightness,
                temperature: state.temperature,
            };
            assert(light == tell(states@[k as int]));
            lights.push(light);
            k += 1;
        }
        assert(states@.take(k as int) =~= states@);
        Ok(LightsUpdate { number_of_lights: n, lights })
    }
}

/// Reading back what a device was told gives the states it was told.
pub proof fn told_states_read_back(states: Seq<LogicalLightState>)
    ensures
        states.map_values(|s: LogicalLightState| told(s)).map_values(|l: ApiLight| l.state())
            == states,
{
    assert(states.map_values(|s: LogicalLightState| told(s)).map_values(|l: ApiLight| l.state())
        =~= states);
}

/// A device in range takes what a camera session sets it to, whatever decides
/// the target, as long as the calibrated brightness and the saved look are in
/// range too.
pub proof fn session_targets_are_taken(
    states: Seq<LogicalLightState>,
    brightness: Option<u8>,
    look: Option<crate::domain::PresetLight>,
)
    requires
        update_fault(states) is None,
        brightness is Some ==> 1 <= brightness->0 <= 100,
        look is Some ==> brightness_in_range(crate::domain::shown(look->0))
            && temperature_in_range(crate::domain::shown(look->0)),
    ensures
        update_fault(
            states.map_values(
                |s: LogicalLightState| crate::domain::session_target(s, brightness, look),
            ),
        ) is None,
{
    let targets = states.map_values(
        |s: LogicalLightState| crate::domain::session_target(s, brightness, look),
    );
    assert forall|i: int| 0 <= i < targets.len() implies brightness_in_range(
        #[trigger] targets[i],
    ) && temperature_in_range(targets[i]) by {
        assert(brightness_in_range(states[i]));
        assert(temperature_in_range(states[i]));
    }
}

// ---- identity ----

/// The hardware identity that a device gives: its serial number, else its MAC
/// address.
pub open spec fn hardware_identity(serial: Seq<char>, mac: Seq<char>) -> Option<Seq<char>> {
    if !text::blank(serial) {
        Some("serial:"@ + serial)
    } else if !text::blank(mac) {
        Some("mac:"@ + text::upper_text(mac))
    } else {
        None
    }
}

/// Where the device at `endpoint` says what it is.
pub fn accessory_info_url(endpoint: &str) -> (r: String)
    ensures
        r@ == endpoint@ + "/elgato/accessory-info"@,
{
    endpoint.to_owned().concat("/elgato/accessory-info")
}

/// The name of a device: the one given to it, else that of the product.
pub fn display_name(product_name: String, given_name: String) -> (r: String)
    ensures
        r == (if text::blank(given_name@) {
            product_name
        } else {
            given_name
        }),
{
    if text::is_blank(given_name.as_str()) {
        product_name
    } else {
        given_name
    }
}

/// The light that answered at `endpoint` with `info`.
pub fn identify_endpoint(info: AccessoryInfo, endpoint: &str, service_name: Option<String>) -> (r:
    Result<DiscoveredLight, LightError>)
    ensures
        match r {
            Ok(light) => {
                &&& hardware_identity(info.serial_number@, info.mac_address@) == Some(light.id@)
                &&& light.name == (if text::blank(info.display_name@) {
                    info.product_name
                } else {
                    info.display_name
                })
                &&& light.service_name == service_name
                &&& light.endpoint@ == endpoint@
            },
            Err(e) => hardware_identity(info.serial_number@, info.mac_address@) is None && e@ == (
            LightFault::NoIdentity { endpoint: endpoint@ }),
        },
{
    let id = if !text::is_blank(info.serial_number.as_str()) {
        "serial:".to_owned().concat(info.serial_number.as_str())
    } else if !text::is_blank(info.mac_address.as_str()) {
        "mac:".to_owned().concat(text::uppercase(info.mac_address.as_str()).as_str())
    } else {
        return Err(LightError::NoIdentity { endpoint: endpoint.to_owned() });
    };
    let name = display_name(info.product_name, info.display_name);
    Ok(DiscoveredLight { id, name, service_name, endpoint: endpoint.to_owned() })
}

// ---- addresses ----

/// The endpoint that a configured address stands for.
pub open spec fn endpoint_of(address: Seq<char>) -> Seq<char> {
    let bare = text::without_trailing(address, '/');
    if "http://"@.is_prefix_of(address) || "https://"@.is_prefix_of(address) {
        bare
    } else if address.contains(':') {
        "http://"@ + bare
    } else {
        "http://"@ + bare + ":9123"@
    }
}

/// The endpoint that a configured address stands for: plain HTTP, and the
/// usual port, where it names neither.
pub fn normalize_endpoint(address: &str) -> (r: String)
    ensures
        r@ == endpoint_of(address@),
{
    let bare = text::trim_trailing(address, '/');
    if text::starts_with(address, "http://") || text::starts_with(address, "https://") {
        bare.to_owned()
    } else if text::contains_char(address, ':') {
        "http://".to_owned().concat(bare)
    } else {
        "http://".to_owned().concat(bare).concat(":9123")
    }
}

/// An address that a service announced.
#[derive(Clone, Debug)]
pub struct ServiceAddress {
    pub ipv4: bool,
    pub text: String,
}

/// The place of the first IPv4 address from `from` on.
pub open spec fn first_ipv4(addresses: Seq<ServiceAddress>, from: int) -> Option<int>
    decreases addresses.len() - from,
{
    if from < 0 || from >= addresses.len() {
        None
    } else if addresses[from].ipv4 {
        Some(from)
    } else {
        first_ipv4(addresses, from + 1)
    }
}

/// The address to use: the first IPv4 address, else the first address.
pub open spec fn preferred(addresses: Seq<ServiceAddress>) -> Option<Seq<char>> {
    match first_ipv4(addresses, 0) {
        Some(i) => Some(addresses[i].text@),
        None => if addresses.len() > 0 {
            Some(addresses[0].text@)
        } else {
            None
        },
    }
}

/// The address to use: the first IPv4 address, else the first address.
pub fn preferred_address(addresses: &Vec<ServiceAddress>) -> (r: Option<String>)
    ensures
        match r {
            Some(address) => preferred(addresses@) == Some(address@),
            None => preferred(addresses@) is None,
        },
{
    let mut i: usize = 0;
    while i < addresses.len()
        invariant
            i <= addresses@.len(),
            first_ipv4(addresses@, 0) == first_ipv4(addresses@, i as int),
        decreases addresses@.len() - i,
    {
        if addresses[i].ipv4 {
            return Some(addresses[i].text.clone());
        }
        i += 1;
    }
    if addresses.len() > 0 {
        Some(addresses[0].text.clone())
    } else {
        None
    }
}

/// The endpoint of a service.
pub open spec fn service_endpoint(address: Seq<char>, port: nat) -> Seq<char> {
    "http://"@ + address + ":"@ + text::decimal_text(port)
}

/// Notes where a service was found, under its full name. A service without
/// an address is not noted; a later finding takes the place of an earlier.
pub fn note_service(
    endpoints: &mut TextMap<String>,
    full_name: String,
    addresses: &Vec<ServiceAddress>,
    port: u16,
)
    requires
        old(endpoints).wf(),
    ensures
        final(endpoints).wf(),
        match preferred(addresses@) {
            Some(address) => exists|endpoint: String|
                endpoint@ == service_endpoint(address, port as nat) && final(endpoints)@ == old(
                    endpoints,
                )@.insert(full_name@, endpoint),
            None => final(endpoints)@ == old(endpoints)@,
        },
{
    if let Some(address) = preferred_address(addresses) {
        let endpoint = "http://".to_owned().concat(address.as_str()).concat(":").concat(
            text::decimal(port as u64).as_str(),
        );
        endpoints.insert(full_name, endpoint);
    }
}

// ---- discovery ----

/// The identities of a list of lights.
pub open spec fn found_ids(lights: Seq<DiscoveredLight>) -> Seq<Seq<char>> {
    lights.map_values(|l: DiscoveredLight| l.id@)
}

/// The lights among the answers, in their order.
pub open spec fn identified(answers: Seq<Option<DiscoveredLight>>) -> Seq<DiscoveredLight>
    decreases answers.len(),
{
    if answers.len() == 0 {
        Seq::empty()
    } else {
        match answers.last() {
            Some(light) => identified(answers.drop_last()).push(light),
            None => identified(answers.drop_last()),
        }
    }
}

/// The first light of each identity, in their order.
pub open spec fn first_of_each(lights: Seq<DiscoveredLight>) -> Seq<DiscoveredLight>
    decreases lights.len(),
{
    if lights.len() == 0 {
        Seq::empty()
    } else {
        let head = first_of_each(lights.drop_last());
        if found_ids(head).contains(lights.last().id@) {
            head
        } else {
            head.push(lights.last())
        }
    }
}

/// Whether `a` is listed ahead of `b`: by name, and under one name by
/// identity.
pub open spec fn listed_ahead(a: DiscoveredLight, b: DiscoveredLight) -> bool {
    text::before(a.name@, b.name@) || (a.name@ == b.name@ && text::before(a.id@, b.id@))
}

/// Whether the lights stand in the order in which they are listed.
pub open spec fn in_listing_order(lights: Seq<DiscoveredLight>) -> bool {
    forall|i: int, j: int|
        0 <= i < j < lights.len() ==> listed_ahead(#[trigger] lights[i], #[trigger] lights[j])
}

proof fn listed_ahead_is_transitive(a: DiscoveredLight, b: DiscoveredLight, c: DiscoveredLight)
    requires
        listed_ahead(a, b),
        listed_ahead(b, c),
    ensures
        listed_ahead(a, c),
{
    if text::before(a.name@, b.name@) && text::before(b.name@, c.name@) {
        text::before_is_transitive(a.name@, b.name@, c.name@);
    } else if a.name@ == b.name@ && b.name@ == c.name@ {
        text::before_is_transitive(a.id@, b.id@, c.id@);
    }
}

/// Whether `a` is listed ahead of `b`.
fn goes_ahead(a: &DiscoveredLight, b: &DiscoveredLight) -> (r: bool)
    requires
        a.id@ != b.id@,
    ensures
        r == listed_ahead(*a, *b),
        !r ==> listed_ahead(*b, *a),
{
    proof {
        text::before_is_irreflexive(a.name@);
    }
    match text::place(a.name.as_str(), b.name.as_str()) {
        text::Placement::Before => true,
        text::Placement::After => {
            proof {
                if text::before(a.name@, b.name@) {
                    text::before_is_transitive(a.name@, b.name@, a.name@);
                }
            }
            false
        },
        text::Placement::Same => {
            let placed = text::place(a.id.as_str(), b.id.as_str());
            proof {
                text::before_is_irreflexive(a.id@);
                if text::before(a.id@, b.id@) && text::before(b.id@, a.id@) {
                    text::before_is_transitive(a.id@, b.id@, a.id@);
                }
            }
            match placed {
                text::Placement::Before => true,
                _ => false,
            }
        },
    }
}

/// Whether the light `id` is in the list.
fn has_light(lights: &Vec<DiscoveredLight>, id: &str) -> (r: bool)
    ensures
        r == found_ids(lights@).contains(id@),
{
    let mut i: usize = 0;
    while i < lights.len()
        invariant
            i <= lights@.len(),
            forall|j: int| 0 <= j < i ==> found_ids(lights@)[j] != id@,
        decreases lights@.len() - i,
    {
        if text::same(lights[i].id.as_str(), id) {
            assert(found_ids(lights@)[i as int] == id@);
            return true;
        }
        i += 1;
    }
    false
}

/// Puts a light of a new identity where it is listed.
fn list_light(lights: &mut Vec<DiscoveredLight>, light: DiscoveredLight)
    requires
        in_listing_order(old(lights)@),
        !found_ids(old(lights)@).contains(light.id@),
    ensures
        in_listing_order(final(lights)@),
        final(lights)@.to_multiset() == old(lights)@.to_multiset().insert(light),
{
    let mut at: usize = 0;
    while at < lights.len()
        invariant
            lights@ == old(lights)@,
            !found_ids(lights@).contains(light.id@),
            at <= lights@.len(),
            forall|j: int| 0 <= j < at ==> listed_ahead(#[trigger] lights@[j], light),
        ensures
            at < lights@.len() ==> listed_ahead(light, lights@[at as int]),
        decreases lights@.len() - at,
    {
        assert(found_ids(lights@)[at as int] == lights@[at as int].id@);
        if !goes_ahead(&lights[at], &light) {
            break;
        }
        at += 1;
    }
    let ghost before = lights@;
    lights.insert(at, light);
    proof {
        let k = at as int;
        assert(lights@ =~= before.insert(k, light));
        before.to_multiset_ensures();
        vstd::seq_lib::to_multiset_insert(before, k, light);
        assert forall|i: int, j: int| 0 <= i < j < lights@.len() implies listed_ahead(
            #[trigger] lights@[i],
            #[trigger] lights@[j],
        ) by {
            if i < k && j > k {
                assert(lights@[i] == before[i] && lights@[j] == before[j - 1]);
            } else if i == k {
                if j - 1 > k {
                    listed_ahead_is_transitive(light, before[k], before[j - 1]);
                }
            }
        }
    }
}

/// The lights among the answers of the services: of each identity the first,
/// listed by name and identity.
pub fn discover_all(answers: Vec<Option<DiscoveredLight>>) -> (r: Vec<DiscoveredLight>)
    ensures
        r@.to_multiset() == first_of_each(identified(answers@)).to_multiset(),
        in_listing_order(r@),
        found_ids(r@).no_duplicates(),
        forall|i: int, j: int|
            0 <= i < j < r@.len() ==> text::before(
                (#[trigger] r@[i]).name@,
                (#[trigger] r@[j]).name@,
            ) || (r@[i].name@ == r@[j].name@ && text::before(r@[i].id@, r@[j].id@)),
{
    let mut out: Vec<DiscoveredLight> = Vec::new();
    let mut i: usize = 0;
    let ghost mut unique: Seq<DiscoveredLight> = Seq::empty();
    assert(out@ =~= unique);
    assert(answers@.take(0) =~= Seq::empty());
    while i < answers.len()
        invariant
            i <= answers@.len(),
            unique == first_of_each(identified(answers@.take(i as int))),
            out@.to_multiset() == unique.to_multiset(),
            in_listing_order(out@),
        decreases answers@.len() - i,
    {
        assert(answers@.take(i + 1).drop_last() =~= answers@.take(i as int));
        assert(answers@.take(i + 1).last() == answers@[i as int]);
        if let Some(light) = &answers[i] {
            let ghost given = identified(answers@.take(i as int));
            assert(given.push(*light).drop_last() =~= given);
            let known = has_light(&out, light.id.as_str());
            proof {
                same_multiset_same_ids(out@, unique, light.id@);
            }
            if !known {
                list_light(&mut out, light.clone());
                proof {
                    vstd::seq_lib::to_multiset_build(unique, *light);
                    unique = unique.push(*light);
                }
            }
        }
        i += 1;
    }
    assert(answers@.take(i as int) =~= answers@);
    proof {
        first_of_each_is_unique(identified(answers@));
        same_multiset_unique_ids(first_of_each(identified(answers@)), out@);
    }
    out
}

proof fn same_multiset_same_ids(a: Seq<DiscoveredLight>, b: Seq<DiscoveredLight>, id: Seq<char>)
    requires
        a.to_multiset() == b.to_multiset(),
    ensures
        found_ids(a).contains(id) == found_ids(b).contains(id),
{
    a.to_multiset_ensures();
    b.to_multiset_ensures();
    if found_ids(a).contains(id) {
        let i = found_ids(a).index_of(id);
        assert(a.contains(a[i]));
        assert(b.to_multiset().count(a[i]) > 0);
        assert(b.contains(a[i]));
        let j = b.index_of(a[i]);
        assert(found_ids(b)[j] == id);
    }
    if found_ids(b).contains(id) {
        let i = found_ids(b).index_of(id);
        assert(b.contains(b[i]));
        assert(a.to_multiset().count(b[i]) > 0);
        assert(a.contains(b[i]));
        let j = a.index_of(b[i]);
        assert(found_ids(a)[j] == id);
    }
}

proof fn first_of_each_is_unique(lights: Seq<DiscoveredLight>)
    ensures
        found_ids(first_of_each(lights)).no_duplicates(),
    decreases lights.len(),
{
    if lights.len() > 0 {
        first_of_each_is_unique(lights.drop_last());
        let head = first_of_each(lights.drop_last());
        let ids = found_ids(head);
        if !ids.contains(lights.last().id@) {
            let next = found_ids(head.push(lights.last()));
            assert(next =~= ids.push(lights.last().id@));
        }
    }
}

proof fn same_multiset_unique_ids(a: Seq<DiscoveredLight>, b: Seq<DiscoveredLight>)
    requires
        a.to_multiset() == b.to_multiset(),
        found_ids(a).no_duplicates(),
    ensures
        found_ids(b).no_duplicates(),
{
    a.to_multiset_ensures();
    b.to_multiset_ensures();
    assert(a.no_duplicates()) by {
        assert forall|i: int, j: int| 0 <= i < a.len() && 0 <= j < a.len() && i != j implies a[i]
            != a[j] by {
            assert(found_ids(a)[i] != found_ids(a)[j]);
        }
    }
    a.lemma_multiset_has_no_duplicates();
    b.lemma_multiset_has_no_duplicates_conv();
    assert forall|i: int, j: int|
        0 <= i < b.len() && 0 <= j < b.len() && i != j implies found_ids(b)[i] != found_ids(
        b,
    )[j] by {
        if found_ids(b)[i] == found_ids(b)[j] {
            assert(b.contains(b[i]) && b.contains(b[j]));
            assert(a.to_multiset().count(b[i]) > 0 && a.to_multiset().count(b[j]) > 0);
            assert(a.contains(b[i]) && a.contains(b[j]));
            let x = a.index_of(b[i]);
            let y = a.index_of(b[j]);
            assert(found_ids(a)[x] == found_ids(a)[y]);
        }
    }
}

/// An identity is listed exactly when a service answered with it.
pub proof fn every_answer_is_listed(answers: Seq<Option<DiscoveredLight>>, id: Seq<char>)
    ensures
        found_ids(first_of_each(identified(answers))).contains(id) <==> found_ids(
            identified(answers),
        ).contains(id),
{
    first_of_each_keeps_identities(identified(answers), id);
}

proof fn first_of_each_keeps_identities(lights: Seq<DiscoveredLight>, id: Seq<char>)
    ensures
        found_ids(first_of_each(lights)).contains(id) <==> found_ids(lights).contains(id),
    decreases lights.len(),
{
    if lights.len() > 0 {
        let rest = lights.drop_last();
        first_of_each_keeps_identities(rest, id);
        let head = first_of_each(rest);
        assert(found_ids(lights) =~= found_ids(rest).push(lights.last().id@));
        push_contains(found_ids(rest), lights.last().id@, id);
        assert(found_ids(head.push(lights.last())) =~= found_ids(head).push(lights.last().id@));
        push_contains(found_ids(head), lights.last().id@, id);
    }
}

proof fn push_contains(s: Seq<Seq<char>>, last: Seq<char>, id: Seq<char>)
    ensures
        s.push(last).contains(id) <==> s.contains(id) || last == id,
{
    if s.contains(id) {
        let i = s.index_of(id);
        assert(s.push(last)[i] == id);
    }
    if s.push(last).contains(id) {
        let i = s.push(last).index_of(id);
        if i < s.len() {
            assert(s[i] == id);
        }
    }
    assert(s.push(last)[s.len() as int] == last);
}

// ---- resolution ----

/// The choice of a light that was found: its identity, and where it was.
pub fn selected_from_discovered(light: &DiscoveredLight) -> (r: SelectedLight)
    ensures
        r.id == light.id,
        r.name == light.name,
        r.service_name == light.service_name,
        r.fallback_address == Some(light.endpoint),
{
    SelectedLight {
        id: light.id.clone(),
        name: light.name.clone(),
        service_name: light.service_name.clone(),
        fallback_address: Some(light.endpoint.clone()),
    }
}

/// Where to look for a chosen light first.
pub fn fallback_endpoint(selection: &SelectedLight) -> (r: Option<String>)
    ensures
        match (selection.fallback_address, r) {
            (Some(address), Some(endpoint)) => endpoint@ == endpoint_of(address@),
            (None, None) => true,
            _ => false,
        },
{
    match &selection.fallback_address {
        Some(address) => Some(normalize_endpoint(address.as_str())),
        None => None,
    }
}

/// A chosen light, and the light itself where it was reached.
pub struct Resolution {
    pub selection: SelectedLight,
    pub light: Result<KeyLight, LightError>,
}

/// Whether the answer at the fallback address came from the chosen light.
pub open spec fn fallback_holds(selection: SelectedLight, answer: Option<DiscoveredLight>) -> bool {
    match answer {
        Some(light) => light.id@ == selection.id@,
        None => false,
    }
}

/// The first light of the identity `id` in the list.
pub open spec fn light_by_id(lights: Seq<DiscoveredLight>, id: Seq<char>) -> Option<DiscoveredLight>
    decreases lights.len(),
{
    if lights.len() == 0 {
        None
    } else if lights[0].id@ == id {
        Some(lights[0])
    } else {
        light_by_id(lights.drop_first(), id)
    }
}

/// The light that a choice leads to: the answer at its fallback address where
/// that is the light, else the light of its identity that was discovered.
pub open spec fn resolved_light(
    selection: SelectedLight,
    answer: Option<DiscoveredLight>,
    discovered: Seq<DiscoveredLight>,
) -> Option<DiscoveredLight> {
    if fallback_holds(selection, answer) {
        answer
    } else {
        light_by_id(discovered, selection.id@)
    }
}

/// The places up to `until` of the choices of identity `id` whose fallback
/// holds, or of those whose fallback does not.
pub open spec fn places_of(
    selected: Seq<SelectedLight>,
    answers: Seq<Option<DiscoveredLight>>,
    id: Seq<char>,
    holds: bool,
    until: int,
) -> Seq<int>
    decreases until,
{
    if until <= 0 {
        Seq::empty()
    } else {
        let head = places_of(selected, answers, id, holds, until - 1);
        if selected[until - 1].id@ == id && fallback_holds(selected[until - 1], answers[until - 1])
            == holds {
            head.push(until - 1)
        } else {
            head
        }
    }
}

/// The first `until` choices by the first place of their identity; under one
/// identity those reached at their fallback address lead.
pub open spec fn grouped_order(
    selected: Seq<SelectedLight>,
    answers: Seq<Option<DiscoveredLight>>,
    until: int,
) -> Seq<int>
    decreases until,
{
    if until <= 0 {
        Seq::empty()
    } else {
        let head = grouped_order(selected, answers, until - 1);
        let id = selected[until - 1].id@;
        if crate::config::light_ids(selected.take(until - 1)).contains(id) {
            head
        } else {
            head + places_of(selected, answers, id, true, selected.len() as int) + places_of(
                selected,
                answers,
                id,
                false,
                selected.len() as int,
            )
        }
    }
}

/// Whether every choice was reached at its fallback address.
pub open spec fn all_fallbacks_hold(
    selected: Seq<SelectedLight>,
    answers: Seq<Option<DiscoveredLight>>,
) -> bool {
    forall|i: int| 0 <= i < selected.len() ==> fallback_holds(#[trigger] selected[i], answers[i])
}

/// The order in which the choices are reported: as they were made, where every
/// fallback holds; else by the first place of their identity.
pub open spec fn report_order(
    selected: Seq<SelectedLight>,
    answers: Seq<Option<DiscoveredLight>>,
) -> Seq<int> {
    if all_fallbacks_hold(selected, answers) {
        Seq::new(selected.len(), |i: int| i)
    } else {
        grouped_order(selected, answers, selected.len() as int)
    }
}

/// Whether `out` reports the choices at `places`, each with its light.
pub open spec fn reports(
    out: Seq<Resolution>,
    places: Seq<int>,
    selected: Seq<SelectedLight>,
    answers: Seq<Option<DiscoveredLight>>,
    discovered: Seq<DiscoveredLight>,
) -> bool {
    &&& out.len() == places.len()
    &&& forall|k: int|
        0 <= k < out.len() ==> is_report(
            #[trigger] out[k],
            selected[places[k]],
            answers[places[k]],
            discovered,
        )
}

/// Whether `resolution` is what the choice `selection` leads to.
pub open spec fn is_report(
    resolution: Resolution,
    selection: SelectedLight,
    answer: Option<DiscoveredLight>,
    discovered: Seq<DiscoveredLight>,
) -> bool {
    &&& resolution.selection == selection
    &&& match (resolution.light, resolved_light(selection, answer, discovered)) {
        (Ok(light), Some(found)) => light.discovered == found,
        (Err(e), None) => e@ == (LightFault::Unreachable { id: selection.id@ }),
        _ => false,
    }
}

/// Whether the answer at the fallback address came from the chosen light.
fn answers_as(selection: &SelectedLight, answer: &Option<DiscoveredLight>) -> (r: bool)
    ensures
        r == fallback_holds(*selection, *answer),
{
    match answer {
        Some(light) => text::same(light.id.as_str(), selection.id.as_str()),
        None => false,
    }
}

/// Whether discovery is needed: some chosen light was not reached at its
/// fallback address.
pub fn needs_discovery(selected: &Vec<SelectedLight>, answers: &Vec<Option<DiscoveredLight>>) -> (r:
    bool)
    requires
        selected@.len() == answers@.len(),
    ensures
        r == !all_fallbacks_hold(selected@, answers@),
        r <==> exists|i: int|
            0 <= i < selected@.len() && !(answers@[i] is Some && answers@[i]->0.id@ == (
            #[trigger] selected@[i]).id@),
{
    let mut i: usize = 0;
    while i < selected.len()
        invariant
            selected@.len() == answers@.len(),
            i <= selected@.len(),
            forall|j: int| 0 <= j < i ==> fallback_holds(#[trigger] selected@[j], answers@[j]),
        decreases selected@.len() - i,
    {
        if !answers_as(&selected[i], &answers[i]) {
            assert(!fallback_holds(selected@[i as int], answers@[i as int]));
            return true;
        }
        i += 1;
    }
    false
}

fn find_light(lights: &Vec<DiscoveredLight>, id: &str) -> (r: Option<DiscoveredLight>)
    ensures
        r == light_by_id(lights@, id@),
{
    let mut i: usize = 0;
    assert(lights@.skip(0) =~= lights@);
    while i < lights.len()
        invariant
            i <= lights@.len(),
            light_by_id(lights@, id@) == light_by_id(lights@.skip(i as int), id@),
        decreases lights@.len() - i,
    {
        assert(lights@.skip(i as int)[0] == lights@[i as int]);
        if text::same(lights[i].id.as_str(), id) {
            return Some(lights[i].clone());
        }
        assert(lights@.skip(i as int).drop_first() =~= lights@.skip(i + 1));
        i += 1;
    }
    None
}

fn resolve_one(
    selection: &SelectedLight,
    answer: &Option<DiscoveredLight>,
    discovered: &Vec<DiscoveredLight>,
) -> (r: Resolution)
    ensures
        is_report(r, *selection, *answer, discovered@),
{
    let found = match answer {
        Some(light) => if text::same(light.id.as_str(), selection.id.as_str()) {
            Some(light.clone())
        } else {
            find_light(discovered, selection.id.as_str())
        },
        None => find_light(discovered, selection.id.as_str()),
    };
    let light = match found {
        Some(light) => Ok(KeyLight::connect(light)),
        None => Err(LightError::Unreachable { id: selection.id.clone() }),
    };
    Resolution { selection: selection.clone(), light }
}

/// Adds the reports of the choices of identity `id` whose fallback holds, or
/// of those whose fallback does not.
fn report_group(
    out: &mut Vec<Resolution>,
    id: &str,
    holds: bool,
    selected: &Vec<SelectedLight>,
    answers: &Vec<Option<DiscoveredLight>>,
    discovered: &Vec<DiscoveredLight>,
    Ghost(places): Ghost<Seq<int>>,
)
    requires
        selected@.len() == answers@.len(),
        reports(old(out)@, places, selected@, answers@, discovered@),
    ensures
        reports(
            final(out)@,
            places + places_of(selected@, answers@, id@, holds, selected@.len() as int),
            selected@,
            answers@,
            discovered@,
        ),
{
    let mut i: usize = 0;
    assert(places + places_of(selected@, answers@, id@, holds, 0) =~= places);
    while i < selected.len()
        invariant
            selected@.len() == answers@.len(),
            i <= selected@.len(),
            reports(
                out@,
                places + places_of(selected@, answers@, id@, holds, i as int),
                selected@,
                answers@,
                discovered@,
            ),
        decreases selected@.len() - i,
    {
        let ghost so_far = places + places_of(selected@, answers@, id@, holds, i as int);
        if text::same(selected[i].id.as_str(), id) && answers_as(&selected[i], &answers[i])
            == holds {
            out.push(resolve_one(&selected[i], &answers[i], discovered));
            assert(places + places_of(selected@, answers@, id@, holds, i + 1) =~= so_far.push(
                i as int,
            ));
        }
        i += 1;
    }
}

/// Reports the choices by the first place of their identity.
fn resolve_grouped(
    selected: &Vec<SelectedLight>,
    answers: &Vec<Option<DiscoveredLight>>,
    discovered: &Vec<DiscoveredLight>,
) -> (r: Vec<Resolution>)
    requires
        selected@.len() == answers@.len(),
    ensures
        reports(
            r@,
            grouped_order(selected@, answers@, selected@.len() as int),
            selected@,
            answers@,
            discovered@,
        ),
{
    let mut out: Vec<Resolution> = Vec::new();
    let mut seen: Vec<String> = Vec::new();
    let mut i: usize = 0;
    while i < selected.len()
        invariant
            selected@.len() == answers@.len(),
            i <= selected@.len(),
            text::texts(seen@) == crate::config::light_ids(selected@.take(i as int)),
            reports(
                out@,
                grouped_order(selected@, answers@, i as int),
                selected@,
                answers@,
                discovered@,
            ),
        decreases selected@.len() - i,
    {
        let ghost places = grouped_order(selected@, answers@, i as int);
        let id = selected[i].id.clone();
        if !text::listed(&seen, id.as_str()) {
            report_group(&mut out, id.as_str(), true, selected, answers, discovered, Ghost(places));
            let ghost more = places + places_of(
                selected@,
                answers@,
                id@,
                true,
                selected@.len() as int,
            );
            report_group(&mut out, id.as_str(), false, selected, answers, discovered, Ghost(more));
        }
        proof {
            text::texts_push(seen@, id);
            assert(selected@.take(i + 1) =~= selected@.take(i as int).push(selected@[i as int]));
            assert(crate::config::light_ids(selected@.take(i + 1)) =~= crate::config::light_ids(
                selected@.take(i as int),
            ).push(id@));
        }
        seen.push(id);
        i += 1;
    }
    out
}

/// Reports the choices as they were made.
fn resolve_in_order(
    selected: &Vec<SelectedLight>,
    answers: &Vec<Option<DiscoveredLight>>,
    discovered: &Vec<DiscoveredLight>,
) -> (r: Vec<Resolution>)
    requires
        selected@.len() == answers@.len(),
    ensures
        reports(
            r@,
            Seq::new(selected@.len(), |i: int| i),
            selected@,
            answers@,
            discovered@,
        ),
{
    let mut out: Vec<Resolution> = Vec::new();
    let mut i: usize = 0;
    while i < selected.len()
        invariant
            selected@.len() == answers@.len(),
            i <= selected@.len(),
            reports(
                out@,
                Seq::new(i as nat, |k: int| k),
                selected@,
                answers@,
                discovered@,
            ),
        decreases selected@.len() - i,
    {
        out.push(resolve_one(&selected[i], &answers[i], discovered));
        i += 1;
    }
    out
}

/// Finds each chosen light: at its fallback address where the answer there,
/// in `answers`, is the light's own, else among the discovered lights.
pub fn resolve_selected(
    selected: &Vec<SelectedLight>,
    answers: &Vec<Option<DiscoveredLight>>,
    discovered: &Vec<DiscoveredLight>,
) -> (r: Vec<Resolution>)
    requires
        selected@.len() == answers@.len(),
    ensures
        reports(r@, report_order(selected@, answers@), selected@, answers@, discovered@),
        r@.len() == report_order(selected@, answers@).len(),
        forall|k: int|
            0 <= k < r@.len() ==> (#[trigger] r@[k]).selection == selected@[report_order(
                selected@,
                answers@,
            )[k]] && is_report(
                r@[k],
                selected@[report_order(selected@, answers@)[k]],
                answers@[report_order(selected@, answers@)[k]],
                discovered@,
            ),
{
    if needs_discovery(selected, answers) {
        resolve_grouped(selected, answers, discovered)
    } else {
        resolve_in_order(selected, answers, discovered)
    }
}

/// A choice leads to a light of its own identity or to none: an address never
/// stands in for an identity.
pub proof fn resolution_keeps_identity(
    selection: SelectedLight,
    answer: Option<DiscoveredLight>,
    discovered: Seq<DiscoveredLight>,
)
    ensures
        match resolved_light(selection, answer, discovered) {
            Some(light) => light.id@ == selection.id@,
            None => true,
        },
{
    light_by_id_keeps_identity(discovered, selection.id@);
}

proof fn light_by_id_keeps_identity(lights: Seq<DiscoveredLight>, id: Seq<char>)
    ensures
        match light_by_id(lights, id) {
            Some(light) => light.id@ == id,
            None => !found_ids(lights).contains(id),
        },
    decreases lights.len(),
{
    if lights.len() > 0 {
        light_by_id_keeps_identity(lights.drop_first(), id);
        if found_ids(lights).contains(id) && lights[0].id@ != id {
            let i = found_ids(lights).index_of(id);
            assert(found_ids(lights.drop_first())[i - 1] == id);
        }
    }
}

proof fn places_of_a_single(
    selected: Seq<SelectedLight>,
    answers: Seq<Option<DiscoveredLight>>,
    at: int,
    holds: bool,
    until: int,
)
    requires
        crate::config::light_ids(selected).no_duplicates(),
        0 <= at < selected.len(),
        0 <= until <= selected.len(),
    ensures
        places_of(selected, answers, selected[at].id@, holds, until) == (if at < until
            && fallback_holds(selected[at], answers[at]) == holds {
            seq![at]
        } else {
            Seq::<int>::empty()
        }),
    decreases until,
{
    if until > 0 {
        places_of_a_single(selected, answers, at, holds, until - 1);
        let ids = crate::config::light_ids(selected);
        assert(ids[at] == selected[at].id@ && ids[until - 1] == selected[until - 1].id@);
        assert(Seq::<int>::empty().push(at) =~= seq![at]);
    }
}

proof fn distinct_choices_are_grouped_in_order(
    selected: Seq<SelectedLight>,
    answers: Seq<Option<DiscoveredLight>>,
    until: int,
)
    requires
        crate::config::light_ids(selected).no_duplicates(),
        0 <= until <= selected.len(),
    ensures
        grouped_order(selected, answers, until) == Seq::new(until as nat, |i: int| i),
    decreases until,
{
    if until > 0 {
        let at = until - 1;
        distinct_choices_are_grouped_in_order(selected, answers, at);
        let ids = crate::config::light_ids(selected);
        let earlier = crate::config::light_ids(selected.take(at));
        if earlier.contains(selected[at].id@) {
            let i = earlier.index_of(selected[at].id@);
            assert(ids[i] == ids[at]);
        }
        places_of_a_single(selected, answers, at, true, selected.len() as int);
        places_of_a_single(selected, answers, at, false, selected.len() as int);
    }
    assert(grouped_order(selected, answers, until) =~= Seq::new(until as nat, |i: int| i));
}

/// Where every identity is chosen once, the choices are reported in the order
/// in which they were made, each once.
pub proof fn distinct_choices_keep_their_order(
    selected: Seq<SelectedLight>,
    answers: Seq<Option<DiscoveredLight>>,
)
    requires
        crate::config::light_ids(selected).no_duplicates(),
    ensures
        report_order(selected, answers) == Seq::new(selected.len(), |i: int| i),
{
    distinct_choices_are_grouped_in_order(selected, answers, selected.len() as int);
}

// ---- what holds of lights, in plain terms ----

/// A device writes a logical light that is on with any number but zero, and is
/// told one with a one and one that is off with a zero; brightness and temperature
/// are written as they are.
pub proof fn states_are_written_by_field(light: ApiLight, state: LogicalLightState)
    ensures
        light.state().on <==> light.on != 0,
        light.state().brightness == light.brightness,
        light.state().temperature == light.temperature,
        state.on ==> told(state).on == 1,
        !state.on ==> told(state).on == 0,
        told(state).brightness == state.brightness,
        told(state).temperature == state.temperature,
{
}

/// A device is told states where there are any, each with a brightness from 1 to
/// 100 and a temperature from 143 to 344; a brightness outside is told ahead of a
/// temperature outside, wherever the two stand.
pub proof fn updates_are_refused_for_what_is_outside(states: Seq<LogicalLightState>)
    ensures
        update_fault(states) is None <==> states.len() > 0 && forall|i: int|
            0 <= i < states.len() ==> 1 <= (#[trigger] states[i]).brightness <= 100 && 143
                <= states[i].temperature <= 344,
        states.len() == 0 <==> update_fault(states) == Some(LightFault::EmptyUpdate),
        update_fault(states) == Some(LightFault::BrightnessOutOfRange) <==> exists|i: int|
            0 <= i < states.len() && ((#[trigger] states[i]).brightness < 1 || states[i].brightness
                > 100),
        update_fault(states) == Some(LightFault::TemperatureOutOfRange) <==> {
            &&& forall|i: int|
                0 <= i < states.len() ==> 1 <= (#[trigger] states[i]).brightness <= 100
            &&& exists|i: int|
                0 <= i < states.len() && ((#[trigger] states[i]).temperature < 143
                    || states[i].temperature > 344)
        },
{
    if exists|i: int|
        0 <= i < states.len() && ((#[trigger] states[i]).brightness < 1 || states[i].brightness
            > 100) {
        let i = choose|i: int|
            0 <= i < states.len() && ((#[trigger] states[i]).brightness < 1 || states[i].brightness
                > 100);
        assert(!brightness_in_range(states[i]));
    }
    if exists|i: int|
        0 <= i < states.len() && ((#[trigger] states[i]).temperature < 143 || states[i].temperature
            > 344) {
        let i = choose|i: int|
            0 <= i < states.len() && ((#[trigger] states[i]).temperature < 143
                || states[i].temperature > 344);
        assert(!temperature_in_range(states[i]));
    }
    if update_fault(states) is None {
        assert forall|i: int| 0 <= i < states.len() implies 1 <= (#[trigger] states[i]).brightness
            <= 100 && 143 <= states[i].temperature <= 344 by {
            assert(brightness_in_range(states[i]) && temperature_in_range(states[i]));
        }
    }
    if update_fault(states) == Some(LightFault::TemperatureOutOfRange) {
        assert forall|i: int| 0 <= i < states.len() implies 1 <= (#[trigger] states[i]).brightness
            <= 100 by {
            assert(brightness_in_range(states[i]));
        }
    }
}

/// A device is known by its serial number, as it is, where that is more than white
/// space; else by its hardware address in capitals where that is; else not.
pub proof fn devices_are_known_by_serial_or_address(serial: Seq<char>, mac: Seq<char>)
    ensures
        text::trimmed(serial).len() > 0 ==> hardware_identity(serial, mac) == Some(
            "serial:"@ + serial,
        ),
        text::trimmed(serial).len() == 0 && text::trimmed(mac).len() > 0 ==> hardware_identity(
            serial,
            mac,
        ) == Some("mac:"@ + text::upper_text(mac)),
        text::trimmed(serial).len() == 0 && text::trimmed(mac).len() == 0 ==> hardware_identity(
            serial,
            mac,
        ) is None,
{
}

proof fn bare_text(s: Seq<char>)
    requires
        s.len() > 0,
        s.last() != '/',
    ensures
        text::without_trailing(s, '/') == s,
        text::without_trailing(s + "/"@, '/') == s,
{
    reveal_strlit("/");
    reveal_with_fuel(text::without_trailing, 2);
    assert((s + "/"@).drop_last() =~= s);
    assert((s + "/"@).last() == '/');
}

/// An address without a scheme is reached by plain HTTP, and one without a port at
/// the usual one, 9123; one with a scheme stands for itself. A slash at the end
/// does not count.
pub proof fn addresses_get_a_scheme_and_a_port(host: Seq<char>, port: Seq<char>)
    requires
        host.len() > 0,
        host.last() != '/',
        !host.contains(':'),
        port.len() > 0,
        port[0] != '/',
        port.last() != '/',
    ensures
        endpoint_of(host) == "http://"@ + host + ":9123"@,
        endpoint_of(host + "/"@) == "http://"@ + host + ":9123"@,
        endpoint_of(host + ":"@ + port) == "http://"@ + host + ":"@ + port,
        endpoint_of("http://"@ + host) == "http://"@ + host,
        endpoint_of("https://"@ + host) == "https://"@ + host,
        endpoint_of("http://"@ + host + ":"@ + port) == "http://"@ + host + ":"@ + port,
        endpoint_of("http://"@ + host + "/"@) == "http://"@ + host,
{
    reveal_strlit("http://");
    reveal_strlit("https://");
    reveal_strlit(":");
    reveal_strlit("/");
    let plain = "http://"@;
    let safe = "https://"@;
    assert(plain[4] == ':' && safe[5] == ':');
    assert forall|k: int| 0 <= k < host.len() implies host[k] != ':' by {}
    assert(!plain.is_prefix_of(host) && !safe.is_prefix_of(host));
    bare_text(host);
    let slashed = host + "/"@;
    assert(!slashed.contains(':')) by {
        assert forall|k: int| 0 <= k < slashed.len() implies slashed[k] != ':' by {
            if k < host.len() {
                assert(slashed[k] == host[k]);
            }
        }
    }
    assert(!plain.is_prefix_of(slashed)) by {
        if plain.is_prefix_of(slashed) {
            assert(slashed.contains(slashed[4]));
        }
    }
    assert(!safe.is_prefix_of(slashed)) by {
        if safe.is_prefix_of(slashed) {
            assert(slashed.contains(slashed[5]));
        }
    }
    let full = host + ":"@ + port;
    assert(full[host.len() as int] == ':');
    assert(full.contains(':'));
    assert(full.last() == port.last());
    bare_text(full);
    assert(!plain.is_prefix_of(full)) by {
        if plain.is_prefix_of(full) {
            let head = full.subrange(0, 7);
            assert(head[4] == full[4] && head[5] == full[5]);
            assert(full[4] == ':' && full[5] == '/');
            assert(host.len() < 7 ==> head[host.len() as int] == full[host.len() as int]);
            if host.len() > 4 {
                assert(full[4] == host[4]);
            } else if host.len() < 4 {
                assert(full[host.len() as int] == plain[host.len() as int]);
            } else {
                assert(full[5] == port[0]);
            }
        }
    }
    assert(!safe.is_prefix_of(full)) by {
        if safe.is_prefix_of(full) {
            let head = full.subrange(0, 8);
            assert(head[5] == full[5] && head[6] == full[6]);
            assert(full[5] == ':' && full[6] == '/');
            assert(host.len() < 8 ==> head[host.len() as int] == full[host.len() as int]);
            if host.len() > 5 {
                assert(full[5] == host[5]);
            } else if host.len() < 5 {
                assert(full[host.len() as int] == safe[host.len() as int]);
            } else {
                assert(full[6] == port[0]);
            }
        }
    }
    assert(plain + full =~= plain + host + ":"@ + port);
    let a = plain + host;
    assert(plain.is_prefix_of(a));
    assert(a.last() == host.last());
    bare_text(a);
    assert(plain.is_prefix_of(a + "/"@));
    let b = safe + host;
    assert(safe.is_prefix_of(b));
    assert(b.last() == host.last());
    bare_text(b);
    let c = plain + host + ":"@ + port;
    assert(plain.is_prefix_of(c));
    assert(c.last() == port.last());
    bare_text(c);
}

/// The lights of a device stand below its endpoint, and a service is reached by
/// plain HTTP at its address and its port.
pub proof fn endpoints_are_plain_http(endpoint: Seq<char>, port: nat)
    ensures
        lights_address(endpoint) == endpoint + "/elgato/lights"@,
        service_endpoint(endpoint, port) == "http://"@ + endpoint + ":"@ + text::decimal_text(port),
{
}

/// Of the addresses of a service the first IPv4 address is used, else the first.
pub proof fn the_first_ipv4_address_is_used(
    addresses: Seq<ServiceAddress>,
    from: int,
    k: int,
)
    requires
        0 <= from <= k <= addresses.len(),
        forall|i: int| from <= i < k ==> !(#[trigger] addresses[i]).ipv4,
        k < addresses.len() ==> addresses[k].ipv4,
    ensures
        from == 0 && k < addresses.len() ==> preferred(addresses) == Some(addresses[k].text@),
        from == 0 && k == addresses.len() && k > 0 ==> preferred(addresses) == Some(
            addresses[0].text@,
        ),
        addresses.len() == 0 ==> preferred(addresses) is None,
        first_ipv4(addresses, from) == if k < addresses.len() {
            Some(k)
        } else {
            None
        },
    decreases k - from,
{
    if from < k {
        the_first_ipv4_address_is_used(addresses, from + 1, k);
    }
}

/// Answers are taken in turn: one that is missing adds no light, and of each
/// identity the first light stays.
pub proof fn answers_are_taken_in_turn(
    answers: Seq<Option<DiscoveredLight>>,
    lights: Seq<DiscoveredLight>,
    more: DiscoveredLight,
)
    ensures
        identified(Seq::empty()) == Seq::<DiscoveredLight>::empty(),
        identified(answers.push(None)) == identified(answers),
        identified(answers.push(Some(more))) == identified(answers).push(more),
        first_of_each(Seq::empty()) == Seq::<DiscoveredLight>::empty(),
        first_of_each(lights.push(more)) == if exists|i: int|
            0 <= i < first_of_each(lights).len() && (#[trigger] first_of_each(lights)[i]).id@
                == more.id@ {
            first_of_each(lights)
        } else {
            first_of_each(lights).push(more)
        },
{
    assert(answers.push(None).drop_last() =~= answers);
    assert(answers.push(Some(more)).drop_last() =~= answers);
    assert(lights.push(more).drop_last() =~= lights);
    let head = first_of_each(lights);
    let ids = found_ids(head);
    if ids.contains(more.id@) {
        let i = ids.index_of(more.id@);
        assert(head[i].id@ == more.id@);
    }
    if exists|i: int| 0 <= i < head.len() && (#[trigger] head[i]).id@ == more.id@ {
        let i = choose|i: int| 0 <= i < head.len() && (#[trigger] head[i]).id@ == more.id@;
        assert(ids[i] == more.id@);
    }
}

/// Lights are listed by name, and under one name by identity.
pub proof fn lights_are_listed_by_name(a: DiscoveredLight, b: DiscoveredLight)
    ensures
        text::before(a.name@, b.name@) ==> listed_ahead(a, b),
        text::before(b.name@, a.name@) ==> !listed_ahead(a, b),
        a.name@ == b.name@ ==> (listed_ahead(a, b) <==> text::before(a.id@, b.id@)),
{
    text::before_is_irreflexive(a.name@);
    if text::before(b.name@, a.name@) && text::before(a.name@, b.name@) {
        text::before_is_transitive(a.name@, b.name@, a.name@);
    }
}

/// What the faults say.
pub proof fn faults_in_words(id: Seq<char>)
    ensures
        (LightFault::NoLogicalLights { id }).words() == "Key Light "@ + id
            + " returned no logical lights"@,
        LightFault::EmptyUpdate.words() == "cannot apply an empty logical light state"@,
        LightFault::BrightnessOutOfRange.words() == "brightness must be between 1 and 100"@,
        LightFault::TemperatureOutOfRange.words()
            == "colour temperature must be between 143 and 344 mired"@,
        (LightFault::NoIdentity { endpoint: id }).words() == "accessory-info at "@ + id
            + " has no stable hardware identity"@,
        (LightFault::Unreachable { id }).words() == "selected Key Light "@ + id
            + " is unreachable"@,
{
}

/// A choice leads to the answer at its fallback address where that has its
/// identity, else to the first discovered light that has it, else to none.
pub proof fn choices_lead_to_the_first_of_their_identity(
    selection: SelectedLight,
    answer: Option<DiscoveredLight>,
    discovered: Seq<DiscoveredLight>,
    k: int,
)
    requires
        0 <= k <= discovered.len(),
        forall|i: int| 0 <= i < k ==> (#[trigger] discovered[i]).id@ != selection.id@,
        k < discovered.len() ==> discovered[k].id@ == selection.id@,
    ensures
        light_by_id(discovered, selection.id@) == if k < discovered.len() {
            Some(discovered[k])
        } else {
            None
        },
        answer matches Some(light) ==> (light.id@ == selection.id@ ==> resolved_light(
            selection,
            answer,
            discovered,
        ) == Some(light)),
        answer is None || answer->0.id@ != selection.id@ ==> resolved_light(
            selection,
            answer,
            discovered,
        ) == if k < discovered.len() {
            Some(discovered[k])
        } else {
            None
        },
    decreases discovered.len(),
{
    if k > 0 {
        assert(discovered[0].id@ != selection.id@);
        let rest = discovered.drop_first();
        assert forall|i: int| 0 <= i < k - 1 implies (#[trigger] rest[i]).id@ != selection.id@ by {
            assert(discovered[i + 1].id@ != selection.id@);
        }
        choices_lead_to_the_first_of_their_identity(selection, answer, rest, k - 1);
    }
}

/// What is reported of a choice is the choice, and the light that it leads to or
/// that it is unreachable.
pub proof fn reports_by_field(
    resolution: Resolution,
    selection: SelectedLight,
    answer: Option<DiscoveredLight>,
    discovered: Seq<DiscoveredLight>,
)
    requires
        is_report(resolution, selection, answer, discovered),
    ensures
        resolution.selection == selection,
        resolved_light(selection, answer, discovered) matches Some(found) ==> (
        resolution.light matches Ok(light) && light.discovered == found),
        resolved_light(selection, answer, discovered) is None ==> (
        resolution.light matches Err(LightError::Unreachable { id }) && id@ == selection.id@),
{
}

/// The order of reports, step by step: where every answer has the identity of its
/// choice, the order of choice; else the choices of an identity stand together,
/// where the first of them does, those that were answered by their light ahead.
pub proof fn reports_are_grouped_by_identity(
    selected: Seq<SelectedLight>,
    answers: Seq<Option<DiscoveredLight>>,
    id: Seq<char>,
    holds: bool,
    at: int,
)
    requires
        0 <= at < selected.len(),
        selected.len() == answers.len(),
    ensures
        (forall|i: int|
            0 <= i < selected.len() ==> (answers[i] matches Some(light) && light.id@ == (
            #[trigger] selected[i]).id@)) ==> report_order(selected, answers) == Seq::new(
            selected.len(),
            |i: int| i,
        ),
        !(answers[at] matches Some(light) && light.id@ == selected[at].id@) ==> report_order(
            selected,
            answers,
        ) == grouped_order(selected, answers, selected.len() as int),
        places_of(selected, answers, id, holds, 0) == Seq::<int>::empty(),
        places_of(selected, answers, id, holds, at + 1) == if selected[at].id@ == id && (
        answers[at] matches Some(light) && light.id@ == selected[at].id@) == holds {
            places_of(selected, answers, id, holds, at).push(at)
        } else {
            places_of(selected, answers, id, holds, at)
        },
        grouped_order(selected, answers, 0) == Seq::<int>::empty(),
        grouped_order(selected, answers, at + 1) == if exists|i: int|
            0 <= i < at && (#[trigger] selected[i]).id@ == selected[at].id@ {
            grouped_order(selected, answers, at)
        } else {
            grouped_order(selected, answers, at) + places_of(
                selected,
                answers,
                selected[at].id@,
                true,
                selected.len() as int,
            ) + places_of(selected, answers, selected[at].id@, false, selected.len() as int)
        },
{
    let earlier = crate::config::light_ids(selected.take(at));
    if earlier.contains(selected[at].id@) {
        let i = earlier.index_of(selected[at].id@);
        assert(selected[i].id@ == selected[at].id@);
    }
    if exists|i: int| 0 <= i < at && (#[trigger] selected[i]).id@ == selected[at].id@ {
        let i = choose|i: int| 0 <= i < at && (#[trigger] selected[i]).id@ == selected[at].id@;
        assert(earlier[i] == selected[at].id@);
    }
    if !(answers[at] matches Some(light) && light.id@ == selected[at].id@) {
        assert(!fallback_holds(selected[at], answers[at]));
    }
    if forall|i: int|
        0 <= i < selected.len() ==> (answers[i] matches Some(light) && light.id@ == (
        #[trigger] selected[i]).id@) {
        assert forall|i: int| 0 <= i < selected.len() implies fallback_holds(
            #[trigger] selected[i],
            answers[i],
        ) by {}
    }
}

proof fn place_is_among_its_own(
    selected: Seq<SelectedLight>,
    answers: Seq<Option<DiscoveredLight>>,
    place: int,
    until: int,
)
    requires
        0 <= place < until <= selected.len(),
    ensures
        places_of(
            selected,
            answers,
            selected[place].id@,
            fallback_holds(selected[place], answers[place]),
            until,
        ).contains(place),
    decreases until,
{
    let id = selected[place].id@;
    let holds = fallback_holds(selected[place], answers[place]);
    let all = places_of(selected, answers, id, holds, until);
    let head = places_of(selected, answers, id, holds, until - 1);
    if place == until - 1 {
        assert(all[head.len() as int] == place);
    } else {
        place_is_among_its_own(selected, answers, place, until - 1);
        assert(all[head.index_of(place)] == place);
    }
}

proof fn place_is_grouped(
    selected: Seq<SelectedLight>,
    answers: Seq<Option<DiscoveredLight>>,
    place: int,
    first: int,
    until: int,
)
    requires
        0 <= place < selected.len(),
        0 <= first < until <= selected.len(),
        selected[first].id@ == selected[place].id@,
        forall|i: int| 0 <= i < first ==> (#[trigger] selected[i]).id@ != selected[place].id@,
    ensures
        grouped_order(selected, answers, until).contains(place),
    decreases until,
{
    let all = grouped_order(selected, answers, until);
    let head = grouped_order(selected, answers, until - 1);
    if first == until - 1 {
        let id = selected[place].id@;
        let earlier = crate::config::light_ids(selected.take(first));
        if earlier.contains(id) {
            let i = earlier.index_of(id);
            assert(selected[i].id@ == id);
        }
        let n = selected.len() as int;
        let a = places_of(selected, answers, id, true, n);
        let b = places_of(selected, answers, id, false, n);
        place_is_among_its_own(selected, answers, place, n);
        assert(all == head + a + b);
        if fallback_holds(selected[place], answers[place]) {
            assert(all[head.len() as int + a.index_of(place)] == place);
        } else {
            assert(all[head.len() as int + a.len() + b.index_of(place)] == place);
        }
    } else {
        place_is_grouped(selected, answers, place, first, until - 1);
        assert(all[head.index_of(place)] == place);
    }
}

proof fn first_of_identity(selected: Seq<SelectedLight>, place: int) -> (first: int)
    requires
        0 <= place < selected.len(),
    ensures
        0 <= first <= place,
        selected[first].id@ == selected[place].id@,
        forall|i: int| 0 <= i < first ==> (#[trigger] selected[i]).id@ != selected[place].id@,
    decreases place,
{
    if exists|i: int| 0 <= i < place && (#[trigger] selected[i]).id@ == selected[place].id@ {
        let i = choose|i: int| 0 <= i < place && (#[trigger] selected[i]).id@ == selected[place].id@;
        first_of_identity(selected, i)
    } else {
        place
    }
}

/// Every choice is reported.
pub proof fn every_choice_is_reported(
    selected: Seq<SelectedLight>,
    answers: Seq<Option<DiscoveredLight>>,
    place: int,
)
    requires
        0 <= place < selected.len(),
    ensures
        report_order(selected, answers).contains(place),
{
    if all_fallbacks_hold(selected, answers) {
        assert(report_order(selected, answers)[place] == place);
    } else {
        let first = first_of_identity(selected, place);
        place_is_grouped(selected, answers, place, first, selected.len() as int);
    }
}

/// An error shows the fault of its own name.
pub proof fn errors_show_their_fault(id: String)
    ensures
        (LightError::NoLogicalLights { id })@ == (LightFault::NoLogicalLights { id: id@ }),
        LightError::EmptyUpdate@ == LightFault::EmptyUpdate,
        LightError::BrightnessOutOfRange@ == LightFault::BrightnessOutOfRange,
        LightError::TemperatureOutOfRange@ == LightFault::TemperatureOutOfRange,
        (LightError::NoIdentity { endpoint: id })@ == (LightFault::NoIdentity { endpoint: id@ }),
        (LightError::Unreachable { id })@ == (LightFault::Unreachable { id: id@ }),
{
}

/// Every address stands for an endpoint: without the slashes at its end, behind
/// `http://` where it names no scheme, and with the port 9123 where it holds no
/// colon either.
pub proof fn every_address_stands_for_an_endpoint(address: Seq<char>)
    ensures
        ({
            let bare = text::without_trailing(address, '/');
            let named = "http://"@.is_prefix_of(address) || "https://"@.is_prefix_of(address);
            &&& named ==> endpoint_of(address) == bare
            &&& !named && address.contains(':') ==> endpoint_of(address) == "http://"@ + bare
            &&& !named && !address.contains(':') ==> endpoint_of(address) == "http://"@ + bare
                + ":9123"@
        }),
{
}

} // verus!
