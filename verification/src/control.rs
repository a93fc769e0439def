//! The control surface for the desktop: what it shows and what it asks for.
//!
//! It never writes to a light. What it shows was read from the lights, and what
//! it asks for goes to the daemon, the only writer, as a [`ManualCommand`].

use vstd::prelude::*;

use crate::change::Change;
use crate::config::SelectedLight;
use crate::domain;
use crate::domain::{mired_to_kelvin, LogicalLightState};
use crate::text;
use crate::text::decimal;

verus! {

/// The well-known name of the service.
pub const BUS_NAME: &'static str = "im.heiber.keylightd";

/// The path of the root object.
pub const ROOT_PATH: &'static str = "/im/heiber/keylightd";

/// How long the lights are shown as they were last read, in nanoseconds.
pub const LIGHT_POLL_INTERVAL: u64 = 2_000_000_000;

/// Whether the lights have to be read again.
pub fn light_poll_due(last: Option<u64>, now: u64) -> (r: bool)
    ensures
        r == (match last {
            Some(last) => now - last >= LIGHT_POLL_INTERVAL,
            None => true,
        }),
        r <==> last is None || now >= last->0 + 2_000_000_000,
{
    match last {
        Some(last) => now >= last && now - last >= LIGHT_POLL_INTERVAL,
        None => true,
    }
}

/// A request of the user, for the daemon to carry out.
#[derive(Clone, Copy, Debug, PartialEq, Eq, Structural)]
pub enum ManualCommand {
    SetPower { light: usize, on: bool },
    TogglePower { light: usize },
    SetBrightness { light: usize, brightness: u8 },
    AdjustBrightness { light: usize, delta: i32 },
    SetTemperatureKelvin { light: usize, kelvin: u16 },
    AdjustTemperatureKelvin { light: usize, delta: i32 },
    SavePreset,
    ApplyPreset,
}

impl ManualCommand {
    /// The light that a command for one light is for, and the change that it
    /// asks for.
    pub open spec fn asks(self) -> Option<(usize, Change)> {
        match self {
            ManualCommand::SetPower { light, on } => Some((light, Change::Power { on })),
            ManualCommand::TogglePower { light } => Some((light, Change::Toggle)),
            ManualCommand::SetBrightness { light, brightness } => Some(
                (light, Change::Brightness { brightness }),
            ),
            ManualCommand::AdjustBrightness { light, delta } => Some(
                (light, Change::BrightnessBy { delta }),
            ),
            ManualCommand::SetTemperatureKelvin { light, kelvin } => Some(
                (light, Change::Kelvin { kelvin }),
            ),
            ManualCommand::AdjustTemperatureKelvin { light, delta } => Some(
                (light, Change::KelvinBy { delta }),
            ),
            ManualCommand::SavePreset => None,
            ManualCommand::ApplyPreset => None,
        }
    }

    /// The light that a command for one light is for, and the change that it
    /// asks for.
    pub fn request(&self) -> (r: Option<(usize, Change)>)
        ensures
            r == self.asks(),
    {
        match *self {
            ManualCommand::SetPower { light, on } => Some((light, Change::Power { on })),
            ManualCommand::TogglePower { light } => Some((light, Change::Toggle)),
            ManualCommand::SetBrightness { light, brightness } => Some(
                (light, Change::Brightness { brightness }),
            ),
            ManualCommand::AdjustBrightness { light, delta } => Some(
                (light, Change::BrightnessBy { delta }),
            ),
            ManualCommand::SetTemperatureKelvin { light, kelvin } => Some(
                (light, Change::Kelvin { kelvin }),
            ),
            ManualCommand::AdjustTemperatureKelvin { light, delta } => Some(
                (light, Change::KelvinBy { delta }),
            ),
            ManualCommand::SavePreset => None,
            ManualCommand::ApplyPreset => None,
        }
    }
}

/// Whether a logical light that was `was`, on a device of which any logical light
/// is on where `lit`, is `is` after the command.
pub open spec fn obeyed(
    command: ManualCommand,
    lit: bool,
    was: LogicalLightState,
    is: LogicalLightState,
) -> bool {
    let same_power = is.on == was.on;
    let same_brightness = is.brightness == was.brightness;
    let same_temperature = is.temperature == was.temperature;
    match command {
        ManualCommand::SetPower { on, .. } => is.on == on && same_brightness && same_temperature,
        ManualCommand::TogglePower { .. } => is.on == !lit && same_brightness && same_temperature,
        ManualCommand::SetBrightness { brightness, .. } => {
            &&& same_power && same_temperature
            &&& 1 <= is.brightness <= 100
            &&& 1 <= brightness <= 100 ==> is.brightness == brightness
            &&& brightness < 1 ==> is.brightness == 1
            &&& brightness > 100 ==> is.brightness == 100
        },
        ManualCommand::AdjustBrightness { delta, .. } => {
            &&& same_power && same_temperature
            &&& 1 <= is.brightness <= 100
            &&& 1 <= was.brightness + delta <= 100 ==> is.brightness == was.brightness + delta
            &&& was.brightness + delta < 1 ==> is.brightness == 1
            &&& was.brightness + delta > 100 ==> is.brightness == 100
        },
        ManualCommand::SetTemperatureKelvin { kelvin, .. } => {
            &&& same_power && same_brightness
            &&& crate::change::is_mired_of(is.temperature as int, kelvin as int)
        },
        ManualCommand::AdjustTemperatureKelvin { delta, .. } => {
            &&& same_power && same_brightness
            &&& crate::change::is_mired_of(
                is.temperature as int,
                domain::kelvin_of(was.temperature as int) + delta,
            )
        },
        ManualCommand::SavePreset => is == was,
        ManualCommand::ApplyPreset => true,
    }
}

/// A command for one light asks for a change of that light, and the change does
/// what the command says to each of its logical lights, and nothing else.
pub proof fn commands_are_obeyed(
    command: ManualCommand,
    states: Seq<LogicalLightState>,
    i: int,
    lit: bool,
)
    requires
        0 <= i < states.len(),
        lit <==> exists|j: int| 0 <= j < states.len() && (#[trigger] states[j]).on,
    ensures
        command.asks() is Some <==> !(command is SavePreset) && !(command is ApplyPreset),
        command.asks() is Some ==> {
            let (light, change) = command.asks()->0;
            &&& match command {
                ManualCommand::SetPower { light: l, .. } => light == l,
                ManualCommand::TogglePower { light: l } => light == l,
                ManualCommand::SetBrightness { light: l, .. } => light == l,
                ManualCommand::AdjustBrightness { light: l, .. } => light == l,
                ManualCommand::SetTemperatureKelvin { light: l, .. } => light == l,
                ManualCommand::AdjustTemperatureKelvin { light: l, .. } => light == l,
                _ => true,
            }
            &&& change.result(states).len() == states.len()
            &&& obeyed(command, lit, states[i], change.result(states)[i])
            &&& command matches ManualCommand::SetPower { on, .. } ==> change.result(states)[i].on
                == on
            &&& command is TogglePower ==> change.result(states)[i].on == !lit
            &&& !(command is SetPower) && !(command is TogglePower) ==> change.result(states)[i].on
                == states[i].on
            &&& command matches ManualCommand::SetBrightness { brightness, .. } ==> {
                let b = brightness as int;
                change.result(states)[i].brightness == if b < 1 {
                    1
                } else if b > 100 {
                    100
                } else {
                    b
                }
            }
            &&& command matches ManualCommand::AdjustBrightness { delta, .. } ==> {
                let b = states[i].brightness + delta;
                change.result(states)[i].brightness == if b < 1 {
                    1
                } else if b > 100 {
                    100
                } else {
                    b
                }
            }
            &&& !(command is SetBrightness) && !(command is AdjustBrightness)
                ==> change.result(states)[i].brightness == states[i].brightness
            &&& command matches ManualCommand::SetTemperatureKelvin { kelvin, .. } ==> {
                let t = change.result(states)[i].temperature as int;
                &&& 143 <= t <= 344
                &&& kelvin <= 2900 ==> t == 344
                &&& kelvin >= 7000 ==> t == 143
                &&& 2900 <= kelvin <= 7000 ==> 2 * kelvin * t <= 2_000_000 + kelvin && (t < 344
                    ==> 2_000_000 - kelvin < 2 * kelvin * t)
            }
            &&& command matches ManualCommand::AdjustTemperatureKelvin { delta, .. } ==> {
                let t = change.result(states)[i].temperature as int;
                let kelvin = domain::kelvin_of(states[i].temperature as int) + delta;
                &&& 143 <= t <= 344
                &&& kelvin <= 2900 ==> t == 344
                &&& kelvin >= 7000 ==> t == 143
                &&& 2900 <= kelvin <= 7000 ==> 2 * kelvin * t <= 2_000_000 + kelvin && (t < 344
                    ==> 2_000_000 - kelvin < 2 * kelvin * t)
            }
            &&& !(command is SetTemperatureKelvin) && !(command is AdjustTemperatureKelvin)
                ==> change.result(states)[i].temperature == states[i].temperature
        },
{
    if command.asks() is Some {
        let (_, change) = command.asks()->0;
        crate::change::changes_by_field(change, states, i);
    }
}

/// What the daemon tells the control surface.
#[derive(Clone, Copy, Debug, PartialEq, Eq, Structural)]
pub struct Status {
    pub camera_active: bool,
    pub has_preset: bool,
}

impl Default for Status {
    fn default() -> (r: Self)
        ensures
            r == (Status { camera_active: false, has_preset: false }),
    {
        Status { camera_active: false, has_preset: false }
    }
}

// ---- object paths ----

/// Whether `c` may stand in a name within an object path.
pub open spec fn path_name_char(c: char) -> bool {
    let n = c as int;
    65 <= n <= 90 || 97 <= n <= 122 || 48 <= n <= 57 || n == 95
}

/// Whether `s` is an object path: a slash, or names of letters, digits and
/// underscores with a slash in front of each.
pub open spec fn is_object_path(s: Seq<char>) -> bool {
    &&& s.len() > 0
    &&& s[0] == '/'
    &&& forall|i: int| 0 <= i < s.len() ==> #[trigger] s[i] == '/' || path_name_char(s[i])
    &&& forall|i: int| 0 < i < s.len() && #[trigger] s[i] == '/' ==> s[i - 1] != '/'
    &&& s.len() > 1 ==> s.last() != '/'
}

/// Why an object path is refused.
#[verifier::external_type_specification]
#[verifier::external_body]
pub struct ExPathError(zbus::zvariant::Error);

/// Calls `zbus::zvariant::OwnedObjectPath::try_from` on a text. It accepts
/// exactly the texts that [`is_object_path`] describes, and the path it makes
/// reads as the text it was made from.
#[verifier::external_body]
fn parse_object_path(text: &str) -> (r: Result<String, zbus::zvariant::Error>)
    ensures
        r is Ok <==> is_object_path(text@),
        r is Ok ==> r->Ok_0@ == text@,
{
    let path = zbus::zvariant::OwnedObjectPath::try_from(text)?;
    Ok(path.as_str().to_string())
}

/// Why the control surface could not be set up.
#[derive(Debug)]
pub enum ControlError {
    /// The text is not an object path.
    NotAnObjectPath { text: String },
}

impl ControlError {
    /// The error in words.
    pub fn message(&self) -> (r: String)
        ensures
            match *self {
                ControlError::NotAnObjectPath { text } => r@ == "build light object path "@ + text@,
            },
    {
        match self {
            ControlError::NotAnObjectPath { text } => "build light object path ".to_owned().concat(
                text.as_str(),
            ),
        }
    }
}

/// Takes a text as an object path.
pub fn object_path(text: &str) -> (r: Result<String, ControlError>)
    ensures
        match r {
            Ok(path) => is_object_path(text@) && path@ == text@,
            Err(ControlError::NotAnObjectPath { text: refused }) => !is_object_path(text@)
                && refused@ == text@,
        },
{
    match parse_object_path(text) {
        Ok(path) => Ok(path),
        Err(_) => Err(ControlError::NotAnObjectPath { text: text.to_string() }),
    }
}

/// The path of the object for the light at place `index` of the selection.
pub open spec fn light_path_of(index: nat) -> Seq<char> {
    ROOT_PATH@ + "/light/"@ + text::decimal_text(index)
}

/// Different lights have different paths, all below `/im/heiber/keylightd/light/`
/// and ending with the number of the light.
pub proof fn light_paths_tell_lights_apart(a: nat, b: nat)
    ensures
        a != b ==> light_path_of(a) != light_path_of(b),
        "/im/heiber/keylightd/light/"@.is_prefix_of(light_path_of(a)),
        text::unsigned_value(light_path_of(a).skip("/im/heiber/keylightd/light/"@.len() as int), a)
            == Some(a),
{
    let root = ROOT_PATH@ + "/light/"@;
    reveal_strlit("/im/heiber/keylightd");
    reveal_strlit("/light/");
    reveal_strlit("/im/heiber/keylightd/light/");
    assert(root =~= "/im/heiber/keylightd/light/"@);
    text::decimal_round_trip(a, a);
    text::decimal_round_trip(b, b);
    assert(light_path_of(a).skip(root.len() as int) =~= text::decimal_text(a));
    assert(light_path_of(b).skip(root.len() as int) =~= text::decimal_text(b));
    if text::decimal_text(a) == text::decimal_text(b) {
        text::decimal_text_is_digits(a);
        text::decimal_text_is_digits(b);
    }
}

/// The path of every light is an object path.
pub proof fn light_paths_are_object_paths(index: nat)
    ensures
        is_object_path(light_path_of(index)),
{
    let root = ROOT_PATH@ + "/light/"@;
    let digits = text::decimal_text(index);
    let path = light_path_of(index);
    text::decimal_text_is_digits(index);
    reveal_strlit("/im/heiber/keylightd");
    reveal_strlit("/light/");
    assert forall|i: int| 0 <= i < path.len() implies #[trigger] path[i] == '/' || path_name_char(
        path[i],
    ) by {
        if i >= root.len() {
            assert(path[i] == digits[i - root.len()]);
        }
    }
    assert forall|i: int| 0 < i < path.len() && #[trigger] path[i] == '/' implies path[i - 1]
        != '/' by {
        if i >= root.len() {
            assert(path[i] == digits[i - root.len()]);
        }
    }
    assert(path.last() == digits[digits.len() - 1]);
}

/// The path of the object for the light at place `index` of the selection.
pub fn light_path(index: usize) -> (r: Result<String, ControlError>)
    ensures
        r is Ok,
        r->Ok_0@ == light_path_of(index as nat),
{
    let text = ROOT_PATH.to_owned().concat("/light/").concat(decimal(index as u64).as_str());
    proof {
        light_paths_are_object_paths(index as nat);
    }
    object_path(text.as_str())
}

/// The paths of the objects for `count` lights, in their order.
pub fn light_paths(count: usize) -> (r: Result<Vec<String>, ControlError>)
    ensures
        r is Ok,
        text::texts(r->Ok_0@) == Seq::new(count as nat, |i: int| light_path_of(i as nat)),
{
    let mut out: Vec<String> = Vec::new();
    let mut index: usize = 0;
    while index < count
        invariant
            index <= count,
            text::texts(out@) =~= Seq::new(index as nat, |i: int| light_path_of(i as nat)),
        decreases count - index,
    {
        let path = light_path(index)?;
        proof {
            text::texts_push(out@, path);
        }
        out.push(path);
        index += 1;
    }
    Ok(out)
}

// ---- the objects ----

/// The root object.
#[derive(Debug)]
pub struct Root {
    pub camera_active: bool,
    pub has_preset: bool,
    pub light_paths: Vec<String>,
}

/// Which properties of the root object changed.
#[derive(Clone, Copy, Debug, PartialEq, Eq, Structural)]
pub struct RootChanges {
    pub camera_active: bool,
    pub has_preset: bool,
}

impl Root {
    /// The root object before the daemon told anything.
    pub fn new(light_paths: Vec<String>) -> (r: Self)
        ensures
            r == (Root { camera_active: false, has_preset: false, light_paths }),
    {
        Root { camera_active: false, has_preset: false, light_paths }
    }

    pub fn save_preset(&self) -> (r: ManualCommand)
        ensures
            r == ManualCommand::SavePreset,
    {
        ManualCommand::SavePreset
    }

    pub fn apply_preset(&self) -> (r: ManualCommand)
        ensures
            r == ManualCommand::ApplyPreset,
    {
        ManualCommand::ApplyPreset
    }

    /// Takes over what the daemon tells, and says what changed.
    pub fn publish(&mut self, status: Status) -> (r: RootChanges)
        ensures
            *final(self) == (Root {
                camera_active: status.camera_active,
                has_preset: status.has_preset,
                ..*old(self)
            }),
            r.camera_active == (old(self).camera_active != status.camera_active),
            r.has_preset == (old(self).has_preset != status.has_preset),
    {
        let changes = RootChanges {
            camera_active: self.camera_active != status.camera_active,
            has_preset: self.has_preset != status.has_preset,
        };
        self.camera_active = status.camera_active;
        self.has_preset = status.has_preset;
        changes
    }
}

/// The object for one light.
#[derive(Debug)]
pub struct Light {
    pub index: usize,
    pub id: String,
    pub name: String,
    pub on: bool,
    pub brightness: u8,
    pub temperature_kelvin: u16,
    pub reachable: bool,
}

/// Which properties of a light's object changed.
#[derive(Clone, Copy, Debug, PartialEq, Eq, Structural)]
pub struct LightChanges {
    pub reachable: bool,
    pub name: bool,
    pub on: bool,
    pub brightness: bool,
    pub temperature_kelvin: bool,
}

/// A light's name and states, as they were read.
#[derive(Debug)]
pub struct LightAnswer {
    pub name: String,
    pub states: Vec<LogicalLightState>,
}

/// What a light is shown as.
#[derive(Debug)]
pub struct LightView {
    pub name: String,
    pub on: bool,
    pub brightness: u8,
    pub temperature_kelvin: u16,
    pub reachable: bool,
}

/// What a light that gave `answer` is shown as. Its first logical light stands
/// for it; one that gave none is shown as unreachable.
pub fn poll_light(answer: Option<LightAnswer>) -> (r: LightView)
    ensures
        r.reachable <==> answer is Some && answer->0.states@.len() > 0,
        r.reachable ==> {
            let first = answer->0.states@[0];
            &&& r.name == answer->0.name
            &&& r.on == first.on
            &&& r.brightness == first.brightness
            &&& r.temperature_kelvin == domain::kelvin_of(first.temperature as int)
            &&& 143 <= first.temperature <= 344 ==> 2_000_000 - first.temperature < 2
                * first.temperature * r.temperature_kelvin <= 2_000_000 + first.temperature
        },
        !r.reachable ==> r.name@ == ""@ && !r.on && r.brightness == 0 && r.temperature_kelvin == 0,
{
    if let Some(LightAnswer { name, states }) = answer {
        if states.len() > 0 {
            let first = states[0];
            proof {
                domain::kelvin_is_a_million_over_mired(first.temperature as int);
            }
            return LightView {
                name,
                on: first.on,
                brightness: first.brightness,
                temperature_kelvin: mired_to_kelvin(first.temperature),
                reachable: true,
            };
        }
    }
    LightView {
        name: "".to_owned(),
        on: false,
        brightness: 0,
        temperature_kelvin: 0,
        reachable: false,
    }
}

impl Light {
    /// The object for a chosen light that was not read yet.
    pub fn new(index: usize, selection: &SelectedLight) -> (r: Self)
        ensures
            r == (Light {
                index,
                id: selection.id,
                name: selection.name,
                on: false,
                brightness: 0,
                temperature_kelvin: 0,
                reachable: false,
            }),
    {
        Light {
            index,
            id: selection.id.clone(),
            name: selection.name.clone(),
            on: false,
            brightness: 0,
            temperature_kelvin: 0,
            reachable: false,
        }
    }

    pub fn set_power(&self, on: bool) -> (r: ManualCommand)
        ensures
            r == (ManualCommand::SetPower { light: self.index, on }),
    {
        ManualCommand::SetPower { light: self.index, on }
    }

    pub fn toggle_power(&self) -> (r: ManualCommand)
        ensures
            r == (ManualCommand::TogglePower { light: self.index }),
    {
        ManualCommand::TogglePower { light: self.index }
    }

    pub fn set_brightness(&self, brightness: u8) -> (r: ManualCommand)
        ensures
            r == (ManualCommand::SetBrightness { light: self.index, brightness }),
    {
        ManualCommand::SetBrightness { light: self.index, brightness }
    }

    pub fn adjust_brightness(&self, delta: i32) -> (r: ManualCommand)
        ensures
            r == (ManualCommand::AdjustBrightness { light: self.index, delta }),
    {
        ManualCommand::AdjustBrightness { light: self.index, delta }
    }

    pub fn set_temperature_kelvin(&self, kelvin: u16) -> (r: ManualCommand)
        ensures
            r == (ManualCommand::SetTemperatureKelvin { light: self.index, kelvin }),
    {
        ManualCommand::SetTemperatureKelvin { light: self.index, kelvin }
    }

    pub fn adjust_temperature_kelvin(&self, delta: i32) -> (r: ManualCommand)
        ensures
            r == (ManualCommand::AdjustTemperatureKelvin { light: self.index, delta }),
    {
        ManualCommand::AdjustTemperatureKelvin { light: self.index, delta }
    }

    /// Takes over what a light is shown as, and says what changed. Of a light
    /// that is not reachable the last known state and name are kept.
    pub fn publish(&mut self, view: LightView) -> (r: LightChanges)
        ensures
            *final(self) == (if view.reachable {
                Light {
                    name: view.name,
                    on: view.on,
                    brightness: view.brightness,
                    temperature_kelvin: view.temperature_kelvin,
                    reachable: true,
                    ..*old(self)
                }
            } else {
                Light { reachable: false, ..*old(self) }
            }),
            r.reachable == (old(self).reachable != view.reachable),
            r.name == (view.reachable && old(self).name@ != view.name@),
            r.on == (view.reachable && old(self).on != view.on),
            r.brightness == (view.reachable && old(self).brightness != view.brightness),
            r.temperature_kelvin == (view.reachable && old(self).temperature_kelvin
                != view.temperature_kelvin),
    {
        let mut changes = LightChanges {
            reachable: self.reachable != view.reachable,
            name: false,
            on: false,
            brightness: false,
            temperature_kelvin: false,
        };
        self.reachable = view.reachable;
        if !view.reachable {
            return changes;
        }
        changes.name = !text::same(self.name.as_str(), view.name.as_str());
        changes.on = self.on != view.on;
        changes.brightness = self.brightness != view.brightness;
        changes.temperature_kelvin = self.temperature_kelvin != view.temperature_kelvin;
        self.name = view.name;
        self.on = view.on;
        self.brightness = view.brightness;
        self.temperature_kelvin = view.temperature_kelvin;
        changes
    }
}

/// The service has its name on the bus, and its objects stand below its own path.
pub proof fn the_service_has_its_name()
    ensures
        BUS_NAME@ == "im.heiber.keylightd"@,
        ROOT_PATH@ == "/im/heiber/keylightd"@,
        LIGHT_POLL_INTERVAL == 2_000_000_000,
{
}

} // verus!
