//! Changes that a user asks of a light.

use vstd::prelude::*;

use crate::domain;
use crate::domain::{
    kelvin_to_mired, mired_to_kelvin, LogicalLightState, PresetLight, KELVIN_MAX, KELVIN_MIN,
};

verus! {

/// The lowest brightness that a user can ask for.
pub const BRIGHTNESS_MIN: u8 = 1;

/// The highest brightness that a user can ask for.
pub const BRIGHTNESS_MAX: u8 = 100;

/// A change to every logical light of a device.
#[derive(Clone, Copy, Debug, PartialEq, Eq, Structural)]
pub enum Change {
    Power { on: bool },
    /// Off where any logical light is on, else on.
    Toggle,
    Brightness { brightness: u8 },
    BrightnessBy { delta: i32 },
    Kelvin { kelvin: u16 },
    KelvinBy { delta: i32 },
    Look { look: PresetLight },
}

/// Whether any logical light is on.
pub open spec fn lit(states: Seq<LogicalLightState>) -> bool {
    exists|i: int| 0 <= i < states.len() && (#[trigger] states[i]).on
}

impl Change {
    /// What the change makes of one logical light of a device that is `lit`.
    pub open spec fn altered(self, lit: bool, state: LogicalLightState) -> LogicalLightState {
        match self {
            Change::Power { on } => LogicalLightState { on, ..state },
            Change::Toggle => LogicalLightState { on: !lit, ..state },
            Change::Brightness { brightness } => LogicalLightState {
                brightness: domain::clamped(brightness as int, 1, 100) as u8,
                ..state
            },
            Change::BrightnessBy { delta } => LogicalLightState {
                brightness: domain::clamped(state.brightness + delta, 1, 100) as u8,
                ..state
            },
            Change::Kelvin { kelvin } => LogicalLightState {
                temperature: domain::mired_of(kelvin as int) as u16,
                ..state
            },
            Change::KelvinBy { delta } => LogicalLightState {
                temperature: domain::mired_of(
                    domain::clamped(
                        domain::kelvin_of(state.temperature as int) + delta,
                        KELVIN_MIN as int,
                        KELVIN_MAX as int,
                    ),
                ) as u16,
                ..state
            },
            Change::Look { look } => domain::shown(look),
        }
    }

    /// What the change makes of a device's logical lights.
    pub open spec fn result(self, states: Seq<LogicalLightState>) -> Seq<LogicalLightState> {
        states.map_values(|s: LogicalLightState| self.altered(lit(states), s))
    }
}

/// A value moved by `delta` and kept between `min` and `max`.
pub fn adjust(current: i32, delta: i32, min: i32, max: i32) -> (r: i32)
    requires
        min <= max,
    ensures
        r == domain::clamped(current + delta, min as int, max as int),
        min <= r <= max,
        min <= current + delta <= max ==> r == current + delta,
        current + delta < min ==> r == min,
        current + delta > max ==> r == max,
{
    let moved: i64 = current as i64 + delta as i64;
    if moved < min as i64 {
        min
    } else if moved > max as i64 {
        max
    } else {
        moved as i32
    }
}

fn any_on(states: &Vec<LogicalLightState>) -> (r: bool)
    ensures
        r == lit(states@),
{
    let mut i: usize = 0;
    while i < states.len()
        invariant
            i <= states@.len(),
            forall|j: int| 0 <= j < i ==> !(#[trigger] states@[j]).on,
        decreases states@.len() - i,
    {
        if states[i].on {
            return true;
        }
        i += 1;
    }
    false
}

impl Change {
    fn alter(&self, lit: bool, state: LogicalLightState) -> (r: LogicalLightState)
        ensures
            r == self.altered(lit, state),
    {
        match *self {
            Change::Power { on } => LogicalLightState { on, ..state },
            Change::Toggle => LogicalLightState { on: !lit, ..state },
            Change::Brightness { brightness } => {
                let kept: u8 = if brightness < BRIGHTNESS_MIN {
                    BRIGHTNESS_MIN
                } else if brightness > BRIGHTNESS_MAX {
                    BRIGHTNESS_MAX
                } else {
                    brightness
                };
                LogicalLightState { brightness: kept, ..state }
            },
            Change::BrightnessBy { delta } => {
                let moved: i32 = adjust(
                    state.brightness as i32,
                    delta,
                    BRIGHTNESS_MIN as i32,
                    BRIGHTNESS_MAX as i32,
                );
                LogicalLightState { brightness: moved as u8, ..state }
            },
            Change::Kelvin { kelvin } => LogicalLightState {
                temperature: kelvin_to_mired(kelvin),
                ..state
            },
            Change::KelvinBy { delta } => {
                let moved: i32 = adjust(
                    mired_to_kelvin(state.temperature) as i32,
                    delta,
                    KELVIN_MIN as i32,
                    KELVIN_MAX as i32,
                );
                LogicalLightState { temperature: kelvin_to_mired(moved as u16), ..state }
            },
            Change::Look { look } => LogicalLightState {
                on: look.on,
                brightness: look.brightness,
                temperature: look.temperature,
            },
        }
    }

    /// What the change makes of a device's logical lights.
    pub fn apply(&self, states: &Vec<LogicalLightState>) -> (r: Vec<LogicalLightState>)
        ensures
            r@ == self.result(states@),
    {
        let lit_now = any_on(states);
        let mut out: Vec<LogicalLightState> = Vec::new();
        let mut i: usize = 0;
        while i < states.len()
            invariant
                i <= states@.len(),
                lit_now == lit(states@),
                out@ =~= self.result(states@).take(i as int),
            decreases states@.len() - i,
        {
            let next = self.alter(lit_now, states[i]);
            out.push(next);
            assert(next == self.result(states@)[i as int]);
            i += 1;
        }
        assert(self.result(states@).take(i as int) =~= self.result(states@));
        out
    }
}

/// Whatever brightness or temperature a user asks for, a device whose states
/// are in range is left in range, so that it takes the change.
pub proof fn changes_stay_in_range(change: Change, states: Seq<LogicalLightState>)
    requires
        change is Look ==> crate::light::brightness_in_range(domain::shown(change->look))
            && crate::light::temperature_in_range(domain::shown(change->look)),
        crate::light::update_fault(states) is None,
    ensures
        crate::light::update_fault(change.result(states)) is None,
{
    let out = change.result(states);
    assert forall|i: int| 0 <= i < out.len() implies crate::light::brightness_in_range(
        #[trigger] out[i],
    ) && crate::light::temperature_in_range(out[i]) by {
        assert(crate::light::brightness_in_range(states[i]));
        assert(crate::light::temperature_in_range(states[i]));
    }
}

/// A toggle turns a lit device off and a dark one on, in every logical light.
pub proof fn toggle_is_whole(states: Seq<LogicalLightState>)
    ensures
        forall|i: int|
            0 <= i < states.len() ==> (#[trigger] Change::Toggle.result(states)[i]).on == !lit(states),
        states.len() > 0 ==> lit(Change::Toggle.result(states)) == !lit(states),
{
    if states.len() > 0 {
        assert(Change::Toggle.result(states)[0].on == !lit(states));
    }
}

/// What a change does to each logical light, field by field: a change of power
/// leaves brightness and temperature, and so on for each of the three; a look
/// sets all three. Brightness stays within 1 and 100.
pub proof fn changes_by_field(change: Change, states: Seq<LogicalLightState>, i: int)
    requires
        0 <= i < states.len(),
    ensures
        change.result(states).len() == states.len(),
        ({
            let was = states[i];
            let is = change.result(states)[i];
            match change {
                Change::Power { on } => {
                    &&& is.on == on
                    &&& is.brightness == was.brightness
                    &&& is.temperature == was.temperature
                },
                Change::Toggle => {
                    &&& is.on <==> forall|j: int| 0 <= j < states.len() ==> !(#[trigger] states[j]).on
                    &&& is.brightness == was.brightness
                    &&& is.temperature == was.temperature
                },
                Change::Brightness { brightness } => {
                    &&& is.on == was.on
                    &&& is.temperature == was.temperature
                    &&& 1 <= is.brightness <= 100
                    &&& 1 <= brightness <= 100 ==> is.brightness == brightness
                    &&& brightness < 1 ==> is.brightness == 1
                    &&& brightness > 100 ==> is.brightness == 100
                },
                Change::BrightnessBy { delta } => {
                    &&& is.on == was.on
                    &&& is.temperature == was.temperature
                    &&& 1 <= is.brightness <= 100
                    &&& 1 <= was.brightness + delta <= 100 ==> is.brightness == was.brightness
                        + delta
                    &&& was.brightness + delta < 1 ==> is.brightness == 1
                    &&& was.brightness + delta > 100 ==> is.brightness == 100
                },
                Change::Kelvin { kelvin } => {
                    &&& is.on == was.on
                    &&& is.brightness == was.brightness
                    &&& is_mired_of(is.temperature as int, kelvin as int)
                },
                Change::KelvinBy { delta } => {
                    &&& is.on == was.on
                    &&& is.brightness == was.brightness
                    &&& is_mired_of(
                        is.temperature as int,
                        domain::kelvin_of(was.temperature as int) + delta,
                    )
                },
                Change::Look { look } => {
                    &&& is.on == look.on
                    &&& is.brightness == look.brightness
                    &&& is.temperature == look.temperature
                },
            }
        }),
{
    let was = states[i];
    match change {
        Change::Kelvin { kelvin } => {
            domain::mired_is_a_million_over_kelvin(kelvin as int);
        },
        Change::KelvinBy { delta } => {
            domain::mired_is_a_million_over_kelvin(
                domain::clamped(domain::kelvin_of(was.temperature as int) + delta, 2900, 7000),
            );
        },
        _ => {},
    }
}

/// Whether `mired` is what a device is set to for a colour temperature of
/// `kelvin`: the value nearest to a million divided by it, within 143 and 344.
pub open spec fn is_mired_of(mired: int, kelvin: int) -> bool {
    &&& 143 <= mired <= 344
    &&& kelvin <= 2900 ==> mired == 344
    &&& kelvin >= 7000 ==> mired == 143
    &&& 2900 <= kelvin <= 7000 ==> 2 * kelvin * mired <= 2_000_000 + kelvin && (mired < 344
        ==> 2_000_000 - kelvin < 2 * kelvin * mired)
}

} // verus!
