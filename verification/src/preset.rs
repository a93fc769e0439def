//! The preset: one saved look for the chosen lights.

use vstd::prelude::*;

use crate::change::Change;
use crate::config::{LightConfig, PresetLightConfig, SelectedLight};
use crate::domain;
use crate::domain::{mired_to_kelvin, LogicalLightState};

verus! {

/// The states of a chosen light, as they were read.
#[derive(Debug)]
pub struct Reading {
    pub id: String,
    pub states: Vec<LogicalLightState>,
}

impl Reading {
    /// What is saved of the light: its first logical light, in Kelvin.
    pub open spec fn entry(self) -> Option<PresetLightConfig> {
        if self.states@.len() == 0 {
            None
        } else {
            Some(
                PresetLightConfig {
                    id: self.id,
                    on: self.states@[0].on,
                    brightness: self.states@[0].brightness,
                    temperature_kelvin: domain::kelvin_of(
                        self.states@[0].temperature as int,
                    ) as u16,
                },
            )
        }
    }

    /// What is saved of the light: its first logical light, in Kelvin.
    pub fn saved(&self) -> (r: Option<PresetLightConfig>)
        ensures
            r == self.entry(),
            r is None <==> self.states@.len() == 0,
            r matches Some(entry) ==> {
                &&& entry.id@ == self.id@
                &&& entry.on == self.states@[0].on
                &&& entry.brightness == self.states@[0].brightness
                &&& 143 <= self.states@[0].temperature <= 344 ==> 2_000_000
                    - self.states@[0].temperature < 2 * self.states@[0].temperature
                    * entry.temperature_kelvin <= 2_000_000 + self.states@[0].temperature
            },
    {
        if self.states.len() == 0 {
            return None;
        }
        let first = self.states[0];
        proof {
            domain::kelvin_is_a_million_over_mired(first.temperature as int);
        }
        Some(
            PresetLightConfig {
                id: self.id.clone(),
                on: first.on,
                brightness: first.brightness,
                temperature_kelvin: mired_to_kelvin(first.temperature),
            },
        )
    }
}

/// What is saved of the lights, in their order; a light without logical lights
/// is left out.
pub open spec fn entries_of(readings: Seq<Reading>) -> Seq<PresetLightConfig>
    decreases readings.len(),
{
    if readings.len() == 0 {
        Seq::empty()
    } else {
        let head = entries_of(readings.drop_last());
        match readings.last().entry() {
            Some(entry) => head.push(entry),
            None => head,
        }
    }
}

/// Whether every light could be read.
pub open spec fn all_read(readings: Seq<Option<Reading>>) -> bool {
    forall|i: int| 0 <= i < readings.len() ==> (#[trigger] readings[i]) is Some
}

/// What was read of the lights.
pub open spec fn what_was_read(readings: Seq<Option<Reading>>) -> Seq<Reading> {
    readings.map_values(|r: Option<Reading>| r->0)
}

/// The preset that captures the lights as they were read; none where any of them
/// could not be read.
pub fn captured_preset(readings: &Vec<Option<Reading>>) -> (r: Option<Vec<PresetLightConfig>>)
    ensures
        match r {
            Some(entries) => all_read(readings@) && entries@ == entries_of(
                what_was_read(readings@),
            ),
            None => !all_read(readings@),
        },
        r is Some <==> forall|i: int| 0 <= i < readings@.len() ==> (#[trigger] readings@[i]) is Some,
{
    let mut out: Vec<PresetLightConfig> = Vec::new();
    let mut i: usize = 0;
    let ghost read = what_was_read(readings@);
    while i < readings.len()
        invariant
            i <= readings@.len(),
            read == what_was_read(readings@),
            forall|j: int| 0 <= j < i ==> (#[trigger] readings@[j]) is Some,
            out@ == entries_of(read.take(i as int)),
        decreases readings@.len() - i,
    {
        assert(read.take(i + 1).drop_last() =~= read.take(i as int));
        match &readings[i] {
            Some(reading) => {
                if let Some(entry) = reading.saved() {
                    out.push(entry);
                }
            },
            None => {
                return None;
            },
        }
        i += 1;
    }
    assert(read.take(i as int) =~= read);
    Some(out)
}

/// A chosen light, and the change that gives it its saved look.
#[derive(Debug)]
pub struct LookChange {
    pub selection: SelectedLight,
    pub change: Change,
}

/// The changes that apply the preset, in the order of choice; a light without a
/// saved look is left out.
pub open spec fn look_changes(selected: Seq<SelectedLight>, light: LightConfig) -> Seq<LookChange>
    decreases selected.len(),
{
    if selected.len() == 0 {
        Seq::empty()
    } else {
        let head = look_changes(selected.drop_last(), light);
        match light.look_of(selected.last().id@) {
            Some(look) => head.push(
                LookChange { selection: selected.last(), change: Change::Look { look } },
            ),
            None => head,
        }
    }
}

/// The changes that apply the preset to the chosen lights.
pub fn preset_changes(selected: &Vec<SelectedLight>, light: &LightConfig) -> (r: Vec<LookChange>)
    ensures
        r@ == look_changes(selected@, *light),
{
    let mut out: Vec<LookChange> = Vec::new();
    let mut i: usize = 0;
    while i < selected.len()
        invariant
            i <= selected@.len(),
            out@ == look_changes(selected@.take(i as int), *light),
        decreases selected@.len() - i,
    {
        assert(selected@.take(i + 1).drop_last() =~= selected@.take(i as int));
        if let Some(look) = light.preset_for(selected[i].id.as_str()) {
            out.push(
                LookChange { selection: selected[i].clone(), change: Change::Look { look } },
            );
        }
        i += 1;
    }
    assert(selected@.take(i as int) =~= selected@);
    out
}

/// The saved look of a light in the device range is the state that it was saved
/// from, power, brightness and temperature: Kelvin in the configuration loses
/// nothing, and a light saved off stays off.
pub proof fn saved_looks_are_faithful(reading: Reading)
    requires
        reading.states@.len() > 0,
        crate::light::temperature_in_range(reading.states@[0]),
    ensures
        domain::shown(reading.entry()->0.look()) == reading.states@[0],
{
    domain::mired_round_trip(reading.states@[0].temperature as int);
}

/// Saving a light and applying what was saved gives each of its logical lights,
/// whatever state it is in by then, the state that the first was saved from.
pub proof fn applying_reproduces_what_was_saved(
    reading: Reading,
    light: LightConfig,
    now: Seq<LogicalLightState>,
)
    requires
        reading.states@.len() > 0,
        crate::light::temperature_in_range(reading.states@[0]),
        light.look_of(reading.id@) == Some(reading.entry()->0.look()),
    ensures
        (Change::Look { look: light.look_of(reading.id@)->0 }).result(now) == Seq::new(
            now.len(),
            |i: int| reading.states@[0],
        ),
{
    saved_looks_are_faithful(reading);
    assert((Change::Look { look: light.look_of(reading.id@)->0 }).result(now) =~= Seq::new(
        now.len(),
        |i: int| reading.states@[0],
    ));
}

/// The identities of what was read.
pub open spec fn reading_ids(readings: Seq<Reading>) -> Seq<Seq<char>> {
    readings.map_values(|r: Reading| r.id@)
}

proof fn entry_is_found(readings: Seq<Reading>, i: int)
    requires
        reading_ids(readings).no_duplicates(),
        0 <= i < readings.len(),
        readings[i].states@.len() > 0,
    ensures
        crate::config::preset_look(entries_of(readings), readings[i].id@) == Some(
            readings[i].entry()->0.look(),
        ),
    decreases readings.len(),
{
    let head = readings.drop_last();
    let last = readings.last();
    assert forall|a: int, b: int|
        0 <= a < reading_ids(head).len() && 0 <= b < reading_ids(head).len() && a
            != b implies reading_ids(head)[a] != reading_ids(head)[b] by {
        assert(reading_ids(readings)[a] != reading_ids(readings)[b]);
    }
    if i < head.len() {
        entry_is_found(head, i);
        if let Some(entry) = last.entry() {
            look_among_more(entries_of(head), entry, readings[i].id@);
        }
    } else {
        assert forall|j: int| 0 <= j < head.len() implies (#[trigger] head[j]).id@ != last.id@ by {
            assert(reading_ids(readings)[j] != reading_ids(readings)[readings.len() - 1]);
        }
        entries_are_of_readings(head, last.id@);
        look_at_the_end(entries_of(head), last.entry()->0);
    }
}

proof fn look_among_more(entries: Seq<PresetLightConfig>, more: PresetLightConfig, id: Seq<char>)
    requires
        crate::config::preset_look(entries, id) is Some,
    ensures
        crate::config::preset_look(entries.push(more), id) == crate::config::preset_look(
            entries,
            id,
        ),
    decreases entries.len(),
{
    if entries[0].id@ != id {
        look_among_more(entries.drop_first(), more, id);
        assert(entries.push(more).drop_first() =~= entries.drop_first().push(more));
    }
}

proof fn look_at_the_end(entries: Seq<PresetLightConfig>, entry: PresetLightConfig)
    requires
        forall|j: int| 0 <= j < entries.len() ==> (#[trigger] entries[j]).id@ != entry.id@,
    ensures
        crate::config::preset_look(entries.push(entry), entry.id@) == Some(entry.look()),
    decreases entries.len(),
{
    if entries.len() > 0 {
        assert(entries.push(entry)[0] == entries[0]);
        look_at_the_end(entries.drop_first(), entry);
        assert(entries.push(entry).drop_first() =~= entries.drop_first().push(entry));
    } else {
        assert(entries.push(entry)[0] == entry);
    }
}

proof fn entries_are_of_readings(readings: Seq<Reading>, id: Seq<char>)
    requires
        forall|j: int| 0 <= j < readings.len() ==> (#[trigger] readings[j]).id@ != id,
    ensures
        forall|j: int|
            0 <= j < entries_of(readings).len() ==> (#[trigger] entries_of(readings)[j]).id@ != id,
    decreases readings.len(),
{
    if readings.len() > 0 {
        let head = readings.drop_last();
        assert forall|j: int| 0 <= j < head.len() implies (#[trigger] head[j]).id@ != id by {
            assert(readings[j].id@ != id);
        }
        entries_are_of_readings(head, id);
        assert(readings[readings.len() - 1].id@ != id);
        let all = entries_of(readings);
        assert forall|j: int| 0 <= j < all.len() implies (#[trigger] all[j]).id@ != id by {
            if j < entries_of(head).len() {
                assert(all[j] == entries_of(head)[j]);
            }
        }
    }
}

/// A preset captured from lights with identities of their own gives each light,
/// when it is applied, the state that it was captured from.
pub proof fn presets_are_faithful(
    readings: Seq<Reading>,
    light: LightConfig,
    i: int,
    now: Seq<LogicalLightState>,
)
    requires
        reading_ids(readings).no_duplicates(),
        0 <= i < readings.len(),
        readings[i].states@.len() > 0,
        crate::light::temperature_in_range(readings[i].states@[0]),
        light.preset is Some,
        light.preset->0@ == entries_of(readings),
    ensures
        light.look_of(readings[i].id@) is Some,
        (Change::Look { look: light.look_of(readings[i].id@)->0 }).result(now) == Seq::new(
            now.len(),
            |k: int| readings[i].states@[0],
        ),
{
    entry_is_found(readings, i);
    applying_reproduces_what_was_saved(readings[i], light, now);
}

/// What was read of the lights is what was read of each, in their order.
pub proof fn readings_are_what_was_read(readings: Seq<Option<Reading>>, i: int)
    requires
        0 <= i < readings.len(),
    ensures
        what_was_read(readings).len() == readings.len(),
        readings[i] == Some(what_was_read(readings)[i]) || readings[i] is None,
{
}

/// A light more that was read adds its entry, and one without logical lights
/// adds none.
pub proof fn entries_are_taken_in_turn(readings: Seq<Reading>, more: Reading)
    ensures
        entries_of(Seq::empty()) == Seq::<PresetLightConfig>::empty(),
        more.states@.len() == 0 ==> entries_of(readings.push(more)) == entries_of(readings),
        more.states@.len() > 0 ==> {
            let all = entries_of(readings.push(more));
            let entry = all.last();
            let first = more.states@[0];
            &&& all == entries_of(readings).push(entry)
            &&& entry.id@ == more.id@
            &&& entry.on == first.on
            &&& entry.brightness == first.brightness
            &&& entry.temperature_kelvin == domain::kelvin_of(first.temperature as int)
            &&& 143 <= first.temperature <= 344 ==> 2_000_000 - first.temperature < 2
                * first.temperature * entry.temperature_kelvin <= 2_000_000 + first.temperature
        },
{
    assert(readings.push(more).drop_last() =~= readings);
    if more.states@.len() > 0 {
        domain::kelvin_is_a_million_over_mired(more.states@[0].temperature as int);
        assert(entries_of(readings.push(more)).drop_last() =~= entries_of(readings));
    }
}

/// Applying the preset changes the chosen lights that have a saved look, in the
/// order of choice, each to its look; the others are left out.
pub proof fn looks_are_applied_in_turn(
    selected: Seq<SelectedLight>,
    more: SelectedLight,
    light: LightConfig,
)
    ensures
        look_changes(Seq::empty(), light) == Seq::<LookChange>::empty(),
        light.look_of(more.id@) is None ==> look_changes(selected.push(more), light)
            == look_changes(selected, light),
        light.look_of(more.id@) matches Some(look) ==> {
            let all = look_changes(selected.push(more), light);
            &&& all.len() == look_changes(selected, light).len() + 1
            &&& all.drop_last() == look_changes(selected, light)
            &&& all.last().selection == more
            &&& all.last().change == (Change::Look { look })
        },
{
    assert(selected.push(more).drop_last() =~= selected);
    if light.look_of(more.id@) is Some {
        assert(look_changes(selected.push(more), light).drop_last() =~= look_changes(
            selected,
            light,
        ));
    }
}

/// A session that begins without a calibrated brightness sets a chosen light with
/// a saved look to the states that the preset was captured from: each of its
/// logical lights gets the power, the brightness and the temperature that the
/// first had.
pub proof fn sessions_show_what_was_captured(
    readings: Seq<Reading>,
    light: LightConfig,
    i: int,
    ledger: crate::attempt::Ledger,
    selection: SelectedLight,
    device: Seq<LogicalLightState>,
)
    requires
        reading_ids(readings).no_duplicates(),
        0 <= i < readings.len(),
        readings[i].states@.len() > 0,
        143 <= readings[i].states@[0].temperature <= 344,
        light.preset is Some,
        light.preset->0@ == entries_of(readings),
        selection.id@ == readings[i].id@,
        !ledger.journal.contains_key(selection.id@),
    ensures
        ({
            let aim = crate::attempt::Aim { brightness: None, look: light.look_of(selection.id@) };
            let (turn, after) = crate::attempt::performed(
                ledger,
                selection,
                crate::attempt::Goal::Activate,
                aim,
                device,
            );
            let first = readings[i].states@[0];
            &&& turn.act == crate::attempt::Move::Finish(true)
            &&& after.len() == device.len()
            &&& forall|k: int|
                0 <= k < device.len() ==> (#[trigger] after[k]).on == first.on
                    && after[k].brightness == first.brightness && after[k].temperature
                    == first.temperature
            &&& readings[i].states@.len() == 1 && device.len() == 1 ==> after
                == readings[i].states@
        }),
{
    presets_are_faithful(readings, light, i, device);
    entry_is_found(readings, i);
    saved_looks_are_faithful(readings[i]);
    let aim = crate::attempt::Aim { brightness: None, look: light.look_of(selection.id@) };
    let (turn, after) = crate::attempt::performed(
        ledger,
        selection,
        crate::attempt::Goal::Activate,
        aim,
        device,
    );
    crate::attempt::activation_takes_hold(ledger, selection, aim, device);
    assert forall|k: int| 0 <= k < device.len() implies (#[trigger] after[k])
        == readings[i].states@[0] by {
        crate::attempt::sessions_set_what_they_aim_at(ledger, selection, aim, device, k);
        domain::looks_are_shown_as_they_are(aim.look->0);
    }
    if readings[i].states@.len() == 1 && device.len() == 1 {
        assert(after =~= readings[i].states@);
    }
}

} // verus!
