//! Choosing lights and cameras.

use vstd::prelude::*;

use crate::config;
use crate::config::{copied_lights, Config, SelectedCamera, SelectedLight};
use crate::domain::CameraObservation;
use crate::light::{selected_from_discovered, DiscoveredLight};
use crate::text;
use crate::text::{decimal, is_blank, parse_unsigned, split, trim};

verus! {

/// Why an answer of the user is refused.
#[derive(Debug)]
pub enum SelectionError {
    /// Not a number.
    Invalid { text: String },
    /// No entry has this number.
    Outside { number: usize, count: usize },
}

/// What a [`SelectionError`] says.
pub enum SelectionFault {
    Invalid { text: Seq<char> },
    Outside { number: nat, count: nat },
}

impl SelectionFault {
    /// The fault in words.
    pub open spec fn words(self) -> Seq<char> {
        match self {
            SelectionFault::Invalid { text } => "invalid selection "@ + text,
            SelectionFault::Outside { number, count } => "selection "@ + text::decimal_text(number)
                + " is outside 1-"@ + text::decimal_text(count),
        }
    }
}

impl SelectionError {
    pub open spec fn view(&self) -> SelectionFault {
        match *self {
            SelectionError::Invalid { text } => SelectionFault::Invalid { text: text@ },
            SelectionError::Outside { number, count } => SelectionFault::Outside {
                number: number as nat,
                count: count as nat,
            },
        }
    }

    /// The error in words.
    pub fn message(&self) -> (r: String)
        ensures
            r@ == self@.words(),
    {
        match self {
            SelectionError::Invalid { text } => "invalid selection ".to_owned().concat(
                text.as_str(),
            ),
            SelectionError::Outside { number, count } => "selection ".to_owned().concat(
                decimal(*number as u64).as_str(),
            ).concat(" is outside 1-").concat(decimal(*count as u64).as_str()),
        }
    }
}

/// The place that one answer names, counted from zero.
pub open spec fn place_named(answer: Seq<char>, count: nat) -> Result<nat, SelectionFault> {
    let word = text::trimmed(answer);
    match text::unsigned_value(word, usize::MAX as nat) {
        None => Err(SelectionFault::Invalid { text: word }),
        Some(number) => if number == 0 || number > count {
            Err(SelectionFault::Outside { number, count })
        } else {
            Ok((number - 1) as nat)
        },
    }
}

/// The places that the answers name, each once, in the order in which they are
/// first named.
pub open spec fn places_named(answers: Seq<Seq<char>>, count: nat) -> Result<
    Seq<nat>,
    SelectionFault,
>
    decreases answers.len(),
{
    if answers.len() == 0 {
        Ok(Seq::empty())
    } else {
        match places_named(answers.drop_last(), count) {
            Err(fault) => Err(fault),
            Ok(places) => match place_named(answers.last(), count) {
                Err(fault) => Err(fault),
                Ok(place) => if places.contains(place) {
                    Ok(places)
                } else {
                    Ok(places.push(place))
                },
            },
        }
    }
}

/// The places that a line of the user names: none where it is blank, else what
/// its parts between commas name.
pub open spec fn selection_in(input: Seq<char>, count: nat) -> Result<Seq<nat>, SelectionFault> {
    if text::blank(input) {
        Ok(Seq::empty())
    } else {
        places_named(text::pieces(input, ','), count)
    }
}

/// A list of places.
pub open spec fn places(list: Seq<usize>) -> Seq<nat> {
    list.map_values(|i: usize| i as nat)
}

fn parse_place(answer: &str, count: usize) -> (r: Result<usize, SelectionError>)
    ensures
        match (r, place_named(answer@, count as nat)) {
            (Ok(index), Ok(place)) => index == place && index < count,
            (Err(e), Err(fault)) => e@ == fault,
            _ => false,
        },
{
    let word = trim(answer);
    match parse_unsigned(word, usize::MAX as u64) {
        None => Err(SelectionError::Invalid { text: word.to_owned() }),
        Some(value) => {
            let number: usize = value as usize;
            if number == 0 || number > count {
                Err(SelectionError::Outside { number, count })
            } else {
                Ok(number - 1)
            }
        },
    }
}

fn has_place(list: &Vec<usize>, index: usize) -> (r: bool)
    ensures
        r == places(list@).contains(index as nat),
{
    let mut i: usize = 0;
    while i < list.len()
        invariant
            i <= list@.len(),
            forall|j: int| 0 <= j < i ==> list@[j] != index,
        decreases list@.len() - i,
    {
        if list[i] == index {
            assert(places(list@)[i as int] == index as nat);
            return true;
        }
        i += 1;
    }
    proof {
        if places(list@).contains(index as nat) {
            let j = places(list@).index_of(index as nat);
            assert(list@[j] == index);
        }
    }
    false
}

proof fn faults_last(answers: Seq<Seq<char>>, count: nat, until: int)
    requires
        0 <= until <= answers.len(),
        places_named(answers.take(until), count) is Err,
    ensures
        places_named(answers, count) == places_named(answers.take(until), count),
    decreases answers.len() - until,
{
    if until == answers.len() {
        assert(answers.take(until) =~= answers);
    } else {
        assert(answers.take(until + 1).drop_last() =~= answers.take(until));
        faults_last(answers, count, until + 1);
    }
}

/// The places that a line of the user names among `count` entries, counted from
/// zero. The entries are numbered from one.
pub fn parse_selection(input: &str, count: usize) -> (r: Result<Vec<usize>, SelectionError>)
    ensures
        match (r, selection_in(input@, count as nat)) {
            (Ok(list), Ok(named)) => places(list@) == named,
            (Err(e), Err(fault)) => e@ == fault,
            _ => false,
        },
{
    let mut selected: Vec<usize> = Vec::new();
    assert(places(selected@) =~= Seq::<nat>::empty());
    if is_blank(input) {
        return Ok(selected);
    }
    let answers = split(input, ',');
    let ghost named = text::texts(answers@);
    let mut i: usize = 0;
    while i < answers.len()
        invariant
            i <= answers@.len(),
            named == text::texts(answers@),
            named == text::pieces(input@, ','),
            !text::blank(input@),
            places_named(named.take(i as int), count as nat) == Ok::<Seq<nat>, SelectionFault>(
                places(selected@),
            ),
        decreases answers@.len() - i,
    {
        assert(named.take(i + 1).drop_last() =~= named.take(i as int));
        assert(named[i as int] == answers@[i as int]@);
        match parse_place(answers[i].as_str(), count) {
            Err(e) => {
                proof {
                    faults_last(named, count as nat, i + 1);
                }
                return Err(e);
            },
            Ok(index) => {
                if !has_place(&selected, index) {
                    let ghost before = selected@;
                    selected.push(index);
                    assert(places(selected@) =~= places(before).push(index as nat));
                }
            },
        }
        i += 1;
    }
    assert(named.take(i as int) =~= named);
    Ok(selected)
}

proof fn named_places_are_distinct(answers: Seq<Seq<char>>, count: nat)
    requires
        places_named(answers, count) is Ok,
    ensures
        places_named(answers, count)->Ok_0.no_duplicates(),
        forall|i: int|
            0 <= i < places_named(answers, count)->Ok_0.len() ==> #[trigger] places_named(
                answers,
                count,
            )->Ok_0[i] < count,
        answers.len() > 0 ==> places_named(answers, count)->Ok_0.len() > 0,
    decreases answers.len(),
{
    if answers.len() > 0 {
        named_places_are_distinct(answers.drop_last(), count);
    }
}

/// A selection names each entry at most once, and only entries that there are;
/// it is empty exactly where the line is blank.
pub proof fn selections_are_distinct_and_in_range(input: Seq<char>, count: nat)
    requires
        selection_in(input, count) is Ok,
    ensures
        selection_in(input, count)->Ok_0.no_duplicates(),
        forall|i: int|
            0 <= i < selection_in(input, count)->Ok_0.len() ==> #[trigger] selection_in(
                input,
                count,
            )->Ok_0[i] < count,
        selection_in(input, count)->Ok_0.len() == 0 <==> text::blank(input),
{
    if !text::blank(input) {
        named_places_are_distinct(text::pieces(input, ','), count);
    }
}

// ---- lights and cameras ----

/// The choice of a light that was found.
pub open spec fn choice_of(light: DiscoveredLight) -> SelectedLight {
    SelectedLight {
        id: light.id,
        name: light.name,
        service_name: light.service_name,
        fallback_address: Some(light.endpoint),
    }
}

/// The choice of a camera that was seen.
pub open spec fn camera_choice(camera: CameraObservation) -> SelectedCamera {
    SelectedCamera { id: camera.id, name: camera.name, inactive_seconds: None }
}

/// Chooses the lights that a line of the user names, and says whether the
/// configuration changed: a blank line keeps it. A choice replaces the address
/// that was configured before.
pub fn select_lights(config: &mut Config, found: &Vec<DiscoveredLight>, input: &str) -> (r: Result<
    bool,
    SelectionError,
>)
    ensures
        final(config).camera == old(config).camera,
        final(config).ambient == old(config).ambient,
        match (r, selection_in(input@, found@.len())) {
            (Ok(changed), Ok(named)) => {
                &&& changed == (named.len() > 0)
                &&& !changed ==> final(config).light == old(config).light
                &&& changed ==> {
                    &&& final(config).light.selected is Some
                    &&& final(config).light.selected->0@ == named.map_values(
                        |place: nat| choice_of(found@[place as int]),
                    )
                    &&& final(config).light.address is None
                    &&& final(config).light.preset == old(config).light.preset
                    &&& old(config).light.discovery_timeout_seconds
                        == final(config).light.discovery_timeout_seconds
                }
            },
            (Err(e), Err(fault)) => e@ == fault && *final(config) == *old(config),
            _ => false,
        },
{
    let chosen = match parse_selection(input, found.len()) {
        Ok(chosen) => chosen,
        Err(e) => {
            return Err(e);
        },
    };
    if chosen.len() == 0 {
        return Ok(false);
    }
    let ghost named = places(chosen@);
    proof {
        selections_are_distinct_and_in_range(input@, found@.len());
    }
    let mut selected: Vec<SelectedLight> = Vec::new();
    let mut i: usize = 0;
    while i < chosen.len()
        invariant
            i <= chosen@.len(),
            named == places(chosen@),
            forall|j: int| 0 <= j < named.len() ==> #[trigger] named[j] < found@.len(),
            selected@ =~= named.take(i as int).map_values(
                |place: nat| choice_of(found@[place as int]),
            ),
        decreases chosen@.len() - i,
    {
        assert(named[i as int] == chosen@[i as int]);
        selected.push(selected_from_discovered(&found[chosen[i]]));
        i += 1;
    }
    assert(named.take(i as int) =~= named);
    config.light.selected = Some(selected);
    config.light.address = None;
    Ok(true)
}

/// Chooses the cameras that a line of the user names, and says whether the
/// configuration changed: a blank line keeps it.
pub fn select_cameras(config: &mut Config, seen: &Vec<CameraObservation>, input: &str) -> (r:
    Result<bool, SelectionError>)
    ensures
        final(config).light == old(config).light,
        final(config).ambient == old(config).ambient,
        match (r, selection_in(input@, seen@.len())) {
            (Ok(changed), Ok(named)) => {
                &&& changed == (named.len() > 0)
                &&& !changed ==> final(config).camera == old(config).camera
                &&& changed ==> {
                    &&& final(config).camera.selected is Some
                    &&& final(config).camera.selected->0@ == named.map_values(
                        |place: nat| camera_choice(seen@[place as int]),
                    )
                    &&& final(config).camera == (config::CameraConfig {
                        selected: final(config).camera.selected,
                        ..old(config).camera
                    })
                }
            },
            (Err(e), Err(fault)) => e@ == fault && *final(config) == *old(config),
            _ => false,
        },
{
    let chosen = match parse_selection(input, seen.len()) {
        Ok(chosen) => chosen,
        Err(e) => {
            return Err(e);
        },
    };
    if chosen.len() == 0 {
        return Ok(false);
    }
    let ghost named = places(chosen@);
    proof {
        selections_are_distinct_and_in_range(input@, seen@.len());
    }
    let mut selected: Vec<SelectedCamera> = Vec::new();
    let mut i: usize = 0;
    while i < chosen.len()
        invariant
            i <= chosen@.len(),
            named == places(chosen@),
            forall|j: int| 0 <= j < named.len() ==> #[trigger] named[j] < seen@.len(),
            selected@ =~= named.take(i as int).map_values(
                |place: nat| camera_choice(seen@[place as int]),
            ),
        decreases chosen@.len() - i,
    {
        assert(named[i as int] == chosen@[i as int]);
        let camera = &seen[chosen[i]];
        selected.push(
            SelectedCamera {
                id: camera.id.clone(),
                name: camera.name.clone(),
                inactive_seconds: None,
            },
        );
        i += 1;
    }
    assert(named.take(i as int) =~= named);
    config.camera.selected = Some(selected);
    Ok(true)
}

/// Why there are no lights to work with.
#[derive(Clone, Copy, Debug, PartialEq, Eq, Structural)]
pub enum AutoSelectError {
    NoneFound,
    SeveralFound,
}

impl AutoSelectError {
    /// The error in words.
    pub fn message(&self) -> (r: String)
        ensures
            r@ == (match *self {
                AutoSelectError::NoneFound =>
                    "no Key Lights discovered; run `keylightd lights select` when available"@,
                AutoSelectError::SeveralFound =>
                    "multiple Key Lights discovered; run `keylightd lights select` to choose one or more"@,
            }),
    {
        match self {
            AutoSelectError::NoneFound =>
                "no Key Lights discovered; run `keylightd lights select` when available".to_owned(),
            AutoSelectError::SeveralFound =>
                "multiple Key Lights discovered; run `keylightd lights select` to choose one or more".to_owned(),
        }
    }
}

/// The lights to work with.
#[derive(Debug)]
pub struct Ensured {
    pub selected: Vec<SelectedLight>,
    /// Whether they were adopted, so that the configuration changed.
    pub adopted: bool,
}

/// Whether lights have to be discovered, because none are selected.
pub fn needs_light_discovery(config: &Config) -> (r: bool)
    ensures
        r == (config.light.selected is None),
{
    config.light.selected.is_none()
}

/// The choice of the one light that was found; an address that was configured
/// counts as its fallback.
pub open spec fn adopted_choice(light: DiscoveredLight, address: Option<String>) -> SelectedLight {
    SelectedLight {
        fallback_address: if address is Some {
            address
        } else {
            Some(light.endpoint)
        },
        ..choice_of(light)
    }
}

/// The lights to work with: the selected ones; where none are selected the one
/// light that was found, which is adopted as the selection. Without a selection,
/// no light or several are an error.
pub fn ensure_light_selection(config: &mut Config, found: &Vec<DiscoveredLight>) -> (r: Result<
    Ensured,
    AutoSelectError,
>)
    ensures
        match old(config).light.selected {
            Some(selected) => {
                &&& r is Ok
                &&& r->Ok_0.selected@ == selected@
                &&& !r->Ok_0.adopted
                &&& *final(config) == *old(config)
            },
            None => if found@.len() == 0 {
                &&& r == Err::<Ensured, AutoSelectError>(AutoSelectError::NoneFound)
                &&& *final(config) == *old(config)
            } else if found@.len() > 1 {
                &&& r == Err::<Ensured, AutoSelectError>(AutoSelectError::SeveralFound)
                &&& *final(config) == *old(config)
            } else {
                let choice = adopted_choice(found@[0], old(config).light.address);
                &&& r is Ok
                &&& r->Ok_0.selected@ == seq![choice]
                &&& r->Ok_0.adopted
                &&& final(config).camera == old(config).camera
                &&& final(config).ambient == old(config).ambient
                &&& final(config).light.selected is Some
                &&& final(config).light.selected->0@ == seq![choice]
                &&& final(config).light.address is None
                &&& final(config).light.preset == old(config).light.preset
                &&& old(config).light.discovery_timeout_seconds
                    == final(config).light.discovery_timeout_seconds
            },
        },
{
    if let Some(selected) = &config.light.selected {
        return Ok(Ensured { selected: copied_lights(selected), adopted: false });
    }
    if found.len() == 0 {
        return Err(AutoSelectError::NoneFound);
    }
    if found.len() > 1 {
        return Err(AutoSelectError::SeveralFound);
    }
    let mut choice = selected_from_discovered(&found[0]);
    if let Some(address) = config.light.address.take() {
        choice.fallback_address = Some(address);
    }
    let mut selected: Vec<SelectedLight> = Vec::new();
    selected.push(choice.clone());
    let mut kept: Vec<SelectedLight> = Vec::new();
    kept.push(choice);
    assert(selected@ =~= seq![choice]);
    assert(kept@ =~= seq![choice]);
    config.light.selected = Some(kept);
    Ok(Ensured { selected, adopted: true })
}

/// A selection from lights of distinct identities, as discovery lists them, has
/// distinct identities too, so that the configuration takes it.
pub proof fn choices_are_distinct(found: Seq<DiscoveredLight>, named: Seq<nat>)
    requires
        crate::light::found_ids(found).no_duplicates(),
        forall|i: int| 0 <= i < found.len() ==> (#[trigger] found[i]).id@.len() > 0,
        named.no_duplicates(),
        forall|i: int| 0 <= i < named.len() ==> #[trigger] named[i] < found.len(),
    ensures
        config::distinct_identities(
            config::light_ids(named.map_values(|place: nat| choice_of(found[place as int]))),
        ),
{
    let choices = named.map_values(|place: nat| choice_of(found[place as int]));
    let ids = config::light_ids(choices);
    assert forall|i: int| 0 <= i < ids.len() implies (#[trigger] ids[i]).len() > 0 by {
        assert(found[named[i] as int].id@.len() > 0);
    }
    assert forall|i: int, j: int| 0 <= i < j < ids.len() implies #[trigger] ids[i]
        != #[trigger] ids[j] by {
        let a = named[i] as int;
        let b = named[j] as int;
        assert(a != b);
        assert(crate::light::found_ids(found)[a] == ids[i]);
        assert(crate::light::found_ids(found)[b] == ids[j]);
    }
}

/// An answer that is a number, but for white space around it, names the entry with
/// that number, the first being one; a number that no entry has is outside, and an
/// answer that is no number is invalid.
pub proof fn numbers_name_places(answer: Seq<char>, n: nat, count: nat)
    requires
        count <= usize::MAX,
    ensures
        text::trimmed(answer) == text::decimal_text(n) && 1 <= n <= count ==> place_named(
            answer,
            count,
        ) == Ok::<nat, SelectionFault>((n - 1) as nat),
        text::trimmed(answer) == text::decimal_text(n) && n <= usize::MAX && (n == 0 || n > count)
            ==> place_named(answer, count) == Err::<nat, SelectionFault>(
            SelectionFault::Outside { number: n, count },
        ),
        text::unsigned_value(text::trimmed(answer), usize::MAX as nat) == Some(n) ==> place_named(
            answer,
            count,
        ) == if 1 <= n <= count {
            Ok::<nat, SelectionFault>((n - 1) as nat)
        } else {
            Err(SelectionFault::Outside { number: n, count })
        },
        text::unsigned_value(text::trimmed(answer), usize::MAX as nat) is None ==> place_named(
            answer,
            count,
        ) == Err::<nat, SelectionFault>(SelectionFault::Invalid { text: text::trimmed(answer) }),
        place_named(answer, count) matches Ok(place) ==> place < count && text::unsigned_value(
            text::trimmed(answer),
            usize::MAX as nat,
        ) == Some(place + 1),
{
    if n <= usize::MAX {
        text::decimal_round_trip(n, usize::MAX as nat);
    }
}

/// Answers are taken in turn: one that is refused ends the choice, one that names a
/// new place adds it at the end, and one that names a place again changes nothing.
pub proof fn answers_are_taken_in_turn(answers: Seq<Seq<char>>, more: Seq<char>, count: nat)
    ensures
        places_named(Seq::empty(), count) == Ok::<Seq<nat>, SelectionFault>(Seq::empty()),
        places_named(answers, count) is Err ==> places_named(answers.push(more), count)
            == places_named(answers, count),
        places_named(answers, count) matches Ok(named) ==> match place_named(more, count) {
            Err(fault) => places_named(answers.push(more), count) == Err::<
                Seq<nat>,
                SelectionFault,
            >(fault),
            Ok(place) => if exists|i: int| 0 <= i < named.len() && #[trigger] named[i] == place {
                places_named(answers.push(more), count) == Ok::<Seq<nat>, SelectionFault>(named)
            } else {
                places_named(answers.push(more), count) == Ok::<Seq<nat>, SelectionFault>(
                    named.push(place),
                )
            },
        },
{
    assert(answers.push(more).drop_last() =~= answers);
}

/// A line of white space alone chooses nothing; else each part of it between
/// commas is an answer.
pub proof fn parts_between_commas_are_answers(a: Seq<char>, b: Seq<char>, count: nat)
    requires
        !a.contains(','),
    ensures
        text::trimmed(a).len() == 0 ==> selection_in(a, count) == Ok::<Seq<nat>, SelectionFault>(
            Seq::empty(),
        ),
        text::trimmed(a).len() > 0 ==> selection_in(a, count) == places_named(seq![a], count),
        text::trimmed(a + seq![','] + b).len() > 0 ==> selection_in(a + seq![','] + b, count)
            == places_named(seq![a] + text::pieces(b, ','), count),
{
    text::pieces_stand_between_separators(a, ',', b);
}

/// A choice keeps what was found: of a light its identity, its name, the name of
/// its service and, to fall back on, its endpoint, or the address that was
/// configured where it is adopted; of a camera its identity and its name, with no
/// timeout of its own.
pub proof fn choices_by_field(
    light: DiscoveredLight,
    address: Option<String>,
    camera: CameraObservation,
)
    ensures
        choice_of(light).id == light.id,
        choice_of(light).name == light.name,
        choice_of(light).service_name == light.service_name,
        choice_of(light).fallback_address == Some(light.endpoint),
        adopted_choice(light, address).id == light.id,
        adopted_choice(light, address).name == light.name,
        adopted_choice(light, address).service_name == light.service_name,
        address is Some ==> adopted_choice(light, address).fallback_address == address,
        address is None ==> adopted_choice(light, address).fallback_address == Some(
            light.endpoint,
        ),
        camera_choice(camera).id == camera.id,
        camera_choice(camera).name == camera.name,
        camera_choice(camera).inactive_seconds is None,
{
}

/// What the faults say.
pub proof fn faults_in_words(word: Seq<char>, number: nat, count: nat)
    ensures
        (SelectionFault::Invalid { text: word }).words() == "invalid selection "@ + word,
        (SelectionFault::Outside { number, count }).words() == "selection "@ + text::decimal_text(
            number,
        ) + " is outside 1-"@ + text::decimal_text(count),
{
}

/// An error shows the fault of its own name.
pub proof fn errors_show_their_fault(word: String, number: usize, count: usize)
    ensures
        (SelectionError::Invalid { text: word })@ == (SelectionFault::Invalid { text: word@ }),
        (SelectionError::Outside { number, count })@ == (SelectionFault::Outside {
            number: number as nat,
            count: count as nat,
        }),
{
}

} // verus!
