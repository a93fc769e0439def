//! The configuration and the rules that it keeps.

use vstd::prelude::*;

use crate::domain;
use crate::domain::{kelvin_to_mired, PresetLight};
use crate::lux::Lux;
use crate::text;

verus! {

#[derive(Clone, Debug)]
pub struct Config {
    pub light: LightConfig,
    pub camera: CameraConfig,
    pub ambient: AmbientConfig,
}

#[derive(Clone, Debug)]
pub struct LightConfig {
    /// The chosen lights. Without a choice a single discovered light is taken.
    pub selected: Option<Vec<SelectedLight>>,
    pub address: Option<String>,
    pub discovery_timeout_seconds: u64,
    /// The saved look of the selected lights.
    pub preset: Option<Vec<PresetLightConfig>>,
}

/// A chosen light: its hardware identity, and hints where to find it.
#[derive(Debug)]
pub struct SelectedLight {
    pub id: String,
    pub name: String,
    pub service_name: Option<String>,
    pub fallback_address: Option<String>,
}

/// The saved look of one light, in the units that users see.
#[derive(Clone, Debug)]
pub struct PresetLightConfig {
    pub id: String,
    pub on: bool,
    pub brightness: u8,
    pub temperature_kelvin: u16,
}

#[derive(Clone, Debug)]
pub struct CameraConfig {
    pub state_file: String,
    pub poll_interval_ms: u64,
    pub restore_grace_seconds: u64,
    pub helper_stale_seconds: u64,
    pub default_inactive_seconds: u64,
    /// The chosen cameras. Without a choice all cameras count.
    pub selected: Option<Vec<SelectedCamera>>,
}

#[derive(Debug)]
pub struct SelectedCamera {
    pub id: String,
    pub name: String,
    pub inactive_seconds: Option<u64>,
}

#[derive(Clone, Debug)]
pub struct AmbientConfig {
    pub sensor_path: Option<String>,
    pub calibration: Vec<CalibrationPoint>,
}

/// The brightness wanted at one light level.
#[derive(Clone, Copy, Debug, PartialEq, Eq, Structural)]
pub struct CalibrationPoint {
    pub lux: Lux,
    pub brightness: u8,
}

impl Clone for SelectedLight {
    fn clone(&self) -> (r: Self)
        ensures
            r == *self,
    {
        SelectedLight {
            id: self.id.clone(),
            name: self.name.clone(),
            service_name: self.service_name.clone(),
            fallback_address: self.fallback_address.clone(),
        }
    }
}

impl Clone for SelectedCamera {
    fn clone(&self) -> (r: Self)
        ensures
            r == *self,
    {
        SelectedCamera {
            id: self.id.clone(),
            name: self.name.clone(),
            inactive_seconds: self.inactive_seconds,
        }
    }
}

/// What an identity belongs to.
#[derive(Clone, Copy, Debug, PartialEq, Eq, Structural)]
pub enum IdentityKind {
    Light,
    Camera,
}

impl IdentityKind {
    pub open spec fn word(self) -> Seq<char> {
        match self {
            IdentityKind::Light => "light"@,
            IdentityKind::Camera => "camera"@,
        }
    }

    fn as_str(self) -> (r: &'static str)
        ensures
            r@ == self.word(),
    {
        match self {
            IdentityKind::Light => "light",
            IdentityKind::Camera => "camera",
        }
    }
}

/// Why a configuration is refused.
#[derive(Clone, Debug, PartialEq, Eq)]
pub enum ConfigError {
    EmptyLightSelection,
    EmptyCameraSelection,
    ZeroTiming,
    EmptyIdentity { kind: IdentityKind },
    DuplicateIdentity { kind: IdentityKind, id: String },
    ZeroInactivity { camera: String },
    InvalidLux,
    BrightnessOutOfRange,
    LuxNotIncreasing,
    BrightnessDecreasing,
}

/// The fault that a [`ConfigError`] reports.
pub enum ConfigFault {
    EmptyLightSelection,
    EmptyCameraSelection,
    ZeroTiming,
    EmptyIdentity { kind: IdentityKind },
    DuplicateIdentity { kind: IdentityKind, id: Seq<char> },
    ZeroInactivity { camera: Seq<char> },
    InvalidLux,
    BrightnessOutOfRange,
    LuxNotIncreasing,
    BrightnessDecreasing,
}

impl ConfigFault {
    /// The fault in words.
    pub open spec fn words(self) -> Seq<char> {
        match self {
            ConfigFault::EmptyLightSelection => "explicit light selection cannot be empty"@,
            ConfigFault::EmptyCameraSelection => "explicit camera selection cannot be empty"@,
            ConfigFault::ZeroTiming => "camera timing values must be greater than zero"@,
            ConfigFault::EmptyIdentity { kind } => kind.word() + " identity cannot be empty"@,
            ConfigFault::DuplicateIdentity { kind, id } => "duplicate "@ + kind.word()
                + " identity "@ + id,
            ConfigFault::ZeroInactivity { camera } => "camera "@ + camera
                + " has a zero inactivity timeout"@,
            ConfigFault::InvalidLux => "calibration lux values must be finite and non-negative"@,
            ConfigFault::BrightnessOutOfRange =>
                "calibration brightness must be between 1 and 100"@,
            ConfigFault::LuxNotIncreasing =>
                "calibration lux values must be unique and increasing"@,
            ConfigFault::BrightnessDecreasing =>
                "calibration brightness must not decrease as lux increases"@,
        }
    }
}

impl ConfigError {
    pub open spec fn view(&self) -> ConfigFault {
        match *self {
            ConfigError::EmptyLightSelection => ConfigFault::EmptyLightSelection,
            ConfigError::EmptyCameraSelection => ConfigFault::EmptyCameraSelection,
            ConfigError::ZeroTiming => ConfigFault::ZeroTiming,
            ConfigError::EmptyIdentity { kind } => ConfigFault::EmptyIdentity { kind },
            ConfigError::DuplicateIdentity { kind, id } => ConfigFault::DuplicateIdentity {
                kind,
                id: id@,
            },
            ConfigError::ZeroInactivity { camera } => ConfigFault::ZeroInactivity {
                camera: camera@,
            },
            ConfigError::InvalidLux => ConfigFault::InvalidLux,
            ConfigError::BrightnessOutOfRange => ConfigFault::BrightnessOutOfRange,
            ConfigError::LuxNotIncreasing => ConfigFault::LuxNotIncreasing,
            ConfigError::BrightnessDecreasing => ConfigFault::BrightnessDecreasing,
        }
    }

    /// The error in words.
    pub fn message(&self) -> (r: String)
        ensures
            r@ == self@.words(),
    {
        match self {
            ConfigError::EmptyLightSelection =>
                "explicit light selection cannot be empty".to_owned(),
            ConfigError::EmptyCameraSelection =>
                "explicit camera selection cannot be empty".to_owned(),
            ConfigError::ZeroTiming =>
                "camera timing values must be greater than zero".to_owned(),
            ConfigError::EmptyIdentity { kind } =>
                kind.as_str().to_owned().concat(" identity cannot be empty"),
            ConfigError::DuplicateIdentity { kind, id } =>
                "duplicate ".to_owned().concat(kind.as_str()).concat(" identity ").concat(
                    id.as_str(),
                ),
            ConfigError::ZeroInactivity { camera } =>
                "camera ".to_owned().concat(camera.as_str()).concat(
                    " has a zero inactivity timeout",
                ),
            ConfigError::InvalidLux =>
                "calibration lux values must be finite and non-negative".to_owned(),
            ConfigError::BrightnessOutOfRange =>
                "calibration brightness must be between 1 and 100".to_owned(),
            ConfigError::LuxNotIncreasing =>
                "calibration lux values must be unique and increasing".to_owned(),
            ConfigError::BrightnessDecreasing =>
                "calibration brightness must not decrease as lux increases".to_owned(),
        }
    }
}

// ---- defaults ----

impl Default for LightConfig {
    fn default() -> (r: Self)
        ensures
            r.selected is None,
            r.address is None,
            r.discovery_timeout_seconds == 3,
            r.preset is None,
    {
        LightConfig { selected: None, address: None, discovery_timeout_seconds: 3, preset: None }
    }
}

impl Default for CameraConfig {
    fn default() -> (r: Self)
        ensures
            r.state_file@ == "/run/keylightd/camera-state.json"@,
            r.poll_interval_ms == 250,
            r.restore_grace_seconds == 5,
            r.helper_stale_seconds == 3,
            r.default_inactive_seconds == 5,
            r.selected is None,
    {
        CameraConfig {
            state_file: "/run/keylightd/camera-state.json".to_owned(),
            poll_interval_ms: 250,
            restore_grace_seconds: 5,
            helper_stale_seconds: 3,
            default_inactive_seconds: 5,
            selected: None,
        }
    }
}

impl Default for AmbientConfig {
    fn default() -> (r: Self)
        ensures
            r.sensor_path is None,
            r.calibration@ == Seq::<CalibrationPoint>::empty(),
    {
        AmbientConfig { sensor_path: None, calibration: Vec::new() }
    }
}

impl Config {
    /// Whether this is the configuration that holds without a file.
    pub open spec fn is_default(self) -> bool {
        &&& self.light.selected is None
        &&& self.light.address is None
        &&& self.light.discovery_timeout_seconds == 3
        &&& self.light.preset is None
        &&& self.camera.state_file@ == "/run/keylightd/camera-state.json"@
        &&& self.camera.poll_interval_ms == 250
        &&& self.camera.restore_grace_seconds == 5
        &&& self.camera.helper_stale_seconds == 3
        &&& self.camera.default_inactive_seconds == 5
        &&& self.camera.selected is None
        &&& self.ambient.sensor_path is None
        &&& self.ambient.calibration@.len() == 0
    }
}

impl Default for Config {
    fn default() -> (r: Self)
        ensures
            r.is_default(),
            r.fault() is None,
    {
        Config {
            light: LightConfig::default(),
            camera: CameraConfig::default(),
            ambient: AmbientConfig::default(),
        }
    }
}

// ---- validation ----

/// The first fault among the identities from place `from` on: an empty one,
/// or one that already stands further ahead.
pub open spec fn identity_fault(
    kind: IdentityKind,
    ids: Seq<Seq<char>>,
    from: int,
) -> Option<ConfigFault>
    decreases ids.len() - from,
{
    if from < 0 || from >= ids.len() {
        None
    } else if ids[from].len() == 0 {
        Some(ConfigFault::EmptyIdentity { kind })
    } else if ids.take(from).contains(ids[from]) {
        Some(ConfigFault::DuplicateIdentity { kind, id: ids[from] })
    } else {
        identity_fault(kind, ids, from + 1)
    }
}

/// The first camera from place `from` on whose inactivity timeout is zero.
pub open spec fn inactivity_fault(cameras: Seq<SelectedCamera>, from: int) -> Option<ConfigFault>
    decreases cameras.len() - from,
{
    if from < 0 || from >= cameras.len() {
        None
    } else if cameras[from].inactive_seconds == Some(0u64) {
        Some(ConfigFault::ZeroInactivity { camera: cameras[from].id@ })
    } else {
        inactivity_fault(cameras, from + 1)
    }
}

/// The fault of the calibration point at place `i`, alone or beside the point
/// before it.
pub open spec fn point_fault(points: Seq<CalibrationPoint>, i: int) -> Option<ConfigFault> {
    if !points[i].lux.is_reading() {
        Some(ConfigFault::InvalidLux)
    } else if !(1 <= points[i].brightness <= 100) {
        Some(ConfigFault::BrightnessOutOfRange)
    } else if i > 0 && points[i].lux.le(points[i - 1].lux) {
        Some(ConfigFault::LuxNotIncreasing)
    } else if i > 0 && points[i].brightness < points[i - 1].brightness {
        Some(ConfigFault::BrightnessDecreasing)
    } else {
        None
    }
}

/// The first fault of the calibration from place `from` on.
pub open spec fn calibration_fault(points: Seq<CalibrationPoint>, from: int) -> Option<ConfigFault>
    decreases points.len() - from,
{
    if from < 0 || from >= points.len() {
        None
    } else if point_fault(points, from) is Some {
        point_fault(points, from)
    } else {
        calibration_fault(points, from + 1)
    }
}

/// The identities of a list of lights.
pub open spec fn light_ids(lights: Seq<SelectedLight>) -> Seq<Seq<char>> {
    lights.map_values(|l: SelectedLight| l.id@)
}

/// The identities of a list of cameras.
pub open spec fn camera_ids(cameras: Seq<SelectedCamera>) -> Seq<Seq<char>> {
    cameras.map_values(|c: SelectedCamera| c.id@)
}

impl LightConfig {
    /// The chosen lights; none where the choice is left open.
    pub open spec fn chosen(self) -> Seq<SelectedLight> {
        match self.selected {
            Some(lights) => lights@,
            None => Seq::empty(),
        }
    }
}

impl CameraConfig {
    /// The chosen cameras; none where the choice is left open.
    pub open spec fn chosen(self) -> Seq<SelectedCamera> {
        match self.selected {
            Some(cameras) => cameras@,
            None => Seq::empty(),
        }
    }
}

impl Config {
    /// The first fault of the configuration.
    pub open spec fn fault(self) -> Option<ConfigFault> {
        self.fault_with(self.ambient.calibration@)
    }

    /// The first fault that the configuration would have with this calibration.
    pub open spec fn fault_with(self, points: Seq<CalibrationPoint>) -> Option<ConfigFault> {
        let lights = identity_fault(IdentityKind::Light, light_ids(self.light.chosen()), 0);
        let cameras = identity_fault(IdentityKind::Camera, camera_ids(self.camera.chosen()), 0);
        let inactivity = inactivity_fault(self.camera.chosen(), 0);
        if self.light.selected is Some && self.light.chosen().len() == 0 {
            Some(ConfigFault::EmptyLightSelection)
        } else if self.camera.selected is Some && self.camera.chosen().len() == 0 {
            Some(ConfigFault::EmptyCameraSelection)
        } else if self.camera.poll_interval_ms == 0 || self.camera.helper_stale_seconds == 0
            || self.camera.default_inactive_seconds == 0 {
            Some(ConfigFault::ZeroTiming)
        } else if lights is Some {
            lights
        } else if cameras is Some {
            cameras
        } else if inactivity is Some {
            inactivity
        } else {
            calibration_fault(points, 0)
        }
    }

    /// What a configuration without fault keeps.
    pub open spec fn valid(self) -> bool {
        &&& self.light.selected is Some ==> self.light.chosen().len() > 0
        &&& self.camera.selected is Some ==> self.camera.chosen().len() > 0
        &&& self.camera.poll_interval_ms > 0
        &&& self.camera.helper_stale_seconds > 0
        &&& self.camera.default_inactive_seconds > 0
        &&& distinct_identities(light_ids(self.light.chosen()))
        &&& distinct_identities(camera_ids(self.camera.chosen()))
        &&& forall|i: int|
            0 <= i < self.camera.chosen().len() ==> (
            #[trigger] self.camera.chosen()[i]).inactive_seconds != Some(0u64)
        &&& sound_calibration(self.ambient.calibration@)
    }
}

/// The identities are not empty, and none stands twice.
pub open spec fn distinct_identities(ids: Seq<Seq<char>>) -> bool {
    &&& forall|i: int| 0 <= i < ids.len() ==> (#[trigger] ids[i]).len() > 0
    &&& ids.no_duplicates()
}

/// The points of a calibration are readings with a brightness in range; from
/// point to point the level rises and the brightness does not fall.
pub open spec fn sound_calibration(points: Seq<CalibrationPoint>) -> bool {
    &&& forall|i: int|
        0 <= i < points.len() ==> (#[trigger] points[i]).lux.is_reading() && 1
            <= points[i].brightness <= 100
    &&& forall|i: int, j: int|
        0 <= i < j < points.len() ==> (#[trigger] points[i]).lux.rank() < (
        #[trigger] points[j]).lux.rank() && points[i].brightness <= points[j].brightness
}

proof fn identity_fault_means_distinct(kind: IdentityKind, ids: Seq<Seq<char>>, from: int)
    requires
        0 <= from <= ids.len(),
        distinct_identities(ids.take(from)),
    ensures
        identity_fault(kind, ids, from) is None <==> distinct_identities(ids),
    decreases ids.len() - from,
{
    if from == ids.len() {
        assert(ids.take(from) =~= ids);
    } else {
        let head = ids.take(from);
        let next = ids.take(from + 1);
        if ids[from].len() > 0 && !head.contains(ids[from]) {
            assert forall|i: int, j: int|
                0 <= i < next.len() && 0 <= j < next.len() && i != j implies next[i] != next[j] by {
                if i < from && j < from {
                    assert(head[i] == next[i] && head[j] == next[j]);
                } else if i == from {
                    assert(head[j] == next[j]);
                } else {
                    assert(head[i] == next[i]);
                }
            }
            assert forall|i: int| 0 <= i < next.len() implies (#[trigger] next[i]).len() > 0 by {
                if i < from {
                    assert(head[i] == next[i]);
                }
            }
            identity_fault_means_distinct(kind, ids, from + 1);
        } else if head.contains(ids[from]) {
            let i = choose|i: int| 0 <= i < head.len() && head[i] == ids[from];
            assert(ids[i] == ids[from]);
        }
    }
}

proof fn inactivity_fault_means_none_is_zero(cameras: Seq<SelectedCamera>, from: int)
    requires
        0 <= from <= cameras.len(),
    ensures
        inactivity_fault(cameras, from) is None <==> forall|i: int|
            from <= i < cameras.len() ==> (#[trigger] cameras[i]).inactive_seconds != Some(0u64),
    decreases cameras.len() - from,
{
    if from < cameras.len() {
        inactivity_fault_means_none_is_zero(cameras, from + 1);
    }
}

proof fn calibration_fault_means_sound(points: Seq<CalibrationPoint>, from: int)
    requires
        0 <= from <= points.len(),
        sound_calibration(points.take(from)),
    ensures
        calibration_fault(points, from) is None <==> sound_calibration(points),
    decreases points.len() - from,
{
    if from == points.len() {
        assert(points.take(from) =~= points);
    } else {
        let head = points.take(from);
        let next = points.take(from + 1);
        if point_fault(points, from) is None {
            assert forall|i: int| 0 <= i < next.len() implies (#[trigger] next[i]).lux.is_reading()
                && 1 <= next[i].brightness <= 100 by {
                if i < from {
                    assert(head[i] == next[i]);
                }
            }
            assert forall|i: int, j: int| 0 <= i < j < next.len() implies (
            #[trigger] next[i]).lux.rank() < (#[trigger] next[j]).lux.rank() && next[i].brightness
                <= next[j].brightness by {
                assert(head[i] == next[i]);
                if j < from {
                    assert(head[j] == next[j]);
                } else {
                    assert(head[from - 1] == points[from - 1]);
                    assert(head[from - 1].lux.is_reading());
                }
            }
            calibration_fault_means_sound(points, from + 1);
        } else if sound_calibration(points) {
            assert(points[from].lux.is_reading());
            if from > 0 {
                assert(points[from - 1].lux.rank() < points[from].lux.rank());
            }
        }
    }
}

/// Validation refuses exactly the configurations that break a rule.
pub proof fn faultless_means_valid(config: Config)
    ensures
        config.fault() is None <==> config.valid(),
{
    let lights = light_ids(config.light.chosen());
    let cameras = camera_ids(config.camera.chosen());
    let points = config.ambient.calibration@;
    assert(distinct_identities(lights.take(0)));
    assert(distinct_identities(cameras.take(0)));
    assert(sound_calibration(points.take(0)));
    identity_fault_means_distinct(IdentityKind::Light, lights, 0);
    identity_fault_means_distinct(IdentityKind::Camera, cameras, 0);
    inactivity_fault_means_none_is_zero(config.camera.chosen(), 0);
    calibration_fault_means_sound(points, 0);
}

/// A configuration without fault takes exactly the calibrations that are sound.
pub proof fn sound_calibrations_are_taken(config: Config, points: Seq<CalibrationPoint>)
    requires
        config.fault() is None,
    ensures
        config.fault_with(points) is None <==> sound_calibration(points),
{
    assert(sound_calibration(points.take(0)));
    calibration_fault_means_sound(points, 0);
}

/// Checks that every identity is there and stands once.
pub fn validate_unique_ids(ids: &Vec<String>, kind: IdentityKind) -> (r: Result<(), ConfigError>)
    ensures
        match r {
            Ok(_) => identity_fault(kind, text::texts(ids@), 0) is None,
            Err(e) => identity_fault(kind, text::texts(ids@), 0) == Some(e@),
        },
{
    let ghost all = text::texts(ids@);
    let mut seen: Vec<String> = Vec::new();
    let mut i: usize = 0;
    while i < ids.len()
        invariant
            all == text::texts(ids@),
            i <= ids@.len(),
            text::texts(seen@) =~= all.take(i as int),
            identity_fault(kind, all, 0) == identity_fault(kind, all, i as int),
        decreases ids@.len() - i,
    {
        assert(all[i as int] == ids@[i as int]@);
        if ids[i].as_str().is_empty() {
            return Err(ConfigError::EmptyIdentity { kind });
        }
        if text::listed(&seen, ids[i].as_str()) {
            return Err(ConfigError::DuplicateIdentity { kind, id: ids[i].clone() });
        }
        let id = ids[i].clone();
        proof {
            text::texts_push(seen@, id);
        }
        seen.push(id);
        assert(all.take(i + 1) =~= all.take(i as int).push(id@));
        i += 1;
    }
    Ok(())
}

impl LightConfig {
    fn chosen_ids(&self) -> (r: Vec<String>)
        ensures
            text::texts(r@) == light_ids(self.chosen()),
    {
        let mut out: Vec<String> = Vec::new();
        if let Some(lights) = &self.selected {
            let mut i: usize = 0;
            while i < lights.len()
                invariant
                    i <= lights@.len(),
                    text::texts(out@) =~= light_ids(lights@.take(i as int)),
                decreases lights@.len() - i,
            {
                let id = lights[i].id.clone();
                proof {
                    text::texts_push(out@, id);
                }
                out.push(id);
                assert(lights@.take(i + 1) =~= lights@.take(i as int).push(lights@[i as int]));
                assert(light_ids(lights@.take(i + 1)) =~= light_ids(lights@.take(i as int)).push(id@));
                i += 1;
            }
            assert(lights@.take(i as int) =~= lights@);
        } else {
            assert(text::texts(out@) =~= light_ids(self.chosen()));
        }
        out
    }
}

impl CameraConfig {
    fn chosen_ids(&self) -> (r: Vec<String>)
        ensures
            text::texts(r@) == camera_ids(self.chosen()),
    {
        let mut out: Vec<String> = Vec::new();
        if let Some(cameras) = &self.selected {
            let mut i: usize = 0;
            while i < cameras.len()
                invariant
                    i <= cameras@.len(),
                    text::texts(out@) =~= camera_ids(cameras@.take(i as int)),
                decreases cameras@.len() - i,
            {
                let id = cameras[i].id.clone();
                proof {
                    text::texts_push(out@, id);
                }
                out.push(id);
                assert(cameras@.take(i + 1) =~= cameras@.take(i as int).push(cameras@[i as int]));
                assert(camera_ids(cameras@.take(i + 1)) =~= camera_ids(cameras@.take(i as int)).push(id@));
                i += 1;
            }
            assert(cameras@.take(i as int) =~= cameras@);
        } else {
            assert(text::texts(out@) =~= camera_ids(self.chosen()));
        }
        out
    }

    fn check_inactivity(&self) -> (r: Result<(), ConfigError>)
        ensures
            match r {
                Ok(_) => inactivity_fault(self.chosen(), 0) is None,
                Err(e) => inactivity_fault(self.chosen(), 0) == Some(e@),
            },
    {
        if let Some(cameras) = &self.selected {
            let mut i: usize = 0;
            while i < cameras.len()
                invariant
                    self.chosen() == cameras@,
                    i <= cameras@.len(),
                    inactivity_fault(cameras@, 0) == inactivity_fault(cameras@, i as int),
                decreases cameras@.len() - i,
            {
                if let Some(seconds) = cameras[i].inactive_seconds {
                    if seconds == 0 {
                        return Err(ConfigError::ZeroInactivity { camera: cameras[i].id.clone() });
                    }
                }
                i += 1;
            }
        }
        Ok(())
    }
}

/// Checks the points of a calibration.
fn check_calibration(points: &Vec<CalibrationPoint>) -> (r: Result<(), ConfigError>)
    ensures
        match r {
            Ok(_) => calibration_fault(points@, 0) is None,
            Err(e) => calibration_fault(points@, 0) == Some(e@),
        },
{
    let mut i: usize = 0;
    while i < points.len()
        invariant
            i <= points@.len(),
            calibration_fault(points@, 0) == calibration_fault(points@, i as int),
        decreases points@.len() - i,
    {
        let point = points[i];
        if !point.lux.is_valid_reading() {
            return Err(ConfigError::InvalidLux);
        }
        if point.brightness < 1 || point.brightness > 100 {
            return Err(ConfigError::BrightnessOutOfRange);
        }
        if i > 0 {
            let previous = points[i - 1];
            if point.lux.at_most(previous.lux) {
                return Err(ConfigError::LuxNotIncreasing);
            }
            if point.brightness < previous.brightness {
                return Err(ConfigError::BrightnessDecreasing);
            }
        }
        i += 1;
    }
    Ok(())
}

impl Config {
    /// Checks every rule of the configuration and reports the first that is
    /// broken.
    pub fn validate(&self) -> (r: Result<(), ConfigError>)
        ensures
            match r {
                Ok(_) => self.fault() is None,
                Err(e) => self.fault() == Some(e@),
            },
    {
        if let Some(lights) = &self.light.selected {
            if lights.len() == 0 {
                return Err(ConfigError::EmptyLightSelection);
            }
        }
        if let Some(cameras) = &self.camera.selected {
            if cameras.len() == 0 {
                return Err(ConfigError::EmptyCameraSelection);
            }
        }
        if self.camera.poll_interval_ms == 0 || self.camera.helper_stale_seconds == 0
            || self.camera.default_inactive_seconds == 0 {
            return Err(ConfigError::ZeroTiming);
        }
        if let Err(error) = validate_unique_ids(&self.light.chosen_ids(), IdentityKind::Light) {
            return Err(error);
        }
        if let Err(error) = validate_unique_ids(&self.camera.chosen_ids(), IdentityKind::Camera) {
            return Err(error);
        }
        if let Err(error) = self.camera.check_inactivity() {
            return Err(error);
        }
        check_calibration(&self.ambient.calibration)
    }

    /// The configuration that a file gives: the defaults where there is no
    /// file, and what the file holds where that breaks no rule.
    pub fn load(parsed: Option<Config>) -> (r: Result<Config, ConfigError>)
        ensures
            match (parsed, r) {
                (None, Ok(config)) => config.is_default(),
                (None, Err(_)) => false,
                (Some(given), Ok(config)) => given.fault() is None && config == given,
                (Some(given), Err(e)) => given.fault() == Some(e@),
            },
    {
        match parsed {
            None => Ok(Config::default()),
            Some(config) => match config.validate() {
                Ok(_) => Ok(config),
                Err(error) => Err(error),
            },
        }
    }
}

// ---- the saved look ----

/// The look saved for `id`, in device units: the first entry under it.
pub open spec fn preset_look(entries: Seq<PresetLightConfig>, id: Seq<char>) -> Option<PresetLight>
    decreases entries.len(),
{
    if entries.len() == 0 {
        None
    } else if entries[0].id@ == id {
        Some(entries[0].look())
    } else {
        preset_look(entries.drop_first(), id)
    }
}

impl PresetLightConfig {
    /// The look in device units.
    pub open spec fn look(self) -> PresetLight {
        PresetLight {
            on: self.on,
            brightness: self.brightness,
            temperature: domain::mired_of(self.temperature_kelvin as int) as u16,
        }
    }
}

impl LightConfig {
    /// The look saved for the light `id`, if any.
    pub open spec fn look_of(self, id: Seq<char>) -> Option<PresetLight> {
        match self.preset {
            Some(entries) => preset_look(entries@, id),
            None => None,
        }
    }

    /// The look saved for the light `id`, if any.
    pub fn preset_for(&self, id: &str) -> (r: Option<PresetLight>)
        ensures
            r == self.look_of(id@),
    {
        if let Some(entries) = &self.preset {
            let mut i: usize = 0;
            assert(entries@.skip(0) =~= entries@);
            while i < entries.len()
                invariant
                    self.preset == Some(*entries),
                    i <= entries@.len(),
                    preset_look(entries@, id@) == preset_look(entries@.skip(i as int), id@),
                decreases entries@.len() - i,
            {
                assert(entries@.skip(i as int)[0] == entries@[i as int]);
                if text::same(entries[i].id.as_str(), id) {
                    return Some(PresetLight {
                        on: entries[i].on,
                        brightness: entries[i].brightness,
                        temperature: kelvin_to_mired(entries[i].temperature_kelvin),
                    });
                }
                assert(entries@.skip(i as int).drop_first() =~= entries@.skip(i + 1));
                i += 1;
            }
        }
        None
    }
}

/// A selection of lights, copied.
pub fn copied_lights(lights: &Vec<SelectedLight>) -> (r: Vec<SelectedLight>)
    ensures
        r@ == lights@,
{
    let mut out: Vec<SelectedLight> = Vec::new();
    let mut i: usize = 0;
    while i < lights.len()
        invariant
            i <= lights@.len(),
            out@ =~= lights@.take(i as int),
        decreases lights@.len() - i,
    {
        out.push(lights[i].clone());
        i += 1;
    }
    assert(lights@.take(i as int) =~= lights@);
    out
}

// ---- what the rules come to ----

/// A configuration is faultless exactly when a selection of lights or cameras that
/// is there is not empty, the three times are not zero, the identities of the
/// lights, and those of the cameras, are there and stand once, no camera has a
/// timeout of zero, and the points of the calibration are readings with a
/// brightness from 1 to 100, with rising levels and no falling brightness.
pub proof fn faultless_configurations_keep_every_rule(config: Config)
    ensures
        config.fault() is None <==> {
            &&& config.light.selected matches Some(lights) ==> {
                &&& lights@.len() > 0
                &&& forall|i: int| 0 <= i < lights@.len() ==> (#[trigger] lights@[i]).id@.len() > 0
                &&& forall|i: int, j: int|
                    0 <= i < j < lights@.len() ==> (#[trigger] lights@[i]).id@ != (
                    #[trigger] lights@[j]).id@
            }
            &&& config.camera.selected matches Some(cameras) ==> {
                &&& cameras@.len() > 0
                &&& forall|i: int|
                    0 <= i < cameras@.len() ==> (#[trigger] cameras@[i]).id@.len() > 0
                        && cameras@[i].inactive_seconds != Some(0u64)
                &&& forall|i: int, j: int|
                    0 <= i < j < cameras@.len() ==> (#[trigger] cameras@[i]).id@ != (
                    #[trigger] cameras@[j]).id@
            }
            &&& config.camera.poll_interval_ms != 0
            &&& config.camera.helper_stale_seconds != 0
            &&& config.camera.default_inactive_seconds != 0
            &&& forall|i: int|
                0 <= i < config.ambient.calibration@.len() ==> (
                #[trigger] config.ambient.calibration@[i]).lux.is_reading() && 1
                    <= config.ambient.calibration@[i].brightness <= 100
            &&& forall|i: int, j: int|
                0 <= i < j < config.ambient.calibration@.len() ==> !(
                #[trigger] config.ambient.calibration@[j]).lux.le(
                    (#[trigger] config.ambient.calibration@[i]).lux,
                ) && config.ambient.calibration@[i].brightness
                    <= config.ambient.calibration@[j].brightness
        },
{
    faultless_means_valid(config);
    let lights = config.light.chosen();
    let cameras = config.camera.chosen();
    let light_names = light_ids(lights);
    let camera_names = camera_ids(cameras);
    let points = config.ambient.calibration@;
    assert forall|i: int| 0 <= i < lights.len() implies #[trigger] light_names[i] == lights[i].id@ by {}
    assert forall|i: int| 0 <= i < cameras.len() implies #[trigger] camera_names[i]
        == cameras[i].id@ by {}
    if config.valid() {
        assert forall|i: int| 0 <= i < lights.len() implies (#[trigger] lights[i]).id@.len() > 0 by {
            assert(light_names[i].len() > 0);
        }
        assert forall|i: int, j: int| 0 <= i < j < lights.len() implies (#[trigger] lights[i]).id@
            != (#[trigger] lights[j]).id@ by {
            assert(light_names[i] != light_names[j]);
        }
        assert forall|i: int| 0 <= i < cameras.len() implies (#[trigger] cameras[i]).id@.len()
            > 0 by {
            assert(camera_names[i].len() > 0);
        }
        assert forall|i: int, j: int| 0 <= i < j < cameras.len() implies (#[trigger] cameras[i]).id@
            != (#[trigger] cameras[j]).id@ by {
            assert(camera_names[i] != camera_names[j]);
        }
        assert forall|i: int, j: int| 0 <= i < j < points.len() implies !(
        #[trigger] points[j]).lux.le((#[trigger] points[i]).lux) by {
            assert(points[i].lux.rank() < points[j].lux.rank());
        }
    }
}

/// The rules are checked in turn, and the first that is broken is told: an empty
/// selection of lights, one of cameras, a time of zero, then the identities of the
/// lights and those of the cameras, the timeouts of the cameras, the calibration.
pub proof fn rules_are_checked_in_turn(config: Config)
    ensures
        ({
            let no_lights = config.light.selected matches Some(lights) && lights@.len() == 0;
            let no_cameras = config.camera.selected matches Some(cameras) && cameras@.len() == 0;
            let no_time = config.camera.poll_interval_ms == 0 || config.camera.helper_stale_seconds
                == 0 || config.camera.default_inactive_seconds == 0;
            let lights = identity_fault(IdentityKind::Light, light_ids(config.light.chosen()), 0);
            let cameras = identity_fault(
                IdentityKind::Camera,
                camera_ids(config.camera.chosen()),
                0,
            );
            let silent = inactivity_fault(config.camera.chosen(), 0);
            let early = no_lights || no_cameras || no_time;
            &&& no_lights ==> config.fault() == Some(ConfigFault::EmptyLightSelection)
            &&& !no_lights && no_cameras ==> config.fault() == Some(
                ConfigFault::EmptyCameraSelection,
            )
            &&& !no_lights && !no_cameras && no_time ==> config.fault() == Some(
                ConfigFault::ZeroTiming,
            )
            &&& !early && lights is Some ==> config.fault() == lights
            &&& !early && lights is None && cameras is Some ==> config.fault() == cameras
            &&& !early && lights is None && cameras is None && silent is Some ==> config.fault()
                == silent
            &&& !early && lights is None && cameras is None && silent is None ==> config.fault()
                == calibration_fault(config.ambient.calibration@, 0)
        }),
{
}

/// Of the identities the first that is empty, or that stands further ahead too, is
/// told.
pub proof fn the_first_bad_identity_is_told(
    kind: IdentityKind,
    ids: Seq<Seq<char>>,
    from: int,
    k: int,
)
    requires
        0 <= from <= k < ids.len(),
        forall|i: int| from <= i < k ==> (#[trigger] ids[i]).len() > 0,
        forall|i: int, j: int|
            0 <= i < j && from <= j < k ==> #[trigger] ids[i] != #[trigger] ids[j],
    ensures
        ids[k].len() == 0 ==> identity_fault(kind, ids, from) == Some(
            ConfigFault::EmptyIdentity { kind },
        ),
        ids[k].len() > 0 && (exists|j: int| 0 <= j < k && #[trigger] ids[j] == ids[k])
            ==> identity_fault(kind, ids, from) == Some(
            ConfigFault::DuplicateIdentity { kind, id: ids[k] },
        ),
    decreases k - from,
{
    let head = ids.take(from);
    if from < k {
        if head.contains(ids[from]) {
            let i = head.index_of(ids[from]);
            assert(head[i] == ids[i]);
        }
        the_first_bad_identity_is_told(kind, ids, from + 1, k);
    } else if exists|j: int| 0 <= j < k && #[trigger] ids[j] == ids[k] {
        let j = choose|j: int| 0 <= j < k && #[trigger] ids[j] == ids[k];
        assert(head[j] == ids[k]);
    }
}

/// Of the cameras the first with a timeout of zero is told.
pub proof fn the_first_silent_camera_is_told(cameras: Seq<SelectedCamera>, from: int, k: int)
    requires
        0 <= from <= k < cameras.len(),
        forall|i: int| from <= i < k ==> (#[trigger] cameras[i]).inactive_seconds != Some(0u64),
        cameras[k].inactive_seconds == Some(0u64),
    ensures
        inactivity_fault(cameras, from) == Some(
            ConfigFault::ZeroInactivity { camera: cameras[k].id@ },
        ),
    decreases k - from,
{
    if from < k {
        the_first_silent_camera_is_told(cameras, from + 1, k);
    }
}

/// Of the points of a calibration the first that breaks a rule is told: a level
/// that is no reading, then a brightness that is not from 1 to 100, then a level
/// that does not rise, then a brightness that falls.
pub proof fn the_first_bad_point_is_told(points: Seq<CalibrationPoint>, from: int, k: int)
    requires
        0 <= from <= k < points.len(),
        forall|i: int| from <= i < k ==> point_fault(points, i) is None,
    ensures
        !points[k].lux.is_reading() ==> calibration_fault(points, from) == Some(
            ConfigFault::InvalidLux,
        ),
        points[k].lux.is_reading() && (points[k].brightness < 1 || points[k].brightness > 100)
            ==> calibration_fault(points, from) == Some(ConfigFault::BrightnessOutOfRange),
        points[k].lux.is_reading() && 1 <= points[k].brightness <= 100 && k > 0
            && points[k].lux.le(points[k - 1].lux) ==> calibration_fault(points, from) == Some(
            ConfigFault::LuxNotIncreasing,
        ),
        points[k].lux.is_reading() && 1 <= points[k].brightness <= 100 && k > 0
            && !points[k].lux.le(points[k - 1].lux) && points[k].brightness < points[k
            - 1].brightness ==> calibration_fault(points, from) == Some(
            ConfigFault::BrightnessDecreasing,
        ),
        point_fault(points, k) is None <==> {
            &&& points[k].lux.is_reading()
            &&& 1 <= points[k].brightness <= 100
            &&& k > 0 ==> !points[k].lux.le(points[k - 1].lux) && points[k].brightness >= points[k
                - 1].brightness
        },
    decreases k - from,
{
    if from < k {
        assert(point_fault(points, from) is None);
        the_first_bad_point_is_told(points, from + 1, k);
    }
}

/// The look of a light is that of the first entry under its identity: its power,
/// its brightness, and its colour temperature as devices count it, a million
/// divided by the Kelvin, to the nearest and within 143 and 344. A light without
/// an entry has none.
pub proof fn the_first_entry_is_the_look(
    light: LightConfig,
    entries: Seq<PresetLightConfig>,
    id: Seq<char>,
    k: int,
)
    requires
        0 <= k <= entries.len(),
        forall|i: int| 0 <= i < k ==> (#[trigger] entries[i]).id@ != id,
        k < entries.len() ==> entries[k].id@ == id,
    ensures
        k == entries.len() ==> preset_look(entries, id) is None,
        k < entries.len() ==> preset_look(entries, id) is Some && {
            let look = preset_look(entries, id)->0;
            let kelvin = entries[k].temperature_kelvin as int;
            let mired = look.temperature as int;
            &&& look.on == entries[k].on
            &&& look.brightness == entries[k].brightness
            &&& 143 <= mired <= 344
            &&& kelvin <= 2900 ==> mired == 344
            &&& kelvin >= 7000 ==> mired == 143
            &&& 2900 <= kelvin <= 7000 ==> 2 * kelvin * mired <= 2_000_000 + kelvin && (mired < 344
                ==> 2_000_000 - kelvin < 2 * kelvin * mired)
        },
        light.preset is None ==> light.look_of(id) is None,
        light.preset matches Some(saved) ==> light.look_of(id) == preset_look(saved@, id),
    decreases entries.len(),
{
    if k < entries.len() {
        domain::mired_is_a_million_over_kelvin(entries[k].temperature_kelvin as int);
    }
    if k > 0 {
        assert(entries[0].id@ != id);
        let rest = entries.drop_first();
        assert forall|i: int| 0 <= i < k - 1 implies (#[trigger] rest[i]).id@ != id by {
            assert(entries[i + 1].id@ != id);
        }
        the_first_entry_is_the_look(light, rest, id, k - 1);
    }
}

/// What the faults say.
pub proof fn faults_in_words(id: Seq<char>)
    ensures
        ConfigFault::EmptyLightSelection.words() == "explicit light selection cannot be empty"@,
        ConfigFault::EmptyCameraSelection.words() == "explicit camera selection cannot be empty"@,
        ConfigFault::ZeroTiming.words() == "camera timing values must be greater than zero"@,
        (ConfigFault::EmptyIdentity { kind: IdentityKind::Light }).words() == "light"@
            + " identity cannot be empty"@,
        (ConfigFault::EmptyIdentity { kind: IdentityKind::Camera }).words() == "camera"@
            + " identity cannot be empty"@,
        (ConfigFault::DuplicateIdentity { kind: IdentityKind::Light, id }).words() == "duplicate "@
            + "light"@ + " identity "@ + id,
        (ConfigFault::DuplicateIdentity { kind: IdentityKind::Camera, id }).words() == "duplicate "@
            + "camera"@ + " identity "@ + id,
        (ConfigFault::ZeroInactivity { camera: id }).words() == "camera "@ + id
            + " has a zero inactivity timeout"@,
        ConfigFault::InvalidLux.words() == "calibration lux values must be finite and non-negative"@,
        ConfigFault::BrightnessOutOfRange.words()
            == "calibration brightness must be between 1 and 100"@,
        ConfigFault::LuxNotIncreasing.words()
            == "calibration lux values must be unique and increasing"@,
        ConfigFault::BrightnessDecreasing.words()
            == "calibration brightness must not decrease as lux increases"@,
{
}

/// An error shows the fault of its own name.
pub proof fn errors_show_their_fault(kind: IdentityKind, id: String)
    ensures
        ConfigError::EmptyLightSelection@ == ConfigFault::EmptyLightSelection,
        ConfigError::EmptyCameraSelection@ == ConfigFault::EmptyCameraSelection,
        ConfigError::ZeroTiming@ == ConfigFault::ZeroTiming,
        (ConfigError::EmptyIdentity { kind })@ == (ConfigFault::EmptyIdentity { kind }),
        (ConfigError::DuplicateIdentity { kind, id })@ == (ConfigFault::DuplicateIdentity {
            kind,
            id: id@,
        }),
        (ConfigError::ZeroInactivity { camera: id })@ == (ConfigFault::ZeroInactivity {
            camera: id@,
        }),
        ConfigError::InvalidLux@ == ConfigFault::InvalidLux,
        ConfigError::BrightnessOutOfRange@ == ConfigFault::BrightnessOutOfRange,
        ConfigError::LuxNotIncreasing@ == ConfigFault::LuxNotIncreasing,
        ConfigError::BrightnessDecreasing@ == ConfigFault::BrightnessDecreasing,
{
}

/// Without a file nothing is chosen, saved or calibrated, lights are looked for
/// three seconds long, and the cameras are looked at four times a second, with a
/// grace period and a timeout of five seconds and a helper that may be silent for
/// three.
pub proof fn defaults_by_field(config: Config)
    requires
        config.is_default(),
    ensures
        config.light.selected is None,
        config.light.address is None,
        config.light.discovery_timeout_seconds == 3,
        config.light.preset is None,
        config.camera.state_file@ == "/run/keylightd/camera-state.json"@,
        config.camera.poll_interval_ms == 250,
        config.camera.restore_grace_seconds == 5,
        config.camera.helper_stale_seconds == 3,
        config.camera.default_inactive_seconds == 5,
        config.camera.selected is None,
        config.ambient.sensor_path is None,
        config.ambient.calibration@.len() == 0,
{
}

} // verus!
