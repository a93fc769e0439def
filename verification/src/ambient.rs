//! The ambient light sensor, and the brightness that calibration gives for its
//! reading.

use vstd::prelude::*;

use crate::config;
use crate::config::{AmbientConfig, CalibrationPoint};
use crate::lux::Lux;

verus! {

/// Where the devices stand that may have a sensor.
pub const DEVICE_ROOT: &'static str = "/sys/bus/iio/devices";

/// A sensor that can be read.
#[derive(Debug)]
pub struct AmbientSensor {
    pub path: String,
}

/// A file that may be a sensor, and whether it is a file at all.
#[derive(Debug)]
pub struct SensorFile {
    pub path: String,
    pub is_file: bool,
}

/// An entry among the devices.
#[derive(Debug)]
pub enum DeviceEntry {
    Unreadable,
    /// A device, and the file that it has where it has a sensor.
    Device { input: SensorFile },
}

/// Why there is no sensor.
#[derive(Debug)]
pub enum SensorError {
    /// The configured sensor is not a file.
    NotAFile { path: String },
    /// The devices cannot be listed.
    Unavailable,
    UnreadableEntry,
    /// No device has a sensor.
    NoSensor,
}

/// What a [`SensorError`] says.
pub enum SensorFault {
    NotAFile { path: Seq<char> },
    Unavailable,
    UnreadableEntry,
    NoSensor,
}

impl SensorFault {
    /// The fault in words.
    pub open spec fn words(self) -> Seq<char> {
        match self {
            SensorFault::NotAFile { path } => "configured ambient sensor "@ + path
                + " is not a file"@,
            SensorFault::Unavailable =>
                "ambient light sensor unavailable: /sys/bus/iio/devices"@,
            SensorFault::UnreadableEntry => "read IIO device entry"@,
            SensorFault::NoSensor =>
                "no IIO ambient light sensor exposes in_illuminance_input"@,
        }
    }
}

impl SensorError {
    pub open spec fn view(&self) -> SensorFault {
        match *self {
            SensorError::NotAFile { path } => SensorFault::NotAFile { path: path@ },
            SensorError::Unavailable => SensorFault::Unavailable,
            SensorError::UnreadableEntry => SensorFault::UnreadableEntry,
            SensorError::NoSensor => SensorFault::NoSensor,
        }
    }

    /// The error in words.
    pub fn message(&self) -> (r: String)
        ensures
            r@ == self@.words(),
    {
        match self {
            SensorError::NotAFile { path } => "configured ambient sensor ".to_owned().concat(
                path.as_str(),
            ).concat(" is not a file"),
            SensorError::Unavailable =>
                "ambient light sensor unavailable: /sys/bus/iio/devices".to_owned(),
            SensorError::UnreadableEntry => "read IIO device entry".to_owned(),
            SensorError::NoSensor =>
                "no IIO ambient light sensor exposes in_illuminance_input".to_owned(),
        }
    }
}

/// The file of the device at `device` that a sensor would be read from.
pub fn sensor_input(device: &str) -> (r: String)
    ensures
        r@ == device@ + "/in_illuminance_input"@,
{
    device.to_owned().concat("/in_illuminance_input")
}

/// The first sensor among the devices, from place `from` on.
pub open spec fn sensor_among(devices: Seq<DeviceEntry>, from: int) -> Result<
    Seq<char>,
    SensorFault,
>
    decreases devices.len() - from,
{
    if from < 0 || from >= devices.len() {
        Err(SensorFault::NoSensor)
    } else {
        match devices[from] {
            DeviceEntry::Unreadable => Err(SensorFault::UnreadableEntry),
            DeviceEntry::Device { input } => if input.is_file {
                Ok(input.path@)
            } else {
                sensor_among(devices, from + 1)
            },
        }
    }
}

/// The sensor to read: the configured one, else the first among the devices.
pub open spec fn sensor_chosen(
    configured: Option<SensorFile>,
    devices: Option<Vec<DeviceEntry>>,
) -> Result<Seq<char>, SensorFault> {
    match configured {
        Some(file) => if file.is_file {
            Ok(file.path@)
        } else {
            Err(SensorFault::NotAFile { path: file.path@ })
        },
        None => match devices {
            None => Err(SensorFault::Unavailable),
            Some(devices) => sensor_among(devices@, 0),
        },
    }
}

/// Whether a device has a sensor, and it is read from the file at `path`.
pub open spec fn has_sensor_at(device: DeviceEntry, path: Seq<char>) -> bool {
    device matches DeviceEntry::Device { input } && input.is_file && input.path@ == path
}

/// Whether the devices ahead of place `k` can all be read, and none of them has
/// a sensor.
pub open spec fn none_before(devices: Seq<DeviceEntry>, k: int) -> bool {
    forall|j: int|
        0 <= j < k ==> (#[trigger] devices[j] matches DeviceEntry::Device { input }
            && !input.is_file)
}

proof fn sensor_from(devices: Seq<DeviceEntry>, from: int) -> (k: int)
    requires
        0 <= from <= devices.len(),
        none_before(devices, from),
    ensures
        from <= k <= devices.len(),
        none_before(devices, k),
        k == devices.len() ==> sensor_among(devices, from) == Err::<Seq<char>, SensorFault>(
            SensorFault::NoSensor,
        ),
        k < devices.len() ==> match devices[k] {
            DeviceEntry::Unreadable => sensor_among(devices, from) == Err::<
                Seq<char>,
                SensorFault,
            >(SensorFault::UnreadableEntry),
            DeviceEntry::Device { input } => input.is_file && sensor_among(devices, from) == Ok::<
                Seq<char>,
                SensorFault,
            >(input.path@),
        },
    decreases devices.len() - from,
{
    if from == devices.len() {
        from
    } else {
        match devices[from] {
            DeviceEntry::Unreadable => from,
            DeviceEntry::Device { input } => if input.is_file {
                from
            } else {
                sensor_from(devices, from + 1)
            },
        }
    }
}

/// Among the devices the first that has a sensor is taken, whatever comes behind
/// it; a device that cannot be read ends the search, and where no device has a
/// sensor there is none.
pub proof fn the_first_sensor_is_found(devices: Seq<DeviceEntry>) -> (k: int)
    ensures
        0 <= k <= devices.len(),
        forall|j: int|
            0 <= j < k ==> (#[trigger] devices[j] matches DeviceEntry::Device { input }
                && !input.is_file),
        k == devices.len() ==> sensor_among(devices, 0) == Err::<Seq<char>, SensorFault>(
            SensorFault::NoSensor,
        ),
        k < devices.len() ==> match devices[k] {
            DeviceEntry::Unreadable => sensor_among(devices, 0) == Err::<Seq<char>, SensorFault>(
                SensorFault::UnreadableEntry,
            ),
            DeviceEntry::Device { input } => input.is_file && sensor_among(devices, 0) == Ok::<
                Seq<char>,
                SensorFault,
            >(input.path@),
        },
{
    sensor_from(devices, 0)
}

fn first_sensor(devices: &Vec<DeviceEntry>) -> (r: Result<AmbientSensor, SensorError>)
    ensures
        match (r, sensor_among(devices@, 0)) {
            (Ok(sensor), Ok(path)) => sensor.path@ == path,
            (Err(e), Err(fault)) => e@ == fault,
            _ => false,
        },
{
    let mut i: usize = 0;
    while i < devices.len()
        invariant
            i <= devices@.len(),
            sensor_among(devices@, 0) == sensor_among(devices@, i as int),
        decreases devices@.len() - i,
    {
        match &devices[i] {
            DeviceEntry::Unreadable => {
                return Err(SensorError::UnreadableEntry);
            },
            DeviceEntry::Device { input } => {
                if input.is_file {
                    return Ok(AmbientSensor { path: input.path.clone() });
                }
            },
        }
        i += 1;
    }
    Err(SensorError::NoSensor)
}

impl AmbientSensor {
    /// The sensor to read: the configured one, else the first among the
    /// devices, which are `None` where they cannot be listed.
    pub fn new(configured: Option<SensorFile>, devices: Option<Vec<DeviceEntry>>) -> (r: Result<
        Self,
        SensorError,
    >)
        ensures
            match (r, sensor_chosen(configured, devices)) {
                (Ok(sensor), Ok(path)) => sensor.path@ == path,
                (Err(e), Err(fault)) => e@ == fault,
                _ => false,
            },
            configured matches Some(file) ==> if file.is_file {
                r matches Ok(sensor) && sensor.path@ == file.path@
            } else {
                r matches Err(SensorError::NotAFile { path }) && path@ == file.path@
            },
            configured is None && devices is None ==> r matches Err(SensorError::Unavailable),
            configured is None && devices is Some ==> match r {
                Ok(sensor) => exists|k: int|
                    0 <= k < devices->0@.len() && has_sensor_at(devices->0@[k], sensor.path@)
                        && #[trigger] none_before(devices->0@, k),
                Err(SensorError::UnreadableEntry) => exists|k: int|
                    0 <= k < devices->0@.len() && devices->0@[k] is Unreadable
                        && #[trigger] none_before(devices->0@, k),
                Err(SensorError::NoSensor) => none_before(
                    devices->0@,
                    devices->0@.len() as int,
                ),
                _ => false,
            },
    {
        proof {
            if configured is None && devices is Some {
                let k = the_first_sensor_is_found(devices->0@);
                assert(none_before(devices->0@, k));
            }
        }
        if let Some(file) = configured {
            if !file.is_file {
                return Err(SensorError::NotAFile { path: file.path });
            }
            return Ok(AmbientSensor { path: file.path });
        }
        match devices {
            None => Err(SensorError::Unavailable),
            Some(devices) => first_sensor(&devices),
        }
    }

    /// The file that the sensor is read from.
    pub fn path(&self) -> (r: &str)
        ensures
            r@ == self.path@,
    {
        self.path.as_str()
    }
}

// ---- calibration ----

/// Where a reading falls on the calibration curve.
#[derive(Clone, Copy, Debug, PartialEq, Eq, Structural)]
pub enum CurvePlace {
    /// On or beyond a point: its brightness.
    At { brightness: u8 },
    /// Between two points, to be interpolated.
    Between { low: CalibrationPoint, high: CalibrationPoint },
}

/// Where `lux` falls between neighbours on the curve, from place `from` on.
pub open spec fn place_between(points: Seq<CalibrationPoint>, lux: Lux, from: int) -> Option<
    CurvePlace,
>
    decreases points.len() - from,
{
    if from < 0 || from + 1 >= points.len() {
        None
    } else {
        let low = points[from];
        let high = points[from + 1];
        if !(low.lux.le(lux) && lux.le(high.lux)) {
            place_between(points, lux, from + 1)
        } else if high.lux.le(low.lux) {
            Some(CurvePlace::At { brightness: high.brightness })
        } else {
            Some(CurvePlace::Between { low, high })
        }
    }
}

/// Where `lux` falls on the curve: at an end where it lies beyond it.
pub open spec fn place_on(points: Seq<CalibrationPoint>, lux: Lux) -> Option<CurvePlace> {
    if points.len() == 0 {
        None
    } else if lux.le(points[0].lux) {
        Some(CurvePlace::At { brightness: points[0].brightness })
    } else if points.last().lux.le(lux) {
        Some(CurvePlace::At { brightness: points.last().brightness })
    } else {
        place_between(points, lux, 0)
    }
}

fn find_between(points: &Vec<CalibrationPoint>, lux: Lux) -> (r: Option<CurvePlace>)
    requires
        points@.len() > 0,
    ensures
        r == place_between(points@, lux, 0),
{
    let mut i: usize = 0;
    while i < points.len() - 1
        invariant
            0 < points@.len(),
            i < points@.len(),
            place_between(points@, lux, 0) == place_between(points@, lux, i as int),
        decreases points@.len() - i,
    {
        let low = points[i];
        let high = points[i + 1];
        if low.lux.at_most(lux) && lux.at_most(high.lux) {
            if high.lux.at_most(low.lux) {
                return Some(CurvePlace::At { brightness: high.brightness });
            }
            return Some(CurvePlace::Between { low, high });
        }
        i += 1;
    }
    None
}

/// Where `lux` falls on the calibration curve. A reading between two points is
/// left to be interpolated, in floating point, by the caller.
pub fn brightness_for_lux(points: &Vec<CalibrationPoint>, lux: Lux) -> (r: Option<CurvePlace>)
    ensures
        r == place_on(points@, lux),
        r matches Some(CurvePlace::Between { low, high }) ==> exists|i: int|
            0 <= i < points@.len() - 1 && low == #[trigger] points@[i] && high == points@[i + 1]
                && low.lux.le(lux) && lux.le(high.lux) && !high.lux.le(low.lux),
        points@.len() > 0 && lux.le(points@[0].lux) ==> r == Some(
            CurvePlace::At { brightness: points@[0].brightness },
        ),
        points@.len() > 0 && !lux.le(points@[0].lux) && points@.last().lux.le(lux) ==> r == Some(
            CurvePlace::At { brightness: points@.last().brightness },
        ),
{
    proof {
        if points@.len() > 0 {
            neighbours_from(points@, lux, 0);
        }
    }
    if points.len() == 0 {
        return None;
    }
    let first = points[0];
    if lux.at_most(first.lux) {
        return Some(CurvePlace::At { brightness: first.brightness });
    }
    let last = points[points.len() - 1];
    if last.lux.at_most(lux) {
        return Some(CurvePlace::At { brightness: last.brightness });
    }
    find_between(points, lux)
}

/// Where the reading that a session begins with falls on the curve: nowhere
/// without calibration, without a reading, or with one that is not a valid
/// number of lux.
pub fn call_brightness(ambient: &AmbientConfig, reading: Option<Lux>) -> (r: Option<CurvePlace>)
    ensures
        r == (match reading {
            Some(lux) => if lux.is_reading() {
                place_on(ambient.calibration@, lux)
            } else {
                None
            },
            None => None,
        }),
{
    match reading {
        Some(lux) => if lux.is_valid_reading() {
            brightness_for_lux(&ambient.calibration, lux)
        } else {
            None
        },
        None => None,
    }
}

/// Whether the sensor has to be read at all.
pub fn is_calibrated(ambient: &AmbientConfig) -> (r: bool)
    ensures
        r == (ambient.calibration@.len() > 0),
{
    ambient.calibration.len() > 0
}

proof fn between_is_found(points: Seq<CalibrationPoint>, lux: Lux, from: int)
    requires
        config::sound_calibration(points),
        lux.is_reading(),
        0 <= from < points.len(),
        points[from].lux.rank() <= lux.rank(),
        lux.rank() < points.last().lux.rank(),
    ensures
        ({
            let place = place_between(points, lux, from);
            &&& place is Some
            &&& place->0 matches CurvePlace::Between { low, high }
            &&& low.lux.le(lux) && lux.le(high.lux)
            &&& low.lux.rank() < high.lux.rank()
            &&& 1 <= low.brightness <= high.brightness <= 100
        }),
    decreases points.len() - from,
{
    if from + 1 < points.len() {
        assert(points[from].lux.rank() < points[from + 1].lux.rank());
        if points[from + 1].lux.rank() < lux.rank() {
            between_is_found(points, lux, from + 1);
        }
    }
}

/// On a valid curve every valid reading has a place: at the nearest end where
/// it lies beyond the curve, else between two neighbours that enclose it and
/// whose brightness does not fall.
pub proof fn every_reading_has_a_place(points: Seq<CalibrationPoint>, lux: Lux)
    requires
        config::sound_calibration(points),
        points.len() > 0,
        lux.is_reading(),
    ensures
        place_on(points, lux) is Some,
        match place_on(points, lux)->0 {
            CurvePlace::At { brightness } => {
                ||| lux.le(points[0].lux) && brightness == points[0].brightness
                ||| points.last().lux.le(lux) && brightness == points.last().brightness
            },
            CurvePlace::Between { low, high } => {
                &&& points[0].lux.rank() < lux.rank() < points.last().lux.rank()
                &&& low.lux.le(lux) && lux.le(high.lux)
                &&& low.lux.rank() < high.lux.rank()
                &&& 1 <= low.brightness <= high.brightness <= 100
            },
        },
{
    assert(points[0].lux.is_reading());
    assert(points[points.len() - 1].lux.is_reading());
    if points[0].lux.rank() < lux.rank() < points.last().lux.rank() {
        between_is_found(points, lux, 0);
    }
}

/// The neighbours between which a reading is placed are the first two, from
/// place `from` on, that enclose it.
proof fn neighbours_from(points: Seq<CalibrationPoint>, lux: Lux, from: int) -> (i: int)
    requires
        0 <= from < points.len(),
    ensures
        from <= i < points.len(),
        forall|j: int|
            from <= j < i ==> !((#[trigger] points[j]).lux.le(lux) && lux.le(points[j + 1].lux)),
        i == points.len() - 1 ==> place_between(points, lux, from) is None,
        i < points.len() - 1 ==> {
            &&& points[i].lux.le(lux) && lux.le(points[i + 1].lux)
            &&& place_between(points, lux, from) == if points[i + 1].lux.le(points[i].lux) {
                Some(CurvePlace::At { brightness: points[i + 1].brightness })
            } else {
                Some(CurvePlace::Between { low: points[i], high: points[i + 1] })
            }
        },
    decreases points.len() - from,
{
    if from == points.len() - 1 {
        from
    } else if points[from].lux.le(lux) && lux.le(points[from + 1].lux) {
        from
    } else {
        neighbours_from(points, lux, from + 1)
    }
}

/// On a valid curve a valid reading inside it is placed between the two
/// neighbouring points that enclose it, and a reading at or beyond an end has the
/// brightness of that end.
pub proof fn readings_fall_between_neighbours(points: Seq<CalibrationPoint>, lux: Lux)
    requires
        config::sound_calibration(points),
        points.len() > 0,
        lux.is_reading(),
    ensures
        lux.le(points[0].lux) ==> place_on(points, lux) == Some(
            CurvePlace::At { brightness: points[0].brightness },
        ),
        points.last().lux.le(lux) ==> place_on(points, lux) == Some(
            CurvePlace::At { brightness: points.last().brightness },
        ),
        !lux.le(points[0].lux) && !points.last().lux.le(lux) ==> exists|i: int|
            0 <= i < points.len() - 1 && (#[trigger] points[i]).lux.le(lux) && lux.le(
                points[i + 1].lux,
            ) && place_on(points, lux) == Some(
                CurvePlace::Between { low: points[i], high: points[i + 1] },
            ),
{
    assert(points[0].lux.is_reading());
    assert(points[points.len() - 1].lux.is_reading());
    if !lux.le(points[0].lux) && !points.last().lux.le(lux) {
        between_is_found(points, lux, 0);
        let i = neighbours_from(points, lux, 0);
        assert(points[i].lux.le(lux));
    } else if lux.le(points[0].lux) && points.last().lux.le(lux) && points.len() > 1 {
        assert(points[0].lux.rank() < points[points.len() - 1].lux.rank());
    }
}

/// What the faults say, and where the devices stand.
pub proof fn faults_in_words(path: Seq<char>)
    ensures
        (SensorFault::NotAFile { path }).words() == "configured ambient sensor "@ + path
            + " is not a file"@,
        SensorFault::Unavailable.words()
            == "ambient light sensor unavailable: /sys/bus/iio/devices"@,
        SensorFault::UnreadableEntry.words() == "read IIO device entry"@,
        SensorFault::NoSensor.words()
            == "no IIO ambient light sensor exposes in_illuminance_input"@,
        DEVICE_ROOT@ == "/sys/bus/iio/devices"@,
{
}

/// Whatever the points are, a reading inside the curve is placed by the first two
/// neighbours that enclose it: between them where the level rises, and at the
/// second where it does not; where no two enclose it, it has no place.
pub proof fn the_first_enclosing_neighbours_count(
    points: Seq<CalibrationPoint>,
    lux: Lux,
    i: int,
)
    requires
        0 <= i < points.len(),
        !lux.le(points[0].lux),
        !points.last().lux.le(lux),
        forall|j: int|
            0 <= j < i ==> !((#[trigger] points[j]).lux.le(lux) && lux.le(points[j + 1].lux)),
        i < points.len() - 1 ==> points[i].lux.le(lux) && lux.le(points[i + 1].lux),
    ensures
        i == points.len() - 1 ==> place_on(points, lux) is None,
        i < points.len() - 1 && points[i + 1].lux.le(points[i].lux) ==> place_on(points, lux)
            == Some(CurvePlace::At { brightness: points[i + 1].brightness }),
        i < points.len() - 1 && !points[i + 1].lux.le(points[i].lux) ==> place_on(points, lux)
            == Some(CurvePlace::Between { low: points[i], high: points[i + 1] }),
{
    let k = neighbours_from(points, lux, 0);
    if k < i {
        assert(!(points[k].lux.le(lux) && lux.le(points[k + 1].lux)));
    }
    if i < k {
        assert(!(points[i].lux.le(lux) && lux.le(points[i + 1].lux)));
    }
}

/// An error shows the fault of its own name.
pub proof fn errors_show_their_fault(path: String)
    ensures
        (SensorError::NotAFile { path })@ == (SensorFault::NotAFile { path: path@ }),
        SensorError::Unavailable@ == SensorFault::Unavailable,
        SensorError::UnreadableEntry@ == SensorFault::UnreadableEntry,
        SensorError::NoSensor@ == SensorFault::NoSensor,
{
}

} // verus!
