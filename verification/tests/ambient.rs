use keylightd::ambient::{
    brightness_for_lux, call_brightness, is_calibrated, sensor_input, AmbientSensor, CurvePlace,
    DeviceEntry, SensorFile,
};
use keylightd::config::{AmbientConfig, CalibrationPoint};
use keylightd::lux::Lux;

fn lux(value: f64) -> Lux {
    Lux {
        bits: value.to_bits(),
    }
}

fn point(level: f64, brightness: u8) -> CalibrationPoint {
    CalibrationPoint {
        lux: lux(level),
        brightness,
    }
}

fn interpolated(points: &Vec<CalibrationPoint>, level: f64) -> Option<u8> {
    match brightness_for_lux(points, lux(level))? {
        CurvePlace::At { brightness } => Some(brightness),
        CurvePlace::Between { low, high } => {
            let (below, above) = (f64::from_bits(low.lux.bits), f64::from_bits(high.lux.bits));
            let ratio = (level - below) / (above - below);
            let brightness = f64::from(low.brightness)
                + ratio * (f64::from(high.brightness) - f64::from(low.brightness));
            Some(brightness.round().clamp(1.0, 100.0) as u8)
        }
    }
}

fn file(path: &str, is_file: bool) -> SensorFile {
    SensorFile {
        path: path.to_owned(),
        is_file,
    }
}

#[test]
fn interpolates_and_clamps_calibration() {
    let points = vec![point(10.0, 20), point(110.0, 80)];
    assert_eq!(interpolated(&points, 0.0), Some(20));
    assert_eq!(interpolated(&points, 60.0), Some(50));
    assert_eq!(interpolated(&points, 200.0), Some(80));
}

#[test]
fn requires_calibration() {
    assert_eq!(brightness_for_lux(&Vec::new(), lux(10.0)), None);
}

#[test]
fn readings_fall_between_the_points_that_enclose_them() {
    let points = vec![point(10.0, 20), point(20.0, 30), point(40.0, 80)];
    assert_eq!(
        brightness_for_lux(&points, lux(30.0)),
        Some(CurvePlace::Between {
            low: point(20.0, 30),
            high: point(40.0, 80),
        })
    );
    assert_eq!(
        brightness_for_lux(&points, lux(20.0)),
        Some(CurvePlace::Between {
            low: point(10.0, 20),
            high: point(20.0, 30),
        })
    );
    assert_eq!(
        brightness_for_lux(&points, lux(40.0)),
        Some(CurvePlace::At { brightness: 80 })
    );
    assert_eq!(brightness_for_lux(&points, lux(f64::NAN)), None);
}

#[test]
fn invalid_readings_give_no_brightness() {
    let ambient = AmbientConfig {
        sensor_path: None,
        calibration: vec![point(10.0, 20)],
    };
    assert!(is_calibrated(&ambient));
    assert_eq!(call_brightness(&ambient, None), None);
    assert_eq!(call_brightness(&ambient, Some(lux(-1.0))), None);
    assert_eq!(call_brightness(&ambient, Some(lux(f64::INFINITY))), None);
    assert_eq!(call_brightness(&ambient, Some(lux(f64::NAN))), None);
    assert_eq!(
        call_brightness(&ambient, Some(lux(5.0))),
        Some(CurvePlace::At { brightness: 20 })
    );
    let bare = AmbientConfig::default();
    assert!(!is_calibrated(&bare));
    assert_eq!(call_brightness(&bare, Some(lux(5.0))), None);
}

#[test]
fn the_configured_sensor_comes_first() {
    let devices = Some(vec![DeviceEntry::Device {
        input: file("/sys/a", true),
    }]);
    let sensor = AmbientSensor::new(Some(file("/tmp/lux", true)), devices).unwrap();
    assert_eq!(sensor.path(), "/tmp/lux");
    let error = AmbientSensor::new(Some(file("/tmp/lux", false)), None).unwrap_err();
    assert_eq!(
        error.message(),
        "configured ambient sensor /tmp/lux is not a file"
    );
}

#[test]
fn the_first_device_with_a_sensor_is_taken() {
    let devices = Some(vec![
        DeviceEntry::Device {
            input: file("/sys/a", false),
        },
        DeviceEntry::Device {
            input: file("/sys/b", true),
        },
        DeviceEntry::Unreadable,
    ]);
    let sensor = AmbientSensor::new(None, devices).unwrap();
    assert_eq!(sensor.path(), "/sys/b");
    assert_eq!(
        sensor_input("/sys/bus/iio/devices/iio:device0"),
        "/sys/bus/iio/devices/iio:device0/in_illuminance_input"
    );
}

#[test]
fn a_missing_sensor_is_an_error() {
    let message = |devices| AmbientSensor::new(None, devices).unwrap_err().message();
    assert_eq!(
        message(None),
        "ambient light sensor unavailable: /sys/bus/iio/devices"
    );
    assert_eq!(
        message(Some(vec![DeviceEntry::Unreadable])),
        "read IIO device entry"
    );
    assert_eq!(
        message(Some(Vec::new())),
        "no IIO ambient light sensor exposes in_illuminance_input"
    );
}
