use std::path::Path;

use keylightd::camera::{
    camera_identity, completed_capture_minor, heartbeat_due, merge_scan, parse_udev_properties,
    record_frame, scan_cameras, snapshot, udev_file, CameraError, CameraMonitor, Monitoring,
    Sighting, VideoEntry, VideoNode, HEARTBEAT_INTERVAL,
};
use keylightd::config::CameraConfig;
use keylightd::domain::{CameraActivity, STATE_VERSION};

fn node(name: &str, index: &str, number: &str, properties: &str) -> VideoNode {
    VideoNode {
        name: Some(name.to_owned()),
        index: Some(index.to_owned()),
        number: Some(number.to_owned()),
        properties: Some(properties.to_owned()),
        label: Some("Label\n".to_owned()),
        canonical: Some("/sys/devices/x".to_owned()),
    }
}

fn entry(name: &str, index: &str, number: &str, properties: &str) -> VideoEntry {
    VideoEntry::Node {
        node: node(name, index, number, properties),
    }
}

#[test]
fn identifies_completed_video_frame_minor() {
    assert_eq!(
        completed_capture_minor(
            "v4l2_dqbuf: minor = 4, type = VIDEO_CAPTURE, bytesused = 94879, sequence = 1"
        ),
        Some(4)
    );
    assert_eq!(
        completed_capture_minor(
            "v4l2_dqbuf: minor = 4, type = VIDEO_CAPTURE, bytesused = 0, sequence = 1"
        ),
        None
    );
}

#[test]
fn parses_udev_identity_properties() {
    let properties =
        parse_udev_properties("E:ID_SERIAL=046d_MX_Brio_123\nE:ID_V4L_PRODUCT=MX Brio\n");
    assert_eq!(properties.get("ID_SERIAL").unwrap(), "046d_MX_Brio_123");
}

#[test]
fn other_trace_lines_tell_of_no_frame() {
    assert_eq!(
        completed_capture_minor("v4l2_qbuf: minor = 4, type = VIDEO_CAPTURE, bytesused = 9, x"),
        None
    );
    assert_eq!(
        completed_capture_minor("v4l2_dqbuf: minor = 4, type = META_CAPTURE, bytesused = 9, x"),
        None
    );
    assert_eq!(
        completed_capture_minor("v4l2_dqbuf: minor = 4, type = VIDEO_CAPTURE, bytesused = x, y"),
        None
    );
    assert_eq!(
        completed_capture_minor("v4l2_dqbuf: minor = 4, type = VIDEO_CAPTURE"),
        None
    );
    assert_eq!(
        completed_capture_minor("v4l2_dqbuf: type = VIDEO_CAPTURE, bytesused = 9"),
        None
    );
    assert_eq!(
        completed_capture_minor(
            "v4l2_dqbuf: minor = 4294967296, type = VIDEO_CAPTURE, bytesused = 9"
        ),
        None
    );
    assert_eq!(
        completed_capture_minor("v4l2_dqbuf: minor = 7, type = VIDEO_CAPTURE, bytesused = 000"),
        None
    );
}

#[test]
fn later_properties_replace_earlier_ones() {
    let properties = parse_udev_properties("E:A=1\nS:A=2\nE:B\r\nE:A=3=4\r\nE:=\n");
    assert_eq!(properties.get("A").unwrap(), "3=4");
    assert_eq!(properties.get("").unwrap(), "");
    assert_eq!(properties.len(), 2);
}

#[test]
fn identity_falls_back_from_serial_to_path_to_sysfs() {
    let canonical = Some("/sys/devices/x".to_owned());
    let properties = parse_udev_properties("E:ID_SERIAL=S\nE:ID_PATH=P\n");
    assert_eq!(camera_identity(&properties, &canonical).unwrap(), "serial:S");
    let properties = parse_udev_properties("E:ID_PATH=P\n");
    assert_eq!(camera_identity(&properties, &canonical).unwrap(), "path:P");
    let properties = parse_udev_properties("");
    assert_eq!(
        camera_identity(&properties, &canonical).unwrap(),
        "sysfs:/sys/devices/x"
    );
    let error = camera_identity(&properties, &None).unwrap_err();
    assert_eq!(error.message(), "camera has no stable identity");
}

#[test]
fn interfaces_with_one_serial_are_one_camera() {
    let cameras = scan_cameras(&vec![
        entry("video0", "0\n", "81:0\n", "E:ID_SERIAL=S\nE:ID_V4L_PRODUCT=Brio\n"),
        entry("video1", "1\n", "81:1\n", "E:ID_SERIAL=S\n"),
        entry("video2", "0\n", "81:2\n", "E:ID_SERIAL=S\nE:ID_V4L_PRODUCT=Other\n"),
        entry("video4", "0", "81:4", ""),
    ])
    .unwrap();
    assert_eq!(cameras.len(), 2);
    let brio = cameras.get("serial:S").unwrap();
    assert_eq!(brio.id, "serial:S");
    assert_eq!(brio.name, "Brio");
    assert_eq!(brio.devices, vec!["/dev/video0".to_owned(), "/dev/video2".to_owned()]);
    assert_eq!(brio.minors, vec![0, 2]);
    assert_eq!(brio.last_frame_ms, None);
    let other = cameras.get("sysfs:/sys/devices/x").unwrap();
    assert_eq!(other.name, "Label");
}

#[test]
fn a_camera_without_any_name_is_shown_by_its_device() {
    let mut bare = node("video0", "0", "81:0", "E:ID_SERIAL=S\n");
    bare.label = None;
    let cameras = scan_cameras(&vec![VideoEntry::Node { node: bare }]).unwrap();
    assert_eq!(cameras.get("serial:S").unwrap().name, "/dev/video0");
}

#[test]
fn scans_fail_on_the_first_entry_that_cannot_be_understood() {
    let refused = |entry: VideoEntry| scan_cameras(&vec![entry]).unwrap_err().message();
    assert_eq!(refused(VideoEntry::Unreadable), "read video device entry");
    let mut bad = node("video0", "0", "81:0", "");
    bad.name = None;
    assert_eq!(
        refused(VideoEntry::Node { node: bad }),
        "video device has no valid name"
    );
    let mut bad = node("video0", "0", "81:0", "");
    bad.number = None;
    assert_eq!(
        refused(VideoEntry::Node { node: bad }),
        "read device number for /dev/video0"
    );
    assert_eq!(
        refused(entry("video0", "0", "81", "")),
        "video device number has no minor"
    );
    assert_eq!(
        refused(entry("video0", "0", "81:x", "")),
        "parse video device minor"
    );
    let mut bad = node("video0", "0", "81:0", "");
    bad.canonical = None;
    assert_eq!(
        refused(VideoEntry::Node { node: bad }),
        "camera has no stable identity"
    );
    let mut skipped = node("video0", "0", "81:0", "");
    skipped.index = None;
    skipped.name = None;
    assert!(scan_cameras(&vec![VideoEntry::Node { node: skipped }])
        .unwrap()
        .is_empty());
    assert!(matches!(
        scan_cameras(&vec![
            entry("video0", "0", "81", ""),
            VideoEntry::Unreadable
        ]),
        Err(CameraError::NoMinor)
    ));
}

#[test]
fn frames_are_noted_and_survive_a_rescan() {
    let entries = vec![
        entry("video0", "0", "81:0", "E:ID_SERIAL=A\n"),
        entry("video2", "0", "81:2", "E:ID_SERIAL=B\n"),
    ];
    let mut cameras = scan_cameras(&entries).unwrap();
    assert_eq!(
        record_frame(&mut cameras, 2, 500),
        Sighting::Seen { first: true }
    );
    assert_eq!(
        record_frame(&mut cameras, 2, 600),
        Sighting::Seen { first: false }
    );
    assert_eq!(record_frame(&mut cameras, 9, 700), Sighting::Unknown);
    let cameras = merge_scan(&cameras, scan_cameras(&entries).unwrap());
    assert_eq!(cameras.get("serial:A").unwrap().last_frame_ms, None);
    assert_eq!(cameras.get("serial:B").unwrap().last_frame_ms, Some(600));

    let state = snapshot(&cameras, 800);
    assert_eq!(state.version, STATE_VERSION);
    assert_eq!(state.heartbeat_ms, 800);
    assert_eq!(state.cameras.len(), 2);
    assert_eq!(state.cameras[0].id, "serial:A");
    assert_eq!(state.cameras[1].devices, vec!["/dev/video2".to_owned()]);
    assert_eq!(
        state.activity(900, &CameraConfig::default()),
        CameraActivity::Active
    );
}

#[test]
fn a_camera_that_is_gone_is_forgotten() {
    let mut cameras =
        scan_cameras(&vec![entry("video0", "0", "81:0", "E:ID_SERIAL=A\n")]).unwrap();
    record_frame(&mut cameras, 0, 500);
    let cameras = merge_scan(&cameras, scan_cameras(&Vec::new()).unwrap());
    assert!(cameras.is_empty());
}

#[test]
fn the_heartbeat_is_due_after_its_interval() {
    assert!(heartbeat_due(None, 0));
    assert!(!heartbeat_due(Some(5), 5 + HEARTBEAT_INTERVAL - 1));
    assert!(heartbeat_due(Some(5), 5 + HEARTBEAT_INTERVAL));
    assert!(!heartbeat_due(Some(5), 4));
}

#[test]
fn device_database_files_are_named_by_number() {
    assert_eq!(udev_file(" 81:4\n"), "c81:4");
    let monitor = CameraMonitor::new("/sys/kernel/tracing".into(), "/run/x".into());
    assert_eq!(monitor.tracefs, Path::new("/sys/kernel/tracing"));
    assert_eq!(monitor.state_file, Path::new("/run/x"));
}

#[test]
fn state_is_published_on_frames_and_heartbeats() {
    let entries = vec![entry("video0", "0", "81:0", "E:ID_SERIAL=A\n")];
    let mut monitoring = Monitoring::new(scan_cameras(&entries).unwrap());
    assert!(!monitoring.take_publish(0));
    assert!(monitoring.scan_due(0));
    monitoring.take_scan(scan_cameras(&entries).unwrap());
    assert!(monitoring.take_publish(5));
    assert!(!monitoring.take_publish(6));
    assert!(!monitoring.scan_due(6));
    assert_eq!(monitoring.see_frame(9, 100), Sighting::Unknown);
    assert!(!monitoring.take_publish(7));
    assert_eq!(
        monitoring.see_frame(0, 100),
        Sighting::Seen { first: true }
    );
    assert!(monitoring.take_publish(8));
    assert!(monitoring.scan_due(8 + HEARTBEAT_INTERVAL));
    monitoring.take_scan(scan_cameras(&entries).unwrap());
    assert_eq!(
        monitoring.cameras.get("serial:A").unwrap().last_frame_ms,
        Some(100)
    );
}
