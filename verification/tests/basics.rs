use keylightd::lock::{
    pause_end, pause_step, LockEvent, LockStep, LockWait, PauseStep, Taken, SLICE,
};
use keylightd::lux::Lux;
use keylightd::text;
use keylightd::text_map::TextMap;
use keylightd::time::{boottime_ms, ClockError};

fn lux(value: f64) -> Lux {
    Lux {
        bits: value.to_bits(),
    }
}

#[test]
fn a_free_lock_is_acquired_at_once() {
    let mut wait = LockWait::new(0);
    assert_eq!(
        wait.next(LockEvent::Begun { shutdown: false }, 0),
        LockStep::Try
    );
    assert_eq!(
        wait.next(
            LockEvent::Tried {
                taken: Taken::Acquired
            },
            0
        ),
        LockStep::Acquired
    );
    assert!(!wait.waited);
}

#[test]
fn a_stop_request_preempts_the_lock() {
    let mut wait = LockWait::new(0);
    assert_eq!(
        wait.next(LockEvent::Begun { shutdown: true }, 0),
        LockStep::Shutdown
    );
    assert_eq!(
        wait.next(
            LockEvent::Tried {
                taken: Taken::Failed
            },
            0
        ),
        LockStep::Failed
    );
}

#[test]
fn a_held_lock_is_waited_for_with_growing_pauses() {
    let mut wait = LockWait::new(0);
    for (at, seconds) in [1, 2, 4, 8, 16, 30, 30].into_iter().enumerate() {
        assert_eq!(
            wait.next(
                LockEvent::Tried {
                    taken: Taken::InUse
                },
                0
            ),
            LockStep::Pause {
                seconds,
                first: at == 0
            }
        );
        assert!(wait.waited);
        assert_eq!(
            wait.next(LockEvent::Paused { shutdown: false }, 0),
            LockStep::Try
        );
    }
    assert_eq!(
        wait.next(LockEvent::Paused { shutdown: true }, 0),
        LockStep::Shutdown
    );
}

#[test]
fn pauses_are_sliced() {
    let end = pause_end(5, 1);
    assert_eq!(end, 1_000_000_005);
    assert_eq!(pause_step(true, 5, end), PauseStep::Shutdown);
    assert_eq!(pause_step(false, 5, end), PauseStep::Sleep { nanos: SLICE });
    assert_eq!(
        pause_step(false, 1_000_000_000, end),
        PauseStep::Sleep { nanos: 5 }
    );
    assert_eq!(pause_step(false, 1_000_000_005, end), PauseStep::Over);
}

#[test]
fn boot_time_is_given_in_milliseconds() {
    assert_eq!(boottime_ms(12, 345_678_901), Ok(12_345));
    assert_eq!(boottime_ms(-1, 0), Err(ClockError::NegativeSeconds));
    assert_eq!(boottime_ms(0, -1), Err(ClockError::NegativeNanoseconds));
    assert_eq!(boottime_ms(i64::MAX, 0), Err(ClockError::TooLarge));
    assert_eq!(
        ClockError::TooLarge.message(),
        "CLOCK_BOOTTIME exceeds u64 milliseconds"
    );
}

#[test]
fn levels_compare_as_numbers() {
    assert!(lux(1.0).at_most(lux(2.0)));
    assert!(!lux(2.0).at_most(lux(1.0)));
    assert!(lux(-0.0).at_most(lux(0.0)) && lux(0.0).at_most(lux(-0.0)));
    assert!(!lux(f64::NAN).at_most(lux(f64::NAN)));
    assert!(lux(-5.0).at_most(lux(-4.5)));
    assert!(lux(0.0).is_valid_reading() && lux(1e300).is_valid_reading());
    assert!(!lux(f64::INFINITY).is_valid_reading());
    assert!(!lux(-1.0).is_valid_reading());
    assert!(lux(-0.0).comes_before(lux(0.0)));
    assert!(!lux(0.0).comes_before(lux(0.0)));
    assert!(lux(f64::INFINITY).comes_before(lux(f64::NAN)));
}

#[test]
fn numbers_are_read_as_they_are_written() {
    for n in [0, 7, 10, 4_294_967_295, u64::MAX] {
        assert_eq!(text::decimal(n), n.to_string());
        assert_eq!(text::parse_unsigned(&text::decimal(n), u64::MAX), Some(n));
    }
    assert_eq!(text::parse_unsigned("+7", 9), Some(7));
    assert_eq!(text::parse_unsigned("10", 9), None);
    assert_eq!(text::parse_unsigned("", 9), None);
    assert_eq!(text::parse_unsigned("+", 9), None);
    assert_eq!(text::parse_unsigned("-1", 9), None);
    assert_eq!(text::parse_unsigned("18446744073709551616", u64::MAX), None);
}

#[test]
fn texts_are_cut_as_in_the_standard_library() {
    for s in ["", " a ", "\u{2003}x\u{a0}", "\t\r\n", "a b"] {
        assert_eq!(text::trim(s), s.trim());
        assert_eq!(text::is_blank(s), s.trim().is_empty());
    }
    for s in ["", "\n", "a\nb", "a\r\nb\r", "a\n\nb\n", "\r\n"] {
        assert_eq!(text::lines(s), s.lines().collect::<Vec<_>>());
    }
    for s in ["", ",", "a,b", "a,,b,", "abc"] {
        assert_eq!(text::split(s, ','), s.split(',').collect::<Vec<_>>());
    }
    assert_eq!(text::uppercase("aZ\u{e9}9"), "aZ\u{e9}9".to_ascii_uppercase());
    assert_eq!(text::trim_trailing("a//", '/'), "a");
    assert!(text::contains("abcabd", "abd") && !text::contains("abc", "abd"));
    assert!(text::starts_with("abc", "ab") && !text::starts_with("a", "ab"));
}

#[test]
fn maps_hold_their_keys_in_order() {
    let mut map: TextMap<u32> = TextMap::new();
    for (key, value) in [("b", 1), ("a", 2), ("ab", 3), ("b", 4), ("", 5)] {
        map.insert(key.to_owned(), value);
    }
    assert_eq!(
        map.key_list(),
        vec!["".to_owned(), "a".to_owned(), "ab".to_owned(), "b".to_owned()]
    );
    assert_eq!(map.get("b"), Some(&4));
    assert_eq!(map.remove("ab"), Some(3));
    assert_eq!(map.remove("ab"), None);
    assert!(!map.contains_key("ab") && map.contains_key(""));
    assert_eq!(map.len(), 3);
    assert_eq!(map.value(0), &5);
    assert!(!map.is_empty());
}
