//! Adding a point to the calibration.

use vstd::prelude::*;

use crate::config;
use crate::config::{CalibrationPoint, Config, ConfigError};
use crate::lux::Lux;
use crate::text;
use crate::text::{is_blank, parse_unsigned, trim};

verus! {

/// Why a brightness that the user gave is refused.
#[derive(Clone, Copy, Debug, PartialEq, Eq, Structural)]
pub enum BrightnessError {
    NotAnInteger,
    OutOfRange,
}

impl BrightnessError {
    /// The error in words.
    pub fn message(&self) -> (r: String)
        ensures
            r@ == (match *self {
                BrightnessError::NotAnInteger => "brightness must be an integer"@,
                BrightnessError::OutOfRange => "brightness must be between 1 and 100"@,
            }),
    {
        match self {
            BrightnessError::NotAnInteger => "brightness must be an integer".to_owned(),
            BrightnessError::OutOfRange => "brightness must be between 1 and 100".to_owned(),
        }
    }
}

/// The brightness that a line of the user names; a blank line names `default`.
pub open spec fn brightness_in(input: Seq<char>, default: u8) -> Option<u8> {
    if text::blank(input) {
        Some(default)
    } else {
        match text::unsigned_value(text::trimmed(input), u8::MAX as nat) {
            Some(value) => Some(value as u8),
            None => None,
        }
    }
}

/// The brightness that a line of the user names; a blank line names `default`.
pub fn parse_brightness(input: &str, default: u8) -> (r: Result<u8, BrightnessError>)
    ensures
        r == (match brightness_in(input@, default) {
            None => Err::<u8, BrightnessError>(BrightnessError::NotAnInteger),
            Some(brightness) => if 1 <= brightness <= 100 {
                Ok(brightness)
            } else {
                Err(BrightnessError::OutOfRange)
            },
        }),
        r matches Ok(brightness) ==> 1 <= brightness <= 100,
{
    let brightness: u8 = if is_blank(input) {
        default
    } else {
        match parse_unsigned(trim(input), u8::MAX as u64) {
            Some(value) => value as u8,
            None => {
                return Err(BrightnessError::NotAnInteger);
            },
        }
    };
    if brightness < 1 || brightness > 100 {
        Err(BrightnessError::OutOfRange)
    } else {
        Ok(brightness)
    }
}

/// The points whose level is not `lux`, to the bit.
pub open spec fn others(points: Seq<CalibrationPoint>, lux: Lux) -> Seq<CalibrationPoint>
    decreases points.len(),
{
    if points.len() == 0 {
        Seq::empty()
    } else {
        let head = others(points.drop_last(), lux);
        if points.last().lux == lux {
            head
        } else {
            head.push(points.last())
        }
    }
}

/// `points`, in order, with one point more: behind all that do not come after
/// it.
pub open spec fn ordered_with(points: Seq<CalibrationPoint>, point: CalibrationPoint) -> Seq<
    CalibrationPoint,
>
    decreases points.len(),
{
    if points.len() == 0 || points.last().lux.total_rank() <= point.lux.total_rank() {
        points.push(point)
    } else {
        ordered_with(points.drop_last(), point).push(points.last())
    }
}

/// `points` in the order of their levels; points of one level stay as they
/// stand.
pub open spec fn ordered(points: Seq<CalibrationPoint>) -> Seq<CalibrationPoint>
    decreases points.len(),
{
    if points.len() == 0 {
        points
    } else {
        ordered_with(ordered(points.drop_last()), points.last())
    }
}

/// The calibration with one point more, in place of one of the same level.
pub open spec fn extended(points: Seq<CalibrationPoint>, point: CalibrationPoint) -> Seq<
    CalibrationPoint,
> {
    ordered(others(points, point.lux).push(point))
}

fn keep_others(points: &Vec<CalibrationPoint>, lux: Lux) -> (r: Vec<CalibrationPoint>)
    ensures
        r@ == others(points@, lux),
{
    let mut out: Vec<CalibrationPoint> = Vec::new();
    let mut i: usize = 0;
    while i < points.len()
        invariant
            i <= points@.len(),
            out@ == others(points@.take(i as int), lux),
        decreases points@.len() - i,
    {
        assert(points@.take(i + 1).drop_last() =~= points@.take(i as int));
        if points[i].lux != lux {
            out.push(points[i]);
        }
        i += 1;
    }
    assert(points@.take(i as int) =~= points@);
    out
}

fn put_in_order(points: &mut Vec<CalibrationPoint>, point: CalibrationPoint)
    ensures
        final(points)@ == ordered_with(old(points)@, point),
{
    let ghost all = points@;
    let mut at: usize = points.len();
    assert(all.take(at as int) =~= all);
    assert(all.skip(at as int) =~= Seq::<CalibrationPoint>::empty());
    assert(ordered_with(all, point) =~= ordered_with(all, point) + all.skip(at as int));
    while at > 0 && point.lux.comes_before(points[at - 1].lux)
        invariant
            points@ == all,
            at <= all.len(),
            ordered_with(all, point) == ordered_with(all.take(at as int), point) + all.skip(
                at as int,
            ),
        decreases at,
    {
        let ghost head = all.take(at as int);
        assert(head.drop_last() =~= all.take(at - 1));
        assert(head.last() == all[at - 1]);
        assert(all.skip(at - 1) =~= seq![all[at - 1]] + all.skip(at as int));
        assert(ordered_with(all, point) =~= ordered_with(all.take(at - 1), point) + all.skip(
            at - 1,
        ));
        at -= 1;
    }
    let ghost head = all.take(at as int);
    assert(ordered_with(head, point) == head.push(point)) by {
        if at > 0 {
            assert(head.last() == all[at - 1]);
        }
    }
    points.insert(at, point);
    assert(points@ =~= head.push(point) + all.skip(at as int));
}

fn in_order(points: &Vec<CalibrationPoint>) -> (r: Vec<CalibrationPoint>)
    ensures
        r@ == ordered(points@),
{
    let mut out: Vec<CalibrationPoint> = Vec::new();
    let mut i: usize = 0;
    while i < points.len()
        invariant
            i <= points@.len(),
            out@ == ordered(points@.take(i as int)),
        decreases points@.len() - i,
    {
        assert(points@.take(i + 1).drop_last() =~= points@.take(i as int));
        put_in_order(&mut out, points[i]);
        i += 1;
    }
    assert(points@.take(i as int) =~= points@);
    out
}

/// The configuration with one calibration point more, in place of one of the
/// same level, where that breaks no rule.
pub fn calibrate(config: Config, lux: Lux, brightness: u8) -> (r: Result<Config, ConfigError>)
    ensures
        ({
            let points = extended(
                config.ambient.calibration@,
                CalibrationPoint { lux, brightness },
            );
            match (r, config.fault_with(points)) {
                (Ok(updated), None) => {
                    &&& updated.light == config.light
                    &&& updated.camera == config.camera
                    &&& updated.ambient.sensor_path == config.ambient.sensor_path
                    &&& updated.ambient.calibration@ == points
                },
                (Err(e), Some(fault)) => e@ == fault,
                _ => false,
            }
        }),
{
    let mut points = keep_others(&config.ambient.calibration, lux);
    points.push(CalibrationPoint { lux, brightness });
    let mut updated = config;
    updated.ambient.calibration = in_order(&points);
    assert(updated.fault() == config.fault_with(updated.ambient.calibration@));
    match updated.validate() {
        Ok(_) => Ok(updated),
        Err(e) => Err(e),
    }
}

// ---- what holds of a new point ----

/// Where a point is put: behind the first `r` points, of which the last does not
/// come after it, and before the others, which do.
proof fn place_in_order(points: Seq<CalibrationPoint>, point: CalibrationPoint) -> (r: int)
    ensures
        0 <= r <= points.len(),
        ordered_with(points, point) == points.take(r).push(point) + points.skip(r),
        r > 0 ==> points[r - 1].lux.total_rank() <= point.lux.total_rank(),
        forall|j: int|
            r <= j < points.len() ==> (#[trigger] points[j]).lux.total_rank()
                > point.lux.total_rank(),
    decreases points.len(),
{
    if points.len() == 0 || points.last().lux.total_rank() <= point.lux.total_rank() {
        assert(points.take(points.len() as int) =~= points);
        assert(points.push(point) =~= points.take(points.len() as int).push(point) + points.skip(
            points.len() as int,
        ));
        points.len() as int
    } else {
        let head = points.drop_last();
        let r = place_in_order(head, point);
        assert(points.take(r) =~= head.take(r));
        assert(points.skip(r) =~= head.skip(r).push(points.last()));
        assert(ordered_with(points, point) =~= points.take(r).push(point) + points.skip(r));
        assert forall|j: int| r <= j < points.len() implies (#[trigger] points[j]).lux.total_rank()
            > point.lux.total_rank() by {
            if j < head.len() {
                assert(head[j] == points[j]);
            }
        }
        if r > 0 {
            assert(head[r - 1] == points[r - 1]);
        }
        r
    }
}

/// Among readings the order of all patterns is the order of numbers.
proof fn readings_are_in_numeric_order(a: Lux, b: Lux)
    requires
        a.is_reading(),
        b.is_reading(),
    ensures
        a.rank() < b.rank() ==> a.total_rank() < b.total_rank(),
        a.total_rank() <= b.total_rank() ==> a.rank() <= b.rank(),
{
}

proof fn sound_points_are_in_order(points: Seq<CalibrationPoint>)
    requires
        config::sound_calibration(points),
    ensures
        ordered(points) == points,
    decreases points.len(),
{
    if points.len() > 0 {
        let head = points.drop_last();
        assert(config::sound_calibration(head)) by {
            assert forall|i: int| 0 <= i < head.len() implies (#[trigger] head[i]).lux.is_reading()
                && 1 <= head[i].brightness <= 100 by {
                assert(points[i].lux.is_reading());
            }
            assert forall|i: int, j: int| 0 <= i < j < head.len() implies (
            #[trigger] head[i]).lux.rank() < (#[trigger] head[j]).lux.rank() && head[i].brightness
                <= head[j].brightness by {
                assert(points[i].lux.rank() < points[j].lux.rank());
            }
        }
        sound_points_are_in_order(head);
        if head.len() > 0 {
            let i = head.len() - 1;
            assert(points[i].lux.rank() < points[i + 1].lux.rank());
            assert(points[i].lux.is_reading() && points[i + 1].lux.is_reading());
            readings_are_in_numeric_order(points[i].lux, points[i + 1].lux);
        }
        assert(head.push(points.last()) =~= points);
    }
}

proof fn others_are_sound(points: Seq<CalibrationPoint>, lux: Lux)
    requires
        config::sound_calibration(points),
    ensures
        config::sound_calibration(others(points, lux)),
        forall|i: int|
            0 <= i < others(points, lux).len() ==> points.contains(
                #[trigger] others(points, lux)[i],
            ) && others(points, lux)[i].lux != lux,
        forall|i: int|
            0 <= i < points.len() && (#[trigger] points[i]).lux != lux ==> others(
                points,
                lux,
            ).contains(points[i]),
    decreases points.len(),
{
    if points.len() > 0 {
        let head = points.drop_last();
        let last = points.last();
        assert(config::sound_calibration(head)) by {
            assert forall|i: int| 0 <= i < head.len() implies (#[trigger] head[i]).lux.is_reading()
                && 1 <= head[i].brightness <= 100 by {
                assert(points[i].lux.is_reading());
            }
            assert forall|i: int, j: int| 0 <= i < j < head.len() implies (
            #[trigger] head[i]).lux.rank() < (#[trigger] head[j]).lux.rank() && head[i].brightness
                <= head[j].brightness by {
                assert(points[i].lux.rank() < points[j].lux.rank());
            }
        }
        others_are_sound(head, lux);
        let kept = others(head, lux);
        let all = others(points, lux);
        assert forall|i: int| 0 <= i < kept.len() implies points.contains(#[trigger] kept[i])
            && kept[i].lux.rank() < last.lux.rank() && kept[i].brightness <= last.brightness by {
            let j = head.index_of(kept[i]);
            assert(points[j] == kept[i]);
            assert(points[j].lux.rank() < points[points.len() - 1].lux.rank());
        }
        assert(points[points.len() - 1].lux.is_reading());
        assert forall|i: int| 0 <= i < all.len() implies points.contains(#[trigger] all[i])
            && all[i].lux != lux && all[i].lux.is_reading() && 1 <= all[i].brightness <= 100 by {
            if i < kept.len() {
                assert(all[i] == kept[i]);
            } else {
                assert(all[i] == points[points.len() - 1]);
            }
        }
        assert forall|i: int, j: int| 0 <= i < j < all.len() implies (
        #[trigger] all[i]).lux.rank() < (#[trigger] all[j]).lux.rank() && all[i].brightness
            <= all[j].brightness by {
            assert(all[i] == kept[i]);
            if j < kept.len() {
                assert(all[j] == kept[j]);
            }
        }
        assert forall|i: int|
            0 <= i < points.len() && (#[trigger] points[i]).lux != lux implies all.contains(
            points[i],
        ) by {
            if i < head.len() {
                assert(head[i] == points[i]);
                let j = kept.index_of(points[i]);
                assert(all[j] == points[i]);
            } else {
                assert(all[kept.len() as int] == points[i]);
            }
        }
    }
}

/// Whether a point goes with a calibration: its level is not that of another
/// point in other bits, and its brightness is at least that of every darker
/// point and at most that of every brighter one.
pub open spec fn fits(points: Seq<CalibrationPoint>, point: CalibrationPoint) -> bool {
    &&& point.lux.is_reading()
    &&& 1 <= point.brightness <= 100
    &&& forall|i: int|
        0 <= i < points.len() && (#[trigger] points[i]).lux != point.lux ==> {
            &&& points[i].lux.rank() != point.lux.rank()
            &&& points[i].lux.rank() < point.lux.rank() ==> points[i].brightness <= point.brightness
            &&& points[i].lux.rank() > point.lux.rank() ==> points[i].brightness >= point.brightness
        }
}

/// A point that goes with a valid calibration is taken, in place of one of the
/// same level; every other point stays.
pub proof fn fitting_points_are_taken(config: Config, point: CalibrationPoint)
    requires
        config.fault() is None,
        fits(config.ambient.calibration@, point),
    ensures
        ({
            let points = config.ambient.calibration@;
            let after = extended(points, point);
            &&& config.fault_with(after) is None
            &&& after.contains(point)
            &&& forall|i: int|
                0 <= i < points.len() && (#[trigger] points[i]).lux != point.lux ==> after.contains(
                    points[i],
                )
            &&& after.len() == others(points, point.lux).len() + 1
        }),
{
    let points = config.ambient.calibration@;
    config::sound_calibrations_are_taken(config, points);
    others_are_sound(points, point.lux);
    let kept = others(points, point.lux);
    sound_points_are_in_order(kept);
    let after = extended(points, point);
    assert(kept.push(point).drop_last() =~= kept);
    assert(after == ordered_with(kept, point));
    let k = place_in_order(kept, point);
    assert(after[k] == point);
    assert forall|i: int| 0 <= i < after.len() implies #[trigger] after[i] == (if i < k {
        kept[i]
    } else if i == k {
        point
    } else {
        kept[i - 1]
    }) by {}
    assert forall|i: int| 0 <= i < kept.len() implies {
        &&& (#[trigger] kept[i]).lux.is_reading()
        &&& i < k ==> kept[i].lux.rank() < point.lux.rank() && kept[i].brightness <= point.brightness
        &&& i >= k ==> kept[i].lux.rank() > point.lux.rank() && kept[i].brightness
            >= point.brightness
    } by {
        let at = points.index_of(kept[i]);
        assert(points[at] == kept[i]);
        assert(points[at].lux != point.lux);
        readings_are_in_numeric_order(kept[i].lux, point.lux);
        readings_are_in_numeric_order(point.lux, kept[i].lux);
        if i < k {
            assert(kept[k - 1].lux.is_reading());
            let last = points.index_of(kept[k - 1]);
            assert(points[last] == kept[k - 1]);
            assert(points[last].lux != point.lux);
            readings_are_in_numeric_order(kept[k - 1].lux, point.lux);
            if i < k - 1 {
                assert(kept[i].lux.rank() < kept[k - 1].lux.rank());
            }
        }
    }
    assert(config::sound_calibration(after)) by {
        assert forall|i: int| 0 <= i < after.len() implies (#[trigger] after[i]).lux.is_reading()
            && 1 <= after[i].brightness <= 100 by {
            if i < k {
                assert(kept[i].lux.is_reading());
            } else if i > k {
                assert(kept[i - 1].lux.is_reading());
            }
        }
        assert forall|i: int, j: int| 0 <= i < j < after.len() implies (
        #[trigger] after[i]).lux.rank() < (#[trigger] after[j]).lux.rank() && after[i].brightness
            <= after[j].brightness by {
            let a = if i < k { i } else { i - 1 };
            let b = if j < k { j } else { j - 1 };
            if i == k {
                assert(kept[b].lux.rank() > point.lux.rank());
            } else if j == k {
                assert(kept[a].lux.rank() < point.lux.rank());
            } else {
                assert(kept[a].lux.rank() < kept[b].lux.rank());
            }
        }
    }
    config::sound_calibrations_are_taken(config, after);
    assert forall|i: int|
        0 <= i < points.len() && (#[trigger] points[i]).lux != point.lux implies after.contains(
        points[i],
    ) by {
        let j = kept.index_of(points[i]);
        assert(kept[j] == points[i]);
        assert(after[if j < k { j } else { j + 1 }] == points[i]);
    }
}

/// A line that is a number, but for white space around it, names that number, and
/// a line of white space alone names the default; no other line names one.
pub proof fn numbers_name_a_brightness(input: Seq<char>, n: nat, default: u8)
    ensures
        text::trimmed(input).len() == 0 ==> brightness_in(input, default) == Some(default),
        n <= 255 && text::trimmed(input) == text::decimal_text(n) ==> brightness_in(input, default)
            == Some(n as u8),
        n > 255 && text::trimmed(input) == text::decimal_text(n) ==> brightness_in(input, default)
            is None,
        text::trimmed(input).len() > 0 && text::unsigned_value(text::trimmed(input), 255) is None
            ==> brightness_in(input, default) is None,
        text::trimmed(input).len() > 0 && text::unsigned_value(text::trimmed(input), 255) == Some(n)
            ==> brightness_in(input, default) is Some && brightness_in(input, default)->0 == n,
{
    text::decimal_text_is_digits(n);
    text::blank_is_white_space_alone(input);
    if n <= 255 {
        text::decimal_round_trip(n, 255);
    } else {
        let s = text::decimal_text(n);
        assert(text::is_digit(s[0]));
    }
}

/// Of the points all but those of one level stay, in their order.
pub proof fn points_of_other_levels_stay(
    points: Seq<CalibrationPoint>,
    more: CalibrationPoint,
    lux: Lux,
)
    ensures
        others(Seq::empty(), lux) == Seq::<CalibrationPoint>::empty(),
        others(points.push(more), lux) == if more.lux.bits == lux.bits {
            others(points, lux)
        } else {
            others(points, lux).push(more)
        },
{
    assert(points.push(more).drop_last() =~= points);
}

/// Whether points stand in the order of all patterns.
pub open spec fn in_pattern_order(points: Seq<CalibrationPoint>) -> bool {
    forall|i: int, j: int|
        0 <= i < j < points.len() ==> (#[trigger] points[i]).lux.total_rank() <= (
        #[trigger] points[j]).lux.total_rank()
}

proof fn ordered_with_keeps_order(points: Seq<CalibrationPoint>, point: CalibrationPoint)
    requires
        in_pattern_order(points),
    ensures
        in_pattern_order(ordered_with(points, point)),
        ordered_with(points, point).to_multiset() == points.to_multiset().insert(point),
{
    let r = place_in_order(points, point);
    let all = ordered_with(points, point);
    let head = points.take(r);
    let tail = points.skip(r);
    assert forall|i: int, j: int| 0 <= i < j < all.len() implies (
    #[trigger] all[i]).lux.total_rank() <= (#[trigger] all[j]).lux.total_rank() by {
        let a = if i < r { i } else { i - 1 };
        let b = if j < r { j } else { j - 1 };
        if i < r {
            assert(all[i] == points[a]);
            assert(points[a].lux.total_rank() <= point.lux.total_rank()) by {
                if a < r - 1 {
                    assert(points[a].lux.total_rank() <= points[r - 1].lux.total_rank());
                }
            }
        }
        if j > r {
            assert(all[j] == points[b]);
            assert(points[b].lux.total_rank() > point.lux.total_rank());
        }
        if i < r && j < r {
            assert(all[j] == points[b]);
        }
        if i > r {
            assert(all[i] == points[a]);
        }
    }
    assert(points =~= head + tail);
    vstd::seq_lib::lemma_multiset_commutative(head, tail);
    vstd::seq_lib::lemma_multiset_commutative(head.push(point), tail);
    head.to_multiset_ensures();
    assert(all.to_multiset() =~= points.to_multiset().insert(point));
}

proof fn ordered_is_in_order(points: Seq<CalibrationPoint>)
    ensures
        in_pattern_order(ordered(points)),
        ordered(points).to_multiset() == points.to_multiset(),
    decreases points.len(),
{
    if points.len() > 0 {
        let head = points.drop_last();
        ordered_is_in_order(head);
        ordered_with_keeps_order(ordered(head), points.last());
        head.to_multiset_ensures();
        assert(head.push(points.last()) =~= points);
    }
}

/// Whatever the points are, the calibration with one point more holds that point
/// and the points of other levels, each as often as before, and stands in the
/// order of the levels.
pub proof fn extended_calibrations_are_complete_and_in_order(
    points: Seq<CalibrationPoint>,
    point: CalibrationPoint,
)
    ensures
        extended(points, point).to_multiset() == others(points, point.lux).to_multiset().insert(
            point,
        ),
        forall|i: int, j: int|
            0 <= i < j < extended(points, point).len() ==> (
            #[trigger] extended(points, point)[i]).lux.total_rank() <= (
            #[trigger] extended(points, point)[j]).lux.total_rank(),
{
    let kept = others(points, point.lux);
    ordered_is_in_order(kept.push(point));
    kept.to_multiset_ensures();
}

/// A point that no other comes after is put last, behind points of the same level.
pub proof fn points_of_one_level_stay_as_they_stand(
    points: Seq<CalibrationPoint>,
    point: CalibrationPoint,
)
    requires
        forall|i: int|
            0 <= i < points.len() ==> (#[trigger] points[i]).lux.total_rank()
                <= point.lux.total_rank(),
    ensures
        ordered(points.push(point)) == ordered(points).push(point),
{
    assert(points.push(point).drop_last() =~= points);
    ordered_is_in_order(points);
    let all = ordered(points);
    if all.len() > 0 {
        all.to_multiset_ensures();
        points.to_multiset_ensures();
        assert(all.contains(all.last()));
        assert(all.to_multiset().count(all.last()) > 0);
        assert(points.to_multiset().count(all.last()) > 0);
        assert(points.contains(all.last()));
        let i = points.index_of(all.last());
        assert(points[i].lux.total_rank() <= point.lux.total_rank());
    }
}

proof fn ordered_holds_every_point(points: Seq<CalibrationPoint>, point: CalibrationPoint)
    requires
        points.contains(point),
    ensures
        ordered(points).contains(point),
{
    ordered_is_in_order(points);
    let all = ordered(points);
    all.to_multiset_ensures();
    points.to_multiset_ensures();
    assert(points.to_multiset().count(point) > 0);
    assert(all.to_multiset().count(point) > 0);
}

/// A point is taken into a valid calibration exactly when it goes with it: it is a
/// reading with a brightness from 1 to 100, no other point has its level in other
/// bits, no darker point is set brighter and no brighter point darker.
pub proof fn only_fitting_points_are_taken(config: Config, point: CalibrationPoint)
    requires
        config.fault() is None,
    ensures
        config.fault_with(extended(config.ambient.calibration@, point)) is None <==> {
            &&& point.lux.is_reading()
            &&& 1 <= point.brightness <= 100
            &&& forall|i: int|
                0 <= i < config.ambient.calibration@.len() && (
                #[trigger] config.ambient.calibration@[i]).lux != point.lux ==> {
                    let other = config.ambient.calibration@[i];
                    ||| !point.lux.le(other.lux) && other.brightness <= point.brightness
                    ||| !other.lux.le(point.lux) && point.brightness <= other.brightness
                }
        },
{
    let points = config.ambient.calibration@;
    let after = extended(points, point);
    let kept = others(points, point.lux);
    config::sound_calibrations_are_taken(config, points);
    config::sound_calibrations_are_taken(config, after);
    others_are_sound(points, point.lux);
    if config.fault_with(after) is None {
        let all = kept.push(point);
        assert(all[kept.len() as int] == point);
        ordered_holds_every_point(all, point);
        let a = after.index_of(point);
        assert(after[a] == point);
        assert forall|i: int|
            0 <= i < points.len() && (#[trigger] points[i]).lux != point.lux implies ({
            ||| !point.lux.le(points[i].lux) && points[i].brightness <= point.brightness
            ||| !points[i].lux.le(point.lux) && point.brightness <= points[i].brightness
        }) by {
            let at = kept.index_of(points[i]);
            assert(all[at] == points[i]);
            ordered_holds_every_point(all, points[i]);
            let b = after.index_of(points[i]);
            assert(after[b] == points[i]);
            if a < b {
                assert(after[a].lux.rank() < after[b].lux.rank());
            } else {
                assert(after[b].lux.rank() < after[a].lux.rank());
            }
        }
    }
    if {
        &&& point.lux.is_reading()
        &&& 1 <= point.brightness <= 100
        &&& forall|i: int|
            0 <= i < points.len() && (#[trigger] points[i]).lux != point.lux ==> {
                ||| !point.lux.le(points[i].lux) && points[i].brightness <= point.brightness
                ||| !points[i].lux.le(point.lux) && point.brightness <= points[i].brightness
            }
    } {
        assert forall|i: int|
            0 <= i < points.len() && (#[trigger] points[i]).lux != point.lux implies {
            &&& points[i].lux.rank() != point.lux.rank()
            &&& points[i].lux.rank() < point.lux.rank() ==> points[i].brightness <= point.brightness
            &&& points[i].lux.rank() > point.lux.rank() ==> points[i].brightness >= point.brightness
        } by {
            assert(points[i].lux.is_reading());
        }
        fitting_points_are_taken(config, point);
    }
}

} // verus!
