//! Cameras, lights and the rules between them.

use vstd::prelude::*;

use crate::config::{CameraConfig, SelectedCamera, SelectedLight};
use crate::text;
use crate::text_map::TextMap;

verus! {

/// The version of the camera snapshot and of the ownership journal.
pub const STATE_VERSION: u32 = 2;

/// What the cameras are doing.
#[derive(Clone, Copy, Debug, PartialEq, Eq, Structural)]
pub enum CameraActivity {
    Active,
    Inactive,
    Stale,
}

/// The coolest colour temperature of a device, 7000 K, in mired.
pub const MIRED_MIN: u16 = 143;

/// The warmest colour temperature of a device, 2900 K, in mired.
pub const MIRED_MAX: u16 = 344;

/// The warmest colour temperature, in Kelvin.
pub const KELVIN_MIN: u16 = 2900;

/// The coolest colour temperature, in Kelvin.
pub const KELVIN_MAX: u16 = 7000;

/// The value in `low..=high` that is nearest to `x`.
pub open spec fn clamped(x: int, low: int, high: int) -> int {
    if x < low {
        low
    } else if x > high {
        high
    } else {
        x
    }
}

/// A million divided by `d`, rounded to the nearest integer, halves up.
pub open spec fn million_over(d: int) -> int {
    (2_000_000 + d) / (2 * d)
}

/// The mired value of a colour temperature in Kelvin.
pub open spec fn mired_of(kelvin: int) -> int {
    clamped(
        million_over(clamped(kelvin, KELVIN_MIN as int, KELVIN_MAX as int)),
        MIRED_MIN as int,
        MIRED_MAX as int,
    )
}

/// The colour temperature in Kelvin of a mired value.
pub open spec fn kelvin_of(mired: int) -> int {
    clamped(
        million_over(clamped(mired, MIRED_MIN as int, MIRED_MAX as int)),
        KELVIN_MIN as int,
        KELVIN_MAX as int,
    )
}

/// The value in `low..=high` that is nearest to `x`.
pub fn clamp_u16(x: u16, low: u16, high: u16) -> (r: u16)
    requires
        low <= high,
    ensures
        r == clamped(x as int, low as int, high as int),
{
    if x < low {
        low
    } else if x > high {
        high
    } else {
        x
    }
}

/// Converts Kelvin to the device's mired units, within the device range.
pub fn kelvin_to_mired(kelvin: u16) -> (r: u16)
    ensures
        r == mired_of(kelvin as int),
        MIRED_MIN <= r <= MIRED_MAX,
{
    let k: u32 = clamp_u16(kelvin, KELVIN_MIN, KELVIN_MAX) as u32;
    let mired: u32 = (2_000_000 + k) / (2 * k);
    proof {
        lemma_million_over(k as int);
    }
    clamp_u16(mired as u16, MIRED_MIN, MIRED_MAX)
}

/// Converts the device's mired units to Kelvin, within the exposed range.
pub fn mired_to_kelvin(mired: u16) -> (r: u16)
    ensures
        r == kelvin_of(mired as int),
        KELVIN_MIN <= r <= KELVIN_MAX,
{
    let m: u32 = clamp_u16(mired, MIRED_MIN, MIRED_MAX) as u32;
    let kelvin: u32 = (2_000_000 + m) / (2 * m);
    proof {
        lemma_million_over(m as int);
    }
    clamp_u16(kelvin as u16, KELVIN_MIN, KELVIN_MAX)
}

/// `million_over` is the integer whose distance to the quotient is at most
/// one half.
pub proof fn lemma_million_over(d: int)
    requires
        d >= MIRED_MIN,
    ensures
        2_000_000 - d < 2 * d * million_over(d) <= 2_000_000 + d,
        0 <= million_over(d) <= 7000,
{
    let q = million_over(d);
    vstd::arithmetic::div_mod::lemma_fundamental_div_mod(2_000_000 + d, 2 * d);
    vstd::arithmetic::div_mod::lemma_mod_bound(2_000_000 + d, 2 * d);
    let rem = (2_000_000 + d) % (2 * d);
    assert(2_000_000 + d == (2 * d) * q + rem);
    assert(0 <= q <= 7000) by (nonlinear_arith)
        requires
            2_000_000 + d == (2 * d) * q + rem,
            0 <= rem < 2 * d,
            d >= 143,
    ;
    assert((2 * d) * q == 2 * d * q);
}

/// A colour temperature between 2900 and 7000 Kelvin becomes the mired value
/// nearest to a million divided by it, halves up, but at most 344; below and
/// above, the conversion stays at the ends.
pub proof fn mired_is_a_million_over_kelvin(kelvin: int)
    ensures
        2900 <= kelvin <= 7000 ==> {
            let r = mired_of(kelvin);
            &&& 143 <= r <= 344
            &&& 2 * kelvin * r <= 2_000_000 + kelvin
            &&& r < 344 ==> 2_000_000 - kelvin < 2 * kelvin * r
        },
        kelvin <= 2900 ==> mired_of(kelvin) == 344,
        kelvin >= 7000 ==> mired_of(kelvin) == 143,
{
    lemma_million_over(2900);
    lemma_million_over(7000);
    let low = million_over(2900);
    let high = million_over(7000);
    assert(low >= 344) by (nonlinear_arith)
        requires
            2_000_000 - 2900 < 2 * 2900 * low,
    ;
    assert(high == 143) by (nonlinear_arith)
        requires
            2_000_000 - 7000 < 2 * 7000 * high <= 2_000_000 + 7000,
    ;
    if 2900 <= kelvin <= 7000 {
        lemma_million_over(kelvin);
        let q = million_over(kelvin);
        let r = mired_of(kelvin);
        assert(q >= 143) by (nonlinear_arith)
            requires
                2900 <= kelvin <= 7000,
                2_000_000 - kelvin < 2 * kelvin * q,
        ;
        assert(2 * kelvin * r <= 2 * kelvin * q) by (nonlinear_arith)
            requires
                r <= q,
                kelvin >= 0,
        ;
    }
}

/// A mired value between 143 and 344 becomes the Kelvin value nearest to a
/// million divided by it, halves up; below and above, the conversion stays at
/// the ends.
pub proof fn kelvin_is_a_million_over_mired(mired: int)
    ensures
        143 <= mired <= 344 ==> {
            let r = kelvin_of(mired);
            &&& 2_000_000 - mired < 2 * mired * r <= 2_000_000 + mired
            &&& 2900 <= r <= 7000
        },
        mired <= 143 ==> kelvin_of(mired) == 6993,
        mired >= 344 ==> kelvin_of(mired) == 2907,
{
    lemma_million_over(143);
    lemma_million_over(344);
    let cool = million_over(143);
    let warm = million_over(344);
    assert(cool == 6993) by (nonlinear_arith)
        requires
            2_000_000 - 143 < 2 * 143 * cool <= 2_000_000 + 143,
    ;
    assert(warm == 2907) by (nonlinear_arith)
        requires
            2_000_000 - 344 < 2 * 344 * warm <= 2_000_000 + 344,
    ;
    if 143 <= mired <= 344 {
        lemma_million_over(mired);
        let q = million_over(mired);
        assert(2900 <= q <= 7000) by (nonlinear_arith)
            requires
                143 <= mired <= 344,
                2_000_000 - mired < 2 * mired * q <= 2_000_000 + mired,
        ;
    }
}

/// Keeping a number within bounds leaves one that is within them, and moves any
/// other to the nearer bound.
pub proof fn clamping_moves_to_the_nearer_bound(x: int, low: int, high: int)
    requires
        low <= high,
    ensures
        low <= clamped(x, low, high) <= high,
        low <= x <= high ==> clamped(x, low, high) == x,
        x <= low ==> clamped(x, low, high) == low,
        x >= high ==> clamped(x, low, high) == high,
{
}

/// A device value survives the conversion to Kelvin and back.
pub proof fn mired_round_trip(mired: int)
    requires
        MIRED_MIN <= mired <= MIRED_MAX,
    ensures
        mired_of(kelvin_of(mired)) == mired,
{
    let k = million_over(mired);
    lemma_million_over(mired);
    assert(2900 <= k <= 7000) by (nonlinear_arith)
        requires
            143 <= mired <= 344,
            2_000_000 - mired < 2 * mired * k <= 2_000_000 + mired,
    ;
    assert(kelvin_of(mired) == k);
    lemma_million_over(k);
    let back = million_over(k);
    assert(back == mired) by (nonlinear_arith)
        requires
            143 <= mired <= 344,
            2900 <= k,
            2_000_000 - mired < 2 * mired * k <= 2_000_000 + mired,
            2_000_000 - k < 2 * k * back <= 2_000_000 + k,
    ;
}

/// A warmer light has the greater mired value: the conversion turns the
/// order round.
pub proof fn mired_falls_as_kelvin_rises(a: int, b: int)
    requires
        a <= b,
    ensures
        mired_of(b) <= mired_of(a),
{
    let x = clamped(a, KELVIN_MIN as int, KELVIN_MAX as int);
    let y = clamped(b, KELVIN_MIN as int, KELVIN_MAX as int);
    lemma_million_over(x);
    lemma_million_over(y);
    let p = million_over(x);
    let q = million_over(y);
    assert(q <= p) by (nonlinear_arith)
        requires
            2900 <= x <= y,
            p >= 0,
            q >= 0,
            2_000_000 - x < 2 * x * p,
            2 * y * q <= 2_000_000 + y,
    ;
}

/// A look for one physical light, the same for each of its logical lights.
/// The temperature is in mired.
#[derive(Clone, Copy, Debug, PartialEq, Eq, Structural)]
pub struct PresetLight {
    pub on: bool,
    pub brightness: u8,
    pub temperature: u16,
}

// ---- camera activity ----

/// What the camera monitor last saw.
#[derive(Clone, Debug)]
pub struct CameraSnapshot {
    pub version: u32,
    pub heartbeat_ms: u64,
    pub cameras: Vec<CameraObservation>,
}

/// One camera, as the monitor saw it.
#[derive(Clone, Debug)]
pub struct CameraObservation {
    pub id: String,
    pub name: String,
    pub devices: Vec<String>,
    pub last_frame_ms: Option<u64>,
}

/// The time from `then` to `now`; none where `then` lies ahead.
pub open spec fn elapsed(now: u64, then: u64) -> nat {
    if now >= then {
        (now - then) as nat
    } else {
        0
    }
}

/// The greater of two numbers.
pub open spec fn greater(a: u64, b: u64) -> u64 {
    if a >= b {
        a
    } else {
        b
    }
}

/// The seconds for which a camera without a timeout of its own stays active
/// after a frame: the larger of inactivity timeout and restoration grace.
pub open spec fn default_timeout(config: CameraConfig) -> u64 {
    greater(config.default_inactive_seconds, config.restore_grace_seconds)
}

/// The seconds for which the chosen camera stays active after a frame.
pub open spec fn chosen_timeout(config: CameraConfig, camera: SelectedCamera) -> u64 {
    match camera.inactive_seconds {
        Some(seconds) => greater(seconds, config.restore_grace_seconds),
        None => default_timeout(config),
    }
}

/// The timeout of the camera `id` among the chosen ones, where it is among
/// them. Where an identity stands twice the later entry counts.
pub open spec fn timeout_among(
    config: CameraConfig,
    chosen: Seq<SelectedCamera>,
    id: Seq<char>,
) -> Option<u64>
    decreases chosen.len(),
{
    if chosen.len() == 0 {
        None
    } else if chosen.last().id@ == id {
        Some(chosen_timeout(config, chosen.last()))
    } else {
        timeout_among(config, chosen.drop_last(), id)
    }
}

/// The timeout of the camera `id`, where the camera counts.
pub open spec fn timeout_of(config: CameraConfig, id: Seq<char>) -> Option<u64> {
    match config.selected {
        Some(cameras) => timeout_among(config, cameras@, id),
        None => Some(default_timeout(config)),
    }
}

impl CameraObservation {
    /// Whether the camera counts and its last frame is recent.
    pub open spec fn is_active(self, now_ms: u64, config: CameraConfig) -> bool {
        match (timeout_of(config, self.id@), self.last_frame_ms) {
            (Some(timeout), Some(last)) => elapsed(now_ms, last) <= timeout * 1000,
            _ => false,
        }
    }
}

impl CameraSnapshot {
    /// Whether the snapshot is of this version and its heartbeat recent.
    pub open spec fn is_fresh(self, now_ms: u64, config: CameraConfig) -> bool {
        &&& self.version == STATE_VERSION
        &&& elapsed(now_ms, self.heartbeat_ms) <= config.helper_stale_seconds * 1000
    }

    /// The identities of the active cameras.
    pub open spec fn active_ids(self, now_ms: u64, config: CameraConfig) -> Set<Seq<char>> {
        Set::new(
            |id: Seq<char>|
                self.is_fresh(now_ms, config) && exists|i: int|
                    0 <= i < self.cameras@.len() && (#[trigger] self.cameras@[i]).id@ == id
                        && self.cameras@[i].is_active(now_ms, config),
        )
    }
}

/// Whether at most `seconds` lie between `then` and `now`.
fn within(now_ms: u64, then_ms: u64, seconds: u64) -> (r: bool)
    ensures
        r == (elapsed(now_ms, then_ms) <= seconds * 1000),
{
    let passed: u64 = if now_ms >= then_ms { now_ms - then_ms } else { 0 };
    passed as u128 <= seconds as u128 * 1000
}

impl CameraConfig {
    /// The timeout of the camera `id`, where the camera counts.
    fn timeout_for(&self, id: &str) -> (r: Option<u64>)
        ensures
            r == timeout_of(*self, id@),
    {
        let default: u64 = if self.default_inactive_seconds >= self.restore_grace_seconds {
            self.default_inactive_seconds
        } else {
            self.restore_grace_seconds
        };
        match &self.selected {
            None => Some(default),
            Some(cameras) => {
                let mut i: usize = cameras.len();
                assert(cameras@.take(i as int) =~= cameras@);
                while i > 0
                    invariant
                        i <= cameras@.len(),
                        default == default_timeout(*self),
                        self.selected == Some(*cameras),
                        timeout_of(*self, id@) == timeout_among(
                            *self,
                            cameras@.take(i as int),
                            id@,
                        ),
                    decreases i,
                {
                    i -= 1;
                    assert(cameras@.take(i + 1).last() == cameras@[i as int]);
                    assert(cameras@.take(i + 1).drop_last() =~= cameras@.take(i as int));
                    if text::same(cameras[i].id.as_str(), id) {
                        return match cameras[i].inactive_seconds {
                            Some(seconds) => if seconds >= self.restore_grace_seconds {
                                Some(seconds)
                            } else {
                                Some(self.restore_grace_seconds)
                            },
                            None => Some(default),
                        };
                    }
                }
                None
            },
        }
    }
}

impl CameraSnapshot {
    /// What the cameras are doing at `now_ms`.
    pub fn activity(&self, now_ms: u64, config: &CameraConfig) -> (r: CameraActivity)
        ensures
            r == CameraActivity::Stale <==> !self.is_fresh(now_ms, *config),
            r == CameraActivity::Active <==> self.active_ids(now_ms, *config) != Set::<
                Seq<char>,
            >::empty(),
            r == CameraActivity::Stale <==> self.version != 2 || now_ms - self.heartbeat_ms
                > config.helper_stale_seconds * 1000,
            r == CameraActivity::Active <==> r != CameraActivity::Stale && exists|i: int|
                0 <= i < self.cameras@.len() && (#[trigger] self.cameras@[i]).is_active(
                    now_ms,
                    *config,
                ),
    {
        proof {
            let ids = self.active_ids(now_ms, *config);
            if exists|i: int|
                0 <= i < self.cameras@.len() && (#[trigger] self.cameras@[i]).is_active(
                    now_ms,
                    *config,
                ) {
                let i = choose|i: int|
                    0 <= i < self.cameras@.len() && (#[trigger] self.cameras@[i]).is_active(
                        now_ms,
                        *config,
                    );
                if self.is_fresh(now_ms, *config) {
                    assert(ids.contains(self.cameras@[i].id@));
                }
            } else {
                assert(ids =~= Set::<Seq<char>>::empty());
            }
        }
        if self.version != STATE_VERSION || !within(
            now_ms,
            self.heartbeat_ms,
            config.helper_stale_seconds,
        ) {
            assert(self.active_ids(now_ms, *config) =~= Set::<Seq<char>>::empty());
            return CameraActivity::Stale;
        }
        let active = self.active_camera_ids(now_ms, config);
        proof {
            if active@.len() > 0 {
                assert(text::texts(active@).to_set().contains(text::texts(active@)[0]));
            } else {
                assert(text::texts(active@).to_set() =~= Set::<Seq<char>>::empty());
            }
        }
        if active.len() == 0 {
            CameraActivity::Inactive
        } else {
            CameraActivity::Active
        }
    }

    /// The identities of the cameras that are active at `now_ms`, each once.
    pub fn active_camera_ids(&self, now_ms: u64, config: &CameraConfig) -> (r: Vec<String>)
        ensures
            text::texts(r@).to_set() == self.active_ids(now_ms, *config),
            text::texts(r@).no_duplicates(),
    {
        let mut out: Vec<String> = Vec::new();
        let fresh = self.version == STATE_VERSION && within(
            now_ms,
            self.heartbeat_ms,
            config.helper_stale_seconds,
        );
        if !fresh {
            assert(text::texts(out@).to_set() =~= self.active_ids(now_ms, *config));
            return out;
        }
        let mut i: usize = 0;
        while i < self.cameras.len()
            invariant
                i <= self.cameras@.len(),
                text::texts(out@).no_duplicates(),
                forall|id: Seq<char>|
                    text::texts(out@).contains(id) <==> exists|j: int|
                        0 <= j < i && (#[trigger] self.cameras@[j]).id@ == id
                            && self.cameras@[j].is_active(now_ms, *config),
            decreases self.cameras@.len() - i,
        {
            let camera = &self.cameras[i];
            let active = match (config.timeout_for(camera.id.as_str()), camera.last_frame_ms) {
                (Some(timeout), Some(last)) => within(now_ms, last, timeout),
                _ => false,
            };
            let ghost before = text::texts(out@);
            if active && !text::listed(&out, camera.id.as_str()) {
                let id = camera.id.clone();
                proof {
                    text::texts_push(out@, id);
                }
                out.push(id);
            }
            proof {
                let after = text::texts(out@);
                let new = self.cameras@[i as int].id@;
                assert forall|id: Seq<char>| after.contains(id) <==> before.contains(id) || (active
                    && id == new) by {
                    if before.contains(id) {
                        let j = before.index_of(id);
                        assert(after[j] == id);
                    }
                    if after.contains(id) && !before.contains(id) {
                        let j = after.index_of(id);
                        if j < before.len() {
                            assert(before[j] == id);
                        }
                    }
                    if active && id == new && !before.contains(id) {
                        assert(after[before.len() as int] == id);
                    }
                }
                assert forall|id: Seq<char>|
                    (exists|j: int|
                        0 <= j < i + 1 && (#[trigger] self.cameras@[j]).id@ == id
                            && self.cameras@[j].is_active(now_ms, *config)) implies after.contains(
                    id,
                ) by {
                    let j = choose|j: int|
                        0 <= j < i + 1 && (#[trigger] self.cameras@[j]).id@ == id
                            && self.cameras@[j].is_active(now_ms, *config);
                    if j < i {
                        assert(before.contains(id));
                    }
                }
            }
            i += 1;
        }
        assert(text::texts(out@).to_set() =~= self.active_ids(now_ms, *config));
        out
    }
}

/// What a helper that cannot be read, or whose state is not a snapshot, counts
/// as; and what a snapshot counts as. A clock that cannot be read stands at
/// zero.
pub fn observed_activity(
    snapshot: Option<CameraSnapshot>,
    now_ms: Option<u64>,
    config: &CameraConfig,
) -> (r: CameraActivity)
    ensures
        match snapshot {
            None => r == CameraActivity::Stale,
            Some(s) => {
                let now = match now_ms {
                    Some(now) => now,
                    None => 0,
                };
                &&& r == CameraActivity::Stale <==> !s.is_fresh(now, *config)
                &&& r == CameraActivity::Active <==> s.active_ids(now, *config) != Set::<
                    Seq<char>,
                >::empty()
                &&& r == CameraActivity::Stale <==> s.version != 2 || now - s.heartbeat_ms
                    > config.helper_stale_seconds * 1000
                &&& r == CameraActivity::Active <==> r != CameraActivity::Stale && exists|i: int|
                    0 <= i < s.cameras@.len() && (#[trigger] s.cameras@[i]).is_active(
                        now,
                        *config,
                    )
            },
        },
{
    match snapshot {
        None => CameraActivity::Stale,
        Some(snapshot) => {
            let now: u64 = match now_ms {
                Some(now) => now,
                None => 0,
            };
            snapshot.activity(now, config)
        },
    }
}

/// Without a new frame a camera that has fallen inactive stays so.
pub proof fn inactivity_lasts(
    camera: CameraObservation,
    config: CameraConfig,
    earlier_ms: u64,
    later_ms: u64,
)
    requires
        earlier_ms <= later_ms,
        !camera.is_active(earlier_ms, config),
    ensures
        !camera.is_active(later_ms, config),
{
}

/// Inactivity timeout and restoration grace run side by side: a camera of no
/// particular timeout is active until the larger of the two has passed since
/// its last frame.
pub proof fn timeout_and_grace_overlap(camera: CameraObservation, config: CameraConfig, now_ms: u64)
    requires
        config.selected is None,
        camera.last_frame_ms is Some,
    ensures
        camera.is_active(now_ms, config) <==> {
            ||| elapsed(now_ms, camera.last_frame_ms->0) <= config.default_inactive_seconds * 1000
            ||| elapsed(now_ms, camera.last_frame_ms->0) <= config.restore_grace_seconds * 1000
        },
{
}

proof fn timeout_among_finds_the_chosen(
    config: CameraConfig,
    chosen: Seq<SelectedCamera>,
    id: Seq<char>,
)
    ensures
        timeout_among(config, chosen, id) is Some <==> crate::config::camera_ids(chosen).contains(
            id,
        ),
    decreases chosen.len(),
{
    let ids = crate::config::camera_ids(chosen);
    if chosen.len() > 0 {
        let head = chosen.drop_last();
        timeout_among_finds_the_chosen(config, head, id);
        let head_ids = crate::config::camera_ids(head);
        assert(ids.last() == chosen.last().id@);
        if head_ids.contains(id) {
            let i = head_ids.index_of(id);
            assert(ids[i] == id);
        }
        if ids.contains(id) && chosen.last().id@ != id {
            let i = ids.index_of(id);
            assert(head_ids[i] == id);
        }
    }
}

/// With an explicit choice of cameras no other camera is ever active; without
/// one every camera counts.
pub proof fn only_chosen_cameras_count(camera: CameraObservation, config: CameraConfig, now_ms: u64)
    requires
        camera.is_active(now_ms, config),
    ensures
        config.selected is Some ==> crate::config::camera_ids(config.chosen()).contains(camera.id@),
{
    timeout_among_finds_the_chosen(config, config.chosen(), camera.id@);
}

proof fn the_last_entry_counts(
    config: CameraConfig,
    chosen: Seq<SelectedCamera>,
    id: Seq<char>,
    at: int,
)
    requires
        0 <= at < chosen.len(),
        chosen[at].id@ == id,
        forall|j: int| at < j < chosen.len() ==> (#[trigger] chosen[j]).id@ != id,
    ensures
        timeout_among(config, chosen, id) == Some(chosen_timeout(config, chosen[at])),
    decreases chosen.len(),
{
    if at < chosen.len() - 1 {
        assert(chosen[chosen.len() - 1].id@ != id);
        the_last_entry_counts(config, chosen.drop_last(), id, at);
    }
}

/// A chosen camera is active as long as its own timeout, or the default where it
/// has none, or the restoration grace has not passed since its last frame. Where
/// an identity is chosen more than once the last entry counts.
pub proof fn chosen_cameras_are_active_for_their_timeout(
    camera: CameraObservation,
    config: CameraConfig,
    now_ms: u64,
    at: int,
)
    requires
        config.selected is Some,
        0 <= at < config.selected->0@.len(),
        config.selected->0@[at].id@ == camera.id@,
        forall|j: int|
            at < j < config.selected->0@.len() ==> (#[trigger] config.selected->0@[j]).id@
                != camera.id@,
    ensures
        ({
            let seconds = if config.selected->0@[at].inactive_seconds is Some {
                config.selected->0@[at].inactive_seconds->0
            } else {
                config.default_inactive_seconds
            };
            camera.is_active(now_ms, config) <==> {
                &&& camera.last_frame_ms is Some
                &&& {
                    ||| now_ms - camera.last_frame_ms->0 <= seconds * 1000
                    ||| now_ms - camera.last_frame_ms->0 <= config.restore_grace_seconds * 1000
                }
            }
        }),
{
    the_last_entry_counts(config, config.selected->0@, camera.id@, at);
}

/// Where no cameras are chosen every camera is active as long as the default
/// timeout or the restoration grace has not passed since its last frame.
pub proof fn any_camera_is_active_for_the_default_timeout(
    camera: CameraObservation,
    config: CameraConfig,
    now_ms: u64,
)
    requires
        config.selected is None,
    ensures
        camera.is_active(now_ms, config) <==> {
            &&& camera.last_frame_ms is Some
            &&& {
                ||| now_ms - camera.last_frame_ms->0 <= config.default_inactive_seconds * 1000
                ||| now_ms - camera.last_frame_ms->0 <= config.restore_grace_seconds * 1000
            }
        },
{
}

/// Where cameras are chosen no other camera is active, whatever frames it shows.
pub proof fn other_cameras_are_never_active(
    camera: CameraObservation,
    config: CameraConfig,
    now_ms: u64,
)
    requires
        config.selected is Some,
        forall|j: int|
            0 <= j < config.selected->0@.len() ==> (#[trigger] config.selected->0@[j]).id@
                != camera.id@,
    ensures
        !camera.is_active(now_ms, config),
{
    timeout_among_finds_the_chosen(config, config.chosen(), camera.id@);
    let ids = crate::config::camera_ids(config.chosen());
    if ids.contains(camera.id@) {
        let j = ids.index_of(camera.id@);
        assert(config.selected->0@[j].id@ == camera.id@);
    }
}

/// A snapshot of the current version is fresh until its heartbeat is older than
/// the helper may be silent; only a fresh one tells of active cameras, and it
/// tells of exactly those that are.
pub proof fn only_fresh_snapshots_tell_of_activity(
    snapshot: CameraSnapshot,
    config: CameraConfig,
    now_ms: u64,
    id: Seq<char>,
)
    ensures
        snapshot.is_fresh(now_ms, config) <==> snapshot.version == 2 && now_ms
            - snapshot.heartbeat_ms <= config.helper_stale_seconds * 1000,
        snapshot.active_ids(now_ms, config).contains(id) <==> {
            &&& snapshot.version == 2
            &&& now_ms - snapshot.heartbeat_ms <= config.helper_stale_seconds * 1000
            &&& exists|i: int|
                0 <= i < snapshot.cameras@.len() && (#[trigger] snapshot.cameras@[i]).id@ == id
                    && snapshot.cameras@[i].is_active(now_ms, config)
        },
{
}

// ---- light states ----

/// The state of one logical light. The temperature is in mired.
#[derive(Clone, Copy, Debug, PartialEq, Eq, Structural)]
pub struct LogicalLightState {
    pub on: bool,
    pub brightness: u8,
    pub temperature: u16,
}

/// The state of a logical light when a camera session begins: the calibrated
/// brightness, else the saved look, else its own state; on in the first and
/// the last case.
pub open spec fn session_target(
    state: LogicalLightState,
    calibrated_brightness: Option<u8>,
    preset: Option<PresetLight>,
) -> LogicalLightState {
    match (calibrated_brightness, preset) {
        (Some(brightness), _) => LogicalLightState {
            on: true,
            brightness,
            temperature: state.temperature,
        },
        (None, Some(look)) => shown(look),
        (None, None) => LogicalLightState {
            on: true,
            brightness: state.brightness,
            temperature: state.temperature,
        },
    }
}

/// A logical light with the look `look`.
pub open spec fn shown(look: PresetLight) -> LogicalLightState {
    LogicalLightState { on: look.on, brightness: look.brightness, temperature: look.temperature }
}

/// The states of a device's logical lights when a camera session begins.
///
/// A calibrated brightness leaves the temperature as it is. A saved look is
/// taken as it stands: a light saved off is set off.
pub fn session_target_states(
    original: &[LogicalLightState],
    calibrated_brightness: Option<u8>,
    preset: Option<PresetLight>,
) -> (r: Vec<LogicalLightState>)
    ensures
        r@ == original@.map_values(
            |s: LogicalLightState| session_target(s, calibrated_brightness, preset),
        ),
        r@.len() == original@.len(),
        forall|i: int|
            0 <= i < r@.len() ==> {
                &&& (#[trigger] r@[i]).on == (calibrated_brightness is Some || preset is None
                    || preset->0.on)
                &&& r@[i].brightness == (if calibrated_brightness is Some {
                    calibrated_brightness->0
                } else if preset is Some {
                    preset->0.brightness
                } else {
                    original@[i].brightness
                })
                &&& r@[i].temperature == (if calibrated_brightness is None && preset is Some {
                    preset->0.temperature
                } else {
                    original@[i].temperature
                })
            },
{
    let ghost target = |s: LogicalLightState| session_target(s, calibrated_brightness, preset);
    let mut out: Vec<LogicalLightState> = Vec::new();
    let mut i: usize = 0;
    while i < original.len()
        invariant
            i <= original@.len(),
            target == (|s: LogicalLightState| session_target(s, calibrated_brightness, preset)),
            out@ =~= original@.take(i as int).map_values(target),
        decreases original@.len() - i,
    {
        let state = original[i];
        let next = match calibrated_brightness {
            Some(brightness) => LogicalLightState {
                on: true,
                brightness,
                temperature: state.temperature,
            },
            None => match preset {
                Some(look) => LogicalLightState {
                    on: look.on,
                    brightness: look.brightness,
                    temperature: look.temperature,
                },
                None => LogicalLightState {
                    on: true,
                    brightness: state.brightness,
                    temperature: state.temperature,
                },
            },
        };
        out.push(next);
        assert(next == target(original@[i as int]));
        i += 1;
    }
    assert(original@.take(i as int) =~= original@);
    out
}

/// The target of a session, field by field: a calibrated brightness lights the
/// lamp at that brightness and leaves its temperature; without one a saved look
/// is shown as it was saved, lit or not; with neither the lamp is lit as it is.
pub proof fn targets_by_field(
    state: LogicalLightState,
    calibrated_brightness: Option<u8>,
    preset: Option<PresetLight>,
)
    ensures
        ({
            let target = session_target(state, calibrated_brightness, preset);
            if calibrated_brightness is Some {
                &&& target.on
                &&& target.brightness == calibrated_brightness->0
                &&& target.temperature == state.temperature
            } else if preset is Some {
                &&& target.on == preset->0.on
                &&& target.brightness == preset->0.brightness
                &&& target.temperature == preset->0.temperature
            } else {
                &&& target.on
                &&& target.brightness == state.brightness
                &&& target.temperature == state.temperature
            }
        }),
{
}

/// A look that is shown has the look's power, brightness and temperature.
pub proof fn looks_are_shown_as_they_are(look: PresetLight)
    ensures
        shown(look).on == look.on,
        shown(look).brightness == look.brightness,
        shown(look).temperature == look.temperature,
{
}

/// Whether two lists of states are the same.
pub fn states_equal(a: &[LogicalLightState], b: &[LogicalLightState]) -> (r: bool)
    ensures
        r == (a@ == b@),
{
    if a.len() != b.len() {
        return false;
    }
    let mut i: usize = 0;
    while i < a.len()
        invariant
            a@.len() == b@.len(),
            i <= a@.len(),
            forall|j: int| 0 <= j < i ==> a@[j] == b@[j],
        decreases a@.len() - i,
    {
        if a[i] != b[i] {
            return false;
        }
        i += 1;
    }
    assert(a@ =~= b@);
    true
}

// ---- ownership ----

/// A light that the daemon holds: how it was, and how the daemon set it.
#[derive(Clone, Debug)]
pub struct OwnedLight {
    pub selection: SelectedLight,
    pub original: Vec<LogicalLightState>,
    pub applied: Vec<LogicalLightState>,
}

/// What an [`OwnedLight`] records.
pub struct Ownership {
    pub selection: SelectedLight,
    pub original: Seq<LogicalLightState>,
    pub applied: Seq<LogicalLightState>,
}

impl OwnedLight {
    pub open spec fn view(&self) -> Ownership {
        Ownership {
            selection: self.selection,
            original: self.original@,
            applied: self.applied@,
        }
    }
}

/// The lights that the daemon holds, by identity.
#[derive(Debug)]
pub struct OwnershipJournal {
    pub version: u32,
    pub lights: TextMap<OwnedLight>,
}

impl OwnershipJournal {
    /// What the journal records, by identity.
    pub open spec fn view(&self) -> Map<Seq<char>, Ownership> {
        self.lights@.map_values(|o: OwnedLight| o@)
    }

    pub open spec fn wf(self) -> bool {
        self.lights.wf()
    }
}

impl Default for OwnershipJournal {
    fn default() -> (r: Self)
        ensures
            r.wf(),
            r.version == STATE_VERSION,
            r.version == 2,
            r@ == Map::<Seq<char>, Ownership>::empty(),
    {
        let r = OwnershipJournal { version: STATE_VERSION, lights: TextMap::new() };
        assert(r@ =~= Map::<Seq<char>, Ownership>::empty());
        r
    }
}

/// Whether a light still stands as the daemon set it.
pub fn ownership_matches(current: &[LogicalLightState], owned: &OwnedLight) -> (r: bool)
    ensures
        r == (current@ == owned@.applied),
{
    states_equal(current, owned.applied.as_slice())
}

} // verus!
