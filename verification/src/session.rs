//! Camera sessions: when lights are set, when they are put back, and when a
//! light that could not be reached is tried again.

use vstd::prelude::*;

use crate::config;
use crate::config::SelectedLight;
use crate::domain::{CameraActivity, OwnedLight, Ownership, OwnershipJournal};
use crate::retry;
use crate::retry::{moment_after, Retry};
use crate::text;
use crate::text_map::TextMap;

verus! {

// ---- the model ----

/// How things stand with the session.
#[verifier::ext_equal]
pub struct Course {
    /// When each light is tried next.
    pub retries: Map<Seq<char>, Retry>,
    /// Whether a session is on.
    pub camera_active: bool,
    /// Whether cameras were looked at since the start or the last resume.
    pub camera_initialized: bool,
    /// When restoration begins, where the state of the cameras is not known.
    pub grace_deadline: Option<u128>,
    /// Whether lights are being put back.
    pub restoring: bool,
    pub suspended: bool,
    pub shutting_down: bool,
    /// The calibrated brightness of this session.
    pub brightness: Option<u8>,
    /// Whether someone waits for the lights to be put back before suspend.
    pub suspend_awaited: bool,
}

/// Whether any light is held.
pub open spec fn holds_any(journal: Map<Seq<char>, Ownership>) -> bool {
    exists|id: Seq<char>| journal.contains_key(id)
}

/// The retries with a first try, now, for each of `ids`: for all of them where
/// `anew`, else for those that have none.
pub open spec fn scheduled(
    retries: Map<Seq<char>, Retry>,
    ids: Set<Seq<char>>,
    anew: bool,
    now: u64,
) -> Map<Seq<char>, Retry> {
    Map::new(
        |id: Seq<char>| retries.contains_key(id) || ids.contains(id),
        |id: Seq<char>|
            if ids.contains(id) && (anew || !retries.contains_key(id)) {
                Retry::first(now)
            } else {
                retries[id]
            },
    )
}

/// The chosen lights that are not held.
pub open spec fn unheld(
    selected: Seq<SelectedLight>,
    journal: Map<Seq<char>, Ownership>,
) -> Set<Seq<char>> {
    config::light_ids(selected).to_set().difference(journal.dom())
}

impl Course {
    /// Whether held lights have to be put back once no camera is active: a
    /// session is on, or an earlier run left lights.
    pub open spec fn owes(self, journal: Map<Seq<char>, Ownership>) -> bool {
        self.camera_active || (!self.camera_initialized && holds_any(journal))
    }

    /// Restoration begins: every held light is tried now, and no other.
    pub open spec fn restoration_begun(
        self,
        journal: Map<Seq<char>, Ownership>,
        now: u64,
    ) -> Course {
        Course {
            retries: scheduled(Map::empty(), journal.dom(), true, now),
            grace_deadline: None,
            restoring: true,
            ..self
        }
    }

    /// A camera is active.
    pub open spec fn activity_seen(
        self,
        selected: Seq<SelectedLight>,
        journal: Map<Seq<char>, Ownership>,
        sampled: Option<u8>,
        now: u64,
    ) -> Course {
        let begun = if self.camera_active {
            self.retries
        } else {
            scheduled(
                scheduled(self.retries, unheld(selected, journal), true, now),
                journal.dom(),
                true,
                now,
            )
        };
        Course {
            retries: scheduled(begun, unheld(selected, journal), false, now),
            camera_active: true,
            camera_initialized: true,
            grace_deadline: None,
            restoring: false,
            brightness: if self.camera_active {
                self.brightness
            } else {
                sampled
            },
            ..self
        }
    }

    /// No camera is active, or the state of the cameras is not known.
    pub open spec fn activity_missed(
        self,
        stale: bool,
        journal: Map<Seq<char>, Ownership>,
        grace_seconds: u64,
        now: u64,
    ) -> Course {
        let seen = if !self.owes(journal) {
            Course { camera_initialized: self.camera_initialized || !stale, ..self }
        } else if stale {
            Course {
                camera_active: false,
                camera_initialized: true,
                grace_deadline: Some(retry::after(now, grace_seconds)),
                ..self
            }
        } else {
            (Course { camera_active: false, camera_initialized: true, ..self }).restoration_begun(
                journal,
                now,
            )
        };
        match seen.grace_deadline {
            Some(deadline) if now >= deadline => seen.restoration_begun(journal, now),
            _ => seen,
        }
    }

    /// Restoration is over where nothing is held any more.
    pub open spec fn settled(self, journal: Map<Seq<char>, Ownership>) -> Course {
        if holds_any(journal) {
            self
        } else {
            Course { restoring: false, brightness: None, ..self }
        }
    }

    /// How things stand after the cameras were looked at.
    pub open spec fn ticked(
        self,
        activity: CameraActivity,
        selected: Seq<SelectedLight>,
        journal: Map<Seq<char>, Ownership>,
        sampled: Option<u8>,
        grace_seconds: u64,
        now: u64,
    ) -> Course {
        if activity is Active {
            self.activity_seen(selected, journal, sampled, now)
        } else {
            let seen = self.activity_missed(activity is Stale, journal, grace_seconds, now);
            if seen.restoring {
                seen.settled(journal)
            } else {
                seen
            }
        }
    }

    /// How things stand after an attempt on the light `id`.
    pub open spec fn attempted(self, id: Seq<char>, success: bool, now: u64) -> Course {
        Course {
            retries: if success {
                self.retries.remove(id)
            } else if self.retries.contains_key(id) {
                self.retries.insert(id, self.retries[id].following(now))
            } else {
                self.retries.insert(id, Retry::first(now).following(now))
            },
            ..self
        }
    }

    /// The daemon has to stop.
    pub open spec fn stopped(self, journal: Map<Seq<char>, Ownership>, now: u64) -> Course {
        (Course { shutting_down: true, ..self }).restoration_begun(journal, now)
    }

    /// The machine is about to sleep.
    pub open spec fn put_to_sleep(
        self,
        journal: Map<Seq<char>, Ownership>,
        awaited: bool,
        now: u64,
    ) -> Course {
        (Course { suspended: true, suspend_awaited: awaited, ..self }).restoration_begun(
            journal,
            now,
        )
    }

    /// The machine is awake again.
    pub open spec fn woken(self) -> Course {
        Course {
            suspended: false,
            suspend_awaited: false,
            camera_active: false,
            camera_initialized: false,
            brightness: None,
            ..self
        }
    }
}

/// The chosen lights whose next try is due, in the order of choice.
pub open spec fn due_choices(
    selected: Seq<SelectedLight>,
    retries: Map<Seq<char>, Retry>,
    now: u64,
) -> Seq<SelectedLight>
    decreases selected.len(),
{
    if selected.len() == 0 {
        Seq::empty()
    } else {
        let head = due_choices(selected.drop_last(), retries, now);
        let id = selected.last().id@;
        if retries.contains_key(id) && retries[id].is_due(now) {
            head.push(selected.last())
        } else {
            head
        }
    }
}

/// The held lights that may be tried, in the order of the journal.
pub open spec fn due_holdings(
    held: Seq<OwnedLight>,
    retries: Map<Seq<char>, Retry>,
    now: u64,
) -> Seq<SelectedLight>
    decreases held.len(),
{
    if held.len() == 0 {
        Seq::empty()
    } else {
        let head = due_holdings(held.drop_last(), retries, now);
        let id = held.last().selection.id@;
        if !retries.contains_key(id) || retries[id].is_due(now) {
            head.push(held.last().selection)
        } else {
            head
        }
    }
}

// ---- the code ----

/// How things stand with the session.
#[derive(Debug)]
pub struct Session {
    pub retries: TextMap<Retry>,
    pub camera_active: bool,
    pub camera_initialized: bool,
    pub grace_deadline: Option<u128>,
    pub restoring: bool,
    pub suspended: bool,
    pub shutting_down: bool,
    pub brightness: Option<u8>,
    pub suspend_awaited: bool,
}

/// The lights to try next, and what for.
#[derive(Debug)]
pub enum Plan {
    Activate { lights: Vec<SelectedLight> },
    Restore { lights: Vec<SelectedLight> },
    Rest,
}

/// Whether `plan` names exactly the lights that are due: chosen ones while a
/// camera is active, held ones while lights are being put back.
pub open spec fn plan_fits(
    plan: Plan,
    activity: CameraActivity,
    selected: Seq<SelectedLight>,
    journal: OwnershipJournal,
    course: Course,
    now: u64,
) -> bool {
    let choices = due_choices(selected, course.retries, now);
    let holdings = due_holdings(journal.lights.values(), course.retries, now);
    if activity is Active && choices.len() > 0 {
        plan is Activate && plan->Activate_lights@ == choices
    } else if !(activity is Active) && course.restoring && holdings.len() > 0 {
        plan is Restore && plan->Restore_lights@ == holdings
    } else {
        plan is Rest
    }
}

/// Gives each of `ids` a first try, now: each of them where `anew`, else each
/// that has none.
fn schedule(retries: &mut TextMap<Retry>, ids: &Vec<String>, anew: bool, now: u64)
    requires
        old(retries).wf(),
    ensures
        final(retries).wf(),
        final(retries)@ == scheduled(old(retries)@, text::texts(ids@).to_set(), anew, now),
{
    let ghost before = retries@;
    let mut i: usize = 0;
    assert(text::texts(ids@).take(0).to_set() =~= Set::<Seq<char>>::empty());
    assert(retries@ =~= scheduled(before, text::texts(ids@).take(0).to_set(), anew, now));
    while i < ids.len()
        invariant
            i <= ids@.len(),
            retries.wf(),
            retries@ == scheduled(before, text::texts(ids@).take(i as int).to_set(), anew, now),
        decreases ids@.len() - i,
    {
        let ghost done = text::texts(ids@).take(i as int);
        let ghost id = ids@[i as int]@;
        if anew || !retries.contains_key(ids[i].as_str()) {
            retries.insert(ids[i].clone(), Retry::immediate(now));
        }
        i += 1;
        proof {
            assert(text::texts(ids@).take(i as int) =~= done.push(id));
            assert forall|k: Seq<char>| #[trigger]
                done.push(id).to_set().contains(k) <==> (done.to_set().contains(k) || k == id) by {
                if done.contains(k) {
                    assert(done.push(id)[done.index_of(k)] == k);
                }
                if k == id {
                    assert(done.push(id)[done.len() as int] == k);
                }
                if done.push(id).contains(k) && k != id {
                    assert(done[done.push(id).index_of(k)] == k);
                }
            }
            assert(retries@ =~= scheduled(before, done.push(id).to_set(), anew, now));
        }
    }
    assert(text::texts(ids@).take(i as int) =~= text::texts(ids@));
}

/// The chosen lights that are not held.
fn unheld_ids(selected: &Vec<SelectedLight>, journal: &OwnershipJournal) -> (r: Vec<String>)
    requires
        journal.wf(),
    ensures
        text::texts(r@).to_set() == unheld(selected@, journal@),
{
    let mut out: Vec<String> = Vec::new();
    let mut i: usize = 0;
    while i < selected.len()
        invariant
            i <= selected@.len(),
            journal.wf(),
            forall|k: Seq<char>| #[trigger]
                text::texts(out@).contains(k) <==> (exists|j: int|
                    0 <= j < i && #[trigger] selected@[j].id@ == k) && !journal@.contains_key(k),
        decreases selected@.len() - i,
    {
        let ghost before = text::texts(out@);
        let ghost id = selected@[i as int].id@;
        let held = journal.lights.contains_key(selected[i].id.as_str());
        if !held {
            let key = selected[i].id.clone();
            proof {
                text::texts_push(out@, key);
            }
            out.push(key);
        }
        proof {
            assert forall|k: Seq<char>| #[trigger]
                text::texts(out@).contains(k) <==> (exists|j: int|
                    0 <= j < i + 1 && #[trigger] selected@[j].id@ == k) && !journal@.contains_key(
                    k,
                ) by {
                assert(before.contains(k) <==> (exists|j: int|
                    0 <= j < i && #[trigger] selected@[j].id@ == k) && !journal@.contains_key(k));
                if before.contains(k) {
                    assert(text::texts(out@)[before.index_of(k)] == k);
                }
                if k == id && !held {
                    assert(text::texts(out@)[before.len() as int] == k);
                    assert(selected@[i as int].id@ == k);
                }
                if text::texts(out@).contains(k) && !before.contains(k) {
                    let at = text::texts(out@).index_of(k);
                    if at < before.len() {
                        assert(before[at] == k);
                    }
                    assert(k == id && !held);
                }
            }
        }
        i += 1;
    }
    proof {
        let ids = config::light_ids(selected@);
        assert forall|k: Seq<char>|
            text::texts(out@).to_set().contains(k) <==> unheld(selected@, journal@).contains(
                k,
            ) by {
            assert(text::texts(out@).to_set().contains(k) <==> text::texts(out@).contains(k));
            if ids.contains(k) {
                let j = ids.index_of(k);
                assert(selected@[j].id@ == k);
            }
            if exists|j: int| 0 <= j < i && #[trigger] selected@[j].id@ == k {
                let j = choose|j: int| 0 <= j < i && #[trigger] selected@[j].id@ == k;
                assert(ids[j] == k);
            }
        }
        assert(text::texts(out@).to_set() =~= unheld(selected@, journal@));
    }
    out
}

/// Whether any light is held, so that there is a journal to keep.
pub fn holds_lights(journal: &OwnershipJournal) -> (r: bool)
    requires
        journal.wf(),
    ensures
        r == holds_any(journal@),
        r <==> exists|id: Seq<char>| #[trigger] journal@.contains_key(id),
{
    let r = !journal.lights.is_empty();
    proof {
        if r {
            crate::text_map::entry_is_held(journal.lights, 0);
            assert(journal@.contains_key(journal.lights.keys()[0]));
        } else {
            assert forall|k: Seq<char>| !journal@.contains_key(k) by {
                assert(!journal.lights@.contains_key(k));
            }
        }
    }
    r
}

fn choices_due(selected: &Vec<SelectedLight>, retries: &TextMap<Retry>, now: u64) -> (r: Vec<
    SelectedLight,
>)
    requires
        retries.wf(),
    ensures
        r@ == due_choices(selected@, retries@, now),
{
    let mut out: Vec<SelectedLight> = Vec::new();
    let mut i: usize = 0;
    while i < selected.len()
        invariant
            i <= selected@.len(),
            retries.wf(),
            out@ == due_choices(selected@.take(i as int), retries@, now),
        decreases selected@.len() - i,
    {
        assert(selected@.take(i + 1).drop_last() =~= selected@.take(i as int));
        let due = match retries.get(selected[i].id.as_str()) {
            Some(retry) => retry.due(now),
            None => false,
        };
        if due {
            out.push(selected[i].clone());
        }
        i += 1;
    }
    assert(selected@.take(i as int) =~= selected@);
    out
}

fn holdings_due(journal: &OwnershipJournal, retries: &TextMap<Retry>, now: u64) -> (r: Vec<
    SelectedLight,
>)
    requires
        journal.wf(),
        retries.wf(),
    ensures
        r@ == due_holdings(journal.lights.values(), retries@, now),
{
    let mut out: Vec<SelectedLight> = Vec::new();
    let mut i: usize = 0;
    let count: usize = journal.lights.len();
    let ghost held = journal.lights.values();
    while i < count
        invariant
            journal.wf(),
            retries.wf(),
            held == journal.lights.values(),
            i <= count == held.len(),
            held.len() == journal.lights.keys().len(),
            out@ == due_holdings(held.take(i as int), retries@, now),
        decreases count - i,
    {
        assert(held.take(i + 1).drop_last() =~= held.take(i as int));
        let owned = journal.lights.value(i);
        let due = match retries.get(owned.selection.id.as_str()) {
            Some(retry) => retry.due(now),
            None => true,
        };
        if due {
            out.push(owned.selection.clone());
        }
        i += 1;
    }
    assert(held.take(i as int) =~= held);
    out
}

impl Session {
    pub open spec fn view(&self) -> Course {
        Course {
            retries: self.retries@,
            camera_active: self.camera_active,
            camera_initialized: self.camera_initialized,
            grace_deadline: self.grace_deadline,
            restoring: self.restoring,
            suspended: self.suspended,
            shutting_down: self.shutting_down,
            brightness: self.brightness,
            suspend_awaited: self.suspend_awaited,
        }
    }

    pub open spec fn wf(self) -> bool {
        self.retries.wf()
    }

    /// The daemon starts. Lights that an earlier run left are tried now.
    pub fn new(journal: &OwnershipJournal, now: u64) -> (r: Self)
        requires
            journal.wf(),
        ensures
            r.wf(),
            r@ == (Course {
                retries: scheduled(Map::empty(), journal@.dom(), true, now),
                camera_active: false,
                camera_initialized: false,
                grace_deadline: None,
                restoring: false,
                suspended: false,
                shutting_down: false,
                brightness: None,
                suspend_awaited: false,
            }),
    {
        let retries = held_now(journal, now);
        Session {
            retries,
            camera_active: false,
            camera_initialized: false,
            grace_deadline: None,
            restoring: false,
            suspended: false,
            shutting_down: false,
            brightness: None,
            suspend_awaited: false,
        }
    }

    /// Whether `activity` begins a session, so that the brightness has to be
    /// sampled.
    pub fn starts(&self, activity: CameraActivity) -> (r: bool)
        ensures
            r == (activity is Active && !self@.camera_active),
    {
        match activity {
            CameraActivity::Active => !self.camera_active,
            _ => false,
        }
    }

    /// Begins to put the held lights back.
    pub fn begin_restoration(&mut self, journal: &OwnershipJournal, now: u64)
        requires
            old(self).wf(),
            journal.wf(),
        ensures
            final(self).wf(),
            final(self)@ == old(self)@.restoration_begun(journal@, now),
    {
        self.grace_deadline = None;
        self.restoring = true;
        self.retries = held_now(journal, now);
    }

    /// Ends restoration where nothing is held any more.
    pub fn settle(&mut self, journal: &OwnershipJournal)
        requires
            old(self).wf(),
            journal.wf(),
        ensures
            final(self).wf(),
            final(self)@ == old(self)@.settled(journal@),
    {
        if !holds_lights(journal) {
            self.restoring = false;
            self.brightness = None;
        }
    }

    fn see_activity(
        &mut self,
        selected: &Vec<SelectedLight>,
        journal: &OwnershipJournal,
        sampled: Option<u8>,
        now: u64,
    )
        requires
            old(self).wf(),
            journal.wf(),
        ensures
            final(self).wf(),
            final(self)@ == old(self)@.activity_seen(selected@, journal@, sampled, now),
    {
        let waiting = unheld_ids(selected, journal);
        if !self.camera_active {
            self.brightness = sampled;
            schedule(&mut self.retries, &waiting, true, now);
            let held = journal.lights.key_list();
            proof {
                crate::text_map::keys_are_the_domain(journal.lights);
                assert(journal.lights@.dom() =~= journal@.dom());
            }
            schedule(&mut self.retries, &held, true, now);
        }
        self.camera_initialized = true;
        self.camera_active = true;
        self.grace_deadline = None;
        self.restoring = false;
        schedule(&mut self.retries, &waiting, false, now);
    }

    fn miss_activity(
        &mut self,
        stale: bool,
        journal: &OwnershipJournal,
        grace_seconds: u64,
        now: u64,
    )
        requires
            old(self).wf(),
            journal.wf(),
        ensures
            final(self).wf(),
            final(self)@ == old(self)@.activity_missed(stale, journal@, grace_seconds, now),
    {
        let owes = self.camera_active || (!self.camera_initialized && holds_lights(journal));
        if !owes {
            if !stale {
                self.camera_initialized = true;
            }
        } else {
            self.camera_active = false;
            self.camera_initialized = true;
            if stale {
                self.grace_deadline = Some(moment_after(now, grace_seconds));
            } else {
                self.begin_restoration(journal, now);
            }
        }
        if let Some(deadline) = self.grace_deadline {
            if now as u128 >= deadline {
                self.begin_restoration(journal, now);
            }
        }
    }

    /// Takes note of what the cameras do, and says which lights to try.
    /// `sampled` is the calibrated brightness, for a session that begins.
    pub fn tick(
        &mut self,
        activity: CameraActivity,
        selected: &Vec<SelectedLight>,
        journal: &OwnershipJournal,
        sampled: Option<u8>,
        grace_seconds: u64,
        now: u64,
    ) -> (r: Plan)
        requires
            old(self).wf(),
            journal.wf(),
        ensures
            final(self).wf(),
            final(self)@ == old(self)@.ticked(
                activity,
                selected@,
                journal@,
                sampled,
                grace_seconds,
                now,
            ),
            plan_fits(r, activity, selected@, *journal, final(self)@, now),
    {
        match activity {
            CameraActivity::Active => {
                self.see_activity(selected, journal, sampled, now);
                let lights = choices_due(selected, &self.retries, now);
                if lights.len() == 0 {
                    Plan::Rest
                } else {
                    Plan::Activate { lights }
                }
            },
            _ => {
                let stale = match activity {
                    CameraActivity::Stale => true,
                    _ => false,
                };
                self.miss_activity(stale, journal, grace_seconds, now);
                if !self.restoring {
                    return Plan::Rest;
                }
                self.settle(journal);
                let lights = holdings_due(journal, &self.retries, now);
                if lights.len() == 0 || !self.restoring {
                    Plan::Rest
                } else {
                    Plan::Restore { lights }
                }
            },
        }
    }

    /// Takes note of how an attempt on the light `id` ended.
    pub fn finish_attempt(&mut self, id: &str, success: bool, now: u64)
        requires
            old(self).wf(),
        ensures
            final(self).wf(),
            final(self)@ == old(self)@.attempted(id@, success, now),
    {
        let ghost before = self.retries@;
        let taken = self.retries.remove(id);
        if !success {
            let retry = match taken {
                Some(retry) => retry,
                None => Retry::immediate(now),
            };
            self.retries.insert(id.to_string(), retry.failed(now));
            assert(before.remove(id@).insert(id@, retry.following(now)) =~= before.insert(
                id@,
                retry.following(now),
            ));
        }
    }

    /// The daemon has to stop.
    pub fn stop(&mut self, journal: &OwnershipJournal, now: u64)
        requires
            old(self).wf(),
            journal.wf(),
        ensures
            final(self).wf(),
            final(self)@ == old(self)@.stopped(journal@, now),
    {
        self.shutting_down = true;
        self.begin_restoration(journal, now);
    }

    /// The machine is about to sleep; `awaited` says whether someone waits for
    /// the lights to be put back.
    pub fn suspend(&mut self, journal: &OwnershipJournal, awaited: bool, now: u64)
        requires
            old(self).wf(),
            journal.wf(),
        ensures
            final(self).wf(),
            final(self)@ == old(self)@.put_to_sleep(journal@, awaited, now),
    {
        self.suspended = true;
        self.suspend_awaited = awaited;
        self.begin_restoration(journal, now);
    }

    /// The machine is awake again.
    pub fn resume(&mut self)
        requires
            old(self).wf(),
        ensures
            final(self).wf(),
            final(self)@ == old(self)@.woken(),
    {
        self.suspended = false;
        self.suspend_awaited = false;
        self.camera_active = false;
        self.camera_initialized = false;
        self.brightness = None;
    }

    /// Whether the cameras count. While the machine is about to sleep or the
    /// daemon has to stop, none is taken to be active.
    pub fn watches_cameras(&self) -> (r: bool)
        ensures
            r == !(self@.suspended || self@.shutting_down),
    {
        !(self.suspended || self.shutting_down)
    }

    /// Whether the one who waits for suspend is to be told, now and once, that
    /// the lights are put back.
    pub fn take_suspend_ready(&mut self, journal: &OwnershipJournal) -> (r: bool)
        requires
            old(self).wf(),
            journal.wf(),
        ensures
            final(self).wf(),
            r == (old(self)@.suspended && old(self)@.suspend_awaited && !holds_any(journal@)),
            final(self)@ == (Course {
                suspend_awaited: old(self)@.suspend_awaited && !r,
                ..old(self)@
            }),
    {
        if self.suspended && self.suspend_awaited && !holds_lights(journal) {
            self.suspend_awaited = false;
            true
        } else {
            false
        }
    }

    /// Whether the daemon may exit: it has to stop, and every light is put back.
    pub fn may_exit(&self, journal: &OwnershipJournal) -> (r: bool)
        requires
            journal.wf(),
        ensures
            r == (self@.shutting_down && !holds_any(journal@)),
    {
        self.shutting_down && !holds_lights(journal)
    }
}

/// A first try, now, for every held light.
fn held_now(journal: &OwnershipJournal, now: u64) -> (r: TextMap<Retry>)
    requires
        journal.wf(),
    ensures
        r.wf(),
        r@ == scheduled(Map::empty(), journal@.dom(), true, now),
{
    let mut retries: TextMap<Retry> = TextMap::new();
    let held = journal.lights.key_list();
    proof {
        crate::text_map::keys_are_the_domain(journal.lights);
        assert(journal.lights@.dom() =~= journal@.dom());
    }
    schedule(&mut retries, &held, true, now);
    retries
}

// ---- what holds of every session ----

/// Ambient brightness is taken once, when the session begins: as long as the
/// session lasts, no later sample counts.
pub proof fn brightness_is_sampled_once(
    course: Course,
    selected: Seq<SelectedLight>,
    journal: Map<Seq<char>, Ownership>,
    sampled: Option<u8>,
    grace_seconds: u64,
    now: u64,
)
    ensures
        course.ticked(
            CameraActivity::Active,
            selected,
            journal,
            sampled,
            grace_seconds,
            now,
        ).brightness == (if course.camera_active {
            course.brightness
        } else {
            sampled
        }),
{
}

/// Camera activity cancels restoration, begun or pending.
pub proof fn activity_cancels_restoration(
    course: Course,
    selected: Seq<SelectedLight>,
    journal: Map<Seq<char>, Ownership>,
    sampled: Option<u8>,
    grace_seconds: u64,
    now: u64,
)
    ensures
        ({
            let after = course.ticked(
                CameraActivity::Active,
                selected,
                journal,
                sampled,
                grace_seconds,
                now,
            );
            after.camera_active && !after.restoring && after.grace_deadline is None
        }),
{
}

proof fn due_choices_hold(
    selected: Seq<SelectedLight>,
    retries: Map<Seq<char>, Retry>,
    now: u64,
    i: int,
)
    requires
        0 <= i < selected.len(),
        retries.contains_key(selected[i].id@),
        retries[selected[i].id@].is_due(now),
    ensures
        due_choices(selected, retries, now).contains(selected[i]),
    decreases selected.len(),
{
    let head = due_choices(selected.drop_last(), retries, now);
    if i == selected.len() - 1 {
        assert(due_choices(selected, retries, now)[head.len() as int] == selected[i]);
    } else {
        due_choices_hold(selected.drop_last(), retries, now, i);
        let at = head.index_of(selected[i]);
        assert(due_choices(selected, retries, now)[at] == selected[i]);
    }
}

/// When a session begins every chosen light is tried at once, held or not.
pub proof fn sessions_try_every_choice(
    course: Course,
    selected: Seq<SelectedLight>,
    journal: Map<Seq<char>, Ownership>,
    sampled: Option<u8>,
    grace_seconds: u64,
    now: u64,
    i: int,
)
    requires
        !course.camera_active,
        0 <= i < selected.len(),
    ensures
        due_choices(
            selected,
            course.ticked(
                CameraActivity::Active,
                selected,
                journal,
                sampled,
                grace_seconds,
                now,
            ).retries,
            now,
        ).contains(selected[i]),
{
    let id = selected[i].id@;
    assert(config::light_ids(selected)[i] == id);
    assert(config::light_ids(selected).contains(id));
    let after = course.ticked(
        CameraActivity::Active,
        selected,
        journal,
        sampled,
        grace_seconds,
        now,
    );
    assert(after.retries[id] == Retry::first(now));
    due_choices_hold(selected, after.retries, now, i);
}

/// How an attempt on a light ends bears on the next try of no other light: one
/// that failed is tried again, one that succeeded is not.
pub proof fn retries_are_independent(
    course: Course,
    id: Seq<char>,
    success: bool,
    now: u64,
    other: Seq<char>,
)
    requires
        other != id,
    ensures
        course.attempted(id, success, now).retries.contains_key(other)
            == course.retries.contains_key(other),
        course.attempted(id, success, now).retries[other] == course.retries[other],
        !success ==> course.attempted(id, success, now).retries.contains_key(id),
        success ==> !course.attempted(id, success, now).retries.contains_key(id),
{
}

/// A session whose cameras are known to be inactive is followed by restoration
/// at once; so is the start of a daemon that finds lights held.
pub proof fn known_inactivity_restores_at_once(
    course: Course,
    selected: Seq<SelectedLight>,
    journal: Map<Seq<char>, Ownership>,
    sampled: Option<u8>,
    grace_seconds: u64,
    now: u64,
)
    requires
        course.owes(journal),
        holds_any(journal),
    ensures
        ({
            let after = course.ticked(
                CameraActivity::Inactive,
                selected,
                journal,
                sampled,
                grace_seconds,
                now,
            );
            &&& after.restoring
            &&& !after.camera_active
            &&& forall|id: Seq<char>| #[trigger]
                journal.contains_key(id) ==> after.retries.contains_key(id)
                    && after.retries[id].is_due(now)
        }),
{
}

/// A session whose cameras are not known any more starts a grace period, from
/// that moment on; restoration waits until it is over.
pub proof fn unknown_activity_starts_a_grace_period(
    course: Course,
    selected: Seq<SelectedLight>,
    journal: Map<Seq<char>, Ownership>,
    sampled: Option<u8>,
    grace_seconds: u64,
    now: u64,
)
    requires
        course.owes(journal),
        !course.restoring,
        grace_seconds > 0,
    ensures
        ({
            let after = course.ticked(
                CameraActivity::Stale,
                selected,
                journal,
                sampled,
                grace_seconds,
                now,
            );
            &&& !after.restoring
            &&& !after.camera_active
            &&& after.camera_initialized
            &&& after.grace_deadline == Some((now + grace_seconds * retry::SECOND) as u128)
        }),
{
    assert(grace_seconds * retry::SECOND > 0) by (nonlinear_arith)
        requires
            grace_seconds > 0,
            retry::SECOND > 0,
    ;
    assert(grace_seconds * retry::SECOND <= 0xffff_ffff_ffff_ffff * 1_000_000_000)
        by (nonlinear_arith)
        requires
            grace_seconds <= 0xffff_ffff_ffff_ffff,
            retry::SECOND == 1_000_000_000,
    ;
}

/// As long as no camera is active, the grace period ends at its moment and in
/// no other way: held lights are put back from that moment on.
pub proof fn grace_ends_at_its_moment(
    course: Course,
    activity: CameraActivity,
    selected: Seq<SelectedLight>,
    journal: Map<Seq<char>, Ownership>,
    sampled: Option<u8>,
    grace_seconds: u64,
    now: u64,
)
    requires
        !(activity is Active),
        !course.camera_active,
        course.camera_initialized,
        !course.restoring,
        course.grace_deadline is Some,
        holds_any(journal),
    ensures
        ({
            let after = course.ticked(activity, selected, journal, sampled, grace_seconds, now);
            if now >= course.grace_deadline->0 {
                after.restoring && after.grace_deadline is None
            } else {
                !after.restoring && after.grace_deadline == course.grace_deadline
            }
        }),
{
}

/// Restoration goes on until nothing is held: only camera activity ends it
/// before.
pub proof fn restoration_goes_on(
    course: Course,
    activity: CameraActivity,
    selected: Seq<SelectedLight>,
    journal: Map<Seq<char>, Ownership>,
    sampled: Option<u8>,
    grace_seconds: u64,
    now: u64,
)
    requires
        course.restoring,
        !(activity is Active),
    ensures
        course.ticked(activity, selected, journal, sampled, grace_seconds, now).restoring
            == holds_any(journal),
{
}

proof fn due_holdings_are_all(
    held: Seq<OwnedLight>,
    retries: Map<Seq<char>, Retry>,
    now: u64,
)
    requires
        forall|id: Seq<char>| #[trigger] retries.contains_key(id) ==> retries[id].is_due(now),
    ensures
        due_holdings(held, retries, now) == held.map_values(|o: OwnedLight| o.selection),
    decreases held.len(),
{
    let all = held.map_values(|o: OwnedLight| o.selection);
    if held.len() > 0 {
        due_holdings_are_all(held.drop_last(), retries, now);
        assert(all =~= held.drop_last().map_values(|o: OwnedLight| o.selection).push(
            held.last().selection,
        ));
    }
    assert(due_holdings(held, retries, now) =~= all);
}

/// When restoration begins every held light is tried at once, whatever failed
/// before.
pub proof fn restoration_tries_every_holding(
    course: Course,
    journal: OwnershipJournal,
    now: u64,
)
    requires
        journal.wf(),
    ensures
        due_holdings(
            journal.lights.values(),
            course.restoration_begun(journal@, now).retries,
            now,
        ) == journal.lights.values().map_values(|o: OwnedLight| o.selection),
{
    due_holdings_are_all(
        journal.lights.values(),
        course.restoration_begun(journal@, now).retries,
        now,
    );
}

/// After a resume activity begins a new session, with a brightness of its own,
/// whether or not a session was on before the suspend.
pub proof fn resume_begins_a_new_session(
    course: Course,
    selected: Seq<SelectedLight>,
    journal: Map<Seq<char>, Ownership>,
    sampled: Option<u8>,
    grace_seconds: u64,
    now: u64,
)
    ensures
        !course.woken().camera_active,
        course.woken().ticked(
            CameraActivity::Active,
            selected,
            journal,
            sampled,
            grace_seconds,
            now,
        ).brightness == sampled,
{
}

/// A stop or a suspend has every held light put back at once, whatever is on.
pub proof fn stop_and_suspend_restore_at_once(
    course: Course,
    journal: Map<Seq<char>, Ownership>,
    awaited: bool,
    now: u64,
    id: Seq<char>,
)
    requires
        journal.contains_key(id),
    ensures
        course.stopped(journal, now).restoring,
        course.stopped(journal, now).retries.contains_key(id),
        course.stopped(journal, now).retries[id].is_due(now),
        course.put_to_sleep(journal, awaited, now).restoring,
        course.put_to_sleep(journal, awaited, now).retries.contains_key(id),
        course.put_to_sleep(journal, awaited, now).retries[id].is_due(now),
{
}

/// What an active camera comes to: a session is on, nothing is put back, and no
/// grace period runs. When the session begins, every chosen and every held light
/// has a first try at once; while it goes on, a chosen light that is not held gets
/// one where it has none. No other try changes.
pub proof fn active_cameras_have_lights_tried(
    course: Course,
    selected: Seq<SelectedLight>,
    journal: Map<Seq<char>, Ownership>,
    sampled: Option<u8>,
    grace_seconds: u64,
    now: u64,
    id: Seq<char>,
)
    ensures
        ({
            let after = course.ticked(
                CameraActivity::Active,
                selected,
                journal,
                sampled,
                grace_seconds,
                now,
            );
            let chosen = exists|i: int| 0 <= i < selected.len() && (#[trigger] selected[i]).id@ == id;
            let held = journal.contains_key(id);
            let anew = if course.camera_active {
                chosen && !held && !course.retries.contains_key(id)
            } else {
                chosen || held
            };
            &&& after.camera_active
            &&& after.camera_initialized
            &&& after.grace_deadline is None
            &&& !after.restoring
            &&& after.suspended == course.suspended
            &&& after.shutting_down == course.shutting_down
            &&& after.suspend_awaited == course.suspend_awaited
            &&& course.camera_active ==> after.brightness == course.brightness
            &&& !course.camera_active ==> after.brightness == sampled
            &&& anew ==> after.retries.contains_key(id) && after.retries[id].at == now
                && after.retries[id].backoff == 1
            &&& !anew ==> (after.retries.contains_key(id) <==> course.retries.contains_key(id))
            &&& !anew && course.retries.contains_key(id) ==> after.retries[id]
                == course.retries[id]
        }),
{
    let ids = config::light_ids(selected);
    if ids.contains(id) {
        let i = ids.index_of(id);
        assert(selected[i].id@ == id);
    }
    if exists|i: int| 0 <= i < selected.len() && (#[trigger] selected[i]).id@ == id {
        let i = choose|i: int| 0 <= i < selected.len() && (#[trigger] selected[i]).id@ == id;
        assert(ids[i] == id);
    }
    assert(ids.to_set().contains(id) <==> ids.contains(id));
}

/// What it comes to that no camera is active, or that nothing is known of them.
/// Where lights are owed, because a session was on or because the daemon has just
/// started with held lights, they are put back at once where the cameras are known
/// to be inactive, and after the grace period where they are not; so they are when
/// a grace period that runs is over. Then every held light has a first try at once
/// and no other has any. Lights are put back until none is held.
pub proof fn missed_cameras_have_lights_put_back(
    course: Course,
    activity: CameraActivity,
    selected: Seq<SelectedLight>,
    journal: Map<Seq<char>, Ownership>,
    sampled: Option<u8>,
    grace_seconds: u64,
    now: u64,
    id: Seq<char>,
)
    requires
        !(activity is Active),
    ensures
        ({
            let after = course.ticked(activity, selected, journal, sampled, grace_seconds, now);
            let held = exists|k: Seq<char>| #[trigger] journal.contains_key(k);
            let owed = course.camera_active || (!course.camera_initialized && held);
            let end = now + grace_seconds * 1_000_000_000;
            let over = if owed {
                activity is Inactive || grace_seconds == 0
            } else {
                course.grace_deadline is Some && course.grace_deadline->0 <= now
            };
            let back = over || course.restoring;
            &&& !after.camera_active
            &&& after.camera_initialized == (course.camera_initialized || owed
                || activity is Inactive)
            &&& over ==> after.grace_deadline is None
            &&& !over && owed ==> after.grace_deadline is Some && after.grace_deadline->0 == end
            &&& !over && !owed ==> after.grace_deadline == course.grace_deadline
            &&& after.restoring == (back && held)
            &&& back && !held ==> after.brightness is None
            &&& !back || held ==> after.brightness == course.brightness
            &&& over ==> (after.retries.contains_key(id) <==> journal.contains_key(id))
            &&& over && journal.contains_key(id) ==> after.retries[id].at == now
                && after.retries[id].backoff == 1
            &&& !over ==> after.retries == course.retries
            &&& after.suspended == course.suspended
            &&& after.shutting_down == course.shutting_down
            &&& after.suspend_awaited == course.suspend_awaited
        }),
{
    assert(grace_seconds * retry::SECOND <= 0xffff_ffff_ffff_ffff * 1_000_000_000)
        by (nonlinear_arith)
        requires
            grace_seconds <= 0xffff_ffff_ffff_ffff,
            retry::SECOND == 1_000_000_000,
    ;
}

/// What the end of an attempt comes to: the light is not tried again after
/// success; after a failure it is, once its wait is over, and the wait doubles up
/// to thirty seconds. A light that had no try waits a second. Nothing else changes.
pub proof fn failed_attempts_are_put_off(course: Course, id: Seq<char>, success: bool, now: u64)
    ensures
        ({
            let after = course.attempted(id, success, now);
            let waits = course.retries[id].backoff;
            &&& success ==> !after.retries.contains_key(id)
            &&& !success ==> after.retries.contains_key(id)
            &&& !success && course.retries.contains_key(id) ==> {
                &&& after.retries[id].at == now + waits * 1_000_000_000
                &&& waits <= 15 ==> after.retries[id].backoff == 2 * waits
                &&& waits >= 15 ==> after.retries[id].backoff == 30
            }
            &&& !success && !course.retries.contains_key(id) ==> {
                &&& after.retries[id].at == now + 1_000_000_000
                &&& after.retries[id].backoff == 2
            }
            &&& after.camera_active == course.camera_active
            &&& after.camera_initialized == course.camera_initialized
            &&& after.grace_deadline == course.grace_deadline
            &&& after.restoring == course.restoring
            &&& after.suspended == course.suspended
            &&& after.shutting_down == course.shutting_down
            &&& after.brightness == course.brightness
            &&& after.suspend_awaited == course.suspend_awaited
        }),
{
    retry::retries_in_numbers(course.retries[id], now);
    retry::retries_in_numbers(Retry::first(now), now);
}

/// Once nothing is held, nothing is put back and the brightness of the session is
/// forgotten; as long as a light is held, nothing changes.
pub proof fn restoration_is_over_once_nothing_is_held(
    course: Course,
    journal: Map<Seq<char>, Ownership>,
    id: Seq<char>,
)
    ensures
        journal.contains_key(id) ==> course.settled(journal) == course,
        (forall|k: Seq<char>| !#[trigger] journal.contains_key(k)) ==> {
            let after = course.settled(journal);
            &&& !after.restoring
            &&& after.brightness is None
            &&& after.retries == course.retries
            &&& after.camera_active == course.camera_active
            &&& after.camera_initialized == course.camera_initialized
            &&& after.grace_deadline == course.grace_deadline
            &&& after.suspended == course.suspended
            &&& after.shutting_down == course.shutting_down
            &&& after.suspend_awaited == course.suspend_awaited
        },
{
}

/// What a stop, a suspend and a resume come to, field by field. A stop and a
/// suspend have every held light, and no other, tried at once, and end a grace
/// period; a resume forgets the session, so that the cameras are looked at anew.
pub proof fn stop_suspend_and_resume_by_field(
    course: Course,
    journal: Map<Seq<char>, Ownership>,
    awaited: bool,
    now: u64,
    id: Seq<char>,
)
    ensures
        ({
            let stopped = course.stopped(journal, now);
            let asleep = course.put_to_sleep(journal, awaited, now);
            let begun = course.restoration_begun(journal, now);
            &&& stopped.shutting_down && stopped.restoring && stopped.grace_deadline is None
            &&& stopped.suspended == course.suspended
            &&& stopped.suspend_awaited == course.suspend_awaited
            &&& stopped.camera_active == course.camera_active
            &&& stopped.camera_initialized == course.camera_initialized
            &&& stopped.brightness == course.brightness
            &&& asleep.suspended && asleep.restoring && asleep.grace_deadline is None
            &&& asleep.suspend_awaited == awaited
            &&& asleep.shutting_down == course.shutting_down
            &&& asleep.camera_active == course.camera_active
            &&& asleep.camera_initialized == course.camera_initialized
            &&& asleep.brightness == course.brightness
            &&& begun.restoring && begun.grace_deadline is None
            &&& begun.shutting_down == course.shutting_down && begun.suspended == course.suspended
            &&& begun.suspend_awaited == course.suspend_awaited
            &&& begun.camera_active == course.camera_active
            &&& begun.camera_initialized == course.camera_initialized
            &&& begun.brightness == course.brightness
            &&& stopped.retries.contains_key(id) <==> journal.contains_key(id)
            &&& asleep.retries.contains_key(id) <==> journal.contains_key(id)
            &&& begun.retries.contains_key(id) <==> journal.contains_key(id)
            &&& journal.contains_key(id) ==> {
                &&& stopped.retries[id].at == now && stopped.retries[id].backoff == 1
                &&& asleep.retries[id].at == now && asleep.retries[id].backoff == 1
                &&& begun.retries[id].at == now && begun.retries[id].backoff == 1
            }
        }),
        ({
            let awake = course.woken();
            &&& !awake.suspended && !awake.suspend_awaited
            &&& !awake.camera_active && !awake.camera_initialized
            &&& awake.brightness is None
            &&& awake.shutting_down == course.shutting_down
            &&& awake.restoring == course.restoring
            &&& awake.grace_deadline == course.grace_deadline
            &&& awake.retries == course.retries
        }),
{
}

/// A chosen light is due where it has a try whose moment has come; a held light is
/// due too where it has none. Both lists keep their order.
pub proof fn lights_are_due_in_turn(
    selected: Seq<SelectedLight>,
    choice: SelectedLight,
    held: Seq<OwnedLight>,
    owned: OwnedLight,
    retries: Map<Seq<char>, Retry>,
    now: u64,
)
    ensures
        due_choices(Seq::empty(), retries, now) == Seq::<SelectedLight>::empty(),
        due_holdings(Seq::empty(), retries, now) == Seq::<SelectedLight>::empty(),
        due_choices(selected.push(choice), retries, now) == if retries.contains_key(choice.id@)
            && retries[choice.id@].at <= now {
            due_choices(selected, retries, now).push(choice)
        } else {
            due_choices(selected, retries, now)
        },
        due_holdings(held.push(owned), retries, now) == if retries.contains_key(
            owned.selection.id@,
        ) && retries[owned.selection.id@].at > now {
            due_holdings(held, retries, now)
        } else {
            due_holdings(held, retries, now).push(owned.selection)
        },
{
    assert(selected.push(choice).drop_last() =~= selected);
    assert(held.push(owned).drop_last() =~= held);
}

/// A plan sets chosen lights that are due while a camera is active, puts held
/// lights back that are due while lights are put back and no camera is active, and
/// else does nothing; it names a light wherever one is due.
pub proof fn plans_name_the_lights_that_are_due(
    plan: Plan,
    activity: CameraActivity,
    selected: Seq<SelectedLight>,
    journal: OwnershipJournal,
    course: Course,
    now: u64,
)
    requires
        plan_fits(plan, activity, selected, journal, course, now),
    ensures
        ({
            let choices = due_choices(selected, course.retries, now);
            let holdings = due_holdings(journal.lights.values(), course.retries, now);
            match plan {
                Plan::Activate { lights } => activity is Active && lights@ == choices
                    && lights@.len() > 0,
                Plan::Restore { lights } => !(activity is Active) && course.restoring && lights@
                    == holdings && lights@.len() > 0,
                Plan::Rest => if activity is Active {
                    choices.len() == 0
                } else {
                    !course.restoring || holdings.len() == 0
                },
            }
        }),
{
}

/// A session shows what its fields hold.
pub proof fn sessions_show_their_fields(session: Session)
    ensures
        session@.retries == session.retries@,
        session@.camera_active == session.camera_active,
        session@.camera_initialized == session.camera_initialized,
        session@.grace_deadline == session.grace_deadline,
        session@.restoring == session.restoring,
        session@.suspended == session.suspended,
        session@.shutting_down == session.shutting_down,
        session@.brightness == session.brightness,
        session@.suspend_awaited == session.suspend_awaited,
{
}

} // verus!
