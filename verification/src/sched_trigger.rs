//! The schedule queue: the ordered list of programmes that are to be recorded.

use vstd::prelude::*;
use crate::program::Program;
use crate::recording_planner::PlanId;
use crate::recording_pool::RecordControlMessage;
use crate::recording_pool::RecordingTaskDescription;
use crate::text::decimal;
use crate::text::decimal_string;

verus! {

/// One programme of interest.
#[derive(Debug, PartialEq, Eq)]
pub struct Schedule {
    pub program: Program,
    pub plan_id: PlanId,
    /// An inactive schedule stays in the queue but starts no recording.
    pub is_active: bool,
}

impl Clone for Schedule {
    fn clone(&self) -> (copy: Self)
        ensures
            copy == *self,
    {
        Schedule { program: self.program.clone(), plan_id: self.plan_id, is_active: self.is_active }
    }
}

impl Schedule {
    /// The schedule that a request by hand creates: active, under no plan.
    pub fn by_hand(program: Program) -> (schedule: Schedule)
        ensures
            schedule == (Schedule { program, plan_id: PlanId::Unplanned, is_active: true }),
    {
        Schedule { program, plan_id: PlanId::Unplanned, is_active: true }
    }

    /// This schedule after a revision of the guide: only the programme's start
    /// and duration change.
    pub open spec fn revised(self, start_at: i64, duration: Option<i32>) -> Schedule {
        Schedule { program: self.program.revised(start_at, duration), ..self }
    }

    /// Whether the broadcast is not yet over at `now`.
    pub open spec fn is_live(self, now: i64) -> bool {
        now < self.program.end_time()
    }
}

/// Seconds between two rounds of the scheduler.
pub const TICK_PERIOD_SECONDS: u64 = 5;

/// How long before the start of a broadcast its recording is set up, in
/// milliseconds: ten minutes.
pub const PRE_ROLL: i64 = 600_000;

/// Whether `value` lies in the half-open range from `left` up to, but not
/// including, `right`.
pub open spec fn in_range(left: int, right: int, value: int) -> bool {
    left <= value < right
}

/// Tests whether `value` lies in the half-open range `[left, right)`. An
/// empty range holds nothing.
pub fn is_in_the_recording_range(left: i128, right: i128, value: i128) -> (inside: bool)
    ensures
        inside == in_range(left as int, right as int, value as int),
{
    left <= value && value < right
}

/// What the scheduler asks of the pool for one schedule in one round.
#[derive(Debug, Clone, Copy, PartialEq, Eq, Structural)]
pub enum Command {
    /// The broadcast starts within ten minutes: hand the pool the programme
    /// as the guide now describes it.
    CreateOrUpdate,
    /// The broadcast is on air: start a recording only if none is known.
    TryCreate,
    /// Neither: nothing is sent.
    Wait,
    /// The length of the broadcast is unknown: nothing is sent.
    DurationUnknown,
}

/// The command that is due for `program` at `now`.
pub open spec fn command_at(program: Program, now: i64) -> Command {
    if program.duration is None {
        Command::DurationUnknown
    } else if in_range(program.start_at - PRE_ROLL, program.start_at as int, now as int) {
        Command::CreateOrUpdate
    } else if in_range(program.start_at as int, program.end_time(), now as int) {
        Command::TryCreate
    } else {
        Command::Wait
    }
}

/// Computes the command that is due for `program` at `now`.
pub fn command_for(program: &Program, now: i64) -> (command: Command)
    ensures
        command == command_at(*program, now),
{
    if program.duration.is_none() {
        Command::DurationUnknown
    } else if is_in_the_recording_range(
        program.start_at as i128 - PRE_ROLL as i128,
        program.start_at as i128,
        now as i128,
    ) {
        Command::CreateOrUpdate
    } else if is_in_the_recording_range(program.start_at as i128, program.end(), now as i128) {
        Command::TryCreate
    } else {
        Command::Wait
    }
}

/// The directory, relative to the working directory, that recordings under
/// `plan` are saved in.
pub open spec fn save_directory(plan: PlanId) -> Seq<char> {
    match plan {
        PlanId::Word(id) => "./word_"@ + decimal(id as nat) + "/"@,
        PlanId::Series(id) => "./series_"@ + decimal(id as nat) + "/"@,
        PlanId::Unplanned => "./common/"@,
    }
}

/// Writes the directory that recordings under `plan` are saved in.
pub fn save_directory_of(plan: PlanId) -> (path: String)
    ensures
        path@ == save_directory(plan),
{
    match plan {
        PlanId::Word(id) => {
            let mut path = String::from_str("./word_");
            path.append(decimal_string(id).as_str());
            path.append("/");
            path
        },
        PlanId::Series(id) => {
            let mut path = String::from_str("./series_");
            path.append(decimal_string(id).as_str());
            path.append("/");
            path
        },
        PlanId::Unplanned => String::from_str("./common/"),
    }
}

/// What one round of the scheduler found out about one active schedule.
#[derive(Debug, PartialEq, Eq)]
pub struct Directive {
    /// The programme as the queue holds it in this round.
    pub program: Program,
    pub plan_id: PlanId,
    pub command: Command,
}

impl Directive {
    /// What a round at `now` finds out about `schedule`.
    pub open spec fn of(schedule: Schedule, now: i64) -> Directive {
        Directive {
            program: schedule.program,
            plan_id: schedule.plan_id,
            command: command_at(schedule.program, now),
        }
    }

    /// The message that carries this directive to the pool, once the
    /// directory is known by its absolute path `save_location`.
    pub open spec fn message_with(self, save_location: String) -> Option<RecordControlMessage> {
        let description = RecordingTaskDescription { program: self.program, save_location };
        match self.command {
            Command::CreateOrUpdate => Some(RecordControlMessage::CreateOrUpdate(description)),
            Command::TryCreate => Some(RecordControlMessage::TryCreate(description)),
            Command::Wait => None,
            Command::DurationUnknown => None,
        }
    }

    /// Whether the directory has to exist for this directive: it has to for
    /// every schedule whose broadcast has a known length.
    pub fn needs_directory(&self) -> (needed: bool)
        ensures
            needed == (self.command != Command::DurationUnknown),
    {
        match self.command {
            Command::DurationUnknown => false,
            _ => true,
        }
    }

    /// The directory of this directive, relative to the working directory.
    pub fn directory(&self) -> (path: String)
        ensures
            path@ == save_directory(self.plan_id),
    {
        save_directory_of(self.plan_id)
    }

    /// Builds the message for the pool, if one is due.
    pub fn message(self, save_location: String) -> (message: Option<RecordControlMessage>)
        ensures
            message == self.message_with(save_location),
    {
        let description = RecordingTaskDescription { program: self.program, save_location };
        match self.command {
            Command::CreateOrUpdate => Some(RecordControlMessage::CreateOrUpdate(description)),
            Command::TryCreate => Some(RecordControlMessage::TryCreate(description)),
            Command::Wait => None,
            Command::DurationUnknown => None,
        }
    }
}

/// What a round at `now` finds out about the schedules of `items`: one
/// directive for each active schedule, in queue order.
pub open spec fn directives(items: Seq<Schedule>, now: i64) -> Seq<Directive> {
    items.filter(|s: Schedule| s.is_active).map_values(|s: Schedule| Directive::of(s, now))
}

/// Whether some schedule of `items` is for the programme `id`.
pub open spec fn has_id(items: Seq<Schedule>, id: i64) -> bool {
    exists|i: int| 0 <= i < items.len() && (#[trigger] items[i]).program.id == id
}

/// Whether no two schedules of `items` are for the same programme.
pub open spec fn unique_ids(items: Seq<Schedule>) -> bool {
    forall|i: int, j: int|
        0 <= i < j < items.len() ==> (#[trigger] items[i]).program.id != (#[trigger] items[j]).program.id
}

/// `items` after a request to add `schedule`: appended, unless the queue
/// already holds a schedule for the same programme.
pub open spec fn inserted(items: Seq<Schedule>, schedule: Schedule) -> Seq<Schedule> {
    if has_id(items, schedule.program.id) {
        items
    } else {
        items.push(schedule)
    }
}

/// `items` without the schedules for the programme `id`.
pub open spec fn removed(items: Seq<Schedule>, id: i64) -> Seq<Schedule> {
    items.filter(|s: Schedule| s.program.id != id)
}

/// `items` after the guide revised the programme `id`: every schedule for it
/// carries the new start and duration, every other schedule is untouched.
pub open spec fn revised(items: Seq<Schedule>, id: i64, start_at: i64, duration: Option<i32>) -> Seq<
    Schedule,
> {
    items.map_values(
        |s: Schedule|
            if s.program.id == id {
                s.revised(start_at, duration)
            } else {
                s
            },
    )
}

/// `items` without the schedules whose broadcast is over at `now`.
pub open spec fn pruned(items: Seq<Schedule>, now: i64) -> Seq<Schedule> {
    items.filter(|s: Schedule| s.is_live(now))
}

/// `items` after the schedules of `loaded` were added one by one, in order.
pub open spec fn restored(items: Seq<Schedule>, loaded: Seq<Schedule>) -> Seq<Schedule>
    decreases loaded.len(),
{
    if loaded.len() == 0 {
        items
    } else {
        inserted(restored(items, loaded.drop_last()), loaded.last())
    }
}

/// Every schedule that a filter keeps passes the filter and was in the list.
pub proof fn lemma_filter_members(items: Seq<Schedule>, keep: spec_fn(Schedule) -> bool)
    ensures
        forall|i: int|
            0 <= i < items.filter(keep).len() ==> keep(#[trigger] items.filter(keep)[i])
                && items.contains(items.filter(keep)[i]),
    decreases items.len(),
{
    reveal(Seq::filter);
    if items.len() > 0 {
        let rest = items.drop_last();
        lemma_filter_members(rest, keep);
        let kept = rest.filter(keep);
        let out = items.filter(keep);
        assert forall|i: int| 0 <= i < out.len() implies keep(#[trigger] out[i]) && items.contains(
            out[i],
        ) by {
            if i < kept.len() {
                assert(out[i] == kept[i]);
                assert(rest.contains(kept[i]));
                let k = choose|k: int| 0 <= k < rest.len() && rest[k] == kept[i];
                assert(items[k] == rest[k]);
            } else {
                assert(out[i] == items[items.len() - 1]);
            }
        }
    }
}

/// A filter keeps every schedule of the list that passes it.
pub proof fn lemma_filter_keeps(items: Seq<Schedule>, keep: spec_fn(Schedule) -> bool, i: int)
    requires
        0 <= i < items.len(),
        keep(items[i]),
    ensures
        items.filter(keep).contains(items[i]),
    decreases items.len(),
{
    reveal(Seq::filter);
    let rest = items.drop_last();
    let kept = rest.filter(keep);
    let out = items.filter(keep);
    if i == items.len() - 1 {
        assert(out[kept.len() as int] == items[i]);
    } else {
        lemma_filter_keeps(rest, keep, i);
        assert(rest[i] == items[i]);
        let k = choose|k: int| 0 <= k < kept.len() && kept[k] == rest[i];
        assert(out[k] == kept[k]);
    }
}

/// Dropping schedules from a list without repeated programmes leaves a list
/// without repeated programmes, and every schedule kept was in the list.
pub proof fn lemma_filter_keeps_unique(items: Seq<Schedule>, keep: spec_fn(Schedule) -> bool)
    requires
        unique_ids(items),
    ensures
        unique_ids(items.filter(keep)),
        forall|i: int|
            0 <= i < items.filter(keep).len() ==> has_id(
                items,
                (#[trigger] items.filter(keep)[i]).program.id,
            ),
    decreases items.len(),
{
    reveal(Seq::filter);
    if items.len() > 0 {
        let rest = items.drop_last();
        let last = items.last();
        assert forall|i: int, j: int| 0 <= i < j < rest.len() implies (#[trigger] rest[i]).program.id != (
        #[trigger] rest[j]).program.id by {
            assert(rest[i] == items[i] && rest[j] == items[j]);
        }
        lemma_filter_keeps_unique(rest, keep);
        let kept = rest.filter(keep);
        let out = items.filter(keep);
        assert forall|i: int| 0 <= i < out.len() implies has_id(
            items,
            (#[trigger] out[i]).program.id,
        ) by {
            if i < kept.len() {
                assert(out[i] == kept[i]);
                assert(has_id(rest, kept[i].program.id));
                let k = choose|k: int| 0 <= k < rest.len() && (#[trigger] rest[k]).program.id == kept[i].program.id;
                assert(items[k] == rest[k]);
            } else {
                assert(out[i] == items[items.len() - 1]);
            }
        }
        assert forall|i: int, j: int| 0 <= i < j < out.len() implies (#[trigger] out[i]).program.id != (
        #[trigger] out[j]).program.id by {
            if j < kept.len() {
                assert(out[i] == kept[i] && out[j] == kept[j]);
            } else {
                assert(out[j] == last);
                assert(out[i] == kept[i]);
                assert(has_id(rest, kept[i].program.id));
                let k = choose|k: int| 0 <= k < rest.len() && (#[trigger] rest[k]).program.id == kept[i].program.id;
                assert(items[k] == rest[k]);
                assert(items[items.len() - 1] == last);
            }
        }
    }
}

/// A revision of the guide changes no programme's identity.
pub proof fn lemma_revised_keeps_unique(items: Seq<Schedule>, id: i64, start_at: i64, duration: Option<i32>)
    requires
        unique_ids(items),
    ensures
        unique_ids(revised(items, id, start_at, duration)),
{
    let out = revised(items, id, start_at, duration);
    assert forall|i: int, j: int| 0 <= i < j < out.len() implies (#[trigger] out[i]).program.id != (
    #[trigger] out[j]).program.id by {
        assert(out[i].program.id == items[i].program.id);
        assert(out[j].program.id == items[j].program.id);
    }
}

/// The directives of a list that grew by one schedule at its end.
pub proof fn lemma_directives_push(items: Seq<Schedule>, last: Schedule, now: i64)
    ensures
        directives(items.push(last), now) == if last.is_active {
            directives(items, now).push(Directive::of(last, now))
        } else {
            directives(items, now)
        },
{
    reveal(Seq::filter);
    let active = |s: Schedule| s.is_active;
    assert(items.push(last).drop_last() =~= items);
    assert(items.push(last).filter(active) == if last.is_active {
        items.filter(active).push(last)
    } else {
        items.filter(active)
    });
    if last.is_active {
        assert(directives(items.push(last), now) =~= directives(items, now).push(
            Directive::of(last, now),
        ));
    }
}

/// The schedule queue. No two of its schedules are for the same programme.
pub struct SchedQueue {
    items: Vec<Schedule>,
}

impl View for SchedQueue {
    type V = Seq<Schedule>;

    closed spec fn view(&self) -> Seq<Schedule> {
        self.items@
    }
}

impl SchedQueue {
    #[verifier::type_invariant]
    spec fn well_formed(self) -> bool {
        unique_ids(self.items@)
    }

    /// An empty queue.
    pub fn new() -> (queue: SchedQueue)
        ensures
            queue@ == Seq::<Schedule>::empty(),
            unique_ids(queue@),
    {
        SchedQueue { items: Vec::new() }
    }

    /// The schedules, in queue order.
    pub fn items(&self) -> (items: &Vec<Schedule>)
        ensures
            items@ == self@,
            unique_ids(items@),
    {
        proof {
            use_type_invariant(self);
        }
        &self.items
    }

    /// Whether the queue holds a schedule for the programme `id`.
    pub fn contains(&self, id: i64) -> (found: bool)
        ensures
            found == has_id(self@, id),
    {
        let mut i: usize = 0;
        while i < self.items.len()
            invariant
                i <= self.items.len(),
                forall|k: int| 0 <= k < i ==> (#[trigger] self.items@[k]).program.id != id,
            decreases self.items.len() - i,
        {
            if self.items[i].program.id == id {
                return true;
            }
            i += 1;
        }
        false
    }

    /// Adds `schedule` at the end of the queue, unless the queue already holds
    /// a schedule for the same programme; says whether it was added.
    pub fn insert(&mut self, schedule: Schedule) -> (added: bool)
        ensures
            added == !has_id(old(self)@, schedule.program.id),
            final(self)@ == inserted(old(self)@, schedule),
            unique_ids(final(self)@),
    {
        proof {
            use_type_invariant(&*self);
        }
        if self.contains(schedule.program.id) {
            false
        } else {
            let mut items: Vec<Schedule> = Vec::new();
            core::mem::swap(&mut self.items, &mut items);
            items.push(schedule);
            self.items = items;
            true
        }
    }

    /// Drops every schedule for the programme `id`; says how many were dropped.
    pub fn remove(&mut self, id: i64) -> (dropped: usize)
        ensures
            final(self)@ == removed(old(self)@, id),
            dropped == old(self)@.len() - final(self)@.len(),
            unique_ids(final(self)@),
    {
        proof {
            use_type_invariant(&*self);
        }
        let mut items: Vec<Schedule> = Vec::new();
        core::mem::swap(&mut self.items, &mut items);
        let ghost before = items@;
        let ghost keep = |s: Schedule| s.program.id != id;
        let found: usize = items.len();
        let mut kept: Vec<Schedule> = Vec::new();
        for schedule in it: items
            invariant
                it.seq() == before,
                forall|s: Schedule| #[trigger] keep(s) == (s.program.id != id),
                kept@ == before.take(it.index() as int).filter(keep),
        {
            proof {
                reveal(Seq::filter);
                let n = it.index() as int;
                assert(before.take(n + 1).drop_last() =~= before.take(n));
                assert(before.take(n + 1).last() == schedule);
                assert(before.take(n + 1).filter(keep) == if keep(schedule) {
                    before.take(n).filter(keep).push(schedule)
                } else {
                    before.take(n).filter(keep)
                });
            }
            if schedule.program.id != id {
                kept.push(schedule);
            }
        }
        proof {
            assert(before.take(before.len() as int) =~= before);
            lemma_filter_keeps_unique(before, keep);
            before.lemma_filter_len(keep);
        }
        let dropped: usize = found - kept.len();
        self.items = kept;
        dropped
    }

    /// Drops every schedule whose broadcast is over at `now`; says how many
    /// were dropped.
    pub fn prune(&mut self, now: i64) -> (dropped: usize)
        ensures
            final(self)@ == pruned(old(self)@, now),
            dropped == old(self)@.len() - final(self)@.len(),
            unique_ids(final(self)@),
    {
        proof {
            use_type_invariant(&*self);
        }
        let mut items: Vec<Schedule> = Vec::new();
        core::mem::swap(&mut self.items, &mut items);
        let ghost before = items@;
        let ghost keep = |s: Schedule| s.is_live(now);
        let found: usize = items.len();
        let mut kept: Vec<Schedule> = Vec::new();
        for schedule in it: items
            invariant
                it.seq() == before,
                forall|s: Schedule| #[trigger] keep(s) == s.is_live(now),
                kept@ == before.take(it.index() as int).filter(keep),
        {
            proof {
                reveal(Seq::filter);
                let n = it.index() as int;
                assert(before.take(n + 1).drop_last() =~= before.take(n));
                assert(before.take(n + 1).last() == schedule);
                assert(before.take(n + 1).filter(keep) == if keep(schedule) {
                    before.take(n).filter(keep).push(schedule)
                } else {
                    before.take(n).filter(keep)
                });
            }
            if (now as i128) < schedule.program.end() {
                kept.push(schedule);
            }
        }
        proof {
            assert(before.take(before.len() as int) =~= before);
            lemma_filter_keeps_unique(before, keep);
            before.lemma_filter_len(keep);
        }
        let dropped: usize = found - kept.len();
        self.items = kept;
        dropped
    }

    /// Takes over a revision of the guide: every schedule for the programme
    /// `id` gets the new start and duration; nothing else changes.
    pub fn revise(&mut self, id: i64, start_at: i64, duration: Option<i32>)
        ensures
            final(self)@ == revised(old(self)@, id, start_at, duration),
            unique_ids(final(self)@),
    {
        proof {
            use_type_invariant(&*self);
        }
        let mut items: Vec<Schedule> = Vec::new();
        core::mem::swap(&mut self.items, &mut items);
        let ghost before = items@;
        let mut updated: Vec<Schedule> = Vec::new();
        for schedule in it: items
            invariant
                it.seq() == before,
                updated@ == revised(before.take(it.index() as int), id, start_at, duration),
        {
            let ghost n = it.index() as int;
            let mut schedule = schedule;
            if schedule.program.id == id {
                schedule.program.start_at = start_at;
                schedule.program.duration = duration;
            }
            updated.push(schedule);
            assert(updated@ =~= revised(before.take(n + 1), id, start_at, duration));
        }
        proof {
            assert(before.take(before.len() as int) =~= before);
            lemma_revised_keeps_unique(before, id, start_at, duration);
        }
        self.items = updated;
    }

    /// Adds the schedules of `loaded` one by one, in order, each as `insert`
    /// does; says how many were added.
    pub fn restore(&mut self, loaded: Vec<Schedule>) -> (added: usize)
        ensures
            final(self)@ == restored(old(self)@, loaded@),
            added == final(self)@.len() - old(self)@.len(),
            unique_ids(final(self)@),
    {
        proof {
            use_type_invariant(&*self);
        }
        let ghost before = self@;
        let ghost all = loaded@;
        let mut added: usize = 0;
        let count: usize = loaded.len();
        for schedule in it: loaded
            invariant
                it.seq() == all,
                all.len() == count,
                self@ == restored(before, all.take(it.index() as int)),
                self@.len() == before.len() + added,
                added <= it.index(),
                unique_ids(self@),
        {
            proof {
                let n = it.index() as int;
                assert(all.take(n + 1).drop_last() =~= all.take(n));
                assert(all.take(n + 1).last() == schedule);
            }
            if self.insert(schedule) {
                added += 1;
            }
        }
        proof {
            assert(all.take(all.len() as int) =~= all);
        }
        added
    }

    /// Finds out what is due at `now` for each active schedule, in queue
    /// order. The queue is left as it is.
    pub fn survey(&self, now: i64) -> (found: Vec<Directive>)
        ensures
            found@ == directives(self@, now),
    {
        let mut found: Vec<Directive> = Vec::new();
        let mut i: usize = 0;
        proof {
            reveal(Seq::filter);
            assert(directives(self.items@.take(0), now) =~= Seq::<Directive>::empty());
        }
        while i < self.items.len()
            invariant
                i <= self.items.len(),
                found@ == directives(self.items@.take(i as int), now),
            decreases self.items.len() - i,
        {
            let schedule = &self.items[i];
            proof {
                assert(self.items@.take(i as int + 1) =~= self.items@.take(i as int).push(*schedule));
                lemma_directives_push(self.items@.take(i as int), *schedule, now);
            }
            if schedule.is_active {
                found.push(
                    Directive {
                        program: schedule.program.clone(),
                        plan_id: schedule.plan_id,
                        command: command_for(&schedule.program, now),
                    },
                );
            }
            i += 1;
        }
        proof {
            assert(self.items@.take(self.items@.len() as int) =~= self.items@);
        }
        found
    }

    /// One round of the scheduler at `now`: drops the schedules whose
    /// broadcast is over, then finds out what is due for each active schedule
    /// that is left. Gives the number of schedules dropped and the
    /// directives, in queue order.
    pub fn tick_at(&mut self, now: i64) -> (round: (usize, Vec<Directive>))
        ensures
            final(self)@ == pruned(old(self)@, now),
            round.0 == old(self)@.len() - final(self)@.len(),
            round.1@ == directives(final(self)@, now),
            unique_ids(final(self)@),
    {
        let dropped = self.prune(now);
        let found = self.survey(now);
        (dropped, found)
    }

    /// One round of the scheduler at the instant that the wall clock shows.
    /// Whatever the clock shows, the round is the round of `tick_at` at that
    /// instant.
    pub fn tick(&mut self) -> (round: (usize, Vec<Directive>))
        ensures
            exists|now: i64|
                {
                    &&& final(self)@ == #[trigger] pruned(old(self)@, now)
                    &&& round.0 == old(self)@.len() - final(self)@.len()
                    &&& round.1@ == directives(final(self)@, now)
                },
            unique_ids(final(self)@),
    {
        let now: i64 = crate::clock::now();
        let round = self.tick_at(now);
        assert(final(self)@ == pruned(old(self)@, now));
        round
    }
}

} // verus!
