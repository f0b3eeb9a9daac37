//! What holds of the queue, the scheduler, the pool and the recording task
//! over whole runs, proved from the contracts of their operations.

use vstd::prelude::*;
use crate::program::Program;
use crate::recording_planner::PlanId;
use crate::recording_pool::pool::applied;
use crate::recording_pool::pool::listed;
use crate::recording_pool::recording_task::eit_parser::lemma_pushed_wf;
use crate::recording_pool::recording_task::eit_parser::target_of;
use crate::recording_pool::recording_task::eit_parser::EitDetected;
use crate::recording_pool::recording_task::file_stem;
use crate::recording_pool::recording_task::Event;
use crate::recording_pool::recording_task::Extension;
use crate::recording_pool::recording_task::Lost;
use crate::recording_pool::recording_task::Order;
use crate::recording_pool::recording_task::RecordingState;
use crate::recording_pool::recording_task::TaskView;
use crate::recording_pool::recording_task::B2;
use crate::recording_pool::recording_task::Rec;
use crate::recording_pool::RecordControlMessage;
use crate::recording_pool::RecordingTaskDescription;
use crate::sched_trigger::command_at;
use crate::sched_trigger::directives;
use crate::sched_trigger::has_id;
use crate::sched_trigger::inserted;
use crate::sched_trigger::lemma_filter_keeps;
use crate::sched_trigger::lemma_filter_keeps_unique;
use crate::sched_trigger::lemma_filter_members;
use crate::sched_trigger::lemma_revised_keeps_unique;
use crate::sched_trigger::pruned;
use crate::sched_trigger::removed;
use crate::sched_trigger::restored;
use crate::sched_trigger::revised;
use crate::sched_trigger::unique_ids;
use crate::sched_trigger::Directive;
use crate::sched_trigger::Schedule;

verus! {

/// One change to the schedule queue.
pub enum QueueStep {
    /// A request to add a schedule by hand for a programme.
    Put(Program),
    /// A request to drop the schedules of a programme.
    Delete(i64),
    /// A revision of the guide: the programme's number, new start and new
    /// duration.
    Revise(i64, i64, Option<i32>),
    /// A round of the scheduler at an instant.
    Tick(i64),
    /// The schedules that were saved when the recorder last stopped are
    /// taken in again.
    Restore(Seq<Schedule>),
}

impl QueueStep {
    /// Whether the step can bring a programme into the queue.
    pub open spec fn adds(self) -> bool {
        self is Put || self is Restore
    }

    /// Whether the step is a request from outside: to add or to drop.
    pub open spec fn is_request(self) -> bool {
        self is Put || self is Delete
    }
}

/// The queue after one step: what `insert`, `remove`, `revise`, `prune` and
/// `restore` leave.
pub open spec fn after_step(items: Seq<Schedule>, step: QueueStep) -> Seq<Schedule> {
    match step {
        QueueStep::Put(program) => inserted(
            items,
            Schedule { program, plan_id: PlanId::Unplanned, is_active: true },
        ),
        QueueStep::Delete(id) => removed(items, id),
        QueueStep::Revise(id, start_at, duration) => revised(items, id, start_at, duration),
        QueueStep::Tick(now) => pruned(items, now),
        QueueStep::Restore(loaded) => restored(items, loaded),
    }
}

/// The queue after a run of steps, first to last.
pub open spec fn after_steps(items: Seq<Schedule>, steps: Seq<QueueStep>) -> Seq<Schedule>
    decreases steps.len(),
{
    if steps.len() == 0 {
        items
    } else {
        after_step(after_steps(items, steps.drop_last()), steps.last())
    }
}

/// Adding a schedule as `insert` does keeps a queue free of repeated
/// programmes.
pub proof fn lemma_inserted_keeps_unique(items: Seq<Schedule>, schedule: Schedule)
    requires
        unique_ids(items),
    ensures
        unique_ids(inserted(items, schedule)),
{
    if !has_id(items, schedule.program.id) {
        let out = items.push(schedule);
        assert forall|i: int, j: int| 0 <= i < j < out.len() implies (#[trigger] out[i]).program.id != (
        #[trigger] out[j]).program.id by {
            if j == items.len() {
                assert(out[i] == items[i]);
            } else {
                assert(out[i] == items[i] && out[j] == items[j]);
            }
        }
    }
}

/// Taking saved schedules in keeps a queue free of repeated programmes.
pub proof fn lemma_restored_keeps_unique(items: Seq<Schedule>, loaded: Seq<Schedule>)
    requires
        unique_ids(items),
    ensures
        unique_ids(restored(items, loaded)),
    decreases loaded.len(),
{
    if loaded.len() > 0 {
        lemma_restored_keeps_unique(items, loaded.drop_last());
        lemma_inserted_keeps_unique(restored(items, loaded.drop_last()), loaded.last());
    }
}

/// Where the saved schedules are for programmes that differ from each other
/// and from those of the queue, taking them in appends them all, in order.
pub proof fn theorem_restore_appends(items: Seq<Schedule>, loaded: Seq<Schedule>)
    requires
        unique_ids(items + loaded),
    ensures
        restored(items, loaded) == items + loaded,
    decreases loaded.len(),
{
    let all = items + loaded;
    if loaded.len() == 0 {
        assert(all =~= items);
    } else {
        let earlier = loaded.drop_last();
        let before = items + earlier;
        assert forall|i: int, j: int| 0 <= i < j < before.len() implies (#[trigger] before[i]).program.id != (
        #[trigger] before[j]).program.id by {
            assert(before[i] == all[i] && before[j] == all[j]);
        }
        theorem_restore_appends(items, earlier);
        if has_id(before, loaded.last().program.id) {
            let i = choose|i: int| 0 <= i < before.len() && (#[trigger] before[i]).program.id == loaded.last().program.id;
            assert(before[i] == all[i]);
            assert(all[all.len() - 1] == loaded.last());
        }
        assert(before.push(loaded.last()) =~= all);
    }
}

/// A step keeps a queue free of repeated programmes.
pub proof fn lemma_step_keeps_unique(items: Seq<Schedule>, step: QueueStep)
    requires
        unique_ids(items),
    ensures
        unique_ids(after_step(items, step)),
{
    match step {
        QueueStep::Put(program) => {
            lemma_inserted_keeps_unique(
                items,
                Schedule { program, plan_id: PlanId::Unplanned, is_active: true },
            );
        },
        QueueStep::Delete(id) => {
            lemma_filter_keeps_unique(items, |s: Schedule| s.program.id != id);
        },
        QueueStep::Revise(id, start_at, duration) => {
            lemma_revised_keeps_unique(items, id, start_at, duration);
        },
        QueueStep::Tick(now) => {
            lemma_filter_keeps_unique(items, |s: Schedule| s.is_live(now));
        },
        QueueStep::Restore(loaded) => {
            lemma_restored_keeps_unique(items, loaded);
        },
    }
}

/// Whatever is asked of the queue, and whatever the guide and the scheduler
/// do to it in between, no two of its schedules are for the same programme.
pub proof fn theorem_queue_uniqueness(items: Seq<Schedule>, steps: Seq<QueueStep>)
    requires
        unique_ids(items),
    ensures
        unique_ids(after_steps(items, steps)),
    decreases steps.len(),
{
    if steps.len() > 0 {
        theorem_queue_uniqueness(items, steps.drop_last());
        lemma_step_keeps_unique(after_steps(items, steps.drop_last()), steps.last());
    }
}

/// Starting from the empty queue, after any run of requests to add and to
/// drop schedules, no two schedules are for the same programme.
pub proof fn theorem_requests_from_empty(requests: Seq<QueueStep>)
    requires
        forall|i: int| 0 <= i < requests.len() ==> (#[trigger] requests[i]).is_request(),
    ensures
        unique_ids(after_steps(Seq::<Schedule>::empty(), requests)),
{
    theorem_queue_uniqueness(Seq::<Schedule>::empty(), requests);
}

/// A step that neither adds by request nor takes saved schedules in brings
/// no programme into the queue.
pub proof fn lemma_step_adds_no_programme(items: Seq<Schedule>, step: QueueStep, id: i64)
    requires
        !step.adds(),
        has_id(after_step(items, step), id),
    ensures
        has_id(items, id),
{
    let out = after_step(items, step);
    let i = choose|i: int| 0 <= i < out.len() && (#[trigger] out[i]).program.id == id;
    match step {
        QueueStep::Put(_) => {},
        QueueStep::Restore(_) => {},
        QueueStep::Delete(gone) => {
            lemma_filter_members(items, |s: Schedule| s.program.id != gone);
            assert(items.contains(out[i]));
            let k = choose|k: int| 0 <= k < items.len() && items[k] == out[i];
            assert(items[k].program.id == id);
        },
        QueueStep::Revise(revised_id, start_at, duration) => {
            assert(items[i].program.id == id);
        },
        QueueStep::Tick(now) => {
            lemma_filter_members(items, |s: Schedule| s.is_live(now));
            assert(items.contains(out[i]));
            let k = choose|k: int| 0 <= k < items.len() && items[k] == out[i];
            assert(items[k].program.id == id);
        },
    }
}

/// A round of the scheduler leaves no schedule for a programme whose
/// broadcast is over.
pub proof fn lemma_pruned_is_gone(items: Seq<Schedule>, now: i64, k: int)
    requires
        unique_ids(items),
        0 <= k < items.len(),
        !items[k].is_live(now),
    ensures
        !has_id(pruned(items, now), items[k].program.id),
{
    let out = pruned(items, now);
    if has_id(out, items[k].program.id) {
        let i = choose|i: int| 0 <= i < out.len() && (#[trigger] out[i]).program.id == items[k].program.id;
        lemma_filter_members(items, |s: Schedule| s.is_live(now));
        assert(items.contains(out[i]));
        let j = choose|j: int| 0 <= j < items.len() && items[j] == out[i];
        assert(items[j].program.id == items[k].program.id);
        assert(j == k);
    }
}

/// Once a round of the scheduler has dropped a schedule, no later round, no
/// revision of the guide and no request to drop brings its programme back:
/// only a new request to add, or saved schedules that are taken in, can.
pub proof fn theorem_prune_monotonicity(items: Seq<Schedule>, now: i64, k: int, later: Seq<QueueStep>)
    requires
        unique_ids(items),
        0 <= k < items.len(),
        !items[k].is_live(now),
        forall|i: int| 0 <= i < later.len() ==> !(#[trigger] later[i]).adds(),
    ensures
        !has_id(after_steps(pruned(items, now), later), items[k].program.id),
    decreases later.len(),
{
    if later.len() == 0 {
        lemma_pruned_is_gone(items, now, k);
    } else {
        let earlier = later.drop_last();
        assert forall|i: int| 0 <= i < earlier.len() implies !(#[trigger] earlier[i]).adds() by {
            assert(earlier[i] == later[i]);
        }
        theorem_prune_monotonicity(items, now, k, earlier);
        if has_id(after_steps(pruned(items, now), later), items[k].program.id) {
            lemma_step_adds_no_programme(
                after_steps(pruned(items, now), earlier),
                later.last(),
                items[k].program.id,
            );
        }
    }
}

/// A schedule whose broadcast is over at one instant is over at every later
/// instant, so that rounds of the scheduler at later instants drop at least
/// what an earlier round dropped.
pub proof fn theorem_over_stays_over(schedule: Schedule, earlier: i64, later: i64)
    requires
        earlier <= later,
        !schedule.is_live(earlier),
    ensures
        !schedule.is_live(later),
{
}

/// Every directive of a round is the directive of an active schedule of the
/// queue.
pub proof fn lemma_directive_source(items: Seq<Schedule>, now: i64, k: int) -> (j: int)
    requires
        0 <= k < directives(items, now).len(),
    ensures
        0 <= j < items.len(),
        items[j].is_active,
        directives(items, now)[k] == Directive::of(items[j], now),
{
    let active = items.filter(|s: Schedule| s.is_active);
    lemma_filter_members(items, |s: Schedule| s.is_active);
    assert(items.contains(active[k]));
    let j = choose|j: int| 0 <= j < items.len() && items[j] == active[k];
    j
}

/// After a round of the scheduler the broadcast of every schedule in the
/// queue is still to end, and every schedule whose broadcast is still to end
/// is still in the queue.
pub proof fn theorem_round_keeps_the_live(items: Seq<Schedule>, now: i64)
    ensures
        forall|i: int|
            0 <= i < pruned(items, now).len() ==> (#[trigger] pruned(items, now)[i]).is_live(now),
        forall|i: int|
            0 <= i < items.len() && (#[trigger] items[i]).is_live(now) ==> pruned(items, now).contains(
                items[i],
            ),
{
    lemma_filter_members(items, |s: Schedule| s.is_live(now));
    assert forall|i: int| 0 <= i < items.len() && (#[trigger] items[i]).is_live(now) implies pruned(
        items,
        now,
    ).contains(items[i]) by {
        lemma_filter_keeps(items, |s: Schedule| s.is_live(now), i);
    }
}

/// In one round of the scheduler no two directives, and so no two commands,
/// are for the same programme.
pub proof fn theorem_one_command_per_programme(items: Seq<Schedule>, now: i64)
    requires
        unique_ids(items),
    ensures
        forall|i: int, j: int|
            0 <= i < j < directives(items, now).len() ==> (#[trigger] directives(
                items,
                now,
            )[i]).program.id != (#[trigger] directives(items, now)[j]).program.id,
{
    let active = items.filter(|s: Schedule| s.is_active);
    lemma_filter_keeps_unique(items, |s: Schedule| s.is_active);
    let found = directives(items, now);
    assert forall|i: int, j: int| 0 <= i < j < found.len() implies (#[trigger] found[i]).program.id != (
    #[trigger] found[j]).program.id by {
        assert(found[i].program.id == active[i].program.id);
        assert(found[j].program.id == active[j].program.id);
    }
}

/// After the guide revised a programme, every schedule for it carries the
/// new start and duration and is otherwise as it was, every other schedule
/// is untouched, and a round of the scheduler that follows decides about the
/// programme by the new values alone.
pub proof fn theorem_epg_propagation(
    items: Seq<Schedule>,
    id: i64,
    start_at: i64,
    duration: Option<i32>,
    now: i64,
)
    ensures
        revised(items, id, start_at, duration).len() == items.len(),
        forall|i: int|
            0 <= i < items.len() ==> {
                let before = #[trigger] items[i];
                let after = revised(items, id, start_at, duration)[i];
                &&& after.program.id == before.program.id
                &&& after.plan_id == before.plan_id
                &&& after.is_active == before.is_active
                &&& before.program.id == id ==> after.program == before.program.revised(
                    start_at,
                    duration,
                )
                &&& before.program.id != id ==> after == before
            },
        forall|k: int|
            0 <= k < directives(pruned(revised(items, id, start_at, duration), now), now).len() ==> {
                let directive = #[trigger] directives(
                    pruned(revised(items, id, start_at, duration), now),
                    now,
                )[k];
                directive.program.id == id ==> {
                    &&& directive.program.start_at == start_at
                    &&& directive.program.duration == duration
                    &&& directive.command == command_at(directive.program, now)
                }
            },
{
    let queue = revised(items, id, start_at, duration);
    let left = pruned(queue, now);
    let found = directives(left, now);
    assert forall|k: int| 0 <= k < found.len() && (#[trigger] found[k]).program.id == id implies {
        &&& found[k].program.start_at == start_at
        &&& found[k].program.duration == duration
        &&& found[k].command == command_at(found[k].program, now)
    } by {
        let j = lemma_directive_source(left, now, k);
        lemma_filter_members(queue, |s: Schedule| s.is_live(now));
        assert(queue.contains(left[j]));
        let i = choose|i: int| 0 <= i < queue.len() && queue[i] == left[j];
        assert(queue[i].program.id == id);
        assert(items[i].program.id == id);
    }
}

/// Whether the table of transitions has a row for the state and the event.
pub open spec fn has_transition(state: RecordingState, event: Event) -> bool {
    match event {
        Event::FoundInFollowing(_) => state is A || state is B1 || state is B2,
        Event::FoundInPresent(_) => state is A || state is B1 || state is B2,
        Event::PresentProgramLost(_) => state is B2 || state is Rec,
        Event::WaitForPremiere(_) => state is A || state is B1,
    }
}

/// An event for which the table has no row changes nothing.
pub proof fn theorem_unlisted_event_is_no_op(state: RecordingState, event: Event, now: i64)
    requires
        !has_transition(state, event),
    ensures
        state.after(event, now) == state,
{
}

/// No event leads out of `Lost`.
pub proof fn theorem_lost_is_terminal(state: RecordingState, event: Event, now: i64)
    requires
        state is Lost,
    ensures
        state.after(event, now) == state,
{
}

/// The rows of the table, one by one. State, event and instant determine
/// the next state.
pub proof fn theorem_transition_table(state: RecordingState, event: Event, now: i64)
    ensures
        has_transition(state, event) && event is FoundInFollowing ==> state.after(event, now)
            == RecordingState::B2(B2 { since: now }),
        has_transition(state, event) && event is FoundInPresent ==> state.after(event, now)
            == RecordingState::Rec(Rec { since: now }),
        has_transition(state, event) && event is PresentProgramLost ==> state.after(event, now)
            == RecordingState::Lost(Lost { graceful: true }),
        state matches RecordingState::A(a) ==> (event matches Event::WaitForPremiere(wait) ==> {
            &&& now >= wait.start_at ==> state.after(event, now) is B1 && state.after(
                event,
                now,
            )->B1_0.since == now
            &&& now < wait.start_at && a.since + crate::clock::HOUR < now ==> state.after(event, now)
                == RecordingState::Lost(Lost { graceful: false })
            &&& now < wait.start_at && a.since + crate::clock::HOUR >= now ==> state.after(event, now)
                == state
        }),
        event is WaitForPremiere ==> (state matches RecordingState::B1(b1) ==> {
            &&& b1.since + 3 * crate::clock::HOUR < now ==> state.after(event, now)
                == RecordingState::Lost(Lost { graceful: false })
            &&& b1.since + 3 * crate::clock::HOUR >= now ==> state.after(event, now) == state
        }),
{
}

/// One use of a recording task.
pub enum TaskStep {
    /// The stream signalled something at an instant; `listed` is what the
    /// pool held for the programme.
    Signal { detected: EitDetected, listed: Option<RecordingTaskDescription>, now: i64 },
    /// A chunk of the stream came at an instant; `listed` is what the pool
    /// held for the programme.
    Chunk { bytes: Seq<u8>, listed: Option<RecordingTaskDescription>, now: i64 },
    /// The caller reported how a change of writers went.
    Settle { swapped: bool },
}

/// The task after one use: what `on_signal_at`, `on_chunk_at` and `settle`
/// leave.
pub open spec fn after_task_step(task: TaskView, step: TaskStep) -> TaskView {
    match step {
        TaskStep::Signal { detected, listed, now } => task.signalled(detected, listed, now),
        TaskStep::Chunk { bytes, listed, now } => task.fed(bytes, listed, now),
        TaskStep::Settle { swapped } => task.settled(swapped),
    }
}

/// The task after a run of uses, first to last.
pub open spec fn after_task_steps(task: TaskView, steps: Seq<TaskStep>) -> TaskView
    decreases steps.len(),
{
    if steps.len() == 0 {
        task
    } else {
        after_task_step(after_task_steps(task, steps.drop_last()), steps.last())
    }
}

/// One use keeps a task well formed, and afterwards the file ends in `.m2ts`
/// exactly if it did before or the task is now in `Rec`.
pub proof fn lemma_task_step(task: TaskView, step: TaskStep)
    requires
        task.wf(),
    ensures
        after_task_step(task, step).wf(),
        after_task_step(task, step).stem == task.stem,
        after_task_step(task, step).extension == Extension::Final <==> task.extension
            == Extension::Final || after_task_step(task, step).state is Rec,
{
    match step {
        TaskStep::Chunk { bytes, listed, now } => {
            if let Some(info) = listed {
                lemma_pushed_wf(
                    task.eit,
                    bytes,
                    target_of(info),
                );
            }
        },
        _ => {},
    }
}

/// The file of a recording ends in `.m2ts` if and only if the recording was
/// in `Rec` at some time; in every other case it ends in `.m2ts-tmp`. This
/// holds after every run of signals, of chunks and of reports on changes of
/// writers, in whatever order they come.
pub proof fn theorem_filename_contract(info: RecordingTaskDescription, start: i64, steps: Seq<TaskStep>)
    ensures
        after_task_steps(TaskView::initial(info, start), steps).wf(),
        after_task_steps(TaskView::initial(info, start), steps).extension == Extension::Final
            <==> exists|k: int|
            0 <= k <= steps.len() && (#[trigger] after_task_steps(
                TaskView::initial(info, start),
                steps.take(k),
            )).state is Rec,
        after_task_steps(TaskView::initial(info, start), steps).stem
            == file_stem(info.program),
        after_task_steps(TaskView::initial(info, start), steps).file_name() == file_stem(
            info.program,
        ) + (if exists|k: int|
            0 <= k <= steps.len() && (#[trigger] after_task_steps(
                TaskView::initial(info, start),
                steps.take(k),
            )).state is Rec {
            ".m2ts"@
        } else {
            ".m2ts-tmp"@
        }),
    decreases steps.len(),
{
    let first = TaskView::initial(info, start);
    let last = after_task_steps(first, steps);
    if steps.len() == 0 {
        assert forall|k: int| 0 <= k <= steps.len() implies !((#[trigger] after_task_steps(
            first,
            steps.take(k),
        )).state is Rec) by {
            assert(steps.take(k) =~= steps);
        }
    } else {
        let earlier = steps.drop_last();
        theorem_filename_contract(info, start, earlier);
        let before = after_task_steps(first, earlier);
        lemma_task_step(before, steps.last());
        assert(steps.take(steps.len() as int) =~= steps);
        assert forall|k: int| 0 <= k <= earlier.len() implies after_task_steps(first, steps.take(k))
            == after_task_steps(first, earlier.take(k)) by {
            assert(steps.take(k) =~= earlier.take(k));
        }
        if last.extension == Extension::Final {
            if before.extension == Extension::Final {
                let k = choose|k: int|
                    0 <= k <= earlier.len() && (#[trigger] after_task_steps(
                        first,
                        earlier.take(k),
                    )).state is Rec;
                assert(after_task_steps(first, steps.take(k)).state is Rec);
            } else {
                assert(after_task_steps(first, steps.take(steps.len() as int)).state is Rec);
            }
        }
        if exists|k: int|
            0 <= k <= steps.len() && (#[trigger] after_task_steps(first, steps.take(k))).state is Rec {
            let k = choose|k: int|
                0 <= k <= steps.len() && (#[trigger] after_task_steps(first, steps.take(k))).state is Rec;
            if k <= earlier.len() {
                assert(after_task_steps(first, earlier.take(k)).state is Rec);
            }
        }
    }
}

/// Once the pool has dropped a programme, the next signal that the
/// programme's task takes makes it order the writer shut down, whatever
/// state it is in and whatever the stream signals; the task itself is left
/// as it is.
pub proof fn theorem_cancel_safety(
    pool: Map<i64, RecordingTaskDescription>,
    task: TaskView,
    detected: EitDetected,
    now: i64,
)
    ensures
        listed(pool.remove(task.id), task.id) is None,
        task.order(detected, listed(pool.remove(task.id), task.id), now) == Order::Shutdown,
        task.signalled(detected, listed(pool.remove(task.id), task.id), now) == task,
{
}

/// The schedules that may have a recording at `now`: the active ones whose
/// broadcast is not over.
pub open spec fn live_active(items: Seq<Schedule>, now: i64) -> Seq<Schedule> {
    items.filter(|s: Schedule| s.is_active && s.is_live(now))
}

/// Whether a round of the scheduler at `now` over the queue `items` sends
/// `message`, for some path of the directory.
pub open spec fn sent_by_round(items: Seq<Schedule>, now: i64, message: RecordControlMessage) -> bool {
    exists|k: int, save_location: String|
        0 <= k < directives(pruned(items, now), now).len() && (#[trigger] directives(
            pruned(items, now),
            now,
        )[k].message_with(save_location)) == Some(message)
}

/// The pool after a run of commands, first to last.
pub open spec fn after_messages(
    pool: Map<i64, RecordingTaskDescription>,
    messages: Seq<RecordControlMessage>,
) -> Map<i64, RecordingTaskDescription>
    decreases messages.len(),
{
    if messages.len() == 0 {
        pool
    } else {
        applied(after_messages(pool, messages.drop_last()), messages.last())
    }
}

/// A command that a round sends is for a programme with an active schedule
/// whose broadcast is not over.
pub proof fn lemma_round_sends_for_live(items: Seq<Schedule>, now: i64, message: RecordControlMessage)
    requires
        sent_by_round(items, now, message),
    ensures
        match message {
            RecordControlMessage::CreateOrUpdate(info) => has_id(
                live_active(items, now),
                info.program.id,
            ),
            RecordControlMessage::TryCreate(info) => has_id(live_active(items, now), info.program.id),
            RecordControlMessage::Remove(_) => false,
        },
{
    let left = pruned(items, now);
    let found = directives(left, now);
    let (k, save_location) = choose|k: int, save_location: String|
        0 <= k < found.len() && (#[trigger] found[k].message_with(save_location)) == Some(message);
    let j = lemma_directive_source(left, now, k);
    lemma_filter_members(items, |s: Schedule| s.is_live(now));
    assert(items.contains(left[j]));
    let i = choose|i: int| 0 <= i < items.len() && items[i] == left[j];
    lemma_filter_keeps(items, |s: Schedule| s.is_active && s.is_live(now), i);
    let live = live_active(items, now);
    let m = choose|m: int| 0 <= m < live.len() && live[m] == items[i];
    assert(live[m].program.id == found[k].program.id);
}

/// A finite set of programmes, each of which has a schedule in a list, has
/// at most as many members as the list has schedules.
pub proof fn lemma_programmes_within(ids: Set<i64>, items: Seq<Schedule>)
    requires
        ids.finite(),
        forall|id: i64| ids.contains(id) ==> has_id(items, id),
    ensures
        ids.len() <= items.len(),
{
    let numbers = items.map_values(|s: Schedule| s.program.id);
    assert forall|id: i64| ids.contains(id) implies numbers.to_set().contains(id) by {
        let i = choose|i: int| 0 <= i < items.len() && (#[trigger] items[i]).program.id == id;
        assert(numbers[i] == id);
    }
    vstd::seq_lib::seq_to_set_is_finite(numbers);
    vstd::set_lib::lemma_len_subset(ids, numbers.to_set());
    numbers.lemma_cardinality_of_set();
}

/// The pool never holds more recordings than there are active schedules
/// whose broadcast is not over, as long as it holds none but for such
/// schedules before a round of the scheduler: the commands of the round,
/// all of them or any part of them, leave it so.
pub proof fn theorem_pool_cardinality(
    items: Seq<Schedule>,
    now: i64,
    pool: Map<i64, RecordingTaskDescription>,
    messages: Seq<RecordControlMessage>,
)
    requires
        pool.dom().finite(),
        forall|id: i64| pool.contains_key(id) ==> has_id(live_active(items, now), id),
        forall|j: int| 0 <= j < messages.len() ==> sent_by_round(items, now, #[trigger] messages[j]),
    ensures
        after_messages(pool, messages).dom().finite(),
        forall|id: i64|
            after_messages(pool, messages).contains_key(id) ==> has_id(live_active(items, now), id),
        after_messages(pool, messages).len() <= live_active(items, now).len(),
    decreases messages.len(),
{
    if messages.len() > 0 {
        let earlier = messages.drop_last();
        assert forall|j: int| 0 <= j < earlier.len() implies sent_by_round(
            items,
            now,
            #[trigger] earlier[j],
        ) by {
            assert(earlier[j] == messages[j]);
        }
        theorem_pool_cardinality(items, now, pool, earlier);
        lemma_round_sends_for_live(items, now, messages.last());
    }
    lemma_programmes_within(after_messages(pool, messages).dom(), live_active(items, now));
}

} // verus!
