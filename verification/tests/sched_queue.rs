use meister::program::Program;
use meister::recording_planner::PlanId;
use meister::sched_trigger::{SchedQueue, Schedule};

const T0: i64 = 1_700_000_000_000;

fn program(id: i64, start_at: i64, duration: Option<i32>) -> Program {
    Program { id, name: None, service_id: 1024, network_id: 32736, event_id: 7, start_at, duration }
}

fn schedule(id: i64, start_at: i64, duration: Option<i32>) -> Schedule {
    Schedule { program: program(id, start_at, duration), plan_id: PlanId::Unplanned, is_active: true }
}

fn ids(queue: &SchedQueue) -> Vec<i64> {
    queue.items().iter().map(|s| s.program.id).collect()
}

#[test]
fn a_new_queue_is_empty() {
    let queue = SchedQueue::new();
    assert!(queue.items().is_empty());
    assert!(!queue.contains(1));
}

#[test]
fn a_schedule_by_hand_is_active_and_unplanned() {
    let s = Schedule::by_hand(program(5, T0, Some(1000)));
    assert_eq!(s.plan_id, PlanId::Unplanned);
    assert!(s.is_active);
    assert_eq!(s.program, program(5, T0, Some(1000)));
}

#[test]
fn insert_appends_in_order() {
    let mut queue = SchedQueue::new();
    assert!(queue.insert(schedule(3, T0, Some(1))));
    assert!(queue.insert(schedule(1, T0, Some(1))));
    assert!(queue.insert(schedule(2, T0, Some(1))));
    assert_eq!(ids(&queue), vec![3, 1, 2]);
    assert!(queue.contains(1));
    assert!(!queue.contains(4));
}

#[test]
fn duplicate_http_insert() {
    let mut queue = SchedQueue::new();
    let first = Schedule::by_hand(program(300, T0, Some(1800000)));
    let second = Schedule::by_hand(program(300, T0 + 5, Some(60000)));
    assert!(queue.insert(first.clone()));
    assert!(!queue.insert(second));
    assert_eq!(queue.items().len(), 1);
    assert_eq!(queue.items()[0], first);
}

#[test]
fn remove_drops_the_matching_schedule_only() {
    let mut queue = SchedQueue::new();
    queue.insert(schedule(1, T0, Some(1)));
    queue.insert(schedule(2, T0, Some(1)));
    queue.insert(schedule(3, T0, Some(1)));
    assert_eq!(queue.remove(2), 1);
    assert_eq!(ids(&queue), vec![1, 3]);
    assert_eq!(queue.remove(2), 0);
    assert_eq!(ids(&queue), vec![1, 3]);
}

#[test]
fn put_and_delete_keep_ids_unique() {
    let mut queue = SchedQueue::new();
    for id in [1, 2, 1, 3, 2, 2, 4, 1] {
        queue.insert(schedule(id, T0, Some(1)));
    }
    queue.remove(2);
    for id in [2, 2, 5, 1] {
        queue.insert(schedule(id, T0, Some(1)));
    }
    let mut seen = ids(&queue);
    assert_eq!(seen, vec![1, 3, 4, 2, 5]);
    seen.sort();
    seen.dedup();
    assert_eq!(seen.len(), queue.items().len());
}

#[test]
fn revise_changes_start_and_duration_in_place() {
    let mut queue = SchedQueue::new();
    let mut planned = schedule(200, T0 + 600_000, Some(1000));
    planned.plan_id = PlanId::Series(9);
    planned.is_active = false;
    queue.insert(schedule(100, T0, Some(5)));
    queue.insert(planned);
    queue.revise(200, T0 + 1_200_000, None);
    assert_eq!(queue.items()[0], schedule(100, T0, Some(5)));
    let revised = &queue.items()[1];
    assert_eq!(revised.program.start_at, T0 + 1_200_000);
    assert_eq!(revised.program.duration, None);
    assert_eq!(revised.program.id, 200);
    assert_eq!(revised.program.event_id, 7);
    assert_eq!(revised.plan_id, PlanId::Series(9));
    assert!(!revised.is_active);
}

#[test]
fn revise_of_an_unknown_programme_changes_nothing() {
    let mut queue = SchedQueue::new();
    queue.insert(schedule(100, T0, Some(5)));
    queue.revise(101, T0 + 1, Some(6));
    assert_eq!(queue.items().len(), 1);
    assert_eq!(queue.items()[0], schedule(100, T0, Some(5)));
}

#[test]
fn prune_drops_what_is_over() {
    let mut queue = SchedQueue::new();
    queue.insert(schedule(1, T0, Some(1000)));
    queue.insert(schedule(2, T0, Some(2000)));
    queue.insert(schedule(3, T0, None));
    assert_eq!(queue.prune(T0 + 999), 0);
    assert_eq!(queue.prune(T0 + 1000), 1);
    assert_eq!(ids(&queue), vec![2, 3]);
    assert_eq!(queue.prune(T0 + 2000), 1);
    assert_eq!(ids(&queue), vec![3]);
}

#[test]
fn prune_gives_an_unknown_duration_one_hour() {
    let mut queue = SchedQueue::new();
    queue.insert(schedule(3, T0, None));
    assert_eq!(queue.prune(T0 + 3_600_000 - 1), 0);
    assert_eq!(queue.prune(T0 + 3_600_000), 1);
    assert!(queue.items().is_empty());
}

#[test]
fn prune_never_brings_a_schedule_back() {
    let mut queue = SchedQueue::new();
    queue.insert(schedule(1, T0, Some(1000)));
    queue.insert(schedule(2, T0, Some(5000)));
    queue.prune(T0 + 1000);
    assert_eq!(ids(&queue), vec![2]);
    queue.prune(T0);
    queue.revise(1, T0 + 100_000, Some(1000));
    queue.prune(T0 + 2000);
    assert_eq!(ids(&queue), vec![2]);
}

#[test]
fn prune_does_not_overflow_at_the_ends_of_time() {
    let mut queue = SchedQueue::new();
    queue.insert(schedule(1, i64::MAX, Some(i32::MAX)));
    queue.insert(schedule(2, i64::MIN, Some(i32::MIN)));
    queue.insert(schedule(3, i64::MAX, None));
    assert_eq!(queue.prune(i64::MAX), 1);
    assert_eq!(ids(&queue), vec![1, 3]);
}

#[test]
fn restore_adds_what_was_saved() {
    let mut queue = SchedQueue::new();
    let added = queue.restore(vec![schedule(1, T0, Some(1)), schedule(2, T0, None)]);
    assert_eq!(added, 2);
    assert_eq!(ids(&queue), vec![1, 2]);
}

#[test]
fn restore_passes_over_repeated_programmes() {
    let mut queue = SchedQueue::new();
    queue.insert(schedule(2, T0, Some(9)));
    let added = queue.restore(vec![schedule(1, T0, Some(1)), schedule(2, T0, None), schedule(1, T0, None)]);
    assert_eq!(added, 1);
    assert_eq!(ids(&queue), vec![2, 1]);
    assert_eq!(queue.items()[0].program.duration, Some(9));
    assert_eq!(queue.items()[1].program.duration, Some(1));
}

#[test]
fn a_clone_of_a_schedule_is_equal() {
    let mut s = schedule(1, T0, Some(1));
    s.program.name = Some("news".to_string());
    assert_eq!(s.clone(), s);
}

#[test]
fn end_of_a_programme() {
    assert_eq!(program(1, T0, Some(1800000)).end(), (T0 + 1800000) as i128);
    assert_eq!(program(1, T0, None).end(), (T0 + 3_600_000) as i128);
    assert_eq!(program(1, i64::MAX, Some(i32::MAX)).end(), i64::MAX as i128 + i32::MAX as i128);
}
