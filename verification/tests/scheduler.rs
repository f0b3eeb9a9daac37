use meister::program::Program;
use meister::recording_planner::PlanId;
use meister::recording_pool::{RecordControlMessage, RecordingTaskDescription};
use meister::sched_trigger::{
    command_for, is_in_the_recording_range, save_directory_of, Command, Directive, SchedQueue, Schedule, PRE_ROLL,
    TICK_PERIOD_SECONDS,
};

const T0: i64 = 1_700_000_000_000;

fn program(id: i64, start_at: i64, duration: Option<i32>) -> Program {
    Program { id, name: None, service_id: 1, network_id: 2, event_id: 3, start_at, duration }
}

fn schedule(id: i64, start_at: i64, duration: Option<i32>, plan_id: PlanId, is_active: bool) -> Schedule {
    Schedule { program: program(id, start_at, duration), plan_id, is_active }
}

#[test]
fn the_scheduler_ticks_every_five_seconds() {
    assert_eq!(TICK_PERIOD_SECONDS, 5);
    assert_eq!(PRE_ROLL, 10 * 60 * 1000);
}

#[test]
fn ranges_are_half_open() {
    assert!(is_in_the_recording_range(10, 20, 10));
    assert!(is_in_the_recording_range(10, 20, 19));
    assert!(!is_in_the_recording_range(10, 20, 20));
    assert!(!is_in_the_recording_range(10, 20, 9));
}

#[test]
fn an_empty_range_holds_nothing() {
    assert!(!is_in_the_recording_range(10, 10, 10));
    assert!(!is_in_the_recording_range(20, 10, 15));
}

#[test]
fn command_during_pre_roll_is_create_or_update() {
    let p = program(1, T0, Some(1_800_000));
    assert_eq!(command_for(&p, T0 - 600_000), Command::CreateOrUpdate);
    assert_eq!(command_for(&p, T0 - 1), Command::CreateOrUpdate);
}

#[test]
fn command_before_pre_roll_is_wait() {
    let p = program(1, T0, Some(1_800_000));
    assert_eq!(command_for(&p, T0 - 600_001), Command::Wait);
}

#[test]
fn command_on_air_is_try_create() {
    let p = program(1, T0, Some(1_800_000));
    assert_eq!(command_for(&p, T0), Command::TryCreate);
    assert_eq!(command_for(&p, T0 + 1_799_999), Command::TryCreate);
    assert_eq!(command_for(&p, T0 + 1_800_000), Command::Wait);
}

#[test]
fn command_for_an_unknown_duration_is_none() {
    let p = program(1, T0, None);
    assert_eq!(command_for(&p, T0 - 1), Command::DurationUnknown);
    assert_eq!(command_for(&p, T0), Command::DurationUnknown);
}

#[test]
fn command_for_a_broadcast_of_no_length() {
    let zero = program(1, T0, Some(0));
    assert_eq!(command_for(&zero, T0), Command::Wait);
    assert_eq!(command_for(&zero, T0 - 1), Command::CreateOrUpdate);
    let negative = program(1, T0, Some(-5));
    assert_eq!(command_for(&negative, T0), Command::Wait);
}

#[test]
fn command_does_not_overflow_at_the_ends_of_time() {
    let early = program(1, i64::MIN, Some(10));
    assert_eq!(command_for(&early, i64::MIN), Command::TryCreate);
    let late = program(1, i64::MAX, Some(i32::MAX));
    assert_eq!(command_for(&late, i64::MAX), Command::TryCreate);
    assert_eq!(command_for(&late, i64::MAX - 1), Command::CreateOrUpdate);
}

#[test]
fn save_directories() {
    assert_eq!(save_directory_of(PlanId::Unplanned), "./common/");
    assert_eq!(save_directory_of(PlanId::Word(5)), "./word_5/");
    assert_eq!(save_directory_of(PlanId::Series(70)), "./series_70/");
    assert_eq!(
        save_directory_of(PlanId::Word(u128::MAX)),
        "./word_340282366920938463463374607431768211455/"
    );
    assert_eq!(save_directory_of(PlanId::Series(0)), "./series_0/");
}

#[test]
fn survey_lists_active_schedules_in_order() {
    let mut queue = SchedQueue::new();
    queue.insert(schedule(1, T0 + 100_000, Some(1000), PlanId::Unplanned, true));
    queue.insert(schedule(2, T0, Some(1000), PlanId::Word(4), false));
    queue.insert(schedule(3, T0 - 10, Some(1000), PlanId::Series(8), true));
    queue.insert(schedule(4, T0, None, PlanId::Unplanned, true));
    queue.insert(schedule(5, T0 + 10_000_000, Some(1000), PlanId::Unplanned, true));
    let found = queue.survey(T0);
    assert_eq!(found.len(), 4);
    assert_eq!(
        found[0],
        Directive {
            program: program(1, T0 + 100_000, Some(1000)),
            plan_id: PlanId::Unplanned,
            command: Command::CreateOrUpdate
        }
    );
    assert_eq!(found[1].program.id, 3);
    assert_eq!(found[1].plan_id, PlanId::Series(8));
    assert_eq!(found[1].command, Command::TryCreate);
    assert_eq!(found[2].program.id, 4);
    assert_eq!(found[2].command, Command::DurationUnknown);
    assert_eq!(found[3].program.id, 5);
    assert_eq!(found[3].command, Command::Wait);
    assert_eq!(queue.items().len(), 5);
}

#[test]
fn tick_prunes_before_it_surveys() {
    let mut queue = SchedQueue::new();
    queue.insert(schedule(1, T0 - 5000, Some(1000), PlanId::Unplanned, true));
    queue.insert(schedule(2, T0 - 5000, Some(10_000), PlanId::Unplanned, true));
    queue.insert(schedule(3, T0 - 5000, Some(1000), PlanId::Unplanned, false));
    let (dropped, found) = queue.tick_at(T0);
    assert_eq!(dropped, 2);
    assert_eq!(queue.items().len(), 1);
    assert_eq!(found.len(), 1);
    assert_eq!(found[0].program.id, 2);
    assert_eq!(found[0].command, Command::TryCreate);
}

#[test]
fn tick_by_the_wall_clock_drops_what_is_long_over() {
    let mut queue = SchedQueue::new();
    queue.insert(schedule(1, 0, Some(1000), PlanId::Unplanned, true));
    queue.insert(schedule(2, i64::MAX - 10, Some(5), PlanId::Unplanned, true));
    let (dropped, found) = queue.tick();
    assert_eq!(dropped, 1);
    assert_eq!(found.len(), 1);
    assert_eq!(found[0].program.id, 2);
    assert_eq!(found[0].command, Command::Wait);
}

#[test]
fn a_directive_builds_its_message() {
    let due = Directive { program: program(1, T0, Some(1)), plan_id: PlanId::Unplanned, command: Command::CreateOrUpdate };
    assert!(due.needs_directory());
    assert_eq!(due.directory(), "./common/");
    assert_eq!(
        due.message("/srv/rec/common".to_string()),
        Some(RecordControlMessage::CreateOrUpdate(RecordingTaskDescription {
            program: program(1, T0, Some(1)),
            save_location: "/srv/rec/common".to_string()
        }))
    );
    let on_air = Directive { program: program(2, T0, Some(1)), plan_id: PlanId::Word(3), command: Command::TryCreate };
    assert_eq!(on_air.directory(), "./word_3/");
    assert_eq!(
        on_air.message("/srv/rec/word_3".to_string()),
        Some(RecordControlMessage::TryCreate(RecordingTaskDescription {
            program: program(2, T0, Some(1)),
            save_location: "/srv/rec/word_3".to_string()
        }))
    );
}

#[test]
fn a_directive_without_command_builds_no_message() {
    let wait = Directive { program: program(1, T0, Some(1)), plan_id: PlanId::Unplanned, command: Command::Wait };
    assert!(wait.needs_directory());
    assert_eq!(wait.message("/x".to_string()), None);
    let unknown = Directive { program: program(1, T0, None), plan_id: PlanId::Unplanned, command: Command::DurationUnknown };
    assert!(!unknown.needs_directory());
    assert_eq!(unknown.message("/x".to_string()), None);
}

#[test]
fn one_round_has_one_command_for_each_programme() {
    let mut queue = SchedQueue::new();
    for id in [4, 2, 4, 9, 2, 7] {
        queue.insert(schedule(id, T0, Some(100_000), PlanId::Unplanned, true));
    }
    let (_, found) = queue.tick_at(T0 + 1);
    let mut seen: Vec<i64> = found.iter().map(|d| d.program.id).collect();
    assert_eq!(seen, vec![4, 2, 9, 7]);
    seen.sort();
    seen.dedup();
    assert_eq!(seen.len(), found.len());
}

#[test]
fn after_a_round_every_schedule_is_still_to_end() {
    let mut queue = SchedQueue::new();
    queue.insert(schedule(1, T0, Some(50), PlanId::Unplanned, true));
    queue.insert(schedule(2, T0, Some(150), PlanId::Unplanned, false));
    queue.insert(schedule(3, T0 - 3_600_000, None, PlanId::Unplanned, true));
    queue.insert(schedule(4, T0 + 5, None, PlanId::Unplanned, true));
    queue.tick_at(T0 + 100);
    assert_eq!(queue.items().len(), 2);
    for s in queue.items() {
        assert!(((T0 + 100) as i128) < s.program.end());
    }
}
