use meister::program::Program;
use meister::recording_pool::recording_task::eit_parser::EitDetected;
use meister::recording_pool::recording_task::{
    event_for, file_stem_of, Event, Extension, FoundInFollowing, FoundInPresent, Lost, PresentProgramLost,
    RecordingState, RecordingTask, WaitForPremiere, WriteAction, A, B1, B2, Rec, PATIENCE_AFTER_START,
    PATIENCE_BEFORE_START,
};
use meister::recording_pool::RecordingTaskDescription;

const T0: i64 = 1_700_000_000_000;
const HOUR: i64 = 3_600_000;

fn info(id: i64, name: Option<&str>, start_at: i64) -> RecordingTaskDescription {
    RecordingTaskDescription {
        program: Program {
            id,
            name: name.map(|n| n.to_string()),
            service_id: 1024,
            network_id: 32736,
            event_id: 77,
            start_at,
            duration: Some(1_800_000),
        },
        save_location: "/srv/rec/common".to_string(),
    }
}

#[test]
fn patience_is_one_hour_before_and_three_after_the_start() {
    assert_eq!(PATIENCE_BEFORE_START, HOUR);
    assert_eq!(PATIENCE_AFTER_START, 3 * HOUR);
}

#[test]
fn the_file_is_named_after_number_and_name() {
    assert_eq!(file_stem_of(&info(100, None, T0).program), "100_untitled");
    assert_eq!(file_stem_of(&info(7, Some("News at 7"), T0).program), "7_News at 7");
    assert_eq!(file_stem_of(&info(-3, Some(""), T0).program), "-3_");
}

#[test]
fn the_endings_of_the_file() {
    assert_eq!(Extension::Temporary.as_str(), ".m2ts-tmp");
    assert_eq!(Extension::Final.as_str(), ".m2ts");
    assert_eq!(Extension::for_state(RecordingState::Rec(Rec { since: 0 }), Extension::Temporary), Extension::Final);
    assert_eq!(Extension::for_state(RecordingState::A(A { since: 0 }), Extension::Final), Extension::Temporary);
    assert_eq!(Extension::for_state(RecordingState::B1(B1 { since: 0 }), Extension::Final), Extension::Temporary);
    assert_eq!(Extension::for_state(RecordingState::B2(B2 { since: 0 }), Extension::Final), Extension::Temporary);
    let lost = RecordingState::Lost(Lost { graceful: true });
    assert_eq!(Extension::for_state(lost, Extension::Final), Extension::Final);
    assert_eq!(Extension::for_state(lost, Extension::Temporary), Extension::Temporary);
}

#[test]
fn a_new_task_waits_on_a_temporary_file() {
    let task = RecordingTask::new_at(&info(100, None, T0 + 300_000), T0);
    assert_eq!(task.id(), 100);
    assert_eq!(task.state(), RecordingState::A(A { since: T0 }));
    assert_eq!(task.next_state(), RecordingState::A(A { since: T0 }));
    assert_eq!(task.extension(), Extension::Temporary);
    assert_eq!(task.file_name(), "100_untitled.m2ts-tmp");
}

#[test]
fn a_task_set_up_by_the_wall_clock_starts_in_a() {
    let task = RecordingTask::new(&info(100, Some("a"), T0));
    assert!(matches!(task.state(), RecordingState::A(_)));
    assert_eq!(task.state(), task.next_state());
    assert_eq!(task.file_name(), "100_a.m2ts-tmp");
}

#[test]
fn signals_become_events() {
    let a = RecordingState::A(A { since: T0 });
    let b2 = RecordingState::B2(B2 { since: T0 });
    let rec = RecordingState::Rec(Rec { since: T0 });
    assert_eq!(event_for(a, EitDetected::FoundInP, 5), Event::FoundInPresent(FoundInPresent));
    assert_eq!(event_for(a, EitDetected::FoundInF, 5), Event::FoundInFollowing(FoundInFollowing));
    assert_eq!(event_for(a, EitDetected::NotFound, 5), Event::WaitForPremiere(WaitForPremiere { start_at: 5 }));
    assert_eq!(
        event_for(RecordingState::B1(B1 { since: T0 }), EitDetected::NotFound, 5),
        Event::WaitForPremiere(WaitForPremiere { start_at: 5 })
    );
    assert_eq!(event_for(b2, EitDetected::NotFound, 5), Event::PresentProgramLost(PresentProgramLost));
    assert_eq!(event_for(rec, EitDetected::NotFound, 5), Event::PresentProgramLost(PresentProgramLost));
    assert_eq!(event_for(rec, EitDetected::FoundInP, 5), Event::FoundInPresent(FoundInPresent));
}

#[test]
fn nothing_changes_while_the_task_waits() {
    let listed = info(100, None, T0 + 300_000);
    let mut task = RecordingTask::new_at(&listed, T0);
    assert_eq!(task.on_signal_at(EitDetected::NotFound, Some(&listed), T0 + 1000), WriteAction::Write);
    assert_eq!(task.state(), RecordingState::A(A { since: T0 }));
    assert_eq!(task.file_name(), "100_untitled.m2ts-tmp");
}

#[test]
fn entering_rec_asks_for_the_final_file() {
    let listed = info(100, None, T0 + 300_000);
    let mut task = RecordingTask::new_at(&listed, T0);
    let action = task.on_signal_at(EitDetected::FoundInP, Some(&listed), T0 + 300_000);
    assert_eq!(action, WriteAction::Swap { file_name: "100_untitled.m2ts".to_string() });
    assert_eq!(task.state(), RecordingState::A(A { since: T0 }));
    assert_eq!(task.next_state(), RecordingState::Rec(Rec { since: T0 + 300_000 }));
    assert_eq!(task.file_name(), "100_untitled.m2ts-tmp");
    task.settle(true);
    assert_eq!(task.state(), RecordingState::Rec(Rec { since: T0 + 300_000 }));
    assert_eq!(task.extension(), Extension::Final);
    assert_eq!(task.file_name(), "100_untitled.m2ts");
}

#[test]
fn a_failed_change_of_writers_leaves_the_task_on_its_file() {
    let listed = info(100, None, T0 + 300_000);
    let mut task = RecordingTask::new_at(&listed, T0);
    task.on_signal_at(EitDetected::FoundInP, Some(&listed), T0 + 300_000);
    task.settle(false);
    assert_eq!(task.state(), RecordingState::A(A { since: T0 }));
    assert_eq!(task.next_state(), RecordingState::A(A { since: T0 }));
    assert_eq!(task.file_name(), "100_untitled.m2ts-tmp");
    let again = task.on_signal_at(EitDetected::FoundInP, Some(&listed), T0 + 300_005);
    assert_eq!(again, WriteAction::Swap { file_name: "100_untitled.m2ts".to_string() });
}

#[test]
fn a_change_of_state_without_a_change_of_ending_keeps_the_name() {
    let listed = info(100, None, T0 + 300_000);
    let mut task = RecordingTask::new_at(&listed, T0);
    let action = task.on_signal_at(EitDetected::FoundInF, Some(&listed), T0 + 10);
    assert_eq!(action, WriteAction::Swap { file_name: "100_untitled.m2ts-tmp".to_string() });
    task.settle(true);
    assert_eq!(task.state(), RecordingState::B2(B2 { since: T0 + 10 }));
    assert_eq!(task.extension(), Extension::Temporary);
}

#[test]
fn recording_goes_on_while_the_programme_is_present() {
    let listed = info(100, None, T0);
    let mut task = RecordingTask::new_at(&listed, T0);
    task.on_signal_at(EitDetected::FoundInP, Some(&listed), T0 + 1);
    task.settle(true);
    for k in 2..50 {
        assert_eq!(task.on_signal_at(EitDetected::FoundInP, Some(&listed), T0 + k), WriteAction::Write);
    }
    assert_eq!(task.on_signal_at(EitDetected::FoundInF, Some(&listed), T0 + 60), WriteAction::Write);
    assert_eq!(task.state(), RecordingState::Rec(Rec { since: T0 + 1 }));
    assert_eq!(task.file_name(), "100_untitled.m2ts");
}

#[test]
fn the_end_of_the_programme_finishes_the_task() {
    let listed = info(100, None, T0);
    let mut task = RecordingTask::new_at(&listed, T0);
    task.on_signal_at(EitDetected::FoundInP, Some(&listed), T0 + 1);
    task.settle(true);
    let action = task.on_signal_at(EitDetected::NotFound, Some(&listed), T0 + 1_800_000);
    assert_eq!(action, WriteAction::Finish { graceful: true });
    assert_eq!(task.state(), RecordingState::Lost(Lost { graceful: true }));
    assert_eq!(task.file_name(), "100_untitled.m2ts");
    assert_eq!(
        task.on_signal_at(EitDetected::FoundInP, Some(&listed), T0 + 1_800_001),
        WriteAction::Finish { graceful: true }
    );
    task.settle(true);
    assert_eq!(task.file_name(), "100_untitled.m2ts");
}

#[test]
fn a_task_that_never_recorded_keeps_the_temporary_ending() {
    let listed = info(100, None, T0 + 300_000);
    let mut task = RecordingTask::new_at(&listed, T0);
    task.on_signal_at(EitDetected::FoundInF, Some(&listed), T0 + 10);
    task.settle(true);
    let action = task.on_signal_at(EitDetected::NotFound, Some(&listed), T0 + 20);
    assert_eq!(action, WriteAction::Finish { graceful: true });
    assert_eq!(task.file_name(), "100_untitled.m2ts-tmp");
}

#[test]
fn a_task_that_the_pool_dropped_shuts_down() {
    let listed = info(600, None, T0 + 300_000);
    let mut task = RecordingTask::new_at(&listed, T0);
    assert_eq!(task.on_signal_at(EitDetected::FoundInP, None, T0 + 5), WriteAction::Shutdown);
    assert_eq!(task.state(), RecordingState::A(A { since: T0 }));
    assert_eq!(task.on_chunk_at(&[0x47u8; 188], None, T0 + 6), WriteAction::Shutdown);
    assert_eq!(task.on_chunk(&[], None), WriteAction::Shutdown);
}

#[test]
fn the_start_follows_the_latest_description() {
    let listed = info(200, None, T0 + 600_000);
    let revised = info(200, None, T0 + 1_200_000);
    let mut task = RecordingTask::new_at(&listed, T0);
    assert_eq!(task.on_signal_at(EitDetected::NotFound, Some(&revised), T0 + 600_000), WriteAction::Write);
    assert_eq!(task.state(), RecordingState::A(A { since: T0 }));
    let action = task.on_signal_at(EitDetected::NotFound, Some(&listed), T0 + 600_000);
    assert_eq!(action, WriteAction::Swap { file_name: "200_untitled.m2ts-tmp".to_string() });
    assert_eq!(task.next_state(), RecordingState::B1(B1 { since: T0 + 600_000 }));
}

#[test]
fn chunks_without_tables_keep_a_new_task_waiting() {
    let listed = info(100, None, T0 + 300_000);
    let mut task = RecordingTask::new_at(&listed, T0);
    let mut chunk = vec![0xFFu8; 188 * 3];
    for k in 0..3 {
        chunk[k * 188] = 0x47;
        chunk[k * 188 + 1] = 0x1F;
        chunk[k * 188 + 3] = 0x10;
    }
    assert_eq!(task.on_chunk_at(&chunk, Some(&listed), T0 + 1), WriteAction::Write);
    assert_eq!(task.on_chunk_at(&chunk[..100], Some(&listed), T0 + 2), WriteAction::Write);
    assert_eq!(task.state(), RecordingState::A(A { since: T0 }));
    let far = info(100, None, i64::MAX);
    let mut fresh = RecordingTask::new(&far);
    assert_eq!(fresh.on_chunk(&chunk, Some(&far)), WriteAction::Write);
}
