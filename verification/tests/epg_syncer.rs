use meister::epg_syncer::events_stream::{expect_service, DeErrReason, DeError, EventResource};
use meister::epg_syncer::periodic_tasks::{get_reverse_event_relay, Listing, RelatedItem, RelatedType};
use meister::epg_syncer::{
    decide, is_framing_line, is_white_char, on_program_indexed, primary_key, programs_index, services_index,
    FeedAction, FeedItem, INDEX_WAIT_SECONDS, REFRESH_PERIOD_SECONDS,
};
use meister::program::Program;
use meister::recording_planner::PlanId;
use meister::sched_trigger::{SchedQueue, Schedule};

fn program(id: i64, start_at: i64, duration: Option<i32>) -> Program {
    Program { id, name: Some("x".to_string()), service_id: 1, network_id: 2, event_id: 3, start_at, duration }
}

#[test]
fn the_catalogue_is_refreshed_every_ten_minutes() {
    assert_eq!(REFRESH_PERIOD_SECONDS, 600);
    assert_eq!(INDEX_WAIT_SECONDS, 60);
    assert_eq!(programs_index(), "_programs");
    assert_eq!(services_index(), "_services");
    assert_eq!(primary_key(), "id");
}

#[test]
fn a_bracket_is_a_framing_line() {
    assert!(is_framing_line("["));
    assert!(is_framing_line(" [ "));
    assert!(is_framing_line("\t[\r\n"));
    assert!(is_framing_line("\u{3000}[\u{a0}"));
}

#[test]
fn other_lines_are_not_framing_lines() {
    assert!(!is_framing_line(""));
    assert!(!is_framing_line("   "));
    assert!(!is_framing_line("[["));
    assert!(!is_framing_line("[ ["));
    assert!(!is_framing_line("]"));
    assert!(!is_framing_line("[,"));
    assert!(!is_framing_line(",["));
    assert!(!is_framing_line("{\"resource\":\"program\"}"));
    assert!(!is_framing_line("x [ "));
}

#[test]
fn framing_agrees_with_trimming() {
    for line in ["[", " [", "[ ", "\n[\n", "[]", "", " ", "a", "[a", "\u{2003}[", "\u{200b}["] {
        assert_eq!(is_framing_line(line), line.trim().eq_ignore_ascii_case("["), "{:?}", line);
    }
}

#[test]
fn white_space_is_what_the_standard_library_says() {
    for code in 0u32..0x3100 {
        if let Some(c) = char::from_u32(code) {
            assert_eq!(is_white_char(c), c.is_whitespace(), "{:x}", code);
        }
    }
    assert!(!is_white_char('\u{10ffff}'));
}

#[test]
fn each_item_of_the_feed_has_its_action() {
    assert_eq!(decide(&FeedItem::Program(program(1, 2, None))), FeedAction::IndexProgram);
    assert_eq!(decide(&FeedItem::Service), FeedAction::IndexService);
    assert_eq!(decide(&FeedItem::Tuner), FeedAction::Note);
    assert_eq!(decide(&FeedItem::Unreadable), FeedAction::Reconnect);
}

#[test]
fn an_indexed_revision_reaches_the_queue() {
    let mut queue = SchedQueue::new();
    queue.insert(Schedule { program: program(200, 600, Some(5)), plan_id: PlanId::Word(1), is_active: true });
    queue.insert(Schedule { program: program(201, 600, Some(5)), plan_id: PlanId::Unplanned, is_active: true });
    assert!(on_program_indexed(&mut queue, &program(200, 1200, Some(7)), true));
    assert_eq!(queue.items()[0].program.start_at, 1200);
    assert_eq!(queue.items()[0].program.duration, Some(7));
    assert_eq!(queue.items()[0].plan_id, PlanId::Word(1));
    assert_eq!(queue.items()[1].program, program(201, 600, Some(5)));
}

#[test]
fn a_revision_that_was_not_indexed_reaches_the_queue_all_the_same() {
    let mut queue = SchedQueue::new();
    queue.insert(Schedule { program: program(200, 600_000, Some(5)), plan_id: PlanId::Series(3), is_active: false });
    queue.insert(Schedule { program: program(201, 600_000, Some(5)), plan_id: PlanId::Unplanned, is_active: true });
    assert!(!on_program_indexed(&mut queue, &program(200, 1_200_000, None), false));
    assert_eq!(queue.items()[0].program, program(200, 1_200_000, None));
    assert_eq!(queue.items()[0].plan_id, PlanId::Series(3));
    assert!(!queue.items()[0].is_active);
    assert_eq!(queue.items()[1].program, program(201, 600_000, Some(5)));
}

#[test]
fn only_service_events_are_admitted_as_services() {
    assert_eq!(expect_service(EventResource::Service), Ok(()));
    let mismatch = DeError { reason: DeErrReason::ResourceKindMismatch };
    assert_eq!(expect_service(EventResource::Program), Err(mismatch));
    assert_eq!(expect_service(EventResource::Tuner), Err(mismatch));
    assert_eq!(mismatch.message(), "the event is about another kind of resource");
}

#[test]
fn the_relay_table_leads_back_to_the_source() {
    let listings = vec![
        Listing {
            event_id: 10,
            related_items: Some(vec![
                RelatedItem { kind: Some(RelatedType::Relay), event_id: Some(11) },
                RelatedItem { kind: Some(RelatedType::Shared), event_id: Some(12) },
                RelatedItem { kind: None, event_id: Some(13) },
                RelatedItem { kind: Some(RelatedType::Relay), event_id: None },
            ]),
        },
        Listing { event_id: 20, related_items: None },
        Listing {
            event_id: 30,
            related_items: Some(vec![
                RelatedItem { kind: Some(RelatedType::Relay), event_id: Some(31) },
                RelatedItem { kind: Some(RelatedType::Relay), event_id: Some(11) },
                RelatedItem { kind: Some(RelatedType::Movement), event_id: Some(32) },
            ]),
        },
    ];
    let table = get_reverse_event_relay(&listings);
    assert_eq!(table.len(), 2);
    assert_eq!(table.get(&11), Some(&30));
    assert_eq!(table.get(&31), Some(&30));
    assert_eq!(table.get(&12), None);
}

#[test]
fn the_relay_table_of_nothing_is_empty() {
    assert!(get_reverse_event_relay(&vec![]).is_empty());
}
