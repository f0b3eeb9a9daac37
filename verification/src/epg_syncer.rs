//! Keeping the schedule queue in step with the programme guide: what to do
//! with each line of the tuner service's event feed.

use vstd::prelude::*;
use crate::program::Program;
use crate::sched_trigger::revised;
use crate::sched_trigger::unique_ids;
use crate::sched_trigger::SchedQueue;

pub mod events_stream;
pub mod periodic_tasks;

verus! {

/// Seconds between two full refreshes of the catalogue.
pub const REFRESH_PERIOD_SECONDS: u64 = 600;

/// Seconds that the creation of an index of the catalogue may take.
pub const INDEX_WAIT_SECONDS: u64 = 60;

/// The index of programmes in the catalogue.
pub fn programs_index() -> (name: &'static str)
    ensures
        name@ == "_programs"@,
{
    "_programs"
}

/// The index of services in the catalogue.
pub fn services_index() -> (name: &'static str)
    ensures
        name@ == "_services"@,
{
    "_services"
}

/// The field that identifies a document in either index.
pub fn primary_key() -> (name: &'static str)
    ensures
        name@ == "id"@,
{
    "id"
}

/// Whether a character is white space, as Unicode defines it.
pub open spec fn is_white(c: char) -> bool {
    let code = c as u32;
    ||| 0x09 <= code <= 0x0D
    ||| code == 0x20
    ||| code == 0x85
    ||| code == 0xA0
    ||| code == 0x1680
    ||| 0x2000 <= code <= 0x200A
    ||| code == 0x2028
    ||| code == 0x2029
    ||| code == 0x202F
    ||| code == 0x205F
    ||| code == 0x3000
}

/// Tests whether a character is white space.
pub fn is_white_char(c: char) -> (white: bool)
    ensures
        white == is_white(c),
{
    let code: u32 = c as u32;
    (0x09 <= code && code <= 0x0D) || code == 0x20 || code == 0x85 || code == 0xA0 || code == 0x1680
        || (0x2000 <= code && code <= 0x200A) || code == 0x2028 || code == 0x2029 || code == 0x202F
        || code == 0x205F || code == 0x3000
}

/// What is left of a line when its white space is taken out.
pub open spec fn ink(line: Seq<char>) -> Seq<char> {
    line.filter(|c: char| !is_white(c))
}

/// Whether a line of the feed only frames it: an opening bracket with
/// nothing but white space around it.
pub open spec fn is_framing(line: Seq<char>) -> bool {
    ink(line) == seq!['[']
}

/// Tests whether a line of the feed only frames it. Such a line carries no
/// event and is passed over.
pub fn is_framing_line(line: &str) -> (framing: bool)
    ensures
        framing == is_framing(line@),
{
    let ghost keep = |c: char| !is_white(c);
    let ghost all = line@;
    let mut seen: u8 = 0;
    let mut bracket: bool = false;
    for c in it: line.chars()
        invariant
            it.seq() == all,
            forall|c: char| #[trigger] keep(c) == !is_white(c),
            seen <= 2,
            seen as int == if all.take(it.index() as int).filter(keep).len() < 2 {
                all.take(it.index() as int).filter(keep).len() as int
            } else {
                2
            },
            seen == 1 ==> bracket == (all.take(it.index() as int).filter(keep)[0] == '['),
    {
        proof {
            reveal(Seq::filter);
            let n = it.index() as int;
            assert(all.take(n + 1).drop_last() =~= all.take(n));
            assert(all.take(n + 1).last() == c);
            assert(all.take(n + 1).filter(keep) == if keep(c) {
                all.take(n).filter(keep).push(c)
            } else {
                all.take(n).filter(keep)
            });
        }
        if !is_white_char(c) {
            if seen == 0 {
                bracket = c == '[';
                seen = 1;
            } else {
                seen = 2;
            }
        }
    }
    proof {
        assert(all.take(all.len() as int) =~= all);
        if seen == 1 && bracket {
            assert(ink(all) =~= seq!['[']);
        }
    }
    seen == 1 && bracket
}

/// What a line of the feed turned out to hold, once it was decoded.
#[derive(Debug, PartialEq, Eq)]
pub enum FeedItem {
    /// The guide revised a programme.
    Program(Program),
    /// A service changed.
    Service,
    /// The configuration of a tuner changed.
    Tuner,
    /// The line could not be decoded.
    Unreadable,
}

/// What to do about a line of the feed.
#[derive(Debug, Clone, Copy, PartialEq, Eq, Structural)]
pub enum FeedAction {
    /// Write the programme to the index of programmes, then hand the outcome
    /// to `on_program_indexed`.
    IndexProgram,
    /// Write the service to the index of services.
    IndexService,
    /// Make a note in the log; nothing else.
    Note,
    /// Give the connection up and subscribe to the feed again.
    Reconnect,
}

/// What is to be done about an item of the feed.
pub open spec fn action_for(item: FeedItem) -> FeedAction {
    match item {
        FeedItem::Program(_) => FeedAction::IndexProgram,
        FeedItem::Service => FeedAction::IndexService,
        FeedItem::Tuner => FeedAction::Note,
        FeedItem::Unreadable => FeedAction::Reconnect,
    }
}

/// Decides what to do about an item of the feed.
pub fn decide(item: &FeedItem) -> (action: FeedAction)
    ensures
        action == action_for(*item),
{
    match item {
        FeedItem::Program(_) => FeedAction::IndexProgram,
        FeedItem::Service => FeedAction::IndexService,
        FeedItem::Tuner => FeedAction::Note,
        FeedItem::Unreadable => FeedAction::Reconnect,
    }
}

/// Takes a revision of the guide over into the queue, once the attempt to
/// write the programme to the index has ended. Every schedule for the
/// programme gets the new start and duration, whether or not the index took
/// the programme: the queue follows the guide, not the index. Says whether
/// the index took it, for the log.
pub fn on_program_indexed(queue: &mut SchedQueue, program: &Program, indexed: bool) -> (done: bool)
    ensures
        done == indexed,
        final(queue)@ == revised(old(queue)@, program.id, program.start_at, program.duration),
        unique_ids(final(queue)@),
{
    queue.revise(program.id, program.start_at, program.duration);
    indexed
}

} // verus!
