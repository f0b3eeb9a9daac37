//! One recording: the state machine that follows the broadcast, and the task
//! that turns what the stream signals into orders for the writer.

use vstd::prelude::*;
use crate::program::Program;
use crate::recording_pool::RecordingTaskDescription;
use crate::recording_pool::recording_task::eit_parser::target_of;
use crate::recording_pool::recording_task::eit_parser::EitDetected;
use crate::recording_pool::recording_task::eit_parser::EitParser;
use crate::recording_pool::recording_task::eit_parser::EitView;
use crate::text::signed_decimal;
use crate::text::signed_decimal_string;

pub mod eit_parser;
pub mod io_object;

verus! {

/// How long a recording waits, before the scheduled start, for the stream to
/// mention the programme: one hour.
pub const PATIENCE_BEFORE_START: i64 = 3_600_000;

/// How long a recording waits, after the scheduled start, for the stream to
/// mention the programme: three hours.
pub const PATIENCE_AFTER_START: i64 = 10_800_000;

/// Set up; the stream mentions the programme neither as present nor as
/// following, and the scheduled start has not come.
#[derive(Debug, Clone, Copy, PartialEq, Eq, Structural)]
pub struct A {
    pub since: i64,
}

/// The scheduled start has passed and the stream still does not mention the
/// programme.
#[derive(Debug, Clone, Copy, PartialEq, Eq, Structural)]
pub struct B1 {
    pub since: i64,
}

/// The stream announces the programme as following.
#[derive(Debug, Clone, Copy, PartialEq, Eq, Structural)]
pub struct B2 {
    pub since: i64,
}

/// The stream shows the programme as present: it is on air.
#[derive(Debug, Clone, Copy, PartialEq, Eq, Structural)]
pub struct Rec {
    pub since: i64,
}

/// The recording is given up. `graceful` says that the programme was lost
/// from the stream after it had been announced or shown, and not that the
/// wait for it ran out.
#[derive(Debug, Clone, Copy, PartialEq, Eq, Structural)]
pub struct Lost {
    pub graceful: bool,
}

/// The stream announces the programme as following.
#[derive(Debug, Clone, Copy, PartialEq, Eq, Structural)]
pub struct FoundInFollowing;

/// The stream shows the programme as present.
#[derive(Debug, Clone, Copy, PartialEq, Eq, Structural)]
pub struct FoundInPresent;

/// The stream no longer mentions the programme.
#[derive(Debug, Clone, Copy, PartialEq, Eq, Structural)]
pub struct PresentProgramLost;

/// The stream has not mentioned the programme yet; `start_at` is the
/// scheduled start as the guide now gives it.
#[derive(Debug, Clone, Copy, PartialEq, Eq, Structural)]
pub struct WaitForPremiere {
    pub start_at: i64,
}

/// The state of a recording.
#[derive(Debug, Clone, Copy, PartialEq, Eq, Structural)]
pub enum RecordingState {
    A(A),
    B1(B1),
    B2(B2),
    Rec(Rec),
    Lost(Lost),
}

/// What can happen to a recording.
#[derive(Debug, Clone, Copy, PartialEq, Eq, Structural)]
pub enum Event {
    FoundInFollowing(FoundInFollowing),
    FoundInPresent(FoundInPresent),
    PresentProgramLost(PresentProgramLost),
    WaitForPremiere(WaitForPremiere),
}

impl A {
    /// Where the wait leads at `now`: to `B1` once the scheduled start has
    /// come, else to `Lost` once the wait has lasted more than an hour, else
    /// nowhere.
    pub open spec fn waited(self, event: WaitForPremiere, now: i64) -> RecordingState {
        if now >= event.start_at {
            RecordingState::B1(B1 { since: now })
        } else if self.since + PATIENCE_BEFORE_START < now {
            RecordingState::Lost(Lost { graceful: false })
        } else {
            RecordingState::A(self)
        }
    }

    /// The stream has still not mentioned the programme at `now`.
    pub fn on_wait_for_premiere(self, event: WaitForPremiere, now: i64) -> (next: RecordingState)
        ensures
            next == self.waited(event, now),
    {
        if now >= event.start_at {
            RecordingState::B1(B1 { since: now })
        } else if (self.since as i128) + (PATIENCE_BEFORE_START as i128) < (now as i128) {
            RecordingState::Lost(Lost { graceful: false })
        } else {
            RecordingState::A(self)
        }
    }
}

impl B1 {
    /// Where the wait leads at `now`: to `Lost` once it has lasted more than
    /// three hours, else nowhere.
    pub open spec fn waited(self, event: WaitForPremiere, now: i64) -> RecordingState {
        if self.since + PATIENCE_AFTER_START < now {
            RecordingState::Lost(Lost { graceful: false })
        } else {
            RecordingState::B1(self)
        }
    }

    /// The stream has still not mentioned the programme at `now`.
    pub fn on_wait_for_premiere(self, event: WaitForPremiere, now: i64) -> (next: RecordingState)
        ensures
            next == self.waited(event, now),
    {
        if (self.since as i128) + (PATIENCE_AFTER_START as i128) < (now as i128) {
            RecordingState::Lost(Lost { graceful: false })
        } else {
            RecordingState::B1(self)
        }
    }
}

impl B2 {
    /// The programme was announced and is gone from the stream.
    pub fn on_present_program_lost(self, event: PresentProgramLost) -> (next: Lost)
        ensures
            next == (Lost { graceful: true }),
    {
        Lost { graceful: true }
    }
}

impl Rec {
    /// The programme was on air and is gone from the stream: it is over.
    pub fn on_present_program_lost(self, event: PresentProgramLost) -> (next: Lost)
        ensures
            next == (Lost { graceful: true }),
    {
        Lost { graceful: true }
    }
}

/// The states from which an announcement leads to `B2`.
pub trait IntoB2: Sized {
    /// The stream announces the programme as following at `now`.
    fn on_found_in_following(self, event: FoundInFollowing, now: i64) -> (next: B2)
        ensures
            next == (B2 { since: now }),
    {
        B2 { since: now }
    }
}

/// The states from which the programme's appearance leads to `Rec`.
pub trait IntoRec: Sized {
    /// The stream shows the programme as present at `now`.
    fn on_found_in_present(self, event: FoundInPresent, now: i64) -> (next: Rec)
        ensures
            next == (Rec { since: now }),
    {
        Rec { since: now }
    }
}

impl IntoB2 for A {

}

impl IntoB2 for B1 {

}

impl IntoB2 for B2 {

}

impl IntoRec for A {

}

impl IntoRec for B1 {

}

impl IntoRec for B2 {

}

impl RecordingState {
    /// The state that a recording starts in at `now`.
    pub open spec fn initial(now: i64) -> RecordingState {
        RecordingState::A(A { since: now })
    }

    /// The state after `event` happened at `now`. A pair of state and event
    /// for which no transition is defined leaves the state as it is.
    pub open spec fn after(self, event: Event, now: i64) -> RecordingState {
        match (self, event) {
            (RecordingState::A(_), Event::FoundInFollowing(_)) => RecordingState::B2(B2 { since: now }),
            (RecordingState::B1(_), Event::FoundInFollowing(_)) => RecordingState::B2(B2 { since: now }),
            (RecordingState::B2(_), Event::FoundInFollowing(_)) => RecordingState::B2(B2 { since: now }),
            (RecordingState::A(_), Event::FoundInPresent(_)) => RecordingState::Rec(Rec { since: now }),
            (RecordingState::B1(_), Event::FoundInPresent(_)) => RecordingState::Rec(Rec { since: now }),
            (RecordingState::B2(_), Event::FoundInPresent(_)) => RecordingState::Rec(Rec { since: now }),
            (RecordingState::B2(_), Event::PresentProgramLost(_)) => RecordingState::Lost(
                Lost { graceful: true },
            ),
            (RecordingState::Rec(_), Event::PresentProgramLost(_)) => RecordingState::Lost(
                Lost { graceful: true },
            ),
            (RecordingState::A(a), Event::WaitForPremiere(wait)) => a.waited(wait, now),
            (RecordingState::B1(b1), Event::WaitForPremiere(wait)) => b1.waited(wait, now),
            _ => self,
        }
    }

    /// The state that a recording starts in at `now`.
    pub fn start(now: i64) -> (state: RecordingState)
        ensures
            state == RecordingState::initial(now),
    {
        RecordingState::A(A { since: now })
    }

    /// The stream announces the programme as following at `now`.
    pub fn on_found_in_following(self, event: FoundInFollowing, now: i64) -> (next: RecordingState)
        ensures
            next == self.after(Event::FoundInFollowing(event), now),
    {
        match self {
            RecordingState::A(a) => RecordingState::B2(a.on_found_in_following(event, now)),
            RecordingState::B1(b1) => RecordingState::B2(b1.on_found_in_following(event, now)),
            RecordingState::B2(b2) => RecordingState::B2(b2.on_found_in_following(event, now)),
            _ => self,
        }
    }

    /// The stream shows the programme as present at `now`.
    pub fn on_found_in_present(self, event: FoundInPresent, now: i64) -> (next: RecordingState)
        ensures
            next == self.after(Event::FoundInPresent(event), now),
    {
        match self {
            RecordingState::A(a) => RecordingState::Rec(a.on_found_in_present(event, now)),
            RecordingState::B1(b1) => RecordingState::Rec(b1.on_found_in_present(event, now)),
            RecordingState::B2(b2) => RecordingState::Rec(b2.on_found_in_present(event, now)),
            _ => self,
        }
    }

    /// The stream no longer mentions the programme.
    pub fn on_present_program_lost(self, event: PresentProgramLost, now: i64) -> (next: RecordingState)
        ensures
            next == self.after(Event::PresentProgramLost(event), now),
    {
        match self {
            RecordingState::B2(b2) => RecordingState::Lost(b2.on_present_program_lost(event)),
            RecordingState::Rec(rec) => RecordingState::Lost(rec.on_present_program_lost(event)),
            _ => self,
        }
    }

    /// The stream has still not mentioned the programme at `now`.
    pub fn on_wait_for_premiere(self, event: WaitForPremiere, now: i64) -> (next: RecordingState)
        ensures
            next == self.after(Event::WaitForPremiere(event), now),
    {
        match self {
            RecordingState::A(a) => a.on_wait_for_premiere(event, now),
            RecordingState::B1(b1) => b1.on_wait_for_premiere(event, now),
            _ => self,
        }
    }

    /// The state after `event` happened at `now`.
    pub fn on_event(self, event: Event, now: i64) -> (next: RecordingState)
        ensures
            next == self.after(event, now),
    {
        match event {
            Event::FoundInFollowing(found) => self.on_found_in_following(found, now),
            Event::FoundInPresent(found) => self.on_found_in_present(found, now),
            Event::PresentProgramLost(lost) => self.on_present_program_lost(lost, now),
            Event::WaitForPremiere(wait) => self.on_wait_for_premiere(wait, now),
        }
    }
}

/// The ending of the file that a recording writes.
#[derive(Debug, Clone, Copy, PartialEq, Eq, Structural)]
pub enum Extension {
    /// `.m2ts-tmp`: the programme has not been on air.
    Temporary,
    /// `.m2ts`: the programme has been on air.
    Final,
}

impl Extension {
    /// The ending as text, with its dot.
    pub open spec fn text(self) -> Seq<char> {
        match self {
            Extension::Temporary => ".m2ts-tmp"@,
            Extension::Final => ".m2ts"@,
        }
    }

    /// The ending of the file while the recording is in `state`, where
    /// `current` is the ending so far: `.m2ts` in `Rec`, `.m2ts-tmp` in `A`,
    /// `B1` and `B2`; a recording that is given up keeps the ending it has.
    pub open spec fn in_state(state: RecordingState, current: Extension) -> Extension {
        match state {
            RecordingState::Rec(_) => Extension::Final,
            RecordingState::Lost(_) => current,
            _ => Extension::Temporary,
        }
    }

    /// Computes the ending of the file while the recording is in `state`.
    pub fn for_state(state: RecordingState, current: Extension) -> (extension: Extension)
        ensures
            extension == Extension::in_state(state, current),
    {
        match state {
            RecordingState::Rec(_) => Extension::Final,
            RecordingState::Lost(_) => current,
            _ => Extension::Temporary,
        }
    }

    /// The ending as text, with its dot.
    pub fn as_str(self) -> (text: &'static str)
        ensures
            text@ == self.text(),
    {
        match self {
            Extension::Temporary => ".m2ts-tmp",
            Extension::Final => ".m2ts",
        }
    }
}

/// The name of the file of `program`, without its ending: the programme's
/// number, an underscore, and the programme's name, or `untitled` where it
/// has none.
pub open spec fn file_stem(program: Program) -> Seq<char> {
    signed_decimal(program.id as int) + "_"@ + match program.name {
        Some(name) => name@,
        None => "untitled"@,
    }
}

/// Writes the name of the file of `program`, without its ending.
pub fn file_stem_of(program: &Program) -> (stem: String)
    ensures
        stem@ == file_stem(*program),
{
    let mut stem = signed_decimal_string(program.id);
    stem.append("_");
    match &program.name {
        Some(name) => stem.append(name.as_str()),
        None => stem.append("untitled"),
    }
    stem
}

/// The event that a signal of the stream amounts to for a recording in
/// `state`. A stream that does not mention the programme keeps a recording
/// waiting as long as the programme was never announced, and tells a
/// recording that was in `B2` or `Rec` that the programme is lost.
pub open spec fn event_of(state: RecordingState, detected: EitDetected, start_at: i64) -> Event {
    match detected {
        EitDetected::FoundInP => Event::FoundInPresent(FoundInPresent),
        EitDetected::FoundInF => Event::FoundInFollowing(FoundInFollowing),
        EitDetected::NotFound => match state {
            RecordingState::B2(_) => Event::PresentProgramLost(PresentProgramLost),
            RecordingState::Rec(_) => Event::PresentProgramLost(PresentProgramLost),
            _ => Event::WaitForPremiere(WaitForPremiere { start_at }),
        },
    }
}

/// Chooses the event that a signal of the stream amounts to.
pub fn event_for(state: RecordingState, detected: EitDetected, start_at: i64) -> (event: Event)
    ensures
        event == event_of(state, detected, start_at),
{
    match detected {
        EitDetected::FoundInP => Event::FoundInPresent(FoundInPresent),
        EitDetected::FoundInF => Event::FoundInFollowing(FoundInFollowing),
        EitDetected::NotFound => match state {
            RecordingState::B2(_) => Event::PresentProgramLost(PresentProgramLost),
            RecordingState::Rec(_) => Event::PresentProgramLost(PresentProgramLost),
            _ => Event::WaitForPremiere(WaitForPremiere { start_at }),
        },
    }
}

/// What the pool holds for a task's programme, as a value of its own.
pub open spec fn held(listed: Option<&RecordingTaskDescription>) -> Option<RecordingTaskDescription> {
    match listed {
        Some(info) => Some(*info),
        None => None,
    }
}

/// What the task tells the writer to do with a chunk of the stream.
#[derive(Debug, PartialEq, Eq)]
pub enum WriteAction {
    /// Write the chunk to the writer in use.
    Write,
    /// The state is about to change: open a writer on `file_name`, shut the
    /// writer in use down, put the new one in its place, say how that went
    /// with `settle`, and then write the chunk.
    Swap { file_name: String },
    /// The recording is given up: shut the writer down and end the task. The
    /// file keeps its name.
    Finish { graceful: bool },
    /// The pool no longer lists the recording: shut the writer down and end
    /// the task.
    Shutdown,
}

/// A `WriteAction` with its file name as a sequence of characters.
pub enum Order {
    Write,
    Swap { file_name: Seq<char> },
    Finish { graceful: bool },
    Shutdown,
}

impl View for WriteAction {
    type V = Order;

    open spec fn view(&self) -> Order {
        match *self {
            WriteAction::Write => Order::Write,
            WriteAction::Swap { file_name } => Order::Swap { file_name: file_name@ },
            WriteAction::Finish { graceful } => Order::Finish { graceful },
            WriteAction::Shutdown => Order::Shutdown,
        }
    }
}

/// A recording task as a plain value.
pub struct TaskView {
    /// The number of the programme.
    pub id: i64,
    /// The file's name without its ending.
    pub stem: Seq<char>,
    /// The state that the writer in use belongs to.
    pub state: RecordingState,
    /// The state that the last signal leads to. It differs from `state`
    /// while a change of writers is under way.
    pub next_state: RecordingState,
    /// The ending of the file that the writer in use writes.
    pub extension: Extension,
    /// The parser that reads the stream's tables.
    pub eit: EitView,
}

impl TaskView {
    /// The task for `info`, set up at `now`.
    pub open spec fn initial(info: RecordingTaskDescription, now: i64) -> TaskView {
        TaskView {
            id: info.program.id,
            stem: file_stem(info.program),
            state: RecordingState::initial(now),
            next_state: RecordingState::initial(now),
            extension: Extension::Temporary,
            eit: EitView::fresh(),
        }
    }

    /// What every task satisfies: the file ends in `.m2ts` in `Rec` and in
    /// `.m2ts-tmp` in `A`, `B1` and `B2`, and the state that is under way is
    /// one that the state machine allows after the state in force.
    pub open spec fn wf(self) -> bool {
        &&& self.eit.wf()
        &&& self.extension == Extension::in_state(self.state, self.extension)
        &&& match self.state {
            RecordingState::Rec(_) => self.next_state == self.state || self.next_state is Lost,
            RecordingState::Lost(_) => self.next_state == self.state,
            _ => true,
        }
    }

    /// The name of the file that the writer in use writes.
    pub open spec fn file_name(self) -> Seq<char> {
        self.stem + self.extension.text()
    }

    /// The state that the signal `detected` leads to at `now`, for a task
    /// that the pool lists with the scheduled start `start_at`.
    pub open spec fn target(self, detected: EitDetected, start_at: i64, now: i64) -> RecordingState {
        self.state.after(event_of(self.state, detected, start_at), now)
    }

    /// What the task orders when the stream signals `detected` at `now`.
    /// `listed` is what the pool holds for the task's programme.
    pub open spec fn order(
        self,
        detected: EitDetected,
        listed: Option<RecordingTaskDescription>,
        now: i64,
    ) -> Order {
        match listed {
            None => Order::Shutdown,
            Some(info) => {
                let next = self.target(detected, info.program.start_at, now);
                match next {
                    RecordingState::Lost(lost) => Order::Finish { graceful: lost.graceful },
                    _ => if next == self.state {
                        Order::Write
                    } else {
                        Order::Swap {
                            file_name: self.stem + Extension::in_state(next, self.extension).text(),
                        }
                    },
                }
            },
        }
    }

    /// The task after the stream signalled `detected` at `now`. A task that
    /// the pool no longer lists stays as it is. Giving up takes effect at
    /// once; any other change of state waits for the writers to be changed.
    pub open spec fn signalled(
        self,
        detected: EitDetected,
        listed: Option<RecordingTaskDescription>,
        now: i64,
    ) -> TaskView {
        match listed {
            None => self,
            Some(info) => {
                let next = self.target(detected, info.program.start_at, now);
                match next {
                    RecordingState::Lost(_) => TaskView { state: next, next_state: next, ..self },
                    _ => TaskView { next_state: next, ..self },
                }
            },
        }
    }

    /// What the stream signals once the task's parser has read `chunk`,
    /// for a task that the pool lists with `info`.
    pub open spec fn reading(self, chunk: Seq<u8>, info: RecordingTaskDescription) -> EitDetected {
        self.eit.pushed(chunk, target_of(info)).detected()
    }

    /// What the task orders for the chunk `chunk` of the stream at `now`:
    /// what it orders on the signal that its parser reads from the chunk. A
    /// task that the pool no longer lists reads nothing.
    pub open spec fn order_on_chunk(
        self,
        chunk: Seq<u8>,
        listed: Option<RecordingTaskDescription>,
        now: i64,
    ) -> Order {
        match listed {
            None => Order::Shutdown,
            Some(info) => self.order(self.reading(chunk, info), listed, now),
        }
    }

    /// The task after the chunk `chunk` of the stream at `now`: its parser
    /// has read the chunk, and the signal has been taken as `signalled`
    /// says. A task that the pool no longer lists stays as it is.
    pub open spec fn fed(self, chunk: Seq<u8>, listed: Option<RecordingTaskDescription>, now: i64) -> TaskView {
        match listed {
            None => self,
            Some(info) => TaskView { eit: self.eit.pushed(chunk, target_of(info)), ..self }.signalled(
                self.reading(chunk, info),
                listed,
                now,
            ),
        }
    }

    /// The task after a change of writers: where it succeeded, the state
    /// under way is in force and the file has the ending that belongs to
    /// it; where it failed, the task stays in its state, on its file.
    pub open spec fn settled(self, swapped: bool) -> TaskView {
        if swapped {
            TaskView {
                state: self.next_state,
                extension: Extension::in_state(self.next_state, self.extension),
                ..self
            }
        } else {
            TaskView { next_state: self.state, ..self }
        }
    }
}

/// State, state under way and file ending of a task, which change together.
#[derive(Clone, Copy)]
struct Position {
    state: RecordingState,
    next_state: RecordingState,
    extension: Extension,
}

/// The task of one recording. It decides; the writer that it gives orders to
/// is kept by the caller.
pub struct RecordingTask {
    id: i64,
    stem: String,
    position: Position,
    eit: EitParser,
}

impl View for RecordingTask {
    type V = TaskView;

    closed spec fn view(&self) -> TaskView {
        TaskView {
            id: self.id,
            stem: self.stem@,
            state: self.position.state,
            next_state: self.position.next_state,
            extension: self.position.extension,
            eit: self.eit@,
        }
    }
}

impl RecordingTask {
    #[verifier::type_invariant]
    spec fn well_formed(self) -> bool {
        self@.wf()
    }

    /// Sets up the task for `info` at `now`: in state `A`, on the file with
    /// the ending `.m2ts-tmp`.
    pub fn new_at(info: &RecordingTaskDescription, now: i64) -> (task: RecordingTask)
        ensures
            task@ == TaskView::initial(*info, now),
            task@.wf(),
    {
        let start = RecordingState::start(now);
        RecordingTask {
            id: info.program.id,
            stem: file_stem_of(&info.program),
            position: Position { state: start, next_state: start, extension: Extension::Temporary },
            eit: EitParser::new(),
        }
    }

    /// Sets up the task for `info` at the instant that the wall clock shows.
    pub fn new(info: &RecordingTaskDescription) -> (task: RecordingTask)
        ensures
            exists|now: i64| task@ == #[trigger] TaskView::initial(*info, now),
            task@.wf(),
    {
        let now: i64 = crate::clock::now();
        let task = RecordingTask::new_at(info, now);
        assert(task@ == TaskView::initial(*info, now));
        task
    }

    /// The number of the programme.
    pub fn id(&self) -> (id: i64)
        ensures
            id == self@.id,
    {
        self.id
    }

    /// The state that the writer in use belongs to.
    pub fn state(&self) -> (state: RecordingState)
        ensures
            state == self@.state,
    {
        self.position.state
    }

    /// The state that the last signal leads to.
    pub fn next_state(&self) -> (state: RecordingState)
        ensures
            state == self@.next_state,
    {
        self.position.next_state
    }

    /// The ending of the file that the writer in use writes.
    pub fn extension(&self) -> (extension: Extension)
        ensures
            extension == self@.extension,
            self@.wf(),
    {
        proof {
            use_type_invariant(self);
        }
        self.position.extension
    }

    /// The name of the file that the writer in use writes, within the
    /// directory of the recording.
    pub fn file_name(&self) -> (name: String)
        ensures
            name@ == self@.file_name(),
    {
        let mut name = self.stem.clone();
        name.append(self.position.extension.as_str());
        name
    }

    /// Takes a signal of the stream at `now` and says what the writer is to
    /// do with the chunk that carried it. `listed` is what the pool holds
    /// for the task's programme at this moment.
    pub fn on_signal_at(
        &mut self,
        detected: EitDetected,
        listed: Option<&RecordingTaskDescription>,
        now: i64,
    ) -> (action: WriteAction)
        ensures
            final(self)@ == old(self)@.signalled(detected, held(listed), now),
            action@ == old(self)@.order(detected, held(listed), now),
            old(self)@.wf(),
            final(self)@.wf(),
    {
        proof {
            use_type_invariant(&*self);
        }
        match listed {
            None => WriteAction::Shutdown,
            Some(info) => {
                let current = self.position;
                let event = event_for(current.state, detected, info.program.start_at);
                let next = current.state.on_event(event, now);
                match next {
                    RecordingState::Lost(lost) => {
                        self.position = Position { state: next, next_state: next, extension: current.extension };
                        WriteAction::Finish { graceful: lost.graceful }
                    },
                    _ => {
                        self.position = Position { next_state: next, ..current };
                        if next == current.state {
                            WriteAction::Write
                        } else {
                            let mut file_name = self.stem.clone();
                            file_name.append(Extension::for_state(next, current.extension).as_str());
                            WriteAction::Swap { file_name }
                        }
                    },
                }
            },
        }
    }

    /// Takes the next chunk of the stream at `now`: lets the parser read it
    /// and says what the writer is to do with it. `listed` is what the pool
    /// holds for the task's programme at this moment.
    pub fn on_chunk_at(
        &mut self,
        chunk: &[u8],
        listed: Option<&RecordingTaskDescription>,
        now: i64,
    ) -> (action: WriteAction)
        ensures
            final(self)@ == old(self)@.fed(chunk@, held(listed), now),
            action@ == old(self)@.order_on_chunk(chunk@, held(listed), now),
            old(self)@.wf(),
            final(self)@.wf(),
    {
        proof {
            use_type_invariant(&*self);
        }
        match listed {
            None => WriteAction::Shutdown,
            Some(info) => {
                let mut parser = EitParser::new();
                let ghost before = self@;
                self.exchange_parser(&mut parser);
                let detected = parser.push(chunk, info);
                self.exchange_parser(&mut parser);
                assert(self@ == (TaskView { eit: before.eit.pushed(chunk@, target_of(*info)), ..before }));
                self.on_signal_at(detected, listed, now)
            },
        }
    }

    /// Takes the next chunk of the stream at the instant that the wall
    /// clock shows. Whatever the clock shows, the outcome is the outcome of
    /// `on_chunk_at` at that instant.
    pub fn on_chunk(&mut self, chunk: &[u8], listed: Option<&RecordingTaskDescription>) -> (action:
        WriteAction)
        ensures
            exists|now: i64|
                {
                    &&& final(self)@ == #[trigger] old(self)@.fed(chunk@, held(listed), now)
                    &&& action@ == old(self)@.order_on_chunk(chunk@, held(listed), now)
                },
            old(self)@.wf(),
            final(self)@.wf(),
    {
        let now: i64 = crate::clock::now();
        let action = self.on_chunk_at(chunk, listed, now);
        assert(final(self)@ == old(self)@.fed(chunk@, held(listed), now));
        action
    }

    /// Puts `parser` in the place of the task's parser and gives the task's
    /// parser back in `parser`.
    fn exchange_parser(&mut self, parser: &mut EitParser)
        requires
            old(parser)@.wf(),
        ensures
            final(self)@ == (TaskView { eit: old(parser)@, ..old(self)@ }),
            final(parser)@ == old(self)@.eit,
            final(parser)@.wf(),
    {
        proof {
            use_type_invariant(&*self);
        }
        let mut hollow = RecordingTask::hollow();
        core::mem::swap(self, &mut hollow);
        let RecordingTask { id, stem, position, eit } = hollow;
        let mut held = eit;
        core::mem::swap(parser, &mut held);
        *self = RecordingTask { id, stem, position, eit: held };
    }

    /// A task that stands for nothing, to be put where a task is taken out:
    /// for the programme 0, without a name for its file, in state `A` since
    /// the epoch, with a parser that has seen nothing.
    fn hollow() -> (task: RecordingTask)
        ensures
            task@ == (TaskView {
                id: 0,
                stem: Seq::<char>::empty(),
                state: RecordingState::initial(0),
                next_state: RecordingState::initial(0),
                extension: Extension::Temporary,
                eit: EitView::fresh(),
            }),
            task@.wf(),
    {
        let start = RecordingState::start(0);
        RecordingTask {
            id: 0,
            stem: String::new(),
            position: Position { state: start, next_state: start, extension: Extension::Temporary },
            eit: EitParser::new(),
        }
    }

    /// Takes note of how the change of writers went that the last `Swap`
    /// asked for.
    pub fn settle(&mut self, swapped: bool)
        ensures
            final(self)@ == old(self)@.settled(swapped),
            old(self)@.wf(),
            final(self)@.wf(),
    {
        proof {
            use_type_invariant(&*self);
        }
        let current = self.position;
        if swapped {
            self.position = Position {
                state: current.next_state,
                next_state: current.next_state,
                extension: Extension::for_state(current.next_state, current.extension),
            };
        } else {
            self.position = Position { next_state: current.state, ..current };
        }
    }
}

} // verus!
