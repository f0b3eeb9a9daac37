//! The registry of running recordings.

use std::collections::HashMap;
use tokio::sync::oneshot::Receiver;
use tokio::sync::oneshot::Sender;
use vstd::prelude::*;
use vstd::std_specs::iter::IteratorSpec;
use crate::recording_pool::RecordControlMessage;
use crate::recording_pool::RecordingTaskDescription;

verus! {

broadcast use vstd::std_specs::hash::group_hash_axioms;

/// The sending end of a one-shot channel of tokio. The pool keeps one for
/// each running recording and fires it to cancel the recording.
#[verifier::external_type_specification]
#[verifier::external_body]
#[verifier::reject_recursive_types(T)]
pub struct ExSender<T>(tokio::sync::oneshot::Sender<T>);

/// The receiving end of a one-shot channel of tokio. The recording that is
/// started with it ends when the other end fires.
#[verifier::external_type_specification]
#[verifier::external_body]
#[verifier::reject_recursive_types(T)]
pub struct ExReceiver<T>(tokio::sync::oneshot::Receiver<T>);

/// What awaiting the receiving end gives when the sending end was dropped
/// without firing. It is part of the receiving end's type.
#[verifier::external_type_specification]
#[verifier::external_body]
pub struct ExRecvError(tokio::sync::oneshot::error::RecvError);

/// Makes the two ends of a cancel signal with `tokio::sync::oneshot::channel`.
/// Nothing is claimed of them.
#[verifier::external_body]
fn cancel_signal() -> (ends: (Sender<()>, Receiver<()>)) {
    tokio::sync::oneshot::channel()
}

/// Fires a cancel signal with `Sender::send`, which gives up the sending end,
/// and says whether the receiving end was still there. Nothing is claimed of
/// the answer: it depends on what the receiving task has done in the
/// meantime.
#[verifier::external_body]
fn fire(signal: Sender<()>) -> (heard: bool) {
    signal.send(()).is_ok()
}

/// Whether each description of `pool` is filed under the number of its own
/// programme.
pub open spec fn keyed(pool: Map<i64, RecordingTaskDescription>) -> bool {
    forall|id: i64| pool.contains_key(id) ==> (#[trigger] pool[id]).program.id == id
}

/// What the pool holds for the programme `id`.
pub open spec fn listed(pool: Map<i64, RecordingTaskDescription>, id: i64) -> Option<
    RecordingTaskDescription,
> {
    if pool.contains_key(id) {
        Some(pool[id])
    } else {
        None
    }
}

/// The pool after `CreateOrUpdate`: the description is stored, over an
/// earlier one for the same programme if there was one.
pub open spec fn added(pool: Map<i64, RecordingTaskDescription>, info: RecordingTaskDescription) -> Map<
    i64,
    RecordingTaskDescription,
> {
    pool.insert(info.program.id, info)
}

/// The pool after `TryCreate`: the description is stored unless the pool
/// already had one for the same programme.
pub open spec fn try_added(
    pool: Map<i64, RecordingTaskDescription>,
    info: RecordingTaskDescription,
) -> Map<i64, RecordingTaskDescription> {
    if pool.contains_key(info.program.id) {
        pool
    } else {
        pool.insert(info.program.id, info)
    }
}

/// The pool after a command.
pub open spec fn applied(pool: Map<i64, RecordingTaskDescription>, message: RecordControlMessage) -> Map<
    i64,
    RecordingTaskDescription,
> {
    match message {
        RecordControlMessage::CreateOrUpdate(info) => added(pool, info),
        RecordControlMessage::TryCreate(info) => try_added(pool, info),
        RecordControlMessage::Remove(id) => pool.remove(id),
    }
}

/// Whether a command makes the pool start a recording: it does when it
/// stores a description for a programme that the pool had none for.
pub open spec fn starts(pool: Map<i64, RecordingTaskDescription>, message: RecordControlMessage) -> bool {
    match message {
        RecordControlMessage::CreateOrUpdate(info) => !pool.contains_key(info.program.id),
        RecordControlMessage::TryCreate(info) => !pool.contains_key(info.program.id),
        RecordControlMessage::Remove(_) => false,
    }
}

/// The running recordings, by the number of their programme. Each has its
/// description and the cancel signal of its task; there is a signal for a
/// programme exactly while there is a description for it: `signals` is the
/// domain of the view after every operation.
pub struct RecTaskQueue {
    inner: HashMap<i64, RecordingTaskDescription>,
    inner_abort_handle: HashMap<i64, Sender<()>>,
}

impl View for RecTaskQueue {
    type V = Map<i64, RecordingTaskDescription>;

    closed spec fn view(&self) -> Map<i64, RecordingTaskDescription> {
        self.inner@
    }
}

impl RecTaskQueue {
    #[verifier::type_invariant]
    spec fn well_formed(self) -> bool {
        &&& self.inner@.dom() == self.inner_abort_handle@.dom()
        &&& keyed(self.inner@)
    }

    /// The programmes whose cancel signal the pool holds: those whose
    /// recording has been started and not been cancelled.
    pub closed spec fn signals(&self) -> Set<i64> {
        self.inner_abort_handle@.dom()
    }

    /// An empty pool.
    pub fn new() -> (pool: RecTaskQueue)
        ensures
            pool@ == Map::<i64, RecordingTaskDescription>::empty(),
            pool.signals() == pool@.dom(),
    {
        let pool = RecTaskQueue { inner: HashMap::new(), inner_abort_handle: HashMap::new() };
        assert(pool.inner@.dom() =~= pool.inner_abort_handle@.dom());
        pool
    }

    /// Empties the pool and gives what it held.
    fn take(&mut self) -> (held: (HashMap<i64, RecordingTaskDescription>, HashMap<i64, Sender<()>>))
        ensures
            held.0@ == old(self)@,
            held.1@.dom() == old(self).signals(),
            held.0@.dom() == held.1@.dom(),
            keyed(held.0@),
            final(self)@ == Map::<i64, RecordingTaskDescription>::empty(),
            final(self).signals() == final(self)@.dom(),
    {
        let mut taken = RecTaskQueue::new();
        core::mem::swap(self, &mut taken);
        proof {
            use_type_invariant(&taken);
        }
        (taken.inner, taken.inner_abort_handle)
    }

    /// Stores `info`, over an earlier description for the same programme if
    /// there is one. Where the programme had no recording, one is due: the
    /// pool keeps the sending end of its cancel signal and hands out the
    /// receiving end, with which the caller starts the task.
    pub fn add(&mut self, info: RecordingTaskDescription) -> (start: Option<Receiver<()>>)
        ensures
            final(self)@ == added(old(self)@, info),
            start is Some <==> !old(self)@.contains_key(info.program.id),
            final(self).signals() == final(self)@.dom(),
            keyed(final(self)@),
    {
        let id: i64 = info.program.id;
        let (mut inner, mut handles) = self.take();
        inner.insert(id, info);
        let start = if !handles.contains_key(&id) {
            let (tx, rx) = cancel_signal();
            handles.insert(id, tx);
            Some(rx)
        } else {
            None
        };
        assert(inner@.dom() =~= handles@.dom());
        *self = RecTaskQueue { inner, inner_abort_handle: handles };
        start
    }

    /// Stores `info` unless the pool already has a description for the same
    /// programme, in which case nothing changes. Where it stores, a
    /// recording is due, and the receiving end of its cancel signal is
    /// handed out as `add` does.
    pub fn try_add(&mut self, info: RecordingTaskDescription) -> (start: Option<Receiver<()>>)
        ensures
            final(self)@ == try_added(old(self)@, info),
            start is Some <==> !old(self)@.contains_key(info.program.id),
            final(self).signals() == final(self)@.dom(),
            keyed(final(self)@),
    {
        let id: i64 = info.program.id;
        let (mut inner, mut handles) = self.take();
        let start = if !inner.contains_key(&id) {
            inner.insert(id, info);
            let (tx, rx) = cancel_signal();
            handles.insert(id, tx);
            Some(rx)
        } else {
            None
        };
        assert(inner@.dom() =~= handles@.dom());
        *self = RecTaskQueue { inner, inner_abort_handle: handles };
        start
    }

    /// Forgets the description for the programme `id` and fires the cancel
    /// signal of its recording; says whether the pool held the programme.
    pub fn try_remove(&mut self, id: i64) -> (removed: bool)
        ensures
            final(self)@ == old(self)@.remove(id),
            removed == old(self)@.contains_key(id),
            final(self).signals() == final(self)@.dom(),
            keyed(final(self)@),
    {
        let (mut inner, mut handles) = self.take();
        let info_removal = inner.remove(&id);
        let heard = match handles.remove(&id) {
            Some(signal) => fire(signal),
            None => false,
        };
        assert(inner@.dom() =~= handles@.dom());
        *self = RecTaskQueue { inner, inner_abort_handle: handles };
        info_removal.is_some() || heard
    }

    /// The description that the pool holds for the programme `id`.
    pub fn at(&self, id: &i64) -> (found: Option<&RecordingTaskDescription>)
        ensures
            listed(self@, *id) == match found {
                Some(info) => Some(*info),
                None => None,
            },
            found matches Some(info) ==> info.program.id == *id,
            self.signals() == self@.dom(),
    {
        proof {
            use_type_invariant(self);
        }
        self.inner.get(id)
    }

    /// How many recordings the pool holds.
    pub fn len(&self) -> (count: usize)
        ensures
            count == self@.len(),
            self@.dom().finite(),
            self.signals() == self@.dom(),
    {
        proof {
            use_type_invariant(self);
        }
        self.inner.len()
    }

    /// Carries out one command of the scheduler. Where a recording is due,
    /// the receiving end of its cancel signal is handed out.
    pub fn apply(&mut self, message: RecordControlMessage) -> (start: Option<Receiver<()>>)
        ensures
            final(self)@ == applied(old(self)@, message),
            start is Some <==> starts(old(self)@, message),
            final(self).signals() == final(self)@.dom(),
            keyed(final(self)@),
    {
        match message {
            RecordControlMessage::CreateOrUpdate(info) => self.add(info),
            RecordControlMessage::TryCreate(info) => self.try_add(info),
            RecordControlMessage::Remove(id) => {
                self.try_remove(id);
                None
            },
        }
    }

    /// The descriptions that the pool holds, each once, in no particular
    /// order.
    pub fn iter(&self) -> (found: Vec<&RecordingTaskDescription>)
        ensures
            found@.len() == self@.len(),
            found@.unref().to_set() == self@.values(),
    {
        let mut found: Vec<&RecordingTaskDescription> = Vec::new();
        let ghost all = vstd::std_specs::hash::spec_values_iter(&self.inner).remaining();
        for info in it: self.inner.values()
            invariant
                it.seq() == all,
                found@ == all.take(it.index() as int),
        {
            found.push(info);
            assert(found@ =~= all.take(it.index() + 1));
        }
        assert(found@ =~= all);
        found
    }
}

} // verus!
