//! The pool of running recordings and the commands that steer it.

use vstd::prelude::*;
use crate::program::Program;

pub mod pool;
pub mod recording_task;

verus! {

/// How many commands the channel between the scheduler and the pool holds
/// before the scheduler has to wait.
pub const COMMAND_CHANNEL_CAPACITY: usize = 100;

/// What a recording needs to know: the programme as the guide last described
/// it, and the directory that the file goes to.
#[derive(Debug, PartialEq, Eq)]
pub struct RecordingTaskDescription {
    pub program: Program,
    /// Absolute path of the directory.
    pub save_location: String,
}

impl Clone for RecordingTaskDescription {
    fn clone(&self) -> (copy: Self)
        ensures
            copy == *self,
    {
        RecordingTaskDescription {
            program: self.program.clone(),
            save_location: self.save_location.clone(),
        }
    }
}

/// A command from the scheduler to the pool.
#[derive(Debug, PartialEq, Eq)]
pub enum RecordControlMessage {
    /// Store the description, over an earlier one if there is one, and start
    /// a recording unless one is running.
    CreateOrUpdate(RecordingTaskDescription),
    /// Store the description and start a recording, unless the pool already
    /// has a description for the programme.
    TryCreate(RecordingTaskDescription),
    /// Cancel the recording of the programme and forget its description.
    Remove(i64),
}

} // verus!
