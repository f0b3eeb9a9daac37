//! The broadcast programme as the tuner service describes it.

use vstd::prelude::*;

verus! {

/// One broadcast, as listed in the programme guide.
///
/// Two values with the same `id` describe the same broadcast, even when the
/// guide later revises `start_at` or `duration`.
#[derive(Debug, PartialEq, Eq)]
pub struct Program {
    /// Unique within one deployment.
    pub id: i64,
    pub name: Option<String>,
    pub service_id: i32,
    pub network_id: i32,
    pub event_id: i32,
    /// Start of the broadcast, in milliseconds since the Unix epoch.
    pub start_at: i64,
    /// Length of the broadcast in milliseconds; `None` while it is unknown.
    pub duration: Option<i32>,
}

impl Clone for Program {
    fn clone(&self) -> (copy: Self)
        ensures
            copy == *self,
    {
        let name = match &self.name {
            Some(text) => Some(text.clone()),
            None => None,
        };
        Program {
            id: self.id,
            name,
            service_id: self.service_id,
            network_id: self.network_id,
            event_id: self.event_id,
            start_at: self.start_at,
            duration: self.duration,
        }
    }
}

impl Program {
    /// The instant at which the broadcast is over: `start_at + duration`,
    /// with one hour standing in for an unknown duration.
    pub open spec fn end_time(self) -> int {
        match self.duration {
            Some(length) => self.start_at + length,
            None => self.start_at + crate::clock::HOUR,
        }
    }

    /// The instant at which the broadcast is over.
    pub fn end(&self) -> (end: i128)
        ensures
            end == self.end_time(),
    {
        match self.duration {
            Some(length) => self.start_at as i128 + length as i128,
            None => self.start_at as i128 + crate::clock::HOUR as i128,
        }
    }

    /// This programme with the start and the duration that a revision of the
    /// guide carries; every other field is kept.
    pub open spec fn revised(self, start_at: i64, duration: Option<i32>) -> Program {
        Program { start_at, duration, ..self }
    }
}

} // verus!
