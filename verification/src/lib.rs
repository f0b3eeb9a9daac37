//! The control plane of a television recorder.
//!
//! The recorder sits between a tuner service, which offers channels, a
//! programme guide and one transport stream for each programme, and the
//! disk. For each programme that the user has scheduled it writes one file,
//! whose name and whose ending follow what the stream itself signals about
//! the broadcast, not the clock alone.
//!
//! This library decides; it does no input or output of its own but for
//! reading the clock. The modules, leaves first:
//!
//! - [`clock`] reads the wall clock. Instants are counted in milliseconds
//!   since the Unix epoch throughout.
//! - [`text`] writes numbers in decimal, for the names of files and
//!   directories.
//! - [`program`] and [`recording_planner`] hold the programme as the guide
//!   describes it and the plan that a schedule came from.
//! - [`recording_pool`] holds the commands to the pool, the pool itself
//!   ([`recording_pool::pool`]), the state machine and the task of one
//!   recording ([`recording_pool::recording_task`]) and the parser of the
//!   stream's event information tables.
//! - [`sched_trigger`] holds the schedule queue and the scheduler's round.
//! - [`epg_syncer`] takes revisions of the guide over into the queue.
//! - [`theorems`] states and proves what holds over whole runs.

pub mod clock;
pub mod epg_syncer;
pub mod program;
pub mod recording_planner;
pub mod recording_pool;
pub mod sched_trigger;
pub mod text;
pub mod theorems;
