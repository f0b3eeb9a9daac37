//! How a recording's writer is put together: the stream goes through a
//! filter process into the file, or straight into the file where the filter
//! cannot be started.

use vstd::prelude::*;

verus! {

/// The arguments that the filter process is started with, as one sequence
/// of texts.
pub open spec fn filter_argument_texts() -> Seq<Seq<char>> {
    seq![
        "-x"@,
        "18/38/39"@,
        "-n"@,
        "-1"@,
        "-a"@,
        "13"@,
        "-b"@,
        "5"@,
        "-c"@,
        "1"@,
        "-u"@,
        "1"@,
        "-d"@,
        "13"@,
    ]
}

/// The arguments that the filter process is started with. They make it
/// drop the packets of the event information tables (`-x`), keep a single
/// service (`-n`), guarantee a main and a second audio stream (`-a`, `-b`),
/// guarantee the streams of captions and of superimposed text (`-c`, `-u`),
/// and convert captions to timed metadata (`-d`).
pub fn filter_arguments() -> (arguments: Vec<&'static str>)
    ensures
        arguments@.len() == 14,
        forall|i: int| 0 <= i < 14 ==> (#[trigger] arguments@[i])@ == filter_argument_texts()[i],
{
    vec!["-x", "18/38/39", "-n", "-1", "-a", "13", "-b", "5", "-c", "1", "-u", "1", "-d", "13"]
}

/// The way that the bytes of a recording take to the file.
#[derive(Debug, Clone, Copy, PartialEq, Eq, Structural)]
pub enum Route {
    /// Through the filter process: the writer feeds the process, and the
    /// process writes the file.
    Filtered,
    /// Straight into the file.
    Direct,
}

/// Chooses the way to the file once the attempt to start the filter process
/// has ended. A filter that did not start is no error: the recording goes
/// on without it.
pub fn route_for(filter_started: bool) -> (route: Route)
    ensures
        route == if filter_started {
            Route::Filtered
        } else {
            Route::Direct
        },
{
    if filter_started {
        Route::Filtered
    } else {
        Route::Direct
    }
}

} // verus!
