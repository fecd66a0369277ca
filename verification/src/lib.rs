//! A work/break interval timer with a durable, time-keyed history of
//! completed work sessions.
//!
//! The crate has three parts: a timer state machine ([`timer`]) that
//! tracks elapsed time against a per-profile limit and reports the
//! moment the limit is reached exactly once per run; a history store
//! ([`history`]), an ordered key-value log of finished work sessions
//! keyed by their start time in seconds since the Unix epoch; and
//! aggregation queries ([`agg`]) that total durations over a time
//! window and roll them up per tag and per calendar day.

use vstd::prelude::*;

pub mod agg;
pub mod clock;
pub mod codec;
pub mod history;
pub mod keys;
pub mod setting;
pub mod store;
pub mod timer;

pub use agg::DayRecord;
pub use history::History;
pub use history::Record;
pub use setting::Theme;
pub use setting::TimerSetting;
pub use timer::secs_to_string;
pub use timer::Status;
pub use timer::Timer;

use crate::codec::spec_encode;
use crate::keys::be_bytes;

verus! {

/// Ends the timer's run and, if it was a work-category run, writes it
/// to history under its start time with the given tag. A break or an
/// idle timer writes nothing; a write that the store loses is lost
/// silently, as everywhere else.
pub fn stop_and_record(timer: &mut Timer, history: &mut History, tag: &str) -> (r: Option<
    (u64, String),
>)
    ensures
        final(timer).wf(),
        final(timer).status == Status::Stopped,
        final(timer).setting is None,
        final(timer).count == old(timer).count,
        final(timer).start_time == old(timer).start_time,
        final(timer).start_instant == old(timer).start_instant,
        r == (match old(timer).setting {
            Some(s) => if s.for_work {
                Some((old(timer).count, s.name))
            } else {
                None::<(u64, String)>
            },
            None => None::<(u64, String)>,
        }),
        r is Some ==> final(history).raw() == old(history).raw().insert(
            be_bytes(old(timer).start_time),
            spec_encode(old(timer).count, old(timer).setting->Some_0.name@, tag@),
        ) || final(history).raw() == old(history).raw(),
        r is None ==> final(history).raw() == old(history).raw(),
{
    match timer.stop() {
        Some((duration, name)) => {
            history.add_record(timer.get_start_time(), duration, name.as_str(), tag);
            Some((duration, name))
        },
        None => None,
    }
}

} // verus!
