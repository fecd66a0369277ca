//! Timer profiles: the user-facing configuration a run is started from.

use vstd::prelude::*;

verus! {

/// The colour scheme a user may pick. Persisting the choice is the
/// application's business; the library only carries the value.
#[derive(PartialEq, Eq, Structural, Clone, Copy, Debug)]
pub enum Theme {
    System,
    Dark,
    Light,
}

/// One timer profile: a named preset with a limit in minutes and the
/// flags that govern recording, display direction and notification.
#[derive(Debug)]
pub struct TimerSetting {
    pub name: String,
    pub icon: String,
    /// The target duration in minutes; positive.
    pub limit_time: u64,
    /// Completed runs of a work profile are recorded to history.
    pub for_work: bool,
    /// Count-up shows elapsed time; countdown shows remaining time.
    pub count_up: bool,
    /// Whether reaching the limit should raise a notification.
    pub notify: bool,
}

impl TimerSetting {
    /// A profile is usable when its limit is positive and small enough
    /// that the limit in seconds still fits in a `u64`.
    pub open spec fn valid(&self) -> bool {
        1 <= self.limit_time && self.limit_time * 60 <= u64::MAX
    }

    /// The limit of a profile in seconds.
    pub open spec fn limit_secs(&self) -> int {
        self.limit_time * 60
    }

    /// A fresh profile with placeholder name, a one-minute limit and
    /// every flag off.
    pub fn new() -> (r: Self)
        ensures
            r.name@ == "new"@,
            r.icon@ == Seq::<char>::empty(),
            r.limit_time == 1,
            !r.for_work,
            !r.count_up,
            !r.notify,
            r.valid(),
    {
        TimerSetting {
            name: "new".to_owned(),
            icon: String::new(),
            limit_time: 1,
            for_work: false,
            count_up: false,
            notify: false,
        }
    }
}

impl Clone for TimerSetting {
    fn clone(&self) -> (r: Self)
        ensures
            r == *self,
    {
        TimerSetting {
            name: self.name.clone(),
            icon: self.icon.clone(),
            limit_time: self.limit_time,
            for_work: self.for_work,
            count_up: self.count_up,
            notify: self.notify,
        }
    }
}

} // verus!
