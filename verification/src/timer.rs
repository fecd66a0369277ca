//! The timer state machine.
//!
//! A `Timer` runs at most one profile at a time. It advances only when
//! polled: the caller reads the monotonic clock (or supplies an elapsed
//! count directly through [`Timer::poll_at`]) and the timer updates its
//! cached count, detects the crossing of the profile's limit exactly
//! once per run, and renders the display text.

use crate::clock::{elapsed_secs, instant_now, now_epoch_secs};
use crate::setting::TimerSetting;
use vstd::prelude::*;
use vstd::string::StringExecFns;

verus! {

/// The phase a timer is in. `Started` means a run is in progress and
/// the limit has not yet been reached; `TimeOut` means the run goes on
/// past its limit; `Stopped` means no run is in progress.
#[derive(PartialEq, Eq, Structural, Clone, Copy, Debug)]
pub enum Status {
    Stopped,
    Started,
    TimeOut,
}

/// A single timer instance.
pub struct Timer {
    /// The elapsed seconds computed by the most recent poll.
    pub count: u64,
    /// Monotonic marker taken when the run started.
    pub start_instant: std::time::Instant,
    /// Wall clock at the start of the run, in seconds since the Unix
    /// epoch; it keys the history record written when the run stops.
    pub start_time: u64,
    pub status: Status,
    /// The profile of the current run; `None` exactly when stopped.
    pub setting: Option<TimerSetting>,
}

/// The decimal digit `d` as a character; meaningful for `0 <= d <= 9`.
pub open spec fn digit_char(d: int) -> char {
    if d == 0 {
        '0'
    } else if d == 1 {
        '1'
    } else if d == 2 {
        '2'
    } else if d == 3 {
        '3'
    } else if d == 4 {
        '4'
    } else if d == 5 {
        '5'
    } else if d == 6 {
        '6'
    } else if d == 7 {
        '7'
    } else if d == 8 {
        '8'
    } else {
        '9'
    }
}

/// The decimal digits of `n`, most significant first; meaningful for
/// `n >= 0`.
pub open spec fn spec_dec_digits(n: int) -> Seq<char>
    decreases n,
{
    if n < 10 {
        seq![digit_char(n)]
    } else {
        spec_dec_digits(n / 10).push(digit_char(n % 10))
    }
}

/// `n` in decimal, padded with a leading zero to at least two digits.
pub open spec fn spec_pad2(n: int) -> Seq<char> {
    if n < 10 {
        seq!['0', digit_char(n)]
    } else {
        spec_dec_digits(n)
    }
}

/// A second count in clock form: `MM:SS`, or `HH:MM:SS` once a full
/// hour is reached, every field at least two digits.
pub open spec fn spec_clock(secs: int) -> Seq<char> {
    let minutes = secs / 60;
    if minutes >= 60 {
        spec_pad2(minutes / 60) + seq![':'] + spec_pad2(minutes % 60) + seq![':'] + spec_pad2(
            secs % 60,
        )
    } else {
        spec_pad2(minutes) + seq![':'] + spec_pad2(secs % 60)
    }
}

fn digit_str(d: u64) -> (r: &'static str)
    requires
        d < 10,
    ensures
        r@ == seq![digit_char(d as int)],
{
    if d == 0 {
        proof {
            reveal_strlit("0");
            assert("0"@ =~= seq![digit_char(0int)]);
        }
        "0"
    } else if d == 1 {
        proof {
            reveal_strlit("1");
            assert("1"@ =~= seq![digit_char(1int)]);
        }
        "1"
    } else if d == 2 {
        proof {
            reveal_strlit("2");
            assert("2"@ =~= seq![digit_char(2int)]);
        }
        "2"
    } else if d == 3 {
        proof {
            reveal_strlit("3");
            assert("3"@ =~= seq![digit_char(3int)]);
        }
        "3"
    } else if d == 4 {
        proof {
            reveal_strlit("4");
            assert("4"@ =~= seq![digit_char(4int)]);
        }
        "4"
    } else if d == 5 {
        proof {
            reveal_strlit("5");
            assert("5"@ =~= seq![digit_char(5int)]);
        }
        "5"
    } else if d == 6 {
        proof {
            reveal_strlit("6");
            assert("6"@ =~= seq![digit_char(6int)]);
        }
        "6"
    } else if d == 7 {
        proof {
            reveal_strlit("7");
            assert("7"@ =~= seq![digit_char(7int)]);
        }
        "7"
    } else if d == 8 {
        proof {
            reveal_strlit("8");
            assert("8"@ =~= seq![digit_char(8int)]);
        }
        "8"
    } else {
        proof {
            reveal_strlit("9");
            assert("9"@ =~= seq![digit_char(9int)]);
        }
        "9"
    }
}

fn push_dec(s: &mut String, n: u64)
    ensures
        final(s)@ == old(s)@ + spec_dec_digits(n as int),
    decreases n,
{
    if n < 10 {
        s.append(digit_str(n));
        assert(s@ =~= old(s)@ + spec_dec_digits(n as int));
    } else {
        push_dec(s, n / 10);
        s.append(digit_str(n % 10));
        assert(s@ =~= old(s)@ + spec_dec_digits(n as int));
    }
}

fn push_pad2(s: &mut String, n: u64)
    ensures
        final(s)@ == old(s)@ + spec_pad2(n as int),
{
    if n < 10 {
        s.append("0");
        s.append(digit_str(n));
        proof {
            reveal_strlit("0");
            assert(s@ =~= old(s)@ + spec_pad2(n as int));
        }
    } else {
        push_dec(s, n);
    }
}

/// Renders a second count in clock form behind the given sign prefix,
/// exactly as [`spec_clock`] lays it out.
pub fn secs_to_string(secs: u64, sign: &str) -> (r: String)
    ensures
        r@ == sign@ + spec_clock(secs as int),
{
    let minutes = secs / 60;
    let mut r = sign.to_owned();
    if minutes >= 60 {
        push_pad2(&mut r, minutes / 60);
        r.append(":");
        push_pad2(&mut r, minutes % 60);
        r.append(":");
        push_pad2(&mut r, secs % 60);
    } else {
        push_pad2(&mut r, minutes);
        r.append(":");
        push_pad2(&mut r, secs % 60);
    }
    proof {
        reveal_strlit(":");
        assert(r@ =~= sign@ + spec_clock(secs as int));
    }
    r
}

/// How one poll with the given elapsed count transforms a timer, and
/// whether that poll reports the timeout edge. With no active profile
/// the timer is untouched; otherwise the count is replaced, and the
/// first poll at or past the limit moves the run to `TimeOut`.
pub open spec fn spec_advance(t: Timer, elapsed: u64) -> (Timer, bool) {
    match t.setting {
        Some(s) => {
            let fired = t.status != Status::TimeOut && elapsed >= s.limit_secs();
            let st = if fired {
                Status::TimeOut
            } else {
                t.status
            };
            (Timer { count: elapsed, status: st, ..t }, fired)
        },
        None => (t, false),
    }
}

/// The display text a poll with the given elapsed count produces: the
/// elapsed count for a count-up profile; the remaining count for a
/// countdown profile, switching to `-` and the overshoot once past the
/// limit; the zero value when stopped.
pub open spec fn spec_display(t: Timer, elapsed: u64) -> Seq<char> {
    match t.setting {
        Some(s) => {
            let limit = s.limit_secs();
            if s.count_up {
                spec_clock(elapsed as int)
            } else if elapsed <= limit {
                spec_clock(limit - elapsed)
            } else {
                seq!['-'] + spec_clock(elapsed - limit)
            }
        },
        None => "00:00"@,
    }
}

/// One poll relates the timer before to the timer after: the state
/// moves by [`spec_advance`] and the text is [`spec_display`].
pub open spec fn updates_to(pre: Timer, elapsed: u64, post: Timer, fired: bool, text: Seq<char>) -> bool {
    spec_advance(pre, elapsed) == (post, fired) && text == spec_display(pre, elapsed)
}

impl Timer {
    /// A timer is well formed when it carries a profile exactly while
    /// it is not stopped, and that profile is valid.
    pub open spec fn wf(&self) -> bool {
        &&& (self.setting is Some) <==> (self.status != Status::Stopped)
        &&& match self.setting {
            Some(s) => s.valid(),
            None => true,
        }
    }

    /// A stopped timer with a zero count.
    pub fn new() -> (r: Timer)
        ensures
            r.wf(),
            r.status == Status::Stopped,
            r.setting is None,
            r.count == 0,
    {
        Timer {
            status: Status::Stopped,
            count: 0,
            start_instant: instant_now(),
            start_time: now_epoch_secs(),
            setting: None,
        }
    }

    /// Begins a run of the given profile, stamping the start markers
    /// from both clocks and resetting the elapsed count. May be called
    /// in any state: a run already in progress is abandoned without
    /// being recorded.
    pub fn start(&mut self, setting: &TimerSetting)
        requires
            setting.valid(),
        ensures
            final(self).wf(),
            final(self).status == Status::Started,
            final(self).setting == Some(*setting),
            final(self).count == 0,
    {
        self.setting = Some(setting.clone());
        self.start_instant = instant_now();
        self.start_time = now_epoch_secs();
        self.status = Status::Started;
        self.count = 0;
    }

    /// Ends the run. Only a work-category run yields its elapsed count
    /// and profile name for recording; a break or an idle timer yields
    /// nothing.
    pub fn stop(&mut self) -> (r: Option<(u64, String)>)
        ensures
            final(self).wf(),
            final(self).status == Status::Stopped,
            final(self).setting is None,
            final(self).count == old(self).count,
            final(self).start_time == old(self).start_time,
            final(self).start_instant == old(self).start_instant,
            r == (match old(self).setting {
                Some(s) => if s.for_work {
                    Some((old(self).count, s.name))
                } else {
                    None::<(u64, String)>
                },
                None => None::<(u64, String)>,
            }),
    {
        self.status = Status::Stopped;
        if let Some(s) = self.setting.take() {
            if s.for_work {
                return Some((self.count, s.name));
            }
        }
        None
    }

    /// The active profile's name, or `None` while stopped.
    pub fn current_name(&self) -> (r: Option<&str>)
        ensures
            (r is Some) <==> (self.setting is Some),
            r matches Some(n) ==> n@ == self.setting->Some_0.name@,
    {
        match &self.setting {
            Some(s) => Some(s.name.as_str()),
            None => None,
        }
    }

    /// Whether the active profile asks for a timeout notification;
    /// `false` while stopped.
    pub fn notify(&self) -> (r: bool)
        ensures
            r == (self.setting matches Some(s) && s.notify),
    {
        match &self.setting {
            Some(s) => s.notify,
            None => false,
        }
    }

    pub fn status(&self) -> (r: Status)
        ensures
            r == self.status,
    {
        self.status
    }

    /// The wall-clock start of the current or most recent run, in
    /// seconds since the Unix epoch.
    pub fn get_start_time(&self) -> (r: u64)
        ensures
            r == self.start_time,
    {
        self.start_time
    }

    /// One poll with an elapsed count supplied by the caller: advances
    /// the state by [`spec_advance`] and renders [`spec_display`].
    pub fn poll_at(&mut self, elapsed: u64) -> (r: (bool, String))
        requires
            old(self).wf(),
        ensures
            final(self).wf(),
            updates_to(*old(self), elapsed, *final(self), r.0, r.1@),
    {
        let (limit_count, count_up, active) = match &self.setting {
            Some(s) => (s.limit_time * 60, s.count_up, true),
            None => (0u64, false, false),
        };
        if !active {
            return (false, "00:00".to_owned());
        }
        self.count = elapsed;
        let mut fired = false;
        if self.status != Status::TimeOut && elapsed >= limit_count {
            self.status = Status::TimeOut;
            fired = true;
        }
        let text = if count_up {
            secs_to_string(elapsed, "")
        } else if elapsed <= limit_count {
            secs_to_string(limit_count - elapsed, "")
        } else {
            secs_to_string(elapsed - limit_count, "-")
        };
        proof {
            reveal_strlit("");
            reveal_strlit("-");
            assert(text@ =~= spec_display(*old(self), elapsed));
        }
        (fired, text)
    }

    /// One poll against the monotonic clock: reads the seconds elapsed
    /// since the run's start marker and advances as [`Timer::poll_at`]
    /// does with that count.
    pub fn update(&mut self) -> (r: (bool, String))
        requires
            old(self).wf(),
        ensures
            final(self).wf(),
            exists|e: u64| #[trigger] updates_to(*old(self), e, *final(self), r.0, r.1@),
    {
        let e = elapsed_secs(&self.start_instant);
        let r = self.poll_at(e);
        proof {
            assert(updates_to(*old(self), e, *self, r.0, r.1@));
        }
        r
    }
}

/// A running timer reports its timeout exactly once. The first poll
/// whose elapsed count reaches the limit fires and moves the run to
/// `TimeOut`; any later poll of the timed-out timer does not fire; and
/// a poll before the limit neither fires nor leaves the running state.
pub proof fn lemma_timeout_edge_trigger(t: Timer, e1: u64, e2: u64)
    requires
        t.wf(),
        t.status == Status::Started,
    ensures
        e1 >= t.setting->Some_0.limit_secs() ==> {
            &&& spec_advance(t, e1).1
            &&& spec_advance(t, e1).0.status == Status::TimeOut
            &&& !spec_advance(spec_advance(t, e1).0, e2).1
        },
        e1 < t.setting->Some_0.limit_secs() ==> {
            &&& !spec_advance(t, e1).1
            &&& spec_advance(t, e1).0.status == Status::Started
        },
{
}

} // verus!

