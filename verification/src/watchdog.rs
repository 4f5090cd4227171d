//! Stall detector of the main thread: each tick posts a ping and looks whether
//! the previous one was answered. One that was not for a whole tick is reported,
//! once per stall.

use crate::number::{decimal, digits};
use vstd::prelude::*;

verus! {

pub struct Watchdog {
    /// Epoch seconds when the outstanding ping was posted (zero for none).
    pub ping_sent: u64,
    pub reported: bool,
}

/// What a tick calls for.
#[derive(Clone, Copy, PartialEq, Eq, Debug, Structural)]
pub enum Alarm {
    /// Post a ping to the main thread.
    Ping,
    /// The main thread has been stuck for so many seconds: report it.
    Report(u64),
    /// It is still stuck, and was reported.
    Quiet,
}

/// Seconds from `sent` to `now`.
pub open spec fn stalled(sent: u64, now: u64) -> u64 {
    if now >= sent {
        (now - sent) as u64
    } else {
        0
    }
}

/// The detector after a tick, and what the tick calls for.
pub open spec fn after_tick(w: Watchdog, now: u64) -> (Watchdog, Alarm) {
    if w.ping_sent == 0 {
        (Watchdog { ping_sent: now, ..w }, Alarm::Ping)
    } else if w.reported {
        (w, Alarm::Quiet)
    } else {
        (Watchdog { reported: true, ..w }, Alarm::Report(stalled(w.ping_sent, now)))
    }
}

impl Watchdog {
    pub fn new() -> (r: Self)
        ensures
            r.ping_sent == 0,
            !r.reported,
    {
        Watchdog { ping_sent: 0, reported: false }
    }

    /// Called once per housekeeping tick.
    pub fn tick(&mut self, now: u64) -> (r: Alarm)
        ensures
            (*final(self), r) == after_tick(*old(self), now),
    {
        if self.ping_sent != 0 {
            let alarm = if self.reported {
                Alarm::Quiet
            } else {
                Alarm::Report(
                    if now >= self.ping_sent {
                        now - self.ping_sent
                    } else {
                        0
                    },
                )
            };
            self.reported = true;
            return alarm;
        }
        self.ping_sent = now;
        Alarm::Ping
    }

    /// The main thread answered the ping.
    pub fn answered(&mut self)
        ensures
            final(self).ping_sent == 0,
            !final(self).reported,
    {
        self.ping_sent = 0;
        self.reported = false;
    }

    /// The ping could not be posted.
    pub fn not_posted(&mut self)
        ensures
            final(self).ping_sent == 0,
            final(self).reported == old(self).reported,
    {
        self.ping_sent = 0;
    }
}

/// Name of the file for a report at `now`.
pub fn report_name(now: u64) -> (r: String)
    ensures
        r@ == "hang-"@ + digits(now as nat) + ".txt"@,
{
    let mut s = "hang-".to_owned();
    s.append(decimal(now).as_str());
    s.append(".txt");
    s
}

/// What the report says where no stack can be sampled.
pub fn report_text(stalled_for: u64) -> (r: String)
    ensures
        r@ == "main thread unresponsive for ~"@ + digits(stalled_for as nat) + "s\n"@,
{
    let mut s = "main thread unresponsive for ~".to_owned();
    s.append(decimal(stalled_for).as_str());
    s.append("s\n");
    s
}

/// A stall is reported once: as long as the ping is not answered, the ticks
/// after a report call for nothing.
pub proof fn law_stall_is_reported_once(w: Watchdog, now: u64, later: u64)
    requires
        after_tick(w, now).1 is Report,
    ensures
        after_tick(after_tick(w, now).0, later) == (after_tick(w, now).0, Alarm::Quiet),
{
}

/// A ping that is not answered by the next tick raises the alarm, where none
/// was raised since the last answer.
pub proof fn law_stall_is_noticed(w: Watchdog, now: u64, later: u64)
    requires
        w.ping_sent == 0,
        !w.reported,
        now > 0,
    ensures
        after_tick(w, now).1 is Ping,
        after_tick(after_tick(w, now).0, later).1 == Alarm::Report(stalled(now, later)),
{
}

/// A report says how many seconds went by since the ping was posted, and none
/// where the clock went back. No ping is posted while one is out.
pub proof fn law_reports_tell_the_seconds(w: Watchdog, now: u64)
    requires
        w.ping_sent > 0,
        !w.reported,
    ensures
        now >= w.ping_sent ==> after_tick(w, now).1 == Alarm::Report((now - w.ping_sent) as u64),
        now < w.ping_sent ==> after_tick(w, now).1 == Alarm::Report(0),
        after_tick(w, now).0.ping_sent == w.ping_sent,
        after_tick(w, now).0.reported,
{
}

/// An idle detector posts a ping at every tick, and notes when.
pub proof fn law_idle_ticks_post_a_ping(w: Watchdog, now: u64)
    requires
        w.ping_sent == 0,
    ensures
        after_tick(w, now).1 == Alarm::Ping,
        after_tick(w, now).0.ping_sent == now,
        after_tick(w, now).0.reported == w.reported,
{
}

} // verus!
