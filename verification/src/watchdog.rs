//! The freeze watchdog: what is reported of the main thread's heartbeat, and when.

use vstd::prelude::*;

verus! {

/// How long without a frame, in milliseconds, counts as stuck.
pub const STUCK_MS: u64 = 2_000;

/// How often a freeze that persists is reported again, in milliseconds.
pub const REPEAT_MS: u64 = 5_000;

/// How many frames are awaited before the heartbeat is judged.
pub const WARMUP_TICKS: u64 = 10;

/// What the watchdog remembers.
#[derive(Clone, Copy, PartialEq, Eq, Structural, Debug)]
pub struct Watch {
    /// The time of the last frame before the freeze that was reported, if one was.
    pub reported_at: Option<u64>,
    pub last_report_ms: u64,
    /// The heartbeat was seen.
    pub live: bool,
}

/// What is reported.
#[derive(Clone, Copy, PartialEq, Eq, Structural, Debug)]
pub enum Report {
    Quiet,
    /// The main thread came back after about this long.
    Recovered(u64),
    /// The main thread has been stuck this long; whether this is the first report of the freeze.
    Stuck(u64, bool),
}

/// Time since an instant; 0 where it lies ahead.
pub open spec fn since(now: u64, then_ms: u64) -> u64 {
    if now >= then_ms {
        (now - then_ms) as u64
    } else {
        0
    }
}

/// Whether the heartbeat is judged at all.
pub open spec fn ticking(ticks: u64, last_ms: u64) -> bool {
    ticks >= WARMUP_TICKS && last_ms != 0
}

/// Whether a freeze is reported: for the first time, or again after a while.
pub open spec fn reports(w: Watch, last_ms: u64, now: u64) -> bool {
    w.reported_at != Some(last_ms) || since(now, w.last_report_ms) >= REPEAT_MS
}

/// What is reported at `now` of a heartbeat of `ticks` frames, the last one at `last_ms`.
pub open spec fn report_of(w: Watch, ticks: u64, last_ms: u64, now: u64) -> Report {
    if !ticking(ticks, last_ms) {
        Report::Quiet
    } else if since(now, last_ms) < STUCK_MS {
        match w.reported_at {
            Some(t) => Report::Recovered(since(now, t)),
            None => Report::Quiet,
        }
    } else if reports(w, last_ms, now) {
        Report::Stuck(since(now, last_ms), w.reported_at != Some(last_ms))
    } else {
        Report::Quiet
    }
}

/// What the watchdog remembers afterwards.
pub open spec fn watch_after(w: Watch, ticks: u64, last_ms: u64, now: u64) -> Watch {
    if !ticking(ticks, last_ms) {
        w
    } else if since(now, last_ms) < STUCK_MS {
        Watch { live: true, reported_at: None, ..w }
    } else if reports(w, last_ms, now) {
        Watch { live: true, reported_at: Some(last_ms), last_report_ms: now }
    } else {
        Watch { live: true, ..w }
    }
}

/// Nothing seen yet.
pub fn new_watch() -> (r: Watch)
    ensures
        r == (Watch { reported_at: None, last_report_ms: 0, live: false }),
{
    Watch { reported_at: None, last_report_ms: 0, live: false }
}

/// Look at the heartbeat. Returns whether it was seen for the first time, and what to report.
pub fn observe(w: &mut Watch, ticks: u64, last_ms: u64, now: u64) -> (r: (bool, Report))
    ensures
        r.0 == (ticking(ticks, last_ms) && !old(w).live),
        r.1 == report_of(*old(w), ticks, last_ms, now),
        *final(w) == watch_after(*old(w), ticks, last_ms, now),
{
    if ticks < WARMUP_TICKS || last_ms == 0 {
        return (false, Report::Quiet);
    }
    let fresh: bool = !w.live;
    w.live = true;
    let stale: u64 = now.saturating_sub(last_ms);
    if stale < STUCK_MS {
        return match w.reported_at {
            Some(t) => {
                w.reported_at = None;
                (fresh, Report::Recovered(now.saturating_sub(t)))
            },
            None => (fresh, Report::Quiet),
        };
    }
    let first: bool = match w.reported_at {
        Some(t) => t != last_ms,
        None => true,
    };
    if !first && now.saturating_sub(w.last_report_ms) < REPEAT_MS {
        return (fresh, Report::Quiet);
    }
    w.reported_at = Some(last_ms);
    w.last_report_ms = now;
    (fresh, Report::Stuck(stale, first))
}

/// A healthy main thread is never reported as stuck, and a frozen one is reported at the first look
/// after the limit.
pub proof fn lemma_freeze_is_reported(w: Watch, ticks: u64, last_ms: u64, now: u64)
    requires
        ticking(ticks, last_ms),
        w.reported_at != Some(last_ms),
    ensures
        since(now, last_ms) < STUCK_MS ==> !(report_of(w, ticks, last_ms, now) is Stuck),
        since(now, last_ms) >= STUCK_MS ==> report_of(w, ticks, last_ms, now) == Report::Stuck(
            since(now, last_ms),
            true,
        ),
{
}

/// Between two reports of one freeze at least [`REPEAT_MS`] pass.
pub proof fn lemma_reports_are_spaced(w: Watch, ticks: u64, last_ms: u64, now: u64, later: u64)
    requires
        report_of(w, ticks, last_ms, now) is Stuck,
        now <= later < now + REPEAT_MS,
        since(later, last_ms) >= STUCK_MS,
    ensures
        report_of(watch_after(w, ticks, last_ms, now), ticks, last_ms, later) is Quiet,
{
}

/// A freeze that was reported is reported as over, once: later looks at a healthy main thread are silent.
pub proof fn lemma_recovery_reported_once(w: Watch, ticks: u64, last_ms: u64, now: u64)
    requires
        ticking(ticks, last_ms),
        since(now, last_ms) < STUCK_MS,
        w.reported_at is Some,
    ensures
        report_of(w, ticks, last_ms, now) is Recovered,
        forall|more: u64, last: u64, later: u64|
            since(later, last) < STUCK_MS ==> #[trigger] report_of(
                watch_after(w, ticks, last_ms, now),
                more,
                last,
                later,
            ) is Quiet,
        forall|more: u64, last: u64, later: u64|
            since(later, last) < STUCK_MS ==> (#[trigger] watch_after(
                watch_after(w, ticks, last_ms, now),
                more,
                last,
                later,
            )).reported_at is None,
{
}

/// What a look at the main thread reports: nothing before ten ticks; a freeze from two seconds on, at once
/// where it is new and every five seconds after that; a recovery, with how long it took, where a freeze
/// had been reported.
pub proof fn lemma_report(w: Watch, ticks: u64, last_ms: u64, now: u64)
    requires
        last_ms <= now,
        w.last_report_ms <= now,
    ensures
        ticks < 10 || last_ms == 0 ==> report_of(w, ticks, last_ms, now) is Quiet && watch_after(
            w,
            ticks,
            last_ms,
            now,
        ) == w,
        ticks >= 10 && last_ms > 0 && now < last_ms + 2000 ==> {
            &&& w.reported_at is None ==> report_of(w, ticks, last_ms, now) is Quiet
            &&& w.reported_at matches Some(t) ==> (t <= now ==> report_of(w, ticks, last_ms, now)
                == Report::Recovered((now - t) as u64))
            &&& watch_after(w, ticks, last_ms, now).reported_at is None
            &&& watch_after(w, ticks, last_ms, now).live
        },
        ticks >= 10 && last_ms > 0 && now >= last_ms + 2000 ==> {
            &&& w.reported_at != Some(last_ms) ==> report_of(w, ticks, last_ms, now) == Report::Stuck(
                (now - last_ms) as u64,
                true,
            )
            &&& w.reported_at == Some(last_ms) && now >= w.last_report_ms + 5000 ==> report_of(
                w,
                ticks,
                last_ms,
                now,
            ) == Report::Stuck((now - last_ms) as u64, false)
            &&& w.reported_at == Some(last_ms) && now < w.last_report_ms + 5000 ==> report_of(
                w,
                ticks,
                last_ms,
                now,
            ) is Quiet && watch_after(w, ticks, last_ms, now).last_report_ms == w.last_report_ms
            &&& report_of(w, ticks, last_ms, now) is Stuck ==> watch_after(
                w,
                ticks,
                last_ms,
                now,
            ).reported_at == Some(last_ms) && watch_after(w, ticks, last_ms, now).last_report_ms == now
            &&& watch_after(w, ticks, last_ms, now).live
        },
{
}

} // verus!
