//! The interface tempo: how much faster than normal animations run, and how each frame's update is
//! driven. Tempos are single-precision bits.

use vstd::prelude::*;

use crate::bits::{at_least, below, clamped, is_nan, ONE, ZERO};
use crate::bits::{clamp, less, reaches};
use crate::guard::age;
use crate::settings::Settings;

verus! {

/// The bits of 20, the fastest tempo.
pub const MAX_TEMPO: u32 = 0x41a0_0000;

/// The bits of 10, the fastest tempo while a story or a choice is on.
pub const STORY_MAX_TEMPO: u32 = 0x4120_0000;

/// The bits of 10, the fastest tempo that is driven by scaling a single update.
pub const DELTA_SCALE_MAX: u32 = 0x4120_0000;

/// The bounds, in microseconds, of what is spent on extra updates in one frame.
pub const BUDGET_MIN_US: u64 = 250;

pub const BUDGET_MAX_US: u64 = 15_000;

/// The longest gap, in microseconds, that counts as one frame.
pub const MAX_FRAME_US: u64 = 100_000;

/// How long, in milliseconds, the scout screen holds the tempo at most.
pub const GACHA_PIN_CAP_MS: u64 = 60_000;

/// How many active animations are looked at.
pub const MAX_TWEENS: usize = 4096;

/// The tempo, and what is measured of the frames.
#[derive(Clone, Copy, PartialEq, Eq, Structural, Debug)]
pub struct Tempo {
    /// The user's choice.
    pub tempo: u32,
    /// The running mean of the frame interval, in microseconds; 0 before the first one.
    pub frame_us: u64,
    pub last_frame_us: u64,
    /// The running mean of what extra updates cost, in microseconds.
    pub pump_us: u64,
    /// Updates owed from earlier frames.
    pub debt: u32,
    pub home_active: bool,
    pub gacha_active: bool,
    pub gacha_since_ms: u64,
    pub ticks: u64,
    pub last_tick_ms: u64,
    /// Endless animations were slowed down to cancel the tempo.
    pub loopers_scaled: bool,
}

/// What is on in this frame.
#[derive(Clone, Copy, PartialEq, Eq, Structural, Debug)]
pub struct Scene {
    /// The master switch is on.
    pub bot_on: bool,
    /// A story is playing.
    pub story: bool,
    /// A choice is open.
    pub choice: bool,
    /// Endless animations can be told apart.
    pub loops_known: bool,
}

/// What is done to endless animations.
#[derive(Clone, Copy, PartialEq, Eq, Structural, Debug)]
pub enum Loopers {
    Leave,
    /// Slow them down, so that they run at their own speed.
    Cancel,
    /// Give them their own speed back.
    Restore,
}

/// How an update is driven.
#[derive(Clone, Copy, PartialEq, Eq, Structural, Debug)]
pub enum Drive {
    /// One update, as it is.
    Stock,
    /// One update with its time multiplied.
    Scaled,
    /// Many updates, each as it is.
    Stepped,
}

/// The tempo at startup.
pub fn new_tempo() -> (r: Tempo)
    ensures
        r == (Tempo {
            tempo: ONE,
            frame_us: 0,
            last_frame_us: 0,
            pump_us: 0,
            debt: ZERO,
            home_active: false,
            gacha_active: false,
            gacha_since_ms: 0,
            ticks: 0,
            last_tick_ms: 0,
            loopers_scaled: false,
        }),
{
    Tempo {
        tempo: ONE,
        frame_us: 0,
        last_frame_us: 0,
        pump_us: 0,
        debt: ZERO,
        home_active: false,
        gacha_active: false,
        gacha_since_ms: 0,
        ticks: 0,
        last_tick_ms: 0,
        loopers_scaled: false,
    }
}

/// The tempo that is asked for: the user's, or stock while the master switch is off.
pub open spec fn asked(t: Tempo, bot_on: bool) -> u32 {
    if bot_on {
        t.tempo
    } else {
        ONE
    }
}

/// The tempo that is asked for.
pub fn tempo(t: &Tempo, bot_on: bool) -> (r: u32)
    ensures
        r == asked(*t, bot_on),
{
    if !bot_on {
        return ONE;
    }
    t.tempo
}

/// The user's choice, whatever the master switch says.
pub fn stored_tempo(t: &Tempo) -> (r: u32)
    ensures
        r == t.tempo,
{
    t.tempo
}

/// Choose a tempo, 1 to 20.
pub fn set_tempo(t: &mut Tempo, v: u32)
    ensures
        *final(t) == (Tempo { tempo: clamped(v, ONE, MAX_TEMPO), ..*old(t) }),
{
    t.tempo = clamp(v, ONE, MAX_TEMPO);
}

/// Apply the settings at startup.
pub fn apply(t: &mut Tempo, s: &Settings)
    ensures
        *final(t) == (Tempo { tempo: clamped(s.skip.ui_tempo, ONE, MAX_TEMPO), ..*old(t) }),
{
    set_tempo(t, s.skip.ui_tempo);
}

/// The lobby was entered or left.
pub fn set_home_active(t: &mut Tempo, on: bool)
    ensures
        *final(t) == (Tempo { home_active: on, ..*old(t) }),
{
    t.home_active = on;
}

/// Whether the lobby is on.
pub fn home_active(t: &Tempo) -> (r: bool)
    ensures
        r == t.home_active,
{
    t.home_active
}

/// The scout screen was entered or left.
pub fn set_gacha_active(t: &mut Tempo, on: bool, now: u64)
    ensures
        *final(t) == (Tempo {
            gacha_active: on,
            gacha_since_ms: if on {
                now
            } else {
                old(t).gacha_since_ms
            },
            ..*old(t)
        }),
{
    t.gacha_active = on;
    if on {
        t.gacha_since_ms = now;
    }
}

/// Whether the scout screen holds the tempo.
pub open spec fn gacha_pins(t: Tempo, now: u64) -> bool {
    t.gacha_active && age(now, t.gacha_since_ms) < GACHA_PIN_CAP_MS
}

/// Whether the scout screen holds the tempo.
pub fn gacha_active(t: &Tempo, now: u64) -> (r: bool)
    ensures
        r == gacha_pins(*t, now),
{
    t.gacha_active && now.saturating_sub(t.gacha_since_ms) < GACHA_PIN_CAP_MS
}

/// Whether a story or a choice is on.
pub fn story_active(s: &Scene) -> (r: bool)
    ensures
        r == (s.story || s.choice),
{
    s.story || s.choice
}

/// The lesser of two numbers; where the first is none, the second.
pub open spec fn lesser(a: u32, b: u32) -> u32 {
    if is_nan(a) || below(b, a) {
        b
    } else {
        a
    }
}

/// The tempo of a frame: stock on the scout screen, and in the lobby where endless animations cannot
/// be told apart; limited while a story or a choice is on; else what is asked for.
pub open spec fn tempo_of(t: Tempo, s: Scene, now: u64) -> u32 {
    if gacha_pins(t, now) {
        ONE
    } else if s.story || s.choice {
        lesser(asked(t, s.bot_on), STORY_MAX_TEMPO)
    } else if t.home_active && !s.loops_known {
        ONE
    } else {
        asked(t, s.bot_on)
    }
}

/// The tempo of a frame.
pub fn effective_tempo(t: &Tempo, s: &Scene, now: u64) -> (r: u32)
    ensures
        r == tempo_of(*t, *s, now),
{
    if gacha_active(t, now) {
        return ONE;
    }
    if story_active(s) {
        let v: u32 = tempo(t, s.bot_on);
        if !reaches(v, v) || less(STORY_MAX_TEMPO, v) {
            return STORY_MAX_TEMPO;
        }
        return v;
    }
    if t.home_active && !s.loops_known {
        return ONE;
    }
    tempo(t, s.bot_on)
}

/// How many frames ran, and when the last one did.
pub fn heartbeat(t: &Tempo) -> (r: (u64, u64))
    ensures
        r == (t.ticks, t.last_tick_ms),
{
    (t.ticks, t.last_tick_ms)
}

/// The number of the frame.
pub fn frame_id(t: &Tempo) -> (r: u64)
    ensures
        r == t.ticks,
{
    t.ticks
}

/// Kept for callers that re-assert the tempo every frame: nothing needs re-asserting.
pub fn enforce(t: &mut Tempo)
    ensures
        *final(t) == *old(t),
{
}

/// A running mean after one more measurement, which counts for an eighth.
pub open spec fn mean_after(mean: u64, v: u64) -> u64 {
    if mean == 0 {
        v
    } else {
        (mean - mean / 8 + v / 8) as u64
    }
}

/// A running mean after one more measurement.
fn mean_with(mean: u64, v: u64) -> (r: u64)
    ensures
        r == mean_after(mean, v),
{
    if mean == 0 {
        v
    } else {
        mean - mean / 8 + v / 8
    }
}

/// A frame interval as it is measured: long gaps, such as loading screens, are cut.
pub open spec fn interval(prev_us: u64, now_us: u64) -> u64 {
    if now_us - prev_us < MAX_FRAME_US {
        (now_us - prev_us) as u64
    } else {
        MAX_FRAME_US
    }
}

/// A frame begins: count it, and measure the interval since the last one.
pub fn on_tick(t: &mut Tempo, now_ms: u64, now_us: u64)
    ensures
        *final(t) == (Tempo {
            ticks: old(t).ticks.wrapping_add(1),
            last_tick_ms: now_ms,
            last_frame_us: now_us,
            frame_us: if old(t).last_frame_us != 0 && now_us > old(t).last_frame_us {
                mean_after(old(t).frame_us, interval(old(t).last_frame_us, now_us))
            } else {
                old(t).frame_us
            },
            ..*old(t)
        }),
{
    t.ticks = t.ticks.wrapping_add(1);
    t.last_tick_ms = now_ms;
    let prev: u64 = t.last_frame_us;
    t.last_frame_us = now_us;
    if prev != 0 && now_us > prev {
        let gap: u64 = if now_us - prev < MAX_FRAME_US {
            now_us - prev
        } else {
            MAX_FRAME_US
        };
        t.frame_us = mean_with(t.frame_us, gap);
    }
}

/// What may be spent on extra updates in a frame, in microseconds: what is left of the frame after the
/// game's own cost. `target_us` is how long a frame may take at the tempo asked for.
pub open spec fn budget_of(t: Tempo, target_us: u64) -> u64 {
    let game = age(t.frame_us, t.pump_us);
    let left = age(target_us, game);
    if t.frame_us == 0 || left < BUDGET_MIN_US {
        BUDGET_MIN_US
    } else if left > BUDGET_MAX_US {
        BUDGET_MAX_US
    } else {
        left
    }
}

/// What may be spent on extra updates in a frame, in microseconds.
pub fn step_budget_us(t: &Tempo, target_us: u64) -> (r: u64)
    ensures
        r == budget_of(*t, target_us),
        BUDGET_MIN_US <= r <= BUDGET_MAX_US,
{
    if t.frame_us == 0 {
        return BUDGET_MIN_US;
    }
    let game: u64 = t.frame_us.saturating_sub(t.pump_us);
    let left: u64 = target_us.saturating_sub(game);
    if left < BUDGET_MIN_US {
        BUDGET_MIN_US
    } else if left > BUDGET_MAX_US {
        BUDGET_MAX_US
    } else {
        left
    }
}

/// The measured frame interval and what may be spent in a frame, in microseconds.
pub fn frame_stats(t: &Tempo, target_us: u64) -> (r: (u64, u64))
    ensures
        r == (t.frame_us, budget_of(*t, target_us)),
{
    (t.frame_us, step_budget_us(t, target_us))
}

/// How many active animations are looked at: no more than there are, than the list holds, or than the
/// limit.
pub fn looper_count(active: i32, held: i32) -> (r: usize)
    ensures
        r == (if active <= 0 || held <= 0 {
            0
        } else if active <= held && active <= MAX_TWEENS {
            active as int
        } else if held <= active && held <= MAX_TWEENS {
            held as int
        } else {
            MAX_TWEENS as int
        }),
{
    let n: i32 = if active < held {
        active
    } else {
        held
    };
    if n <= 0 {
        0
    } else if n as usize > MAX_TWEENS {
        MAX_TWEENS
    } else {
        n as usize
    }
}

/// How an update is driven at a tempo.
pub open spec fn drive_of(s: u32) -> Drive {
    if at_least(ONE, s) {
        Drive::Stock
    } else if at_least(DELTA_SCALE_MAX, s) {
        Drive::Scaled
    } else {
        Drive::Stepped
    }
}

/// What is done to endless animations at a tempo: every few frames they are slowed down, and once,
/// when the tempo is stock again, they get their own speed back.
pub open spec fn loopers_of(t: Tempo, s: u32) -> Loopers {
    if below(ONE, s) {
        if t.ticks % 4 == 0 {
            Loopers::Cancel
        } else {
            Loopers::Leave
        }
    } else if t.loopers_scaled {
        Loopers::Restore
    } else {
        Loopers::Leave
    }
}

/// How this frame's update is driven at tempo `s`, and what is done to endless animations. Where no
/// extra updates are made, their cost fades; where a single one is scaled, nothing is owed any more.
pub fn on_update(t: &mut Tempo, s: u32) -> (r: (Loopers, Drive))
    ensures
        r == (loopers_of(*old(t), s), drive_of(s)),
        *final(t) == (Tempo {
            loopers_scaled: below(ONE, s),
            pump_us: if r.1 == Drive::Stepped {
                old(t).pump_us
            } else {
                (old(t).pump_us - old(t).pump_us / 8) as u64
            },
            debt: if r.1 == Drive::Scaled {
                ZERO
            } else {
                old(t).debt
            },
            ..*old(t)
        }),
{
    let fast: bool = less(ONE, s);
    let loopers: Loopers = if fast {
        if t.ticks % 4 == 0 {
            Loopers::Cancel
        } else {
            Loopers::Leave
        }
    } else if t.loopers_scaled {
        Loopers::Restore
    } else {
        Loopers::Leave
    };
    t.loopers_scaled = fast;
    if reaches(ONE, s) {
        t.pump_us = t.pump_us - t.pump_us / 8;
        (loopers, Drive::Stock)
    } else if reaches(DELTA_SCALE_MAX, s) {
        t.pump_us = t.pump_us - t.pump_us / 8;
        t.debt = ZERO;
        (loopers, Drive::Scaled)
    } else {
        (loopers, Drive::Stepped)
    }
}

/// Whether one more update is made, after `done` of `steps`, `spent_us` microseconds into the frame's
/// share: two are made in any case.
pub fn steps_on(done: i32, steps: i32, spent_us: u64, budget_us: u64) -> (r: bool)
    ensures
        r == (done < steps && (done < 2 || spent_us < budget_us)),
{
    done < steps && (done < 2 || spent_us < budget_us)
}

/// The extra updates of a frame are made: note what they cost, and what is owed to the next frame.
pub fn on_stepped(t: &mut Tempo, finished: bool, owed: u32, spent_us: u64)
    ensures
        *final(t) == (Tempo {
            debt: if finished {
                ZERO
            } else {
                owed
            },
            pump_us: mean_after(old(t).pump_us, spent_us),
            ..*old(t)
        }),
{
    t.debt = if finished {
        ZERO
    } else {
        owed
    };
    t.pump_us = mean_with(t.pump_us, spent_us);
}

/// With the master switch off the interface runs at stock speed on every screen, and the user's choice
/// is kept.
pub proof fn lemma_off_is_stock(t: Tempo, s: Scene, now: u64)
    requires
        !s.bot_on,
    ensures
        tempo_of(t, s, now) == ONE,
        drive_of(tempo_of(t, s, now)) == Drive::Stock,
{
}

/// The tempo of a frame lies between stock and the fastest, whatever is on.
pub proof fn lemma_tempo_bounded(t: Tempo, s: Scene, now: u64)
    requires
        at_least(t.tempo, ONE),
        at_least(MAX_TEMPO, t.tempo),
    ensures
        at_least(tempo_of(t, s, now), ONE),
        at_least(MAX_TEMPO, tempo_of(t, s, now)),
        s.story || s.choice ==> at_least(STORY_MAX_TEMPO, tempo_of(t, s, now)),
        s.story || s.choice ==> drive_of(tempo_of(t, s, now)) != Drive::Stepped,
{
}

/// Choosing a tempo keeps it between stock and the fastest.
pub proof fn lemma_choice_bounded(v: u32)
    requires
        !is_nan(v),
    ensures
        at_least(clamped(v, ONE, MAX_TEMPO), ONE),
        at_least(MAX_TEMPO, clamped(v, ONE, MAX_TEMPO)),
{
}

/// The scout screen never holds the tempo for longer than its limit.
pub proof fn lemma_gacha_pin_ends(t: Tempo, now: u64)
    requires
        now >= t.gacha_since_ms + GACHA_PIN_CAP_MS,
    ensures
        !gacha_pins(t, now),
{
}

/// The running mean of the frame interval never exceeds the longest gap that counts.
pub proof fn lemma_mean_bounded(mean: u64, v: u64)
    requires
        mean <= MAX_FRAME_US,
        v <= MAX_FRAME_US,
    ensures
        mean_after(mean, v) <= MAX_FRAME_US,
{
}

/// The heavier the game's own frames, the less is spent on extra updates, down to the minimum.
pub proof fn lemma_budget_yields(t: Tempo, u: Tempo, target_us: u64)
    requires
        0 < t.frame_us <= u.frame_us,
        t.pump_us == u.pump_us,
    ensures
        budget_of(u, target_us) <= budget_of(t, target_us),
{
}

/// What was found of the game's animation update at startup.
pub struct Setup {
    pub class: bool,
    pub method: bool,
    pub pointer: bool,
    /// Someone else watches it already.
    pub chained: bool,
    /// Whether a detour was made, and whether it was switched on.
    pub made: Result<(), String>,
    pub enabled: Result<(), String>,
}

/// Why the tempo cannot be driven, if it cannot.
pub open spec fn setup_error(s: Setup) -> Option<Seq<char>> {
    if !s.class {
        Some("TweenManager not found"@)
    } else if !s.method {
        Some("Update: not found"@)
    } else if !s.pointer {
        Some("Update: null ptr"@)
    } else if s.made is Err {
        Some("Update: "@ + (s.made->Err_0)@)
    } else if s.enabled is Err {
        Some("Update enable: "@ + (s.enabled->Err_0)@)
    } else {
        None
    }
}

/// Report on the installation.
pub fn install(s: &Setup) -> (r: Result<&'static str, String>)
    ensures
        (match r {
            Ok(t) => setup_error(*s) is None && t@ == (if s.chained {
                "OK (chained on top \u{2014} Overseer owns speed)"@
            } else {
                "OK"@
            }),
            Err(e) => setup_error(*s) == Some(e@),
        }),
{
    if !s.class {
        return Err("TweenManager not found".to_owned());
    }
    if !s.method {
        return Err("Update: not found".to_owned());
    }
    if !s.pointer {
        return Err("Update: null ptr".to_owned());
    }
    if let Err(e) = &s.made {
        let mut t: String = "Update: ".to_owned();
        t.append(e.as_str());
        return Err(t);
    }
    if let Err(e) = &s.enabled {
        let mut t: String = "Update enable: ".to_owned();
        t.append(e.as_str());
        return Err(t);
    }
    Ok(
        if s.chained {
            "OK (chained on top \u{2014} Overseer owns speed)"
        } else {
            "OK"
        },
    )
}

/// The tempo of a frame: stock while the scout screen shows, at most ten times in a story or a choice,
/// stock on the home screen while its loops are not known, and otherwise as chosen; without the bot always
/// stock.
pub proof fn lemma_tempo(t: Tempo, s: Scene, now: u64)
    requires
        0x3f80_0000 <= t.tempo <= 0x7f80_0000,
        t.gacha_since_ms <= now,
    ensures
        t.gacha_active && now < t.gacha_since_ms + 60_000 ==> tempo_of(t, s, now) == 0x3f80_0000,
        !t.gacha_active && (s.story || s.choice) && s.bot_on ==> tempo_of(t, s, now) == if t.tempo
            <= 0x4120_0000 {
            t.tempo
        } else {
            0x4120_0000
        },
        !t.gacha_active && !s.story && !s.choice && t.home_active && !s.loops_known ==> tempo_of(t, s, now)
            == 0x3f80_0000,
        !t.gacha_active && !s.story && !s.choice && (!t.home_active || s.loops_known) && s.bot_on
            ==> tempo_of(t, s, now) == t.tempo,
        !s.bot_on ==> tempo_of(t, s, now) == 0x3f80_0000,
        now >= t.gacha_since_ms + 60_000 ==> !gacha_pins(t, now),
{
}

/// A tempo up to stock drives nothing, one up to ten scales the time, and a faster one takes steps.
pub proof fn lemma_drive(s: u32)
    requires
        s <= 0x7f80_0000,
    ensures
        s <= 0x3f80_0000 ==> drive_of(s) is Stock,
        0x3f80_0000 < s <= 0x4120_0000 ==> drive_of(s) is Scaled,
        s > 0x4120_0000 ==> drive_of(s) is Stepped,
{
}

/// Loops are cancelled on every fourth tick above stock, and restored once below it.
pub proof fn lemma_loopers(t: Tempo, s: u32)
    requires
        s <= 0x7f80_0000,
    ensures
        s > 0x3f80_0000 && t.ticks % 4 == 0 ==> loopers_of(t, s) is Cancel,
        s > 0x3f80_0000 && t.ticks % 4 != 0 ==> loopers_of(t, s) is Leave,
        s <= 0x3f80_0000 && t.loopers_scaled ==> loopers_of(t, s) is Restore,
        s <= 0x3f80_0000 && !t.loopers_scaled ==> loopers_of(t, s) is Leave,
{
}

/// The mean of the frame interval moves an eighth of the way to each new one; the first one sets it. No
/// interval counts for more than a tenth of a second.
pub proof fn lemma_mean(mean: u64, v: u64, prev_us: u64, now_us: u64)
    ensures
        mean == 0 ==> mean_after(mean, v) == v,
        0 < mean && mean <= 100_000 && v <= 100_000 ==> mean_after(mean, v) + mean / 8 == mean + v / 8,
        now_us < prev_us + 100_000 && prev_us <= now_us ==> interval(prev_us, now_us) == now_us - prev_us,
        prev_us + 100_000 <= now_us ==> interval(prev_us, now_us) == 100_000,
{
}

/// What may be spent on extra updates is what the target leaves beside the game's own work, from a
/// quarter of a millisecond to 15 ms; the least before the first frame.
pub proof fn lemma_budget(t: Tempo, target_us: u64)
    ensures
        250 <= budget_of(t, target_us) <= 15_000,
        t.frame_us == 0 ==> budget_of(t, target_us) == 250,
        t.frame_us > 0 && t.pump_us <= t.frame_us && t.frame_us - t.pump_us + 250 <= target_us
            <= t.frame_us - t.pump_us + 15_000 ==> budget_of(t, target_us) == target_us - (t.frame_us
            - t.pump_us),
        t.frame_us > 0 && t.pump_us <= t.frame_us && target_us > t.frame_us - t.pump_us + 15_000
            ==> budget_of(t, target_us) == 15_000,
{
}

/// The first thing that went wrong at startup is the one reported.
pub proof fn lemma_setup_error(s: Setup)
    ensures
        setup_error(s) is None <==> s.class && s.method && s.pointer && s.made is Ok && s.enabled is Ok,
        !s.class ==> setup_error(s) == Some("TweenManager not found"@),
        s.class && !s.method ==> setup_error(s) == Some("Update: not found"@),
        s.class && s.method && !s.pointer ==> setup_error(s) == Some("Update: null ptr"@),
        s.class && s.method && s.pointer ==> (s.made matches Err(e) ==> setup_error(s) == Some(
            "Update: "@ + e@,
        )),
        s.class && s.method && s.pointer && s.made is Ok ==> (s.enabled matches Err(e) ==> setup_error(s)
            == Some("Update enable: "@ + e@)),
{
}

} // verus!
