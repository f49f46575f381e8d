//! What Overseer is allowed to do right now: two independent switches, and per-subsystem overrides.
//!
//! * Overseer itself: off suspends every subsystem.
//! * Translation: its own switch, suppressed by the first unless translation is kept running.
//!
//! Each override lets one subsystem keep running while Overseer is off.

use vstd::prelude::*;

use crate::settings::Settings;

verus! {

/// Everything that can be suspended by itself.
#[derive(Clone, Copy, PartialEq, Eq, Structural, Debug)]
pub enum Subsystem {
    /// Skips, automatic presses and choices, race fast-forward.
    Skip,
    /// UI tempo.
    Tempo,
    /// Text substitution.
    Translation,
    /// The translation worker and its resident model.
    TranslationEngine,
    /// Reading of responses.
    Analysis,
    /// The advisor sidecar.
    Advisor,
    /// Team Trials capture, opponent hunter, deck padder.
    Monitoring,
    /// Race reader, telemetry and free camera.
    Race,
    /// Exporters and the companion feed.
    Export,
    /// Career-completion webhooks.
    Webhook,
    /// Overlay drawing.
    Overlay,
    /// The load profiler.
    Profiler,
}

/// The switches.
#[derive(Clone, Copy, PartialEq, Eq, Structural, Debug)]
pub struct Power {
    pub overseer_on: bool,
    pub translation_on: bool,
    pub keep_translation: bool,
    pub keep_analysis: bool,
    pub keep_monitoring: bool,
    pub keep_export: bool,
    pub keep_webhook: bool,
    pub keep_overlay: bool,
    /// Counts the flips, so that a poller notices one.
    pub generation: u64,
    /// When a switch was last flipped, on the process clock; 0 when never.
    pub last_change_ms: u64,
}

/// What has to be pushed into the subsystems that own a thread, a timer or a resident allocation.
#[derive(Clone, Copy, PartialEq, Eq, Structural, Debug)]
pub struct FanOut {
    /// Whether the translation worker and the translation engine run.
    pub translation: bool,
    /// Whether the monitoring timers are to be suspended.
    pub suspend_monitoring: bool,
    /// Whether the profiler samples.
    pub profiler: bool,
    /// Whether the advisor sidecar polls.
    pub advisor: bool,
}

/// Whether a subsystem may do work.
pub open spec fn allowed(p: Power, sub: Subsystem) -> bool {
    match sub {
        Subsystem::Translation | Subsystem::TranslationEngine => p.translation_on && (p.overseer_on
            || p.keep_translation),
        Subsystem::Analysis => p.overseer_on || p.keep_analysis,
        Subsystem::Monitoring => p.overseer_on || p.keep_monitoring,
        Subsystem::Export => p.overseer_on || p.keep_export,
        Subsystem::Webhook => p.overseer_on || p.keep_webhook,
        Subsystem::Overlay => p.overseer_on || p.keep_overlay,
        Subsystem::Skip | Subsystem::Tempo | Subsystem::Race | Subsystem::Advisor
        | Subsystem::Profiler => p.overseer_on,
    }
}

/// What the switches ask of the subsystems; the profiler samples only where it is also opted into.
pub open spec fn fan_out_of(p: Power, profiler: bool) -> FanOut {
    FanOut {
        translation: allowed(p, Subsystem::TranslationEngine),
        suspend_monitoring: !allowed(p, Subsystem::Monitoring),
        profiler: allowed(p, Subsystem::Profiler) && profiler,
        advisor: allowed(p, Subsystem::Advisor),
    }
}

/// The switches after a flip at `now`.
pub open spec fn bumped(p: Power, now: u64) -> Power {
    Power { generation: p.generation.wrapping_add(1), last_change_ms: now, ..p }
}

/// The outcome of a request that leaves the switches as `next`: where they were `p` already, nothing
/// happens; else the flip is counted and fanned out.
pub open spec fn flipped(p: Power, next: Power, now: u64, profiler: bool) -> (Power, Option<FanOut>) {
    if next == p {
        (p, None)
    } else {
        (bumped(next, now), Some(fan_out_of(next, profiler)))
    }
}

/// Both switches on, no override.
pub fn new_power() -> (r: Power)
    ensures
        r == (Power {
            overseer_on: true,
            translation_on: true,
            keep_translation: false,
            keep_analysis: false,
            keep_monitoring: false,
            keep_export: false,
            keep_webhook: false,
            keep_overlay: false,
            generation: 0,
            last_change_ms: 0,
        }),
{
    Power {
        overseer_on: true,
        translation_on: true,
        keep_translation: false,
        keep_analysis: false,
        keep_monitoring: false,
        keep_export: false,
        keep_webhook: false,
        keep_overlay: false,
        generation: 0,
        last_change_ms: 0,
    }
}

/// How often a switch was flipped.
pub fn generation(p: &Power) -> (r: u64)
    ensures
        r == p.generation,
{
    p.generation
}

/// When a switch was last flipped.
pub fn last_change_ms(p: &Power) -> (r: u64)
    ensures
        r == p.last_change_ms,
{
    p.last_change_ms
}

/// Whether Overseer as a whole is on.
pub fn overseer_enabled(p: &Power) -> (r: bool)
    ensures
        r == p.overseer_on,
{
    p.overseer_on
}

/// Whether live translation is switched on.
pub fn translation_enabled(p: &Power) -> (r: bool)
    ensures
        r == p.translation_on,
{
    p.translation_on
}

/// Whether a subsystem may do work.
pub fn active(p: &Power, sub: Subsystem) -> (r: bool)
    ensures
        r == allowed(*p, sub),
{
    match sub {
        Subsystem::Translation | Subsystem::TranslationEngine => p.translation_on && (p.overseer_on
            || p.keep_translation),
        Subsystem::Analysis => p.overseer_on || p.keep_analysis,
        Subsystem::Monitoring => p.overseer_on || p.keep_monitoring,
        Subsystem::Export => p.overseer_on || p.keep_export,
        Subsystem::Webhook => p.overseer_on || p.keep_webhook,
        Subsystem::Overlay => p.overseer_on || p.keep_overlay,
        Subsystem::Skip | Subsystem::Tempo | Subsystem::Race | Subsystem::Advisor
        | Subsystem::Profiler => p.overseer_on,
    }
}

/// Whether a subsystem may not do work.
pub fn suspended(p: &Power, sub: Subsystem) -> (r: bool)
    ensures
        r == !allowed(*p, sub),
{
    !active(p, sub)
}

/// What the switches ask of the subsystems.
pub fn fan_out(p: &Power, profiler: bool) -> (r: FanOut)
    ensures
        r == fan_out_of(*p, profiler),
{
    FanOut {
        translation: active(p, Subsystem::TranslationEngine),
        suspend_monitoring: !active(p, Subsystem::Monitoring),
        profiler: active(p, Subsystem::Profiler) && profiler,
        advisor: active(p, Subsystem::Advisor),
    }
}

/// Take over new switches, counting the flip where they differ.
fn flip(p: &mut Power, next: Power, now: u64, profiler: bool) -> (r: Option<FanOut>)
    requires
        next.generation == old(p).generation,
        next.last_change_ms == old(p).last_change_ms,
    ensures
        (*final(p), r) == flipped(*old(p), next, now, profiler),
{
    if next == *p {
        return None;
    }
    *p = next;
    p.generation = p.generation.wrapping_add(1);
    p.last_change_ms = now;
    Some(fan_out(p, profiler))
}

/// Switch Overseer on or off.
pub fn set_overseer_enabled(p: &mut Power, on: bool, now: u64, profiler: bool) -> (r: Option<FanOut>)
    ensures
        (*final(p), r) == flipped(
            *old(p),
            Power { overseer_on: on, ..*old(p) },
            now,
            profiler,
        ),
{
    let mut next = *p;
    next.overseer_on = on;
    flip(p, next, now, profiler)
}

/// Switch live translation on or off.
pub fn set_translation_enabled(p: &mut Power, on: bool, now: u64, profiler: bool) -> (r: Option<
    FanOut,
>)
    ensures
        (*final(p), r) == flipped(
            *old(p),
            Power { translation_on: on, ..*old(p) },
            now,
            profiler,
        ),
{
    let mut next = *p;
    next.translation_on = on;
    flip(p, next, now, profiler)
}
/// Whether translation keeps running while Overseer is off.
pub fn keep_translation(p: &Power) -> (r: bool)
    ensures
        r == p.keep_translation,
{
    p.keep_translation
}

/// Set whether translation keeps running while Overseer is off.
pub fn set_keep_translation(p: &mut Power, on: bool, now: u64, profiler: bool) -> (r: Option<FanOut>)
    ensures
        (*final(p), r) == flipped(
            *old(p),
            Power { keep_translation: on, ..*old(p) },
            now,
            profiler,
        ),
{
    let mut next = *p;
    next.keep_translation = on;
    flip(p, next, now, profiler)
}

/// Whether the analysis keeps running while Overseer is off.
pub fn keep_analysis(p: &Power) -> (r: bool)
    ensures
        r == p.keep_analysis,
{
    p.keep_analysis
}

/// Set whether the analysis keeps running while Overseer is off.
pub fn set_keep_analysis(p: &mut Power, on: bool, now: u64, profiler: bool) -> (r: Option<FanOut>)
    ensures
        (*final(p), r) == flipped(
            *old(p),
            Power { keep_analysis: on, ..*old(p) },
            now,
            profiler,
        ),
{
    let mut next = *p;
    next.keep_analysis = on;
    flip(p, next, now, profiler)
}

/// Whether the monitoring keeps running while Overseer is off.
pub fn keep_monitoring(p: &Power) -> (r: bool)
    ensures
        r == p.keep_monitoring,
{
    p.keep_monitoring
}

/// Set whether the monitoring keeps running while Overseer is off.
pub fn set_keep_monitoring(p: &mut Power, on: bool, now: u64, profiler: bool) -> (r: Option<FanOut>)
    ensures
        (*final(p), r) == flipped(
            *old(p),
            Power { keep_monitoring: on, ..*old(p) },
            now,
            profiler,
        ),
{
    let mut next = *p;
    next.keep_monitoring = on;
    flip(p, next, now, profiler)
}

/// Whether the exporters keep running while Overseer is off.
pub fn keep_export(p: &Power) -> (r: bool)
    ensures
        r == p.keep_export,
{
    p.keep_export
}

/// Set whether the exporters keep running while Overseer is off.
pub fn set_keep_export(p: &mut Power, on: bool, now: u64, profiler: bool) -> (r: Option<FanOut>)
    ensures
        (*final(p), r) == flipped(
            *old(p),
            Power { keep_export: on, ..*old(p) },
            now,
            profiler,
        ),
{
    let mut next = *p;
    next.keep_export = on;
    flip(p, next, now, profiler)
}

/// Whether the webhooks keep running while Overseer is off.
pub fn keep_webhook(p: &Power) -> (r: bool)
    ensures
        r == p.keep_webhook,
{
    p.keep_webhook
}

/// Set whether the webhooks keep running while Overseer is off.
pub fn set_keep_webhook(p: &mut Power, on: bool, now: u64, profiler: bool) -> (r: Option<FanOut>)
    ensures
        (*final(p), r) == flipped(
            *old(p),
            Power { keep_webhook: on, ..*old(p) },
            now,
            profiler,
        ),
{
    let mut next = *p;
    next.keep_webhook = on;
    flip(p, next, now, profiler)
}

/// Whether the overlay keeps running while Overseer is off.
pub fn keep_overlay(p: &Power) -> (r: bool)
    ensures
        r == p.keep_overlay,
{
    p.keep_overlay
}

/// Set whether the overlay keeps running while Overseer is off.
pub fn set_keep_overlay(p: &mut Power, on: bool, now: u64, profiler: bool) -> (r: Option<FanOut>)
    ensures
        (*final(p), r) == flipped(
            *old(p),
            Power { keep_overlay: on, ..*old(p) },
            now,
            profiler,
        ),
{
    let mut next = *p;
    next.keep_overlay = on;
    flip(p, next, now, profiler)
}

/// Take the switches over from the settings, and fan out once.
pub fn apply(p: &mut Power, s: &Settings, now: u64, profiler: bool) -> (r: FanOut)
    ensures
        *final(p) == power_of(*old(p), *s, now),
        r == fan_out_of(*final(p), profiler),
{
    p.overseer_on = s.power.bot_enabled;
    p.translation_on = s.power.translation_enabled;
    p.keep_translation = s.power.keep_translation_when_disabled;
    p.keep_analysis = s.power.keep_analysis_when_disabled;
    p.keep_monitoring = s.power.keep_monitoring_when_disabled;
    p.keep_export = s.power.keep_export_when_disabled;
    p.keep_webhook = s.power.keep_webhook_when_disabled;
    p.keep_overlay = s.power.keep_overlay_when_disabled;
    p.generation = p.generation.wrapping_add(1);
    p.last_change_ms = now;
    fan_out(p, profiler)
}

/// The switches that the settings ask for.
pub open spec fn power_of(p: Power, s: Settings, now: u64) -> Power {
    Power {
        overseer_on: s.power.bot_enabled,
        translation_on: s.power.translation_enabled,
        keep_translation: s.power.keep_translation_when_disabled,
        keep_analysis: s.power.keep_analysis_when_disabled,
        keep_monitoring: s.power.keep_monitoring_when_disabled,
        keep_export: s.power.keep_export_when_disabled,
        keep_webhook: s.power.keep_webhook_when_disabled,
        keep_overlay: s.power.keep_overlay_when_disabled,
        generation: p.generation.wrapping_add(1),
        last_change_ms: now,
    }
}

/// With Overseer off and no override, nothing runs.
pub proof fn lemma_off_suspends_everything(p: Power, sub: Subsystem)
    requires
        !p.overseer_on,
        !p.keep_translation,
        !p.keep_analysis,
        !p.keep_monitoring,
        !p.keep_export,
        !p.keep_webhook,
        !p.keep_overlay,
    ensures
        !allowed(p, sub),
{
}

/// With Overseer on, everything runs but what has a switch of its own.
pub proof fn lemma_on_allows_everything_else(p: Power, sub: Subsystem)
    requires
        p.overseer_on,
        !(sub is Translation),
        !(sub is TranslationEngine),
    ensures
        allowed(p, sub),
{
}

/// Switching translation changes nothing but translation.
pub proof fn lemma_translation_is_independent(p: Power, on: bool, sub: Subsystem)
    requires
        !(sub is Translation),
        !(sub is TranslationEngine),
    ensures
        allowed(Power { translation_on: on, ..p }, sub) == allowed(p, sub),
{
}

/// What changes the game, or costs frame time, runs only while Overseer is on, whatever the
/// overrides.
pub proof fn lemma_no_override_for_the_game(p: Power, sub: Subsystem)
    requires
        !p.overseer_on,
        sub is Skip || sub is Tempo || sub is Race || sub is Advisor || sub is Profiler,
    ensures
        !allowed(p, sub),
{
}

/// Switching Overseer off and on again restores what was running.
pub proof fn lemma_off_and_on_restores(p: Power, sub: Subsystem)
    requires
        p.overseer_on,
    ensures
        allowed(Power { overseer_on: true, ..Power { overseer_on: false, ..p } }, sub) == allowed(
            p,
            sub,
        ),
{
}

/// Asking for what already is does nothing.
pub proof fn lemma_repeat_is_silent(p: Power, now: u64, profiler: bool)
    ensures
        flipped(p, Power { overseer_on: p.overseer_on, ..p }, now, profiler) == (
            p,
            None::<FanOut>,
        ),
        flipped(p, Power { translation_on: p.translation_on, ..p }, now, profiler) == (
            p,
            None::<FanOut>,
        ),
{
}

/// A subsystem that an override keeps runs while Overseer is on or its own override is set; translation
/// needs its switch beside that.
pub proof fn lemma_overrides(p: Power)
    ensures
        allowed(p, Subsystem::Translation) <==> p.translation_on && (p.overseer_on || p.keep_translation),
        allowed(p, Subsystem::TranslationEngine) <==> p.translation_on && (p.overseer_on
            || p.keep_translation),
        allowed(p, Subsystem::Analysis) <==> p.overseer_on || p.keep_analysis,
        allowed(p, Subsystem::Monitoring) <==> p.overseer_on || p.keep_monitoring,
        allowed(p, Subsystem::Export) <==> p.overseer_on || p.keep_export,
        allowed(p, Subsystem::Webhook) <==> p.overseer_on || p.keep_webhook,
        allowed(p, Subsystem::Overlay) <==> p.overseer_on || p.keep_overlay,
        allowed(p, Subsystem::Skip) <==> p.overseer_on,
        allowed(p, Subsystem::Tempo) <==> p.overseer_on,
        allowed(p, Subsystem::Race) <==> p.overseer_on,
        allowed(p, Subsystem::Advisor) <==> p.overseer_on,
        allowed(p, Subsystem::Profiler) <==> p.overseer_on,
{
}

/// A change tells the engine, the monitor, the profiler and the advisor whether they run.
pub proof fn lemma_fan_out(p: Power, profiler: bool)
    ensures
        fan_out_of(p, profiler).translation <==> p.translation_on && (p.overseer_on || p.keep_translation),
        fan_out_of(p, profiler).suspend_monitoring <==> !p.overseer_on && !p.keep_monitoring,
        fan_out_of(p, profiler).profiler <==> p.overseer_on && profiler,
        fan_out_of(p, profiler).advisor <==> p.overseer_on,
{
}

/// A change counts one generation further and is told; every switch is then as asked.
pub proof fn lemma_flip(p: Power, next: Power, now: u64, profiler: bool)
    requires
        next != p,
        next.generation < u64::MAX,
    ensures
        ({
            let r = flipped(p, next, now, profiler);
            &&& r.0.generation == next.generation + 1
            &&& r.0.last_change_ms == now
            &&& r.0.overseer_on == next.overseer_on && r.0.translation_on == next.translation_on
                && r.0.keep_translation == next.keep_translation && r.0.keep_analysis
                == next.keep_analysis && r.0.keep_monitoring == next.keep_monitoring
                && r.0.keep_export == next.keep_export && r.0.keep_webhook == next.keep_webhook
                && r.0.keep_overlay == next.keep_overlay
            &&& r.1 matches Some(f) && f == fan_out_of(next, profiler)
        }),
{
}

/// The switches are those of the settings, each its own.
pub proof fn lemma_power_of_settings(p: Power, s: Settings, now: u64)
    ensures
        ({
            let r = power_of(p, s, now);
            &&& r.overseer_on == s.power.bot_enabled
            &&& r.translation_on == s.power.translation_enabled
            &&& r.keep_translation == s.power.keep_translation_when_disabled
            &&& r.keep_analysis == s.power.keep_analysis_when_disabled
            &&& r.keep_monitoring == s.power.keep_monitoring_when_disabled
            &&& r.keep_export == s.power.keep_export_when_disabled
            &&& r.keep_webhook == s.power.keep_webhook_when_disabled
            &&& r.keep_overlay == s.power.keep_overlay_when_disabled
            &&& r.last_change_ms == now
            &&& p.generation < u64::MAX ==> r.generation == p.generation + 1
        }),
{
}

} // verus!
