//! Advancing the race result, event choices and in-race playback without the player.

use vstd::prelude::*;

use crate::guard::{age, open_gate};
use crate::guard::Gate;
use crate::race::Race;
use crate::runtime::allowed;
use crate::runtime::{Power, Subsystem};
use crate::skip::inspire::Inspire;
use crate::skip::skill::SkillSkip;
use crate::skip::skill::cleared;
use crate::text::{add_note, has_text, same, same_letters};
use crate::text::{lemma_lowered, lemma_occurs, lowered, occurs, part};
use crate::ui_input::UiInput;
use crate::ui_input::forgot;
use crate::ui_tempo::Tempo;

verus! {

/// How far apart, in milliseconds, presses of one button are.
pub const PRESS_GAP_MS: u64 = 130;

/// How often a tap target is pressed at most.
pub const MULTI_MAX: u32 = 4;

/// How long, in milliseconds, a result sequence is believed to last at most.
pub const WINDOW_CAP_MS: u64 = 300_000;

/// How long, in milliseconds, a locked button is left alone, and how often it is unlocked then.
pub const RR_LIFT_GRACE_MS: u64 = 600;

pub const RR_LIFT_THROTTLE_MS: u64 = 400;

/// After how long, in milliseconds, a sweep over the buttons gets a new first button.
pub const SWEEP_MS: u64 = 100;

/// How far apart, in milliseconds, choices are taken.
pub const AUTOSKIP_GAP_MS: u64 = 250;

/// How long, in milliseconds, an open choice holds the tempo at most.
pub const CHOICE_PIN_CAP_MS: u64 = 10_000;

/// How far apart, in milliseconds, playback and result skips are.
pub const ONCE_GAP_MS: u64 = 300;

/// How far apart, in milliseconds, taps and race skips are.
pub const HYPER_GAP_MS: u64 = 220;

pub const RACESKIP_GAP_MS: u64 = 600;

/// A dialog within this many milliseconds of a race skip means that the skip is locked.
pub const RACESKIP_LOCK_MS: u64 = 1000;

/// How long, in milliseconds, a warning that was recognized may be confirmed.
pub const WARN_CONFIRM_WINDOW_MS: u64 = 6000;

/// How long, in milliseconds, nothing else acts once a dialog was pushed.
pub const DIALOG_GUARD_MS: u64 = 1500;

/// The result window.
#[derive(Clone, Copy, PartialEq, Eq, Structural, Debug)]
pub struct Window {
    pub enabled: bool,
    pub in_team_trials: bool,
    pub gate: Gate,
    pub presses: u64,
    /// When the block on input may be lifted; 0 while no button was found locked.
    pub next_lift: u64,
}

/// A warning that was recognized.
#[derive(Clone, Copy, PartialEq, Eq, Structural, Debug)]
pub struct Warn {
    /// Until when it may be confirmed; 0 for none.
    pub until_ms: u64,
    pub target: usize,
}

/// A sweep over the buttons on screen.
#[derive(Clone, Copy, PartialEq, Eq, Structural, Debug)]
pub struct Sweep {
    /// The button that starts a sweep; 0 for none.
    pub anchor: usize,
    pub last_ms: u64,
}

/// An event choice.
#[derive(Clone, Copy, PartialEq, Eq, Structural, Debug)]
pub struct Choice {
    /// The controller that offers it; 0 for none.
    pub ctrl: usize,
    pub pending: bool,
    pub pending_ms: u64,
    /// The controller whose choice was taken.
    pub selected_for: usize,
    pub last_ms: u64,
}

/// The fast-forward button of a race.
#[derive(Clone, Copy, PartialEq, Eq, Structural, Debug)]
pub struct FastForward {
    pub ui: usize,
    pub shown: bool,
    pub pressed_for: usize,
    pub last_ms: u64,
}

/// The result scene of a race.
#[derive(Clone, Copy, PartialEq, Eq, Structural, Debug)]
pub struct Scene {
    pub ui: usize,
    pub skipped_for: usize,
    pub last_ms: u64,
    pub skips: u64,
}

/// Tapping through.
#[derive(Clone, Copy, PartialEq, Eq, Structural, Debug)]
pub struct Hyper {
    pub last_ms: u64,
    pub raceskip_ms: u64,
}

/// Everything that is advanced.
#[derive(Clone, Copy, PartialEq, Eq, Structural, Debug)]
pub struct ResultSkip {
    pub window: Window,
    pub warn: Warn,
    pub sweep: Sweep,
    pub choice: Choice,
    pub ff: FastForward,
    pub scene: Scene,
    pub hyper: Hyper,
    pub dialog_guard_until: u64,
    /// When a career view was last seen; 0 for not.
    pub career_ms: u64,
}

/// An instant `ms` milliseconds from now.
pub open spec fn later(now: u64, ms: u64) -> u64 {
    if now + ms > u64::MAX {
        u64::MAX
    } else {
        (now + ms) as u64
    }
}

/// An instant `ms` milliseconds from now.
pub fn saturating_later(now: u64, ms: u64) -> (r: u64)
    ensures
        r == later(now, ms),
{
    now.saturating_add(ms)
}

/// Nothing is advanced yet.
pub fn new_result_skip(enabled: bool) -> (r: ResultSkip)
    ensures
        r.window == (Window {
            enabled,
            in_team_trials: false,
            gate: Gate { armed: false, since_ms: 0, cap_ms: WINDOW_CAP_MS },
            presses: 0,
            next_lift: 0,
        }),
        r.warn == (Warn { until_ms: 0, target: 0 }),
        r.sweep == (Sweep { anchor: 0, last_ms: 0 }),
        r.choice == (Choice {
            ctrl: 0,
            pending: false,
            pending_ms: 0,
            selected_for: 0,
            last_ms: 0,
        }),
        r.ff == (FastForward { ui: 0, shown: false, pressed_for: 0, last_ms: 0 }),
        r.scene == (Scene { ui: 0, skipped_for: 0, last_ms: 0, skips: 0 }),
        r.hyper == (Hyper { last_ms: 0, raceskip_ms: 0 }),
        r.dialog_guard_until == 0,
        r.career_ms == 0,
{
    ResultSkip {
        window: Window {
            enabled,
            in_team_trials: false,
            gate: Gate::new(WINDOW_CAP_MS),
            presses: 0,
            next_lift: 0,
        },
        warn: Warn { until_ms: 0, target: 0 },
        sweep: Sweep { anchor: 0, last_ms: 0 },
        choice: Choice { ctrl: 0, pending: false, pending_ms: 0, selected_for: 0, last_ms: 0 },
        ff: FastForward { ui: 0, shown: false, pressed_for: 0, last_ms: 0 },
        scene: Scene { ui: 0, skipped_for: 0, last_ms: 0, skips: 0 },
        hyper: Hyper { last_ms: 0, raceskip_ms: 0 },
        dialog_guard_until: 0,
        career_ms: 0,
    }
}

/// Whether the player won.
pub open spec fn won(race: Race) -> bool {
    race.finish_order == 1
}

/// Whether a lost race cannot be retried.
pub open spec fn retries_exhausted(race: Race) -> bool {
    race.continues == 0
}

/// Whether the result of a race is advanced: the feature is on, this is a career, and the player won
/// or could not retry.
pub open spec fn advances(w: Window, career: bool, race: Race) -> bool {
    w.enabled && !w.in_team_trials && career && (won(race) || retries_exhausted(race))
}

/// Whether the result of a race is advanced.
pub fn rr_should_advance(w: &Window, career: bool, race: &Race) -> (r: bool)
    ensures
        r == advances(*w, career, *race),
{
    if !w.enabled || w.in_team_trials || !career {
        return false;
    }
    race.finish_order == 1 || race.continues == 0
}

/// Whether a button is one of those that advance or dismiss a result screen.
pub open spec fn target_name(name: Seq<char>) -> bool {
    name == "ButtonCommon"@ || name == "ButtonCenter"@ || name == "NextButton"@ || name
        == "ScreenTap"@ || name == "SingleModeNextButton"@ || name == "TouchSprite"@ || name
        == "ContinueButton"@
}

/// Whether a button is pressed more than once.
pub open spec fn multi_name(name: Seq<char>) -> bool {
    name == "ScreenTap"@ || name == "TouchSprite"@ || name == "ButtonCommon"@ || name
        == "ButtonCenter"@
}

/// Whether a button advances a result screen.
pub open spec fn advance_name(name: Seq<char>) -> bool {
    name == "NextButton"@ || name == "SingleModeNextButton"@ || name == "ContinueButton"@
}

/// Whether a button may be pressed after a race: on a loss without retries only those that advance to
/// the next screen, for anything else there may confirm a purchase.
pub open spec fn allowed_name(race: Race, name: Seq<char>) -> bool {
    if !won(race) && retries_exhausted(race) {
        name == "NextButton"@ || name == "SingleModeNextButton"@
    } else {
        target_name(name)
    }
}

/// Whether a button is one of those that advance or dismiss a result screen.
pub fn is_press_target(name: &str) -> (r: bool)
    ensures
        r == target_name(name@),
{
    same(name, "ButtonCommon") || same(name, "ButtonCenter") || same(name, "NextButton") || same(
        name,
        "ScreenTap",
    ) || same(name, "SingleModeNextButton") || same(name, "TouchSprite") || same(
        name,
        "ContinueButton",
    )
}

/// Whether a button is pressed more than once.
pub fn is_multi(name: &str) -> (r: bool)
    ensures
        r == multi_name(name@),
{
    same(name, "ScreenTap") || same(name, "TouchSprite") || same(name, "ButtonCommon") || same(
        name,
        "ButtonCenter",
    )
}

/// Whether a button advances a result screen.
pub fn is_advance_button(name: &str) -> (r: bool)
    ensures
        r == advance_name(name@),
{
    same(name, "NextButton") || same(name, "SingleModeNextButton") || same(name, "ContinueButton")
}

/// Whether a button may be pressed after a race.
pub fn press_allowed(race: &Race, name: &str) -> (r: bool)
    ensures
        r == allowed_name(*race, name@),
{
    if race.finish_order != 1 && race.continues == 0 {
        return same(name, "NextButton") || same(name, "SingleModeNextButton");
    }
    is_press_target(name)
}

/// What is left once the result window is forgotten.
pub open spec fn caches_cleared(r: ResultSkip) -> ResultSkip {
    ResultSkip {
        window: Window { next_lift: 0, ..r.window },
        warn: Warn { until_ms: 0, target: 0 },
        ..r
    }
}

/// Forget the result window: what the click engine remembers, and a warning to confirm.
pub fn clear_rr_caches(r: &mut ResultSkip, u: &mut UiInput)
    ensures
        *final(r) == caches_cleared(*old(r)),
        forgot(*final(u)),
        final(u).busy == old(u).busy,
{
    crate::ui_input::clear_caches(u);
    r.window.next_lift = 0;
    r.warn = Warn { until_ms: 0, target: 0 };
}

/// A result after its window was disarmed.
pub open spec fn disarmed(r: ResultSkip) -> ResultSkip {
    ResultSkip {
        window: Window { gate: Gate { armed: false, ..r.window.gate }, ..r.window },
        ..r
    }
}

/// Close a result window that outlived every plausible result. Returns whether there was one.
pub fn reap_window(r: &mut ResultSkip, u: &mut UiInput, now: u64) -> (b: bool)
    ensures
        b == (old(r).window.gate.armed && !open_gate(old(r).window.gate, now)),
        b ==> *final(r) == caches_cleared(disarmed(*old(r))) && forgot(*final(u)),
        b ==> final(u).busy == old(u).busy,
        !b ==> *final(r) == *old(r) && *final(u) == *old(u),
{
    if r.window.gate.raw() && !r.window.gate.is_open(now) {
        let _ = r.window.gate.disarm();
        clear_rr_caches(r, u);
        return true;
    }
    false
}

/// Close the result window. Returns whether it was armed.
pub fn force_disarm(r: &mut ResultSkip, u: &mut UiInput) -> (b: bool)
    ensures
        b == old(r).window.gate.armed,
        b ==> *final(r) == caches_cleared(disarmed(*old(r))) && forgot(*final(u)),
        b ==> final(u).busy == old(u).busy,
        !b ==> *final(r) == disarmed(*old(r)) && *final(u) == *old(u),
{
    if r.window.gate.disarm() {
        clear_rr_caches(r, u);
        return true;
    }
    false
}

/// Whether a button starts a sweep: the first one seen, the same one again, or another one once that
/// one has been gone for a while.
pub open spec fn starts_sweep(s: Sweep, button: usize, now: u64) -> bool {
    s.anchor == 0 || s.anchor == button || age(now, s.last_ms) >= SWEEP_MS
}

/// A button is updated: whether it starts a sweep over the buttons.
pub fn once_per_sweep(s: &mut Sweep, button: usize, now: u64) -> (r: bool)
    ensures
        r == starts_sweep(*old(s), button, now),
        *final(s) == (if r {
            Sweep { anchor: button, last_ms: now }
        } else {
            *old(s)
        }),
{
    if s.anchor == 0 || s.anchor == button || now.saturating_sub(s.last_ms) >= SWEEP_MS {
        s.anchor = button;
        s.last_ms = now;
        return true;
    }
    false
}

/// What is done when a button is updated.
#[derive(Clone, Copy, PartialEq, Eq, Structural, Debug)]
pub struct ButtonPlan {
    /// Skips may not act at all.
    pub suspended: bool,
    /// Do what is done once for all buttons.
    pub sweep: bool,
    /// The shop waits for its back button, a warning for its confirmation, the skill screen for a
    /// button.
    pub want_shop: bool,
    pub want_warn: bool,
    pub want_skill: bool,
    /// The button's name is needed.
    pub want_name: bool,
}

/// What is done when a button is updated. `shop_until` is until when the shop waits for its back button;
/// `skill` whether the skill screen waits for a button; `ours` whether one of our own calls runs.
pub fn on_button_update(
    r: &mut ResultSkip,
    p: &Power,
    button: usize,
    shop_on: bool,
    shop_until: u64,
    skill: bool,
    ours: bool,
    now: u64,
) -> (b: ButtonPlan)
    ensures
        b.suspended == !allowed(*p, Subsystem::Skip),
        b.sweep == starts_sweep(old(r).sweep, button, now),
        b.want_shop == (!b.suspended && shop_on && now < shop_until),
        b.want_warn == (!b.suspended && now < old(r).warn.until_ms),
        b.want_skill == (!b.suspended && skill),
        b.want_name == (!ours && (b.want_shop || b.want_warn || b.want_skill)),
        *final(r) == (ResultSkip {
            sweep: if b.sweep {
                Sweep { anchor: button, last_ms: now }
            } else {
                old(r).sweep
            },
            ..*old(r)
        }),
{
    let suspended: bool = !crate::runtime::active(p, Subsystem::Skip);
    let sweep: bool = once_per_sweep(&mut r.sweep, button, now);
    let want_shop: bool = !suspended && shop_on && now < shop_until;
    let want_warn: bool = !suspended && now < r.warn.until_ms;
    let want_skill: bool = !suspended && skill;
    ButtonPlan {
        suspended,
        sweep,
        want_shop,
        want_warn,
        want_skill,
        want_name: !ours && (want_shop || want_warn || want_skill),
    }
}

/// Whether the buttons and dialogs of a race result are acted on: the result is advanced, its window
/// is open, and no call of ours runs.
pub fn result_acts(w: &Window, career: bool, race: &Race, ours: bool, now: u64) -> (r: bool)
    ensures
        r == (advances(*w, career, *race) && open_gate(w.gate, now) && !ours),
{
    rr_should_advance(w, career, race) && w.gate.is_open(now) && !ours
}

/// A choice opens: hold the tempo until it is taken, and allow one selection.
pub fn on_choice_setup(c: &mut Choice, ctrl: usize, now: u64)
    ensures
        *final(c) == (Choice {
            ctrl,
            pending: true,
            pending_ms: now,
            selected_for: 0,
            ..*old(c)
        }),
{
    c.ctrl = ctrl;
    c.pending = true;
    c.pending_ms = now;
    c.selected_for = 0;
}

/// Whether a choice is open and not taken.
pub open spec fn choice_open(c: Choice, now: u64) -> bool {
    c.pending && age(now, c.pending_ms) < CHOICE_PIN_CAP_MS
}

/// Whether a choice is open and not taken.
pub fn choice_pending(c: &Choice, now: u64) -> (r: bool)
    ensures
        r == choice_open(*c, now),
{
    c.pending && now.saturating_sub(c.pending_ms) < CHOICE_PIN_CAP_MS
}

/// What is known of the controller of a choice.
#[derive(Clone, Copy, PartialEq, Eq, Structural, Debug)]
pub struct ChoiceSight {
    /// Choices are taken, and no call of ours runs.
    pub acting: bool,
    /// The game's functions were found.
    pub resolved: bool,
    pub destroyed: bool,
    /// The game waits for a selection.
    pub waiting: bool,
}

/// Whether a choice is looked at.
pub open spec fn looks_at_choice(c: Choice, s: ChoiceSight, now: u64) -> bool {
    s.acting && s.resolved && c.ctrl != 0 && age(now, c.last_ms) >= AUTOSKIP_GAP_MS
}

/// Whether the first option of a choice is taken: the game waits for it, and it was not taken yet.
pub open spec fn takes_choice(c: Choice, s: ChoiceSight, now: u64) -> bool {
    looks_at_choice(c, s, now) && !s.destroyed && s.waiting && c.selected_for != c.ctrl
}

/// Take the first option of an open choice, once. Returns whether it is taken now.
pub fn drive_event_choice(c: &mut Choice, s: &ChoiceSight, now: u64) -> (r: bool)
    ensures
        r == takes_choice(*old(c), *s, now),
        *final(c) == (if r {
            Choice { selected_for: old(c).ctrl, last_ms: now, pending: false, ..*old(c) }
        } else if looks_at_choice(*old(c), *s, now) && s.destroyed {
            Choice { ctrl: 0, pending: false, ..*old(c) }
        } else {
            *old(c)
        }),
{
    if !s.acting || !s.resolved || c.ctrl == 0 {
        return false;
    }
    if now.saturating_sub(c.last_ms) < AUTOSKIP_GAP_MS {
        return false;
    }
    if s.destroyed {
        c.ctrl = 0;
        c.pending = false;
        return false;
    }
    if !s.waiting || c.selected_for == c.ctrl {
        return false;
    }
    c.selected_for = c.ctrl;
    c.last_ms = now;
    c.pending = false;
    true
}

/// The fast-forward button of a race appeared.
pub fn on_ff_awake(f: &mut FastForward, ui: usize)
    ensures
        *final(f) == (FastForward { ui, ..*old(f) }),
{
    f.ui = ui;
}

/// The fast-forward button is shown or hidden; another one that is shown may be pressed.
pub fn on_ff_setvisible(f: &mut FastForward, ui: usize, shown: bool)
    ensures
        *final(f) == (FastForward {
            ui,
            shown,
            pressed_for: if shown && old(f).pressed_for != ui {
                0
            } else {
                old(f).pressed_for
            },
            ..*old(f)
        }),
{
    f.ui = ui;
    f.shown = shown;
    if shown && f.pressed_for != ui {
        f.pressed_for = 0;
    }
}

/// Whether the fast-forward button is looked at: the feature acts, its function was found, and the
/// button was not pressed yet.
pub open spec fn looks_at_ff(f: FastForward, acting: bool, resolved: bool) -> bool {
    acting && resolved && f.ui != 0 && f.pressed_for != f.ui
}

/// Whether the fast-forward button is pressed. `visible` is what the button says of itself, where it
/// can be asked.
pub open spec fn presses_ff(
    f: FastForward,
    acting: bool,
    resolved: bool,
    destroyed: bool,
    visible: Option<bool>,
    now: u64,
) -> bool {
    looks_at_ff(f, acting, resolved) && !destroyed && (f.shown || visible == Some(true)) && age(
        now,
        f.last_ms,
    ) >= ONCE_GAP_MS
}

/// Press the fast-forward button of a race, once. Returns whether it is pressed now.
pub fn drive_race_ff(
    f: &mut FastForward,
    acting: bool,
    resolved: bool,
    destroyed: bool,
    visible: Option<bool>,
    now: u64,
) -> (r: bool)
    ensures
        r == presses_ff(*old(f), acting, resolved, destroyed, visible, now),
        *final(f) == (if r {
            FastForward { pressed_for: old(f).ui, last_ms: now, ..*old(f) }
        } else if looks_at_ff(*old(f), acting, resolved) && destroyed {
            FastForward { ui: 0, shown: false, ..*old(f) }
        } else {
            *old(f)
        }),
{
    if !acting || !resolved || f.ui == 0 || f.pressed_for == f.ui {
        return false;
    }
    if destroyed {
        f.ui = 0;
        f.shown = false;
        return false;
    }
    let on_screen: bool = f.shown || match visible {
        Some(v) => v,
        None => false,
    };
    if !on_screen || now.saturating_sub(f.last_ms) < ONCE_GAP_MS {
        return false;
    }
    f.last_ms = now;
    f.pressed_for = f.ui;
    true
}

/// The result scene of a race appeared; another one may be skipped. Returns whether it is another one.
pub fn capture_result_ui(s: &mut Scene, ui: usize) -> (r: bool)
    ensures
        r == (old(s).ui != ui),
        *final(s) == (Scene {
            ui,
            skipped_for: if r {
                0
            } else {
                old(s).skipped_for
            },
            ..*old(s)
        }),
{
    let fresh: bool = s.ui != ui;
    s.ui = ui;
    if fresh {
        s.skipped_for = 0;
    }
    fresh
}

/// Whether the result scene is looked at: the result is advanced after a win, its window is open,
/// and the scene was not skipped yet.
pub open spec fn looks_at_scene(
    r: ResultSkip,
    race: Race,
    career: bool,
    stood_down: bool,
    ours: bool,
    resolved: bool,
    now: u64,
) -> bool {
    &&& !ours
    &&& !stood_down
    &&& open_gate(r.window.gate, now)
    &&& advances(r.window, career, race)
    &&& won(race)
    &&& resolved
    &&& r.scene.ui != 0
    &&& r.scene.skipped_for != r.scene.ui
}

/// Skip the result scene of a race that was won, once. Returns whether it is skipped now. `stood_down`
/// says whether the result skip was told to keep still.
pub fn drive_result_skip(
    r: &mut ResultSkip,
    race: &Race,
    career: bool,
    stood_down: bool,
    ours: bool,
    resolved: bool,
    destroyed: bool,
    now: u64,
) -> (b: bool)
    ensures
        b == (looks_at_scene(*old(r), *race, career, stood_down, ours, resolved, now) && !destroyed
            && age(now, old(r).scene.last_ms) >= ONCE_GAP_MS),
        *final(r) == (ResultSkip {
            scene: if b {
                Scene {
                    skipped_for: old(r).scene.ui,
                    last_ms: now,
                    skips: old(r).scene.skips.wrapping_add(1),
                    ..old(r).scene
                }
            } else if looks_at_scene(*old(r), *race, career, stood_down, ours, resolved, now)
                && destroyed {
                Scene { ui: 0, ..old(r).scene }
            } else {
                old(r).scene
            },
            ..*old(r)
        }),
{
    if ours || stood_down || !r.window.gate.is_open(now) || !rr_should_advance(
        &r.window,
        career,
        race,
    ) || race.finish_order != 1 {
        return false;
    }
    if !resolved || r.scene.ui == 0 || r.scene.skipped_for == r.scene.ui {
        return false;
    }
    if destroyed {
        r.scene.ui = 0;
        return false;
    }
    if now.saturating_sub(r.scene.last_ms) < ONCE_GAP_MS {
        return false;
    }
    r.scene.last_ms = now;
    r.scene.skipped_for = r.scene.ui;
    r.scene.skips = r.scene.skips.wrapping_add(1);
    true
}

/// Whether a button skips the race.
pub open spec fn skips_race(name: Seq<char>) -> bool {
    occurs(name, "RaceSkipButton"@)
}

/// How far apart presses of a button are while tapping through.
pub open spec fn hyper_gap(name: Seq<char>) -> u64 {
    if skips_race(name) {
        RACESKIP_GAP_MS
    } else {
        HYPER_GAP_MS
    }
}

/// Whether a button is clicked while tapping through: the race skip until the result window opens,
/// and the bare tap targets, but never over an open choice.
pub open spec fn taps(r: ResultSkip, acting: bool, career: bool, name: Seq<char>, now: u64) -> bool {
    &&& acting
    &&& !r.window.in_team_trials
    &&& career
    &&& age(now, r.hyper.last_ms) >= hyper_gap(name)
    &&& if skips_race(name) {
        !open_gate(r.window.gate, now)
    } else {
        (name == "ScreenTap"@ || name == "TouchSprite"@) && !choice_open(r.choice, now)
    }
}

/// Whether a button is clicked while tapping through. `acting` says whether tapping is on and no call of
/// ours runs.
pub fn hyper_tick(r: &ResultSkip, acting: bool, career: bool, name: &str, now: u64) -> (b: bool)
    ensures
        b == taps(*r, acting, career, name@, now),
{
    if !acting || r.window.in_team_trials || !career {
        return false;
    }
    let race_skip: bool = has_text(name, "RaceSkipButton");
    let gap: u64 = if race_skip {
        RACESKIP_GAP_MS
    } else {
        HYPER_GAP_MS
    };
    if now.saturating_sub(r.hyper.last_ms) < gap {
        return false;
    }
    if race_skip {
        return !r.window.gate.is_open(now);
    }
    (same(name, "ScreenTap") || same(name, "TouchSprite")) && !choice_pending(&r.choice, now)
}

/// A button was clicked while tapping through.
pub fn hyper_clicked(h: &mut Hyper, name: &str, now: u64)
    ensures
        *final(h) == (Hyper {
            last_ms: now,
            raceskip_ms: if skips_race(name@) {
                now
            } else {
                old(h).raceskip_ms
            },
        }),
{
    h.last_ms = now;
    if has_text(name, "RaceSkipButton") {
        h.raceskip_ms = now;
    }
}

/// A dialog was pushed: whether tapping through is switched off, because a race skip right before
/// turned out to be locked.
pub fn hyper_safety_on_dialog(h: &Hyper, on: bool, now: u64) -> (r: bool)
    ensures
        r == (on && age(now, h.raceskip_ms) < RACESKIP_LOCK_MS),
{
    on && now.saturating_sub(h.raceskip_ms) < RACESKIP_LOCK_MS
}

/// Whether a click arms the result window.
pub open spec fn arms(r: ResultSkip, ours: bool, career: bool, name: Seq<char>) -> bool {
    r.window.enabled && !ours && skips_race(name) && !r.window.gate.armed
        && !r.window.in_team_trials && career
}

/// A button was clicked, by the player or by us. The race skip arms the result window. Returns
/// whether it did.
pub fn on_pointer_click(
    r: &mut ResultSkip,
    u: &mut UiInput,
    ours: bool,
    career: bool,
    name: &str,
    now: u64,
) -> (b: bool)
    ensures
        b == arms(*old(r), ours, career, name@),
        b ==> {
            &&& *final(r) == caches_cleared(
                ResultSkip {
                    window: Window {
                        gate: Gate { armed: true, since_ms: now, ..old(r).window.gate },
                        ..old(r).window
                    },
                    ..*old(r)
                },
            )
            &&& forgot(*final(u))
            &&& final(u).busy == old(u).busy
        },
        !b ==> *final(r) == *old(r) && *final(u) == *old(u),
{
    if !r.window.enabled || ours || !has_text(name, "RaceSkipButton") {
        return false;
    }
    if r.window.gate.raw() || r.window.in_team_trials || !career {
        return false;
    }
    r.window.gate.arm(now);
    clear_rr_caches(r, u);
    true
}

/// A career view is on: the lobby is left, the result window closes, and what waited for a screen is
/// forgotten. Returns whether the window was armed.
pub fn on_change_main_view(
    r: &mut ResultSkip,
    u: &mut UiInput,
    t: &mut Tempo,
    s: &mut SkillSkip,
    i: &mut Inspire,
    now: u64,
) -> (b: bool)
    ensures
        b == old(r).window.gate.armed,
        *final(t) == (Tempo { home_active: false, ..*old(t) }),
        *final(s) == cleared(*old(s)),
        *final(i) == (Inspire { ctrl: 0, pressed_for: 0, captured_ms: 0 }),
        ({
            let seen = ResultSkip {
                career_ms: now,
                window: Window { in_team_trials: false, ..old(r).window },
                ..*old(r)
            };
            &&& b ==> *final(r) == caches_cleared(disarmed(seen)) && forgot(*final(u))
            &&& !b ==> *final(r) == disarmed(seen) && *final(u) == *old(u)
        }),
{
    crate::ui_tempo::set_home_active(t, false);
    r.career_ms = now;
    crate::skip::inspire::clear(i);
    r.window.in_team_trials = false;
    let _ = crate::skip::skill::clear_all(s);
    force_disarm(r, u)
}

/// The lobby is reached: the career is over, and nothing that waited for one of its screens is left.
/// Returns whether the result window was armed.
pub fn on_home_in(
    r: &mut ResultSkip,
    u: &mut UiInput,
    t: &mut Tempo,
    s: &mut SkillSkip,
    i: &mut Inspire,
) -> (b: bool)
    ensures
        b == old(r).window.gate.armed,
        *final(t) == (Tempo { home_active: true, gacha_active: false, ..*old(t) }),
        *final(s) == cleared(*old(s)),
        *final(i) == (Inspire { ctrl: 0, pressed_for: 0, captured_ms: 0 }),
        ({
            let gone = ResultSkip { career_ms: 0, ..*old(r) };
            &&& b ==> *final(r) == caches_cleared(disarmed(gone)) && forgot(*final(u))
            &&& !b ==> *final(r) == disarmed(gone) && *final(u) == *old(u)
        }),
{
    r.career_ms = 0;
    crate::skip::inspire::clear(i);
    crate::ui_tempo::set_home_active(t, true);
    crate::ui_tempo::set_gacha_active(t, false, 0);
    let _ = crate::skip::skill::clear_all(s);
    force_disarm(r, u)
}

/// The lobby is left.
pub fn on_home_out(t: &mut Tempo)
    ensures
        *final(t) == (Tempo { home_active: false, ..*old(t) }),
{
    crate::ui_tempo::set_home_active(t, false);
}

/// The scout screen comes up.
pub fn on_gacha_begin(t: &mut Tempo, now: u64)
    ensures
        *final(t) == (Tempo { gacha_active: true, gacha_since_ms: now, ..*old(t) }),
{
    crate::ui_tempo::set_gacha_active(t, true, now);
}

/// Whether the title of a dialog says that it is a warning.
pub open spec fn warning_title(t: Seq<char>) -> bool {
    t == "Warning"@ || t == "Caution"@ || t == "Notice"@ || t == "Avertissement"@ || t
        == "Attention"@ || t == "警告"@ || t == "警示"@ || t == "注意"@ || t == "Advertencia"@ || t
        == "Aviso"@ || t == "Warnung"@ || t == "Achtung"@ || t == "Avviso"@ || t == "Attenzione"@
        || t == "경고"@ || t == "주의"@
}

/// Whether a dialog is a plain warning: titled as one, with an OK on the right and another button on
/// the left.
pub open spec fn is_warning(title: Seq<char>, right: Seq<char>, left: Seq<char>) -> bool {
    warning_title(title) && (lowered(right) == lowered("ok"@) || lowered(right) == lowered(
        "d'accord"@,
    )) && left.len() > 0
}

/// Whether a dialog is a plain warning.
pub fn warning_data_matches(title: &str, right: &str, left: &str) -> (r: bool)
    ensures
        r == is_warning(title@, right@, left@),
{
    let warning: bool = same(title, "Warning") || same(title, "Caution") || same(title, "Notice")
        || same(title, "Avertissement") || same(title, "Attention") || same(title, "警告") || same(
        title,
        "警示",
    ) || same(title, "注意") || same(title, "Advertencia") || same(title, "Aviso") || same(
        title,
        "Warnung",
    ) || same(title, "Achtung") || same(title, "Avviso") || same(title, "Attenzione") || same(
        title,
        "경고",
    ) || same(title, "주의");
    warning && (same_letters(right, "ok") || same_letters(right, "d'accord")) && left.unicode_len()
        > 0
}

/// A dialog was pushed: wait for the confirmation of a plain warning in a career. Returns whether it is
/// one.
pub fn try_arm_warning_confirm(
    r: &mut ResultSkip,
    on: bool,
    career: bool,
    matches: bool,
    target: usize,
    now: u64,
) -> (b: bool)
    ensures
        b == (on && career && matches),
        *final(r) == (if b {
            ResultSkip {
                warn: Warn { until_ms: later(now, WARN_CONFIRM_WINDOW_MS), target },
                career_ms: now,
                ..*old(r)
            }
        } else {
            *old(r)
        }),
{
    if !on || !career || !matches {
        return false;
    }
    r.warn = Warn { until_ms: saturating_later(now, WARN_CONFIRM_WINDOW_MS), target };
    r.career_ms = now;
    true
}

/// Whether a dialog is still the one in front. `front` is the dialog in front, where that can be
/// asked; 0 for none.
pub fn data_still_frontmost(target: usize, front: Option<usize>, own: usize) -> (r: bool)
    ensures
        r == (target != 0 && match front {
            Some(f) => f != 0 && f == own,
            None => true,
        }),
{
    target != 0 && match front {
        Some(f) => f != 0 && f == own,
        None => true,
    }
}

/// Whether a button confirms the warning: it is the right one, and the warning that was recognized
/// still is a warning and still in front.
pub fn warn_confirms(
    w: &Warn,
    name: &str,
    matches: bool,
    frontmost: bool,
    ours: bool,
    now: u64,
) -> (r: bool)
    ensures
        r == (now < w.until_ms && !ours && name@ == "ButtonRight"@ && w.target != 0 && matches
            && frontmost),
{
    now < w.until_ms && !ours && same(name, "ButtonRight") && w.target != 0 && matches && frontmost
}

/// The warning was confirmed.
pub fn warn_clicked(w: &mut Warn)
    ensures
        *final(w) == (Warn { until_ms: 0, target: 0 }),
{
    w.until_ms = 0;
    w.target = 0;
}

/// A dialog is about to be pushed: nothing else acts for a while.
pub fn on_push(r: &mut ResultSkip, now: u64)
    ensures
        *final(r) == (ResultSkip { dialog_guard_until: later(now, DIALOG_GUARD_MS), ..*old(r) }),
{
    r.dialog_guard_until = saturating_later(now, DIALOG_GUARD_MS);
}

/// What was found of the game at startup.
pub struct Wiring {
    pub button_class: bool,
    pub view_class: bool,
    pub button_name: bool,
    pub click: bool,
    pub event_ctor: bool,
    /// Whether the buttons, the clicks and the view changes are watched, or why not.
    pub update: Result<(), String>,
    pub pointer_click: Result<(), String>,
    pub change_view: Result<(), String>,
    pub home: HomeWiring,
    pub dialogs: DialogWiring,
    pub race: RaceWiring,
}

/// What was found of the lobby and the scout screen.
#[derive(Clone, Copy, PartialEq, Eq, Structural, Debug)]
pub struct HomeWiring {
    pub home_class: bool,
    pub home_in: bool,
    pub gacha_class: bool,
    pub gacha_begin: bool,
    pub gacha_init: bool,
}

/// What was found of dialogs and choices.
#[derive(Clone, Copy, PartialEq, Eq, Structural, Debug)]
pub struct DialogWiring {
    pub manager: bool,
    pub push: bool,
    pub push_sequence: bool,
    pub choice_class: bool,
    pub choice_waits: bool,
    pub choice_select: bool,
}

/// What was found of fast-forward and of the result scene.
#[derive(Clone, Copy, PartialEq, Eq, Structural, Debug)]
pub struct RaceWiring {
    pub ff_class: bool,
    pub ff_push: bool,
    pub ff_visible: bool,
    pub scene_class: bool,
    pub scene_setup: bool,
    pub scene_finish: bool,
    pub scene_skip: bool,
    pub scene_skip_plain: bool,
}

/// What is noted of the lobby and the scout screen.
pub open spec fn home_notes(h: HomeWiring) -> Seq<char> {
    ""@ + part(!h.home_class, "home view miss (heartbeat-only gate); "@) + part(
        h.home_class && !h.home_in,
        "home hook miss; "@,
    ) + part(!h.gacha_class, "gacha view miss (no scout 1x pin); "@) + part(
        h.gacha_class && !h.gacha_begin && !h.gacha_init,
        "gacha 1x pin hook miss; "@,
    )
}

/// What is noted of dialogs.
pub open spec fn dialog_notes(d: DialogWiring) -> Seq<char> {
    ""@ + part(!d.manager, "dialog-mgr miss (no auto-close); "@) + part(
        d.manager && !d.push,
        "push1 miss; "@,
    ) + part(d.manager && !d.push_sequence, "push2 miss; "@)
}

/// What is noted of choices.
pub open spec fn choice_notes(d: DialogWiring) -> Seq<char> {
    ""@ + part(!d.choice_class, "choice controller miss (no auto event-choice); "@) + part(
        d.choice_class && (!d.choice_waits || !d.choice_select),
        "choice select/iswait miss; "@,
    )
}

/// What is noted of fast-forward.
pub open spec fn ff_notes(r: RaceWiring) -> Seq<char> {
    ""@ + part(!r.ff_class, "race FF class miss; "@) + part(
        r.ff_class && !r.ff_push,
        "race FF push miss; "@,
    ) + part(r.ff_class && !r.ff_visible, "race FF SetVisible hook miss; "@)
}

/// What is noted of the result scene.
pub open spec fn scene_notes(r: RaceWiring) -> Seq<char> {
    ""@ + part(!r.scene_class, "race-result scene class miss (press-only); "@) + part(
        r.scene_class && !r.scene_skip && !r.scene_skip_plain,
        "race-result skip method miss (press-only); "@,
    ) + part(
        r.scene_class && !r.scene_setup && !r.scene_finish,
        "race-result capture hook miss (press-only); "@,
    )
}

/// Why the result skip cannot be installed, if it cannot.
pub open spec fn wiring_error(w: Wiring) -> Option<Seq<char>> {
    if !w.button_class {
        Some("anchor miss"@)
    } else if !w.view_class {
        Some("view-mgr miss"@)
    } else if !w.click {
        Some("click miss"@)
    } else if w.update is Err {
        Some((w.update->Err_0)@)
    } else if w.pointer_click is Err {
        Some((w.pointer_click->Err_0)@)
    } else if w.change_view is Err {
        Some((w.change_view->Err_0)@)
    } else {
        None
    }
}

/// What is noted of an installation that went through.
pub open spec fn wiring_notes(w: Wiring) -> Seq<char> {
    ""@ + part(!w.button_name, "name miss; "@) + part(!w.event_ctor, "evt ctor miss; "@)
        + home_notes(w.home) + dialog_notes(w.dialogs) + ff_notes(w.race) + choice_notes(w.dialogs)
        + scene_notes(w.race)
}

/// Note what was found of the lobby and the scout screen.
fn note_home(h: &HomeWiring) -> (r: String)
    ensures
        r@ == home_notes(*h),
{
    let mut s: String = "".to_owned();
    add_note(&mut s, !h.home_class, "home view miss (heartbeat-only gate); ");
    add_note(&mut s, h.home_class && !h.home_in, "home hook miss; ");
    add_note(&mut s, !h.gacha_class, "gacha view miss (no scout 1x pin); ");
    add_note(
        &mut s,
        h.gacha_class && !h.gacha_begin && !h.gacha_init,
        "gacha 1x pin hook miss; ",
    );
    s
}

/// Note what was found of dialogs.
fn note_dialogs(d: &DialogWiring) -> (r: String)
    ensures
        r@ == dialog_notes(*d),
{
    let mut s: String = "".to_owned();
    add_note(&mut s, !d.manager, "dialog-mgr miss (no auto-close); ");
    add_note(&mut s, d.manager && !d.push, "push1 miss; ");
    add_note(&mut s, d.manager && !d.push_sequence, "push2 miss; ");
    s
}

/// Note what was found of choices.
fn note_choices(d: &DialogWiring) -> (r: String)
    ensures
        r@ == choice_notes(*d),
{
    let mut s: String = "".to_owned();
    add_note(&mut s, !d.choice_class, "choice controller miss (no auto event-choice); ");
    add_note(
        &mut s,
        d.choice_class && (!d.choice_waits || !d.choice_select),
        "choice select/iswait miss; ",
    );
    s
}

/// Note what was found of fast-forward.
fn note_ff(r: &RaceWiring) -> (n: String)
    ensures
        n@ == ff_notes(*r),
{
    let mut s: String = "".to_owned();
    add_note(&mut s, !r.ff_class, "race FF class miss; ");
    add_note(&mut s, r.ff_class && !r.ff_push, "race FF push miss; ");
    add_note(&mut s, r.ff_class && !r.ff_visible, "race FF SetVisible hook miss; ");
    s
}

/// Note what was found of the result scene.
fn note_scene(r: &RaceWiring) -> (n: String)
    ensures
        n@ == scene_notes(*r),
{
    let mut s: String = "".to_owned();
    add_note(&mut s, !r.scene_class, "race-result scene class miss (press-only); ");
    add_note(
        &mut s,
        r.scene_class && !r.scene_skip && !r.scene_skip_plain,
        "race-result skip method miss (press-only); ",
    );
    add_note(
        &mut s,
        r.scene_class && !r.scene_setup && !r.scene_finish,
        "race-result capture hook miss (press-only); ",
    );
    s
}

/// Whether the result skip can be installed with what was found of the game: notes on what is missing,
/// or why it cannot.
pub fn install_race_result(w: &Wiring) -> (r: Result<String, String>)
    ensures
        (match r {
            Ok(s) => wiring_error(*w) is None && s@ == wiring_notes(*w),
            Err(e) => wiring_error(*w) == Some(e@),
        }),
{
    if !w.button_class {
        return Err("anchor miss".to_owned());
    }
    if !w.view_class {
        return Err("view-mgr miss".to_owned());
    }
    if !w.click {
        return Err("click miss".to_owned());
    }
    if let Err(e) = &w.update {
        return Err(e.as_str().to_owned());
    }
    if let Err(e) = &w.pointer_click {
        return Err(e.as_str().to_owned());
    }
    if let Err(e) = &w.change_view {
        return Err(e.as_str().to_owned());
    }
    let mut s: String = "".to_owned();
    add_note(&mut s, !w.button_name, "name miss; ");
    add_note(&mut s, !w.event_ctor, "evt ctor miss; ");
    s.append(note_home(&w.home).as_str());
    s.append(note_dialogs(&w.dialogs).as_str());
    s.append(note_ff(&w.race).as_str());
    s.append(note_choices(&w.dialogs).as_str());
    s.append(note_scene(&w.race).as_str());
    Ok(s)
}

/// After a loss without retries only the buttons that advance to the next screen are ever pressed:
/// nothing that could confirm a purchase.
pub proof fn lemma_loss_never_buys(race: Race, name: Seq<char>)
    requires
        !won(race),
        retries_exhausted(race),
        allowed_name(race, name),
    ensures
        name == "NextButton"@ || name == "SingleModeNextButton"@,
{
}

/// A race that was lost and can be retried, or whose outcome is not known, is left to the player.
pub proof fn lemma_loss_is_left_to_the_player(w: Window, career: bool, race: Race)
    requires
        !won(race),
        !retries_exhausted(race),
    ensures
        !advances(w, career, race),
{
}

/// Nothing is advanced outside a career, in Team Trials, or with the feature off.
pub proof fn lemma_career_only(w: Window, career: bool, race: Race)
    requires
        !career || w.in_team_trials || !w.enabled,
    ensures
        !advances(w, career, race),
{
}

/// A choice is taken once: after it was, it is not taken again until another one opens.
pub proof fn lemma_choice_taken_once(c: Choice, s: ChoiceSight, now: u64, again: ChoiceSight, then_ms: u64)
    requires
        takes_choice(c, s, now),
    ensures
        !takes_choice(
            Choice { selected_for: c.ctrl, last_ms: now, pending: false, ..c },
            again,
            then_ms,
        ),
{
}

/// An open choice never holds the tempo for longer than its limit.
pub proof fn lemma_choice_pin_ends(c: Choice, now: u64)
    requires
        now >= c.pending_ms + CHOICE_PIN_CAP_MS,
    ensures
        !choice_open(c, now),
{
}

/// Tapping through never clicks a button that confirms anything: only the race skip and the bare tap
/// targets, and no tap target while a choice is open.
pub proof fn lemma_taps_are_inert(r: ResultSkip, acting: bool, career: bool, name: Seq<char>, now: u64)
    requires
        taps(r, acting, career, name, now),
    ensures
        skips_race(name) || name == "ScreenTap"@ || name == "TouchSprite"@,
        skips_race(name) || !choice_open(r.choice, now),
        career,
        !r.window.in_team_trials,
{
}

/// A race is won at place 1, and its retries are exhausted once none is left; the result is then passed,
/// inside a career, outside Team Trials and with the feature on, and otherwise not.
pub proof fn lemma_advances(w: Window, career: bool, race: Race)
    ensures
        advances(w, career, race) <==> w.enabled && career && !w.in_team_trials && (race.finish_order == 1
            || race.continues == 0),
        won(race) <==> race.finish_order == 1,
        retries_exhausted(race) <==> race.continues == 0,
{
}

/// The buttons that a result is passed with: all seven after a win, and the two that lead on where a race
/// was lost for good.
pub proof fn lemma_result_buttons(race: Race, name: Seq<char>)
    ensures
        race.finish_order == 1 || race.continues != 0 ==> (allowed_name(race, name) <==> seq![
            "ButtonCommon"@,
            "ButtonCenter"@,
            "NextButton"@,
            "ScreenTap"@,
            "SingleModeNextButton"@,
            "TouchSprite"@,
            "ContinueButton"@,
        ].contains(name)),
        race.finish_order != 1 && race.continues == 0 ==> (allowed_name(race, name) <==> seq![
            "NextButton"@,
            "SingleModeNextButton"@,
        ].contains(name)),
        multi_name(name) <==> seq![
            "ScreenTap"@,
            "TouchSprite"@,
            "ButtonCommon"@,
            "ButtonCenter"@,
        ].contains(name),
        advance_name(name) <==> seq![
            "NextButton"@,
            "SingleModeNextButton"@,
            "ContinueButton"@,
        ].contains(name),
        target_name(name) <==> multi_name(name) || advance_name(name),
        !(multi_name(name) && advance_name(name)),
{
    reveal_strlit("ButtonCommon");
    reveal_strlit("ButtonCenter");
    reveal_strlit("NextButton");
    reveal_strlit("ScreenTap");
    reveal_strlit("SingleModeNextButton");
    reveal_strlit("TouchSprite");
    reveal_strlit("ContinueButton");
    let a = seq![
        "ButtonCommon"@,
        "ButtonCenter"@,
        "NextButton"@,
        "ScreenTap"@,
        "SingleModeNextButton"@,
        "TouchSprite"@,
        "ContinueButton"@,
    ];
    assert(a[0] == "ButtonCommon"@ && a[1] == "ButtonCenter"@ && a[2] == "NextButton"@ && a[3]
        == "ScreenTap"@ && a[4] == "SingleModeNextButton"@ && a[5] == "TouchSprite"@ && a[6]
        == "ContinueButton"@);
    let b = seq!["NextButton"@, "SingleModeNextButton"@];
    assert(b[0] == "NextButton"@ && b[1] == "SingleModeNextButton"@);
    let c = seq!["ScreenTap"@, "TouchSprite"@, "ButtonCommon"@, "ButtonCenter"@];
    assert(c[0] == "ScreenTap"@ && c[1] == "TouchSprite"@ && c[2] == "ButtonCommon"@ && c[3]
        == "ButtonCenter"@);
    let d = seq!["NextButton"@, "SingleModeNextButton"@, "ContinueButton"@];
    assert(d[0] == "NextButton"@ && d[1] == "SingleModeNextButton"@ && d[2] == "ContinueButton"@);
    assert("ButtonCommon"@[0] == 'B' && "ButtonCenter"@[0] == 'B' && "NextButton"@[0] == 'N'
        && "ScreenTap"@[1] == 'c' && "SingleModeNextButton"@[1] == 'i' && "TouchSprite"@[0] == 'T'
        && "ContinueButton"@[0] == 'C' && "ScreenTap"@[0] == 'S' && "SingleModeNextButton"@[0] == 'S');
}

/// How long each thing is waited for: a sweep over the buttons 100 ms, an open choice at most ten seconds,
/// between two looks at a choice a quarter of a second, between two presses of the fast forward 300 ms,
/// between two taps 220 ms and between two race skips 600 ms.
pub proof fn lemma_result_times(s: Sweep, c: Choice, sight: ChoiceSight, name: Seq<char>, now: u64)
    ensures
        s.anchor != 0 ==> forall|button: usize|
            button != s.anchor && s.last_ms <= now ==> (#[trigger] starts_sweep(s, button, now) <==> now
                >= s.last_ms + 100),
        starts_sweep(s, s.anchor, now),
        c.pending_ms <= now ==> (choice_open(c, now) <==> c.pending && now < c.pending_ms + 10_000),
        c.last_ms <= now ==> (looks_at_choice(c, sight, now) <==> sight.acting && sight.resolved && c.ctrl
            != 0 && now >= c.last_ms + 250),
        takes_choice(c, sight, now) <==> looks_at_choice(c, sight, now) && sight.waiting
            && !sight.destroyed && c.selected_for != c.ctrl,
        occurs(name, "RaceSkipButton"@) ==> skips_race(name) && hyper_gap(name) == 600,
        !occurs(name, "RaceSkipButton"@) ==> !skips_race(name) && hyper_gap(name) == 220,
{
}

/// The fast forward is pressed once for each race, where its button is seen.
pub proof fn lemma_fast_forward(
    f: FastForward,
    acting: bool,
    resolved: bool,
    destroyed: bool,
    visible: Option<bool>,
    now: u64,
)
    requires
        f.last_ms <= now,
    ensures
        presses_ff(f, acting, resolved, destroyed, visible, now) <==> acting && resolved && f.ui != 0
            && f.pressed_for != f.ui && !destroyed && (f.shown || visible == Some(true)) && now
            >= f.last_ms + 300,
        looks_at_ff(f, acting, resolved) <==> acting && resolved && f.ui != 0 && f.pressed_for != f.ui,
{
}

/// The scene of a result is skipped once, after a win, while the window is open.
pub proof fn lemma_scene(
    r: ResultSkip,
    race: Race,
    career: bool,
    stood_down: bool,
    ours: bool,
    resolved: bool,
    now: u64,
)
    requires
        looks_at_scene(r, race, career, stood_down, ours, resolved, now),
    ensures
        race.finish_order == 1,
        career && resolved && !stood_down && !ours,
        r.window.enabled && !r.window.in_team_trials && r.window.gate.armed,
        r.scene.ui != 0 && r.scene.skipped_for != r.scene.ui,
{
}

/// A moment is moved on by as much as is asked, up to the last one there is.
pub proof fn lemma_later(now: u64, ms: u64)
    ensures
        later(now, ms) >= now,
        later(now, ms) >= ms,
        now + ms <= u64::MAX ==> later(now, ms) == now + ms,
        now + ms > u64::MAX ==> later(now, ms) == u64::MAX,
{
}

/// What tapping through taps: a race skip while the window is shut, a bare tap target while no choice is
/// open.
pub proof fn lemma_taps(r: ResultSkip, acting: bool, career: bool, name: Seq<char>, now: u64)
    requires
        r.hyper.last_ms <= now,
    ensures
        occurs(name, "RaceSkipButton"@) ==> (taps(r, acting, career, name, now) <==> acting && career
            && !r.window.in_team_trials && now >= r.hyper.last_ms + 600 && !open_gate(
            r.window.gate,
            now,
        )),
        !occurs(name, "RaceSkipButton"@) ==> (taps(r, acting, career, name, now) <==> acting && career
            && !r.window.in_team_trials && now >= r.hyper.last_ms + 220 && !choice_open(r.choice, now)
            && (name == "ScreenTap"@ || name == "TouchSprite"@)),
{
}

/// A race skip by the player opens the window, inside a career and unless it is open already.
pub proof fn lemma_arms(r: ResultSkip, ours: bool, career: bool, name: Seq<char>)
    ensures
        arms(r, ours, career, name) <==> occurs(name, "RaceSkipButton"@) && r.window.enabled
            && !r.window.gate.armed && career && !ours && !r.window.in_team_trials,
        disarmed(r).window.gate.armed == false,
        disarmed(r).window.gate.since_ms == r.window.gate.since_ms,
        disarmed(r).warn == r.warn && disarmed(r).choice == r.choice && disarmed(r).hyper == r.hyper
            && disarmed(r).window.enabled == r.window.enabled && disarmed(r).window.next_lift
            == r.window.next_lift,
        caches_cleared(r).window.next_lift == 0 && caches_cleared(r).warn.until_ms == 0 && caches_cleared(
            r,
        ).warn.target == 0,
        caches_cleared(r).window.gate == r.window.gate && caches_cleared(r).choice == r.choice
            && caches_cleared(r).window.enabled == r.window.enabled,
{
}

/// A warning is one of sixteen titles over a button that agrees, in any letter case, and one that does
/// not.
pub proof fn lemma_warnings(title: Seq<char>, right: Seq<char>, left: Seq<char>)
    ensures
        left.len() == 0 ==> !is_warning(title, right, left),
        is_warning(title, right, left) ==> seq![
            "Warning"@,
            "Caution"@,
            "Notice"@,
            "Avertissement"@,
            "Attention"@,
            "警告"@,
            "警示"@,
            "注意"@,
            "Advertencia"@,
            "Aviso"@,
            "Warnung"@,
            "Achtung"@,
            "Avviso"@,
            "Attenzione"@,
            "경고"@,
            "주의"@,
        ].contains(title),
        seq![
            "Warning"@,
            "Caution"@,
            "Notice"@,
            "Avertissement"@,
            "Attention"@,
            "警告"@,
            "警示"@,
            "注意"@,
            "Advertencia"@,
            "Aviso"@,
            "Warnung"@,
            "Achtung"@,
            "Avviso"@,
            "Attenzione"@,
            "경고"@,
            "주의"@,
        ].contains(title) && left.len() > 0 && (lowered(right) == "ok"@ || lowered(right) == "d'accord"@)
            ==> is_warning(title, right, left),
        is_warning(title, right, left) ==> lowered(right) == "ok"@ || lowered(right) == "d'accord"@,
{
    let all = seq![
        "Warning"@,
        "Caution"@,
        "Notice"@,
        "Avertissement"@,
        "Attention"@,
        "警告"@,
        "警示"@,
        "注意"@,
        "Advertencia"@,
        "Aviso"@,
        "Warnung"@,
        "Achtung"@,
        "Avviso"@,
        "Attenzione"@,
        "경고"@,
        "주의"@,
    ];
    assert(all[0] == "Warning"@ && all[1] == "Caution"@ && all[2] == "Notice"@ && all[3]
        == "Avertissement"@ && all[4] == "Attention"@ && all[5] == "警告"@ && all[6] == "警示"@ && all[7]
        == "注意"@ && all[8] == "Advertencia"@ && all[9] == "Aviso"@ && all[10] == "Warnung"@ && all[11]
        == "Achtung"@ && all[12] == "Avviso"@ && all[13] == "Attenzione"@ && all[14] == "경고"@ && all[15]
        == "주의"@);
    reveal_strlit("ok");
    reveal_strlit("d'accord");
    lemma_lowered("ok"@);
    lemma_lowered("d'accord"@);
    assert(lowered("ok"@) =~= "ok"@);
    assert(lowered("d'accord"@) =~= "d'accord"@);
}

/// The first thing missing at startup is the one reported; with everything found there is none.
pub proof fn lemma_wiring_error(w: Wiring)
    ensures
        wiring_error(w) is None <==> w.button_class && w.view_class && w.click && w.update is Ok
            && w.pointer_click is Ok && w.change_view is Ok,
        !w.button_class ==> wiring_error(w) == Some("anchor miss"@),
        w.button_class && !w.view_class ==> wiring_error(w) == Some("view-mgr miss"@),
        w.button_class && w.view_class && !w.click ==> wiring_error(w) == Some("click miss"@),
        w.button_class && w.view_class && w.click ==> (w.update matches Err(e) ==> wiring_error(w) == Some(
            e@,
        )),
        w.button_class && w.view_class && w.click && w.update is Ok ==> (w.pointer_click matches Err(e)
            ==> wiring_error(w) == Some(e@)),
        w.button_class && w.view_class && w.click && w.update is Ok && w.pointer_click is Ok ==> (
        w.change_view matches Err(e) ==> wiring_error(w) == Some(e@)),
{
}

/// Nothing is noted where everything was found, and what was not found is noted.
pub proof fn lemma_wiring_notes(h: HomeWiring, d: DialogWiring, r: RaceWiring)
    ensures
        h.home_class && h.home_in && h.gacha_class && (h.gacha_begin || h.gacha_init) ==> home_notes(
            h,
        ).len() == 0,
        !h.home_class ==> occurs(home_notes(h), "home view miss (heartbeat-only gate); "@),
        h.home_class && !h.home_in ==> occurs(home_notes(h), "home hook miss; "@),
        !h.gacha_class ==> occurs(home_notes(h), "gacha view miss (no scout 1x pin); "@),
        h.gacha_class && !h.gacha_begin && !h.gacha_init ==> occurs(
            home_notes(h),
            "gacha 1x pin hook miss; "@,
        ),
        d.manager && d.push && d.push_sequence ==> dialog_notes(d).len() == 0,
        !d.manager ==> dialog_notes(d) == "dialog-mgr miss (no auto-close); "@,
        d.manager && !d.push && d.push_sequence ==> dialog_notes(d) == "push1 miss; "@,
        d.manager && d.push && !d.push_sequence ==> dialog_notes(d) == "push2 miss; "@,
        d.choice_class && d.choice_waits && d.choice_select ==> choice_notes(d).len() == 0,
        !d.choice_class ==> choice_notes(d) == "choice controller miss (no auto event-choice); "@,
        d.choice_class && (!d.choice_waits || !d.choice_select) ==> choice_notes(d)
            == "choice select/iswait miss; "@,
        r.ff_class && r.ff_push && r.ff_visible ==> ff_notes(r).len() == 0,
        !r.ff_class ==> ff_notes(r) == "race FF class miss; "@,
        r.ff_class && !r.ff_push && r.ff_visible ==> ff_notes(r) == "race FF push miss; "@,
        r.ff_class && r.ff_push && !r.ff_visible ==> ff_notes(r) == "race FF SetVisible hook miss; "@,
        r.scene_class && (r.scene_skip || r.scene_skip_plain) && (r.scene_setup || r.scene_finish)
            ==> scene_notes(r).len() == 0,
        !r.scene_class ==> scene_notes(r) == "race-result scene class miss (press-only); "@,
        r.scene_class && !r.scene_skip && !r.scene_skip_plain && (r.scene_setup || r.scene_finish)
            ==> scene_notes(r) == "race-result skip method miss (press-only); "@,
        r.scene_class && (r.scene_skip || r.scene_skip_plain) && !r.scene_setup && !r.scene_finish
            ==> scene_notes(r) == "race-result capture hook miss (press-only); "@,
{
    reveal_strlit("");
    let none = Seq::<char>::empty();
    assert(""@ =~= none);
    let n = home_notes(h);
    let a = part(!h.home_class, "home view miss (heartbeat-only gate); "@);
    let b = part(h.home_class && !h.home_in, "home hook miss; "@);
    let c = part(!h.gacha_class, "gacha view miss (no scout 1x pin); "@);
    let e = part(h.gacha_class && !h.gacha_begin && !h.gacha_init, "gacha 1x pin hook miss; "@);
    assert(n =~= (none + a) + (b + c + e));
    assert(n =~= (a + b) + (c + e));
    assert(n =~= ((a + b) + c) + e);
    assert(n =~= ((a + b + c) + e) + none);
    lemma_occurs(n, "home view miss (heartbeat-only gate); "@);
    lemma_occurs(n, "home hook miss; "@);
    lemma_occurs(n, "gacha view miss (no scout 1x pin); "@);
    lemma_occurs(n, "gacha 1x pin hook miss; "@);
    assert(!d.manager ==> dialog_notes(d) =~= "dialog-mgr miss (no auto-close); "@);
    assert(d.manager && !d.push && d.push_sequence ==> dialog_notes(d) =~= "push1 miss; "@);
    assert(d.manager && d.push && !d.push_sequence ==> dialog_notes(d) =~= "push2 miss; "@);
    assert(!d.choice_class ==> choice_notes(d) =~= "choice controller miss (no auto event-choice); "@);
    assert(d.choice_class && (!d.choice_waits || !d.choice_select) ==> choice_notes(d)
        =~= "choice select/iswait miss; "@);
    assert(!r.ff_class ==> ff_notes(r) =~= "race FF class miss; "@);
    assert(r.ff_class && !r.ff_push && r.ff_visible ==> ff_notes(r) =~= "race FF push miss; "@);
    assert(r.ff_class && r.ff_push && !r.ff_visible ==> ff_notes(r)
        =~= "race FF SetVisible hook miss; "@);
    assert(!r.scene_class ==> scene_notes(r) =~= "race-result scene class miss (press-only); "@);
    assert(r.scene_class && !r.scene_skip && !r.scene_skip_plain && (r.scene_setup || r.scene_finish)
        ==> scene_notes(r) =~= "race-result skip method miss (press-only); "@);
    assert(r.scene_class && (r.scene_skip || r.scene_skip_plain) && !r.scene_setup && !r.scene_finish
        ==> scene_notes(r) =~= "race-result capture hook miss (press-only); "@);
}

/// All notes of a startup stand one behind the other; with everything found there is none.
pub proof fn lemma_all_notes(w: Wiring)
    ensures
        w.button_name && w.event_ctor ==> wiring_notes(w) == home_notes(w.home) + dialog_notes(w.dialogs)
            + ff_notes(w.race) + choice_notes(w.dialogs) + scene_notes(w.race),
        !w.button_name && w.event_ctor ==> wiring_notes(w) == "name miss; "@ + home_notes(w.home)
            + dialog_notes(w.dialogs) + ff_notes(w.race) + choice_notes(w.dialogs) + scene_notes(w.race),
        w.button_name && !w.event_ctor ==> wiring_notes(w) == "evt ctor miss; "@ + home_notes(w.home)
            + dialog_notes(w.dialogs) + ff_notes(w.race) + choice_notes(w.dialogs) + scene_notes(w.race),
{
    reveal_strlit("");
    let h = home_notes(w.home);
    let d = dialog_notes(w.dialogs);
    let f = ff_notes(w.race);
    let c = choice_notes(w.dialogs);
    let s = scene_notes(w.race);
    let none = Seq::<char>::empty();
    assert(""@ =~= none);
    assert(none + none + none =~= none);
    assert(none + h =~= h);
    assert(none + "name miss; "@ + none =~= "name miss; "@);
    assert(none + none + "evt ctor miss; "@ =~= "evt ctor miss; "@);
}

} // verus!
