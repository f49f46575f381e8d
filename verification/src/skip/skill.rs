//! Confirming and closing the skill-learning dialogs.

use vstd::prelude::*;

use crate::guard::age;
use crate::plurals::trim;
use crate::plurals::trimmed;
use crate::skip::result::later;
use crate::skip::result::{saturating_later, ResultSkip};
use crate::text::{add_note, same, same_letters};
use crate::text::{lowered, part};

verus! {

/// How long, in milliseconds, the skill screen is believed to be on.
pub const SKILL_VIEW_CAP_MS: u64 = 600_000;

/// How long, in milliseconds, a click that was asked for is awaited.
pub const SKILL_INFLIGHT_MS: u64 = 250;

/// For how long, in milliseconds, each step of the flow is waited for.
pub const SKILL_CONFIRM_WINDOW_MS: u64 = 6000;

pub const SKILL_FLOW_WINDOW_MS: u64 = 20_000;

pub const SKILL_RESULT_WINDOW_MS: u64 = 6000;

pub const SKILL_BACK_WINDOW_MS: u64 = 5000;

/// How far apart, in milliseconds, attempts at skipping the scene are.
pub const SKILL_STORY_THROTTLE_MS: u64 = 120;

/// The skill-learning flow. Instants are 0 where nothing is waited for; targets are 0 for none.
#[derive(Clone, Copy, PartialEq, Eq, Structural, Debug)]
pub struct SkillSkip {
    /// The skill screen is on.
    pub active: bool,
    pub since_ms: u64,
    pub view: usize,
    pub confirm_until: u64,
    pub flow_until: u64,
    pub result_until: u64,
    pub back_until: u64,
    pub story_last_ms: u64,
    pub inflight_ms: u64,
    pub confirm_target: usize,
    pub result_target: usize,
}

/// What is done in a frame.
#[derive(Clone, Copy, PartialEq, Eq, Structural, Debug)]
pub struct SkillPlan {
    /// Click the button: it confirms the learning.
    pub confirm: bool,
    /// Try to skip the scene.
    pub skip_scene: bool,
    /// Click the button: it closes the result.
    pub close_result: bool,
    /// Return to the lobby by the screen's own way back.
    pub go_back: bool,
    /// Click the button: it returns to the lobby, the screen's own way back being unavailable.
    pub press_back: bool,
}

/// What is seen in a frame.
#[derive(Clone, Copy, PartialEq, Eq, Structural, Debug)]
pub struct SkillSight {
    pub on: bool,
    /// One of our own calls runs.
    pub ours: bool,
    /// The dialog to confirm, and the result to close, are still what they were, and in front.
    pub confirm_ok: bool,
    pub result_ok: bool,
    /// A story is playing.
    pub story: bool,
    /// The screen's own way back can be called.
    pub back: bool,
    /// The screen that is remembered was destroyed.
    pub view_gone: bool,
}

/// Nothing waited for.
pub fn new_skill_skip() -> (r: SkillSkip)
    ensures
        r == (SkillSkip {
            active: false,
            since_ms: 0,
            view: 0,
            confirm_until: 0,
            flow_until: 0,
            result_until: 0,
            back_until: 0,
            story_last_ms: 0,
            inflight_ms: 0,
            confirm_target: 0,
            result_target: 0,
        }),
{
    SkillSkip {
        active: false,
        since_ms: 0,
        view: 0,
        confirm_until: 0,
        flow_until: 0,
        result_until: 0,
        back_until: 0,
        story_last_ms: 0,
        inflight_ms: 0,
        confirm_target: 0,
        result_target: 0,
    }
}

/// Whether two texts are the same but for the case of ASCII letters.
pub open spec fn alike(a: Seq<char>, b: Seq<char>) -> bool {
    lowered(a) == lowered(b)
}

/// Whether a text, without the white space around it, is a word for learning.
pub open spec fn learns(s: Seq<char>) -> bool {
    let t = trimmed(s);
    t.len() > 0 && (alike(t, "Apprendre"@) || alike(t, "Learn"@) || alike(t, "習得"@) || alike(
        t,
        "習得する"@,
    ) || alike(t, "学ぶ"@) || alike(t, "覚える"@) || alike(t, "Aprender"@) || alike(t, "Lernen"@)
        || alike(t, "Impara"@) || alike(t, "Imparare"@) || alike(t, "배우기"@) || alike(t, "익히기"@)
        || alike(t, "学习"@) || alike(t, "學習"@))
}

/// Whether a text, without the white space around it, is a word for buying or exchanging.
pub open spec fn purchases(s: Seq<char>) -> bool {
    let t = trimmed(s);
    t.len() > 0 && (alike(t, "Boutique"@) || alike(t, "Buy"@) || alike(t, "Purchase"@) || alike(
        t,
        "Acheter"@,
    ) || alike(t, "Kaufen"@) || alike(t, "Comprar"@) || alike(t, "Compra"@) || alike(t, "Acquista"@)
        || alike(t, "Acquistare"@) || alike(t, "購入"@) || alike(t, "交換"@) || alike(t, "구매"@)
        || alike(t, "교환"@) || alike(t, "购买"@) || alike(t, "購買"@) || alike(t, "兑换"@) || alike(
        t,
        "Exchange"@,
    ) || alike(t, "Échanger"@) || alike(t, "Cambiar"@) || alike(t, "Tauschen"@))
}

/// Whether a text is a word for learning.
pub fn is_learn_verb(s: &str) -> (r: bool)
    ensures
        r == learns(s@),
{
    let t: String = trim(s);
    let t: &str = t.as_str();
    t.unicode_len() > 0 && (same_letters(t, "Apprendre") || same_letters(t, "Learn")
        || same_letters(t, "習得") || same_letters(t, "習得する") || same_letters(t, "学ぶ")
        || same_letters(t, "覚える") || same_letters(t, "Aprender") || same_letters(t, "Lernen")
        || same_letters(t, "Impara") || same_letters(t, "Imparare") || same_letters(t, "배우기")
        || same_letters(t, "익히기") || same_letters(t, "学习") || same_letters(t, "學習"))
}

/// Whether a text is a word for buying or exchanging.
pub fn is_purchase_verb(s: &str) -> (r: bool)
    ensures
        r == purchases(s@),
{
    let t: String = trim(s);
    let t: &str = t.as_str();
    t.unicode_len() > 0 && (same_letters(t, "Boutique") || same_letters(t, "Buy") || same_letters(
        t,
        "Purchase",
    ) || same_letters(t, "Acheter") || same_letters(t, "Kaufen") || same_letters(t, "Comprar")
        || same_letters(t, "Compra") || same_letters(t, "Acquista") || same_letters(t, "Acquistare")
        || same_letters(t, "購入") || same_letters(t, "交換") || same_letters(t, "구매")
        || same_letters(t, "교환") || same_letters(t, "购买") || same_letters(t, "購買")
        || same_letters(t, "兑换") || same_letters(t, "Exchange") || same_letters(t, "Échanger")
        || same_letters(t, "Cambiar") || same_letters(t, "Tauschen"))
}

/// Whether a dialog asks to confirm the learning: on the skill screen, with a word for learning on the
/// right, another button on the left, and no word for buying on either.
pub open spec fn is_confirm(s: SkillSkip, right: Seq<char>, left: Seq<char>) -> bool {
    s.active && learns(right) && trimmed(left).len() > 0 && !purchases(right) && !purchases(left)
}

/// Whether a dialog asks to confirm the learning.
pub fn confirm_data_matches(s: &SkillSkip, right: &str, left: &str) -> (r: bool)
    ensures
        r == is_confirm(*s, right@, left@),
{
    s.active && is_learn_verb(right) && trim(left).as_str().unicode_len() > 0 && !is_purchase_verb(
        right,
    ) && !is_purchase_verb(left)
}

/// Whether a dialog tells the result of the learning: on the skill screen, with one button only, which is
/// no word for buying.
pub open spec fn is_result(s: SkillSkip, center: Seq<char>, left: Seq<char>, right: Seq<char>) -> bool {
    s.active && trimmed(center).len() > 0 && trimmed(left).len() == 0 && trimmed(right).len() == 0
        && !purchases(center)
}

/// Whether a dialog tells the result of the learning.
pub fn result_data_matches(s: &SkillSkip, center: &str, left: &str, right: &str) -> (r: bool)
    ensures
        r == is_result(*s, center@, left@, right@),
{
    s.active && trim(center).as_str().unicode_len() > 0 && trim(left).as_str().unicode_len() == 0
        && trim(right).as_str().unicode_len() == 0 && !is_purchase_verb(center)
}

/// A dialog was pushed: wait for its button, if it is one of the flow. The result is waited for only
/// after the learning was confirmed. A dialog that asks to confirm it is a sign of a career. Returns
/// whether the dialog is one of the flow.
pub fn try_arm_on_push(
    s: &mut SkillSkip,
    career: &mut ResultSkip,
    on: bool,
    target: usize,
    right: &str,
    left: &str,
    center: &str,
    now: u64,
) -> (r: bool)
    ensures
        ({
            let acting = on && old(s).active;
            let confirm = acting && is_confirm(*old(s), right@, left@);
            let result = acting && !confirm && now < old(s).flow_until && is_result(
                *old(s),
                center@,
                left@,
                right@,
            );
            &&& r == (confirm || result)
            &&& *final(career) == (if confirm {
                ResultSkip { career_ms: now, ..*old(career) }
            } else {
                *old(career)
            })
            &&& *final(s) == (if confirm {
                SkillSkip {
                    confirm_target: target,
                    confirm_until: later(now, SKILL_CONFIRM_WINDOW_MS),
                    ..*old(s)
                }
            } else if result {
                SkillSkip {
                    result_target: target,
                    result_until: later(now, SKILL_RESULT_WINDOW_MS),
                    ..*old(s)
                }
            } else {
                *old(s)
            })
        }),
{
    if !on || !s.active {
        return false;
    }
    if confirm_data_matches(s, right, left) {
        s.confirm_target = target;
        s.confirm_until = saturating_later(now, SKILL_CONFIRM_WINDOW_MS);
        career.career_ms = now;
        return true;
    }
    if now < s.flow_until && result_data_matches(s, center, left, right) {
        s.result_target = target;
        s.result_until = saturating_later(now, SKILL_RESULT_WINDOW_MS);
        return true;
    }
    false
}

/// Whether a button is waited for.
pub fn wants_button(s: &SkillSkip, on: bool, now: u64) -> (r: bool)
    ensures
        r == (on && (now < s.confirm_until || now < s.result_until || now < s.back_until)),
{
    on && (now < s.confirm_until || now < s.result_until || now < s.back_until)
}

/// The flow with nothing waited for and the screen gone.
pub open spec fn cleared(s: SkillSkip) -> SkillSkip {
    SkillSkip {
        active: false,
        view: 0,
        confirm_until: 0,
        flow_until: 0,
        result_until: 0,
        back_until: 0,
        confirm_target: 0,
        result_target: 0,
        ..s
    }
}

/// Whether the screen is on or anything is waited for.
pub open spec fn any_armed(s: SkillSkip) -> bool {
    s.active || s.confirm_until != 0 || s.flow_until != 0 || s.result_until != 0 || s.back_until
        != 0
}

/// The flow is over. Returns whether it was on.
pub fn clear_all(s: &mut SkillSkip) -> (r: bool)
    ensures
        r == any_armed(*old(s)),
        *final(s) == cleared(*old(s)),
{
    let was: bool = s.active || s.confirm_until != 0 || s.flow_until != 0 || s.result_until != 0
        || s.back_until != 0;
    s.active = false;
    s.view = 0;
    s.confirm_until = 0;
    s.flow_until = 0;
    s.result_until = 0;
    s.back_until = 0;
    s.confirm_target = 0;
    s.result_target = 0;
    was
}

/// The flow, ended where the skill screen has been on for too long.
pub open spec fn expired(s: SkillSkip, now: u64) -> SkillSkip {
    if s.active && age(now, s.since_ms) > SKILL_VIEW_CAP_MS {
        cleared(s)
    } else {
        s
    }
}

/// Whether the return to the lobby is waited for.
pub open spec fn heads_back(s: SkillSkip, v: SkillSight, now: u64) -> bool {
    v.on && !v.ours && now < s.back_until
}

/// Whether the screen's own way back is there.
pub open spec fn way_back(s: SkillSkip, v: SkillSight) -> bool {
    v.back && s.view != 0 && !v.view_gone
}

/// What is done in a frame with a button on screen.
pub open spec fn plan_of(s: SkillSkip, v: SkillSight, name: Option<Seq<char>>, now: u64) -> SkillPlan {
    let acts = v.on && !v.ours;
    let free = age(now, s.inflight_ms) >= SKILL_INFLIGHT_MS;
    let confirm = acts && now < s.confirm_until && name == Some("ButtonRight"@) && v.confirm_ok
        && free;
    SkillPlan {
        confirm,
        skip_scene: acts && now < s.flow_until && v.story && age(now, s.story_last_ms)
            >= SKILL_STORY_THROTTLE_MS,
        close_result: acts && now < s.result_until && name == Some("ButtonCenter"@) && v.result_ok
            && free,
        go_back: heads_back(s, v, now) && way_back(s, v),
        press_back: heads_back(s, v, now) && !way_back(s, v) && name == Some("BackButton"@),
    }
}

/// What a name that may be known says.
pub open spec fn name_view(name: Option<&str>) -> Option<Seq<char>> {
    match name {
        Some(n) => Some(n@),
        None => None,
    }
}

/// What is done in a frame with a button on screen, whose name is known where it is needed. A screen that
/// was destroyed is forgotten when it is to be returned from.
pub fn pump(s: &mut SkillSkip, v: &SkillSight, name: Option<&str>, now: u64) -> (r: SkillPlan)
    ensures
        v.ours ==> *final(s) == *old(s),
        r == plan_of(expired(*old(s), now), *v, name_view(name), now),
        !v.ours ==> *final(s) == (SkillSkip {
            inflight_ms: if r.confirm || r.close_result {
                now
            } else {
                old(s).inflight_ms
            },
            story_last_ms: if r.skip_scene {
                now
            } else {
                old(s).story_last_ms
            },
            view: if heads_back(expired(*old(s), now), *v, now) && v.back && v.view_gone {
                0
            } else {
                expired(*old(s), now).view
            },
            ..expired(*old(s), now)
        }),
{
    let mut plan = SkillPlan {
        confirm: false,
        skip_scene: false,
        close_result: false,
        go_back: false,
        press_back: false,
    };
    if v.ours {
        return plan;
    }
    if s.active && now.saturating_sub(s.since_ms) > SKILL_VIEW_CAP_MS {
        let _ = clear_all(s);
    }
    if !v.on {
        return plan;
    }
    let right: bool = match name {
        Some(n) => same(n, "ButtonRight"),
        None => false,
    };
    let center: bool = match name {
        Some(n) => same(n, "ButtonCenter"),
        None => false,
    };
    let back: bool = match name {
        Some(n) => same(n, "BackButton"),
        None => false,
    };
    proof {
        reveal_strlit("ButtonRight");
        reveal_strlit("ButtonCenter");
        assert("ButtonRight"@.len() == 11);
        assert("ButtonCenter"@.len() == 12);
    }
    let free: bool = now.saturating_sub(s.inflight_ms) >= SKILL_INFLIGHT_MS;
    if now < s.confirm_until && right && v.confirm_ok && free {
        plan.confirm = true;
    }
    if now < s.flow_until && v.story && now.saturating_sub(s.story_last_ms)
        >= SKILL_STORY_THROTTLE_MS {
        s.story_last_ms = now;
        plan.skip_scene = true;
    }
    if now < s.result_until && center && v.result_ok && free {
        plan.close_result = true;
    }
    if plan.confirm || plan.close_result {
        s.inflight_ms = now;
    }
    if now < s.back_until {
        plan.go_back = v.back && s.view != 0 && !v.view_gone;
        plan.press_back = !plan.go_back && back;
        if v.back && v.view_gone {
            s.view = 0;
        }
    }
    plan
}

/// The learning was confirmed, or the click did not land and is tried again.
pub fn on_confirm(s: &mut SkillSkip, clicked: bool, now: u64)
    ensures
        *final(s) == (if clicked {
            SkillSkip {
                confirm_until: 0,
                confirm_target: 0,
                flow_until: later(now, SKILL_FLOW_WINDOW_MS),
                ..*old(s)
            }
        } else {
            *old(s)
        }),
{
    if clicked {
        s.confirm_until = 0;
        s.confirm_target = 0;
        s.flow_until = saturating_later(now, SKILL_FLOW_WINDOW_MS);
    }
}

/// The result was closed, or the click did not land and is tried again.
pub fn on_result(s: &mut SkillSkip, clicked: bool, now: u64)
    ensures
        *final(s) == (if clicked {
            SkillSkip {
                result_until: 0,
                result_target: 0,
                back_until: later(now, SKILL_BACK_WINDOW_MS),
                ..*old(s)
            }
        } else {
            *old(s)
        }),
{
    if clicked {
        s.result_until = 0;
        s.result_target = 0;
        s.back_until = saturating_later(now, SKILL_BACK_WINDOW_MS);
    }
}

/// The way back was taken, or the click did not land and is tried again.
pub fn on_back(s: &mut SkillSkip, clicked: bool)
    ensures
        *final(s) == (if clicked {
            SkillSkip { back_until: 0, ..*old(s) }
        } else {
            *old(s)
        }),
{
    if clicked {
        s.back_until = 0;
    }
}

/// Give up the flow: nothing is waited for, and the player has the screen.
pub fn abandon_flow(s: &mut SkillSkip)
    ensures
        *final(s) == (SkillSkip {
            confirm_until: 0,
            result_until: 0,
            back_until: 0,
            flow_until: 0,
            confirm_target: 0,
            result_target: 0,
            ..*old(s)
        }),
{
    s.confirm_until = 0;
    s.result_until = 0;
    s.back_until = 0;
    s.flow_until = 0;
    s.confirm_target = 0;
    s.result_target = 0;
}

/// The skill screen comes up, which it does in a career only.
pub fn activate_view(s: &mut SkillSkip, career: &mut ResultSkip, view: usize, now: u64)
    ensures
        *final(s) == (SkillSkip { active: true, since_ms: now, view, ..*old(s) }),
        *final(career) == (ResultSkip { career_ms: now, ..*old(career) }),
{
    career.career_ms = now;
    s.active = true;
    s.since_ms = now;
    s.view = view;
}

/// Nothing that is a word for buying is ever confirmed, and nothing outside the skill screen.
pub proof fn lemma_never_buys(s: SkillSkip, right: Seq<char>, left: Seq<char>, center: Seq<char>)
    ensures
        purchases(right) || purchases(left) || !s.active ==> !is_confirm(s, right, left),
        purchases(center) || !s.active ==> !is_result(s, center, left, right),
{
}

/// Once the flow is over, nothing is done, whatever is on screen.
pub proof fn lemma_cleared_is_still(s: SkillSkip, v: SkillSight, name: Option<Seq<char>>, now: u64)
    ensures
        !any_armed(cleared(s)),
        plan_of(cleared(s), v, name, now) == (SkillPlan {
            confirm: false,
            skip_scene: false,
            close_result: false,
            go_back: false,
            press_back: false,
        }),
{
}

/// What was found of the skill screen at startup.
pub struct Setup {
    /// Any of the classes that the screen could be.
    pub any_class: bool,
    pub class: bool,
    /// The screen's own way back can be called.
    pub back: bool,
    /// Whether the beginning and the end of the screen are watched.
    pub begin: Result<(), String>,
    pub play_out: Result<(), String>,
}

/// What is noted of a function that is not watched.
pub open spec fn miss(name: Seq<char>, r: Result<(), String>) -> Seq<char> {
    match r {
        Ok(_) => Seq::empty(),
        Err(e) => name + e@ + "; "@,
    }
}

/// What is noted of the skill screen.
pub open spec fn setup_notes(s: Setup) -> Seq<char> {
    ""@ + part(!s.any_class, "skill-probe: every candidate class miss; "@) + (if !s.class {
        "skill vc class miss (no skill-learn skip); "@
    } else {
        part(!s.back, "skill OnClickBackButton miss (BackButton-press fallback only); "@) + miss(
            "skill BeginView: "@,
            s.begin,
        ) + miss("skill PlayOutView: "@, s.play_out)
    })
}

/// Note a function that is not watched.
fn note_miss(t: &mut String, name: &str, r: &Result<(), String>)
    ensures
        final(t)@ == old(t)@ + miss(name@, *r),
{
    let ghost before = t@;
    if let Err(e) = r {
        t.append(name);
        t.append(e.as_str());
        t.append("; ");
    }
    assert(t@ =~= before + miss(name@, *r));
}

/// Note what was found of the skill screen.
pub fn install(s: &Setup) -> (r: String)
    ensures
        r@ == setup_notes(*s),
{
    let mut t: String = "".to_owned();
    add_note(&mut t, !s.any_class, "skill-probe: every candidate class miss; ");
    if !s.class {
        t.append("skill vc class miss (no skill-learn skip); ");
        return t;
    }
    add_note(&mut t, !s.back, "skill OnClickBackButton miss (BackButton-press fallback only); ");
    note_miss(&mut t, "skill BeginView: ", &s.begin);
    note_miss(&mut t, "skill PlayOutView: ", &s.play_out);
    assert(t@ =~= setup_notes(*s));
    t
}

/// A button learns a skill where it says so in one of the game's languages, in any letter case and with
/// blanks around it.
pub proof fn lemma_learns(s: Seq<char>)
    ensures
        learns(s) <==> trimmed(s).len() > 0 && seq![
            "Apprendre"@,
            "Learn"@,
            "習得"@,
            "習得する"@,
            "学ぶ"@,
            "覚える"@,
            "Aprender"@,
            "Lernen"@,
            "Impara"@,
            "Imparare"@,
            "배우기"@,
            "익히기"@,
            "学习"@,
            "學習"@,
        ].map_values(|w: Seq<char>| lowered(w)).contains(lowered(trimmed(s))),
{
    let all = seq![
        "Apprendre"@,
        "Learn"@,
        "習得"@,
        "習得する"@,
        "学ぶ"@,
        "覚える"@,
        "Aprender"@,
        "Lernen"@,
        "Impara"@,
        "Imparare"@,
        "배우기"@,
        "익히기"@,
        "学习"@,
        "學習"@,
    ];
    let low = all.map_values(|w: Seq<char>| lowered(w));
    assert(low[0] == lowered("Apprendre"@));
    assert(low[1] == lowered("Learn"@));
    assert(low[2] == lowered("習得"@));
    assert(low[3] == lowered("習得する"@));
    assert(low[4] == lowered("学ぶ"@));
    assert(low[5] == lowered("覚える"@));
    assert(low[6] == lowered("Aprender"@));
    assert(low[7] == lowered("Lernen"@));
    assert(low[8] == lowered("Impara"@));
    assert(low[9] == lowered("Imparare"@));
    assert(low[10] == lowered("배우기"@));
    assert(low[11] == lowered("익히기"@));
    assert(low[12] == lowered("学习"@));
    assert(low[13] == lowered("學習"@));
}

/// A button buys where it says so in one of the game's languages.
pub proof fn lemma_purchases(s: Seq<char>)
    ensures
        purchases(s) <==> trimmed(s).len() > 0 && seq![
            "Boutique"@,
            "Buy"@,
            "Purchase"@,
            "Acheter"@,
            "Kaufen"@,
            "Comprar"@,
            "Compra"@,
            "Acquista"@,
            "Acquistare"@,
            "購入"@,
            "交換"@,
            "구매"@,
            "교환"@,
            "购买"@,
            "購買"@,
            "兑换"@,
            "Exchange"@,
            "Échanger"@,
            "Cambiar"@,
            "Tauschen"@,
        ].map_values(|w: Seq<char>| lowered(w)).contains(lowered(trimmed(s))),
{
    let all = seq![
        "Boutique"@,
        "Buy"@,
        "Purchase"@,
        "Acheter"@,
        "Kaufen"@,
        "Comprar"@,
        "Compra"@,
        "Acquista"@,
        "Acquistare"@,
        "購入"@,
        "交換"@,
        "구매"@,
        "교환"@,
        "购买"@,
        "購買"@,
        "兑换"@,
        "Exchange"@,
        "Échanger"@,
        "Cambiar"@,
        "Tauschen"@,
    ];
    let low = all.map_values(|w: Seq<char>| lowered(w));
    assert(low[0] == lowered("Boutique"@));
    assert(low[1] == lowered("Buy"@));
    assert(low[2] == lowered("Purchase"@));
    assert(low[3] == lowered("Acheter"@));
    assert(low[4] == lowered("Kaufen"@));
    assert(low[5] == lowered("Comprar"@));
    assert(low[6] == lowered("Compra"@));
    assert(low[7] == lowered("Acquista"@));
    assert(low[8] == lowered("Acquistare"@));
    assert(low[9] == lowered("購入"@));
    assert(low[10] == lowered("交換"@));
    assert(low[11] == lowered("구매"@));
    assert(low[12] == lowered("교환"@));
    assert(low[13] == lowered("购买"@));
    assert(low[14] == lowered("購買"@));
    assert(low[15] == lowered("兑换"@));
    assert(low[16] == lowered("Exchange"@));
    assert(low[17] == lowered("Échanger"@));
    assert(low[18] == lowered("Cambiar"@));
    assert(low[19] == lowered("Tauschen"@));
}

/// A question has a button that learns and one that does not agree, and none that buys; its answer has a
/// single button, which does not buy.
pub proof fn lemma_skill_dialogs(
    s: SkillSkip,
    center: Seq<char>,
    left: Seq<char>,
    right: Seq<char>,
)
    ensures
        is_confirm(s, right, left) <==> s.active && learns(right) && trimmed(left).len() != 0
            && !purchases(right) && !purchases(left),
        is_result(s, center, left, right) <==> s.active && trimmed(center).len() != 0 && trimmed(
            left,
        ).len() == 0 && trimmed(right).len() == 0 && !purchases(center),
        !(is_confirm(s, right, left) && is_result(s, center, left, right)),
{
}

/// The skill screen is left after ten minutes at the latest; until then nothing changes by itself.
pub proof fn lemma_skill_expires(s: SkillSkip, now: u64)
    requires
        s.since_ms <= now,
    ensures
        s.active && now > s.since_ms + 600_000 ==> expired(s, now) == cleared(s) && !any_armed(
            expired(s, now),
        ),
        !s.active || now <= s.since_ms + 600_000 ==> expired(s, now) == s,
        any_armed(s) <==> s.active || s.confirm_until != 0 || s.flow_until != 0 || s.result_until != 0
            || s.back_until != 0,
        cleared(s).since_ms == s.since_ms && cleared(s).inflight_ms == s.inflight_ms && cleared(
            s,
        ).story_last_ms == s.story_last_ms,
{
}

/// What is done on the skill screen: a question is confirmed by its right button, its answer closed by its
/// middle one, each within its own time and a quarter of a second after the last press; the scene in
/// between is skipped every 120 ms; and the way back is taken once, by the screen's own way where there is
/// one and by the back button where there is none.
pub proof fn lemma_skill_plan(s: SkillSkip, v: SkillSight, name: Option<Seq<char>>, now: u64)
    requires
        s.inflight_ms <= now,
        s.story_last_ms <= now,
    ensures
        ({
            let p = plan_of(s, v, name, now);
            let acts = v.on && !v.ours;
            &&& p.confirm <==> acts && now < s.confirm_until && v.confirm_ok && name == Some(
                "ButtonRight"@,
            ) && now >= s.inflight_ms + 250
            &&& p.close_result <==> acts && now < s.result_until && v.result_ok && name == Some(
                "ButtonCenter"@,
            ) && now >= s.inflight_ms + 250
            &&& p.skip_scene <==> acts && now < s.flow_until && v.story && now >= s.story_last_ms + 120
            &&& p.go_back <==> acts && now < s.back_until && v.back && s.view != 0 && !v.view_gone
            &&& p.press_back <==> acts && now < s.back_until && !(v.back && s.view != 0 && !v.view_gone)
                && name == Some("BackButton"@)
            &&& !(p.go_back && p.press_back)
            &&& !(p.confirm && p.close_result)
        }),
{
    reveal_strlit("ButtonRight");
    reveal_strlit("ButtonCenter");
    assert("ButtonRight"@.len() == 11 && "ButtonCenter"@.len() == 12);
}

/// Nothing is noted where all was found; a failure is noted with its reason behind its name.
pub proof fn lemma_skill_notes(s: Setup, name: Seq<char>, r: Result<(), String>)
    ensures
        s.any_class && s.class && s.back && s.begin is Ok && s.play_out is Ok ==> setup_notes(s).len()
            == 0,
        s.any_class && !s.class ==> setup_notes(s) == "skill vc class miss (no skill-learn skip); "@,
        s.any_class && s.class && !s.back && s.begin is Ok && s.play_out is Ok ==> setup_notes(s)
            == "skill OnClickBackButton miss (BackButton-press fallback only); "@,
        r is Ok ==> miss(name, r).len() == 0,
        r matches Err(e) ==> miss(name, r) == name + e@ + "; "@,
        s.any_class && s.class && s.back && s.play_out is Ok ==> (s.begin matches Err(e) ==> setup_notes(s)
            == "skill BeginView: "@ + e@ + "; "@),
        s.any_class && s.class && s.back && s.begin is Ok ==> (s.play_out matches Err(e) ==> setup_notes(s)
            == "skill PlayOutView: "@ + e@ + "; "@),
{
    reveal_strlit("");
    assert(s.any_class && !s.class ==> setup_notes(s)
        =~= "skill vc class miss (no skill-learn skip); "@);
    assert(s.any_class && s.class && !s.back && s.begin is Ok && s.play_out is Ok ==> setup_notes(s)
        =~= "skill OnClickBackButton miss (BackButton-press fallback only); "@);
    if s.any_class && s.class && s.back {
        if s.begin is Err && s.play_out is Ok {
            assert(setup_notes(s) =~= "skill BeginView: "@ + (s.begin->Err_0)@ + "; "@);
        }
        if s.begin is Ok && s.play_out is Err {
            assert(setup_notes(s) =~= "skill PlayOutView: "@ + (s.play_out->Err_0)@ + "; "@);
        }
    }
}

} // verus!
