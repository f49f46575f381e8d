//! Dialogs that the game pushes: which are waited for, which are closed, and which are written down.

use vstd::prelude::*;

use crate::guard::{age, open_gate};
use crate::race::Race;
use crate::skip::result::{
    advances, is_warning, later, RACESKIP_LOCK_MS, WARN_CONFIRM_WINDOW_MS,
};
use crate::skip::result::{
    hyper_safety_on_dialog, result_acts, try_arm_warning_confirm, warning_data_matches, ResultSkip,
    Warn,
};
use crate::skip::skill::{is_confirm, is_result, SKILL_CONFIRM_WINDOW_MS, SKILL_RESULT_WINDOW_MS};
use crate::skip::skill::{try_arm_on_push, SkillSkip};
use crate::names::lines;
use crate::text::same;

verus! {

/// Where the lowest object of the game can be.
pub const LOWEST_OBJECT: usize = 0x10000;

/// What a dialog is pushed with: where that is, and the texts on it.
pub struct Dialog {
    pub target: usize,
    pub title: String,
    pub right: String,
    pub left: String,
    pub center: String,
}

/// What is acted on, and whether a career is under way.
#[derive(Clone, Copy, PartialEq, Eq, Structural, Debug)]
pub struct Gates {
    pub warnings: bool,
    pub hyper: bool,
    pub inspiration: bool,
    pub skills: bool,
    pub career: bool,
}

/// What follows from a dialog.
#[derive(Clone, Copy, PartialEq, Eq, Structural, Debug)]
pub struct Pushed {
    /// It is a warning whose confirmation is waited for.
    pub warned: bool,
    /// It is a step of learning a skill, whose button is waited for.
    pub learning: bool,
    /// Tapping through is switched off.
    pub hyper_off: bool,
    /// The dialog is closed.
    pub closes: bool,
}

/// Whether an address can be that of an object: high enough, and aligned. What is passed by value is
/// neither.
pub open spec fn object_at(addr: usize) -> bool {
    addr >= LOWEST_OBJECT && addr % 8 == 0
}

/// Whether an address can be that of an object.
pub fn is_object(addr: usize) -> (r: bool)
    ensures
        r == object_at(addr),
{
    addr >= LOWEST_OBJECT && addr % 8 == 0
}

/// Whether a dialog is a plain warning in a career.
pub open spec fn warns(g: Gates, d: Option<Dialog>) -> bool {
    match d {
        Some(x) => g.warnings && g.career && object_at(x.target) && is_warning(
            x.title@,
            x.right@,
            x.left@,
        ),
        None => false,
    }
}

/// The state with the confirmation of a warning waited for.
pub open spec fn warned_of(r: ResultSkip, d: Option<Dialog>, now: u64) -> ResultSkip {
    ResultSkip {
        warn: Warn { until_ms: later(now, WARN_CONFIRM_WINDOW_MS), target: d.unwrap().target },
        career_ms: now,
        ..r
    }
}

/// Whether a dialog asks to confirm the learning of skills.
pub open spec fn asks(s: SkillSkip, g: Gates, d: Option<Dialog>) -> bool {
    match d {
        Some(x) => g.skills && s.active && object_at(x.target) && is_confirm(s, x.right@, x.left@),
        None => false,
    }
}

/// Whether a dialog tells the result of a learning that was confirmed.
pub open spec fn tells(s: SkillSkip, g: Gates, d: Option<Dialog>, now: u64) -> bool {
    match d {
        Some(x) => g.skills && s.active && object_at(x.target) && !asks(s, g, d) && now
            < s.flow_until && is_result(s, x.center@, x.left@, x.right@),
        None => false,
    }
}

/// The state with the button of a learning dialog waited for.
pub open spec fn learning_of(s: SkillSkip, g: Gates, d: Option<Dialog>, now: u64) -> SkillSkip {
    if asks(s, g, d) {
        SkillSkip {
            confirm_target: d.unwrap().target,
            confirm_until: later(now, SKILL_CONFIRM_WINDOW_MS),
            ..s
        }
    } else {
        SkillSkip {
            result_target: d.unwrap().target,
            result_until: later(now, SKILL_RESULT_WINDOW_MS),
            ..s
        }
    }
}

/// Wait for the confirmation of a dialog, if it is a plain warning in a career.
fn arm_warning(r: &mut ResultSkip, g: &Gates, d: &Option<Dialog>, now: u64) -> (b: bool)
    ensures
        b == warns(*g, *d),
        *final(r) == (if b {
            warned_of(*old(r), *d, now)
        } else {
            *old(r)
        }),
{
    match d {
        Some(x) => {
            let matches: bool = is_object(x.target) && warning_data_matches(
                x.title.as_str(),
                x.right.as_str(),
                x.left.as_str(),
            );
            try_arm_warning_confirm(r, g.warnings, g.career, matches, x.target, now)
        },
        None => false,
    }
}

/// The state with a sign of a career seen.
pub open spec fn in_career(r: ResultSkip, seen: bool, now: u64) -> ResultSkip {
    if seen {
        ResultSkip { career_ms: now, ..r }
    } else {
        r
    }
}

/// Wait for the button of a dialog, if it is a step of learning a skill.
fn arm_learning(
    r: &mut ResultSkip,
    s: &mut SkillSkip,
    g: &Gates,
    d: &Option<Dialog>,
    now: u64,
) -> (b: bool)
    ensures
        *final(r) == in_career(*old(r), asks(*old(s), *g, *d), now),
        b == (asks(*old(s), *g, *d) || tells(*old(s), *g, *d, now)),
        *final(s) == (if b {
            learning_of(*old(s), *g, *d, now)
        } else {
            *old(s)
        }),
{
    match d {
        Some(x) => if is_object(x.target) {
            try_arm_on_push(
                s,
                r,
                g.skills,
                x.target,
                x.right.as_str(),
                x.left.as_str(),
                x.center.as_str(),
                now,
            )
        } else {
            false
        },
        None => false,
    }
}

/// A dialog was pushed with one argument.
pub fn on_push1(
    r: &mut ResultSkip,
    s: &mut SkillSkip,
    g: &Gates,
    a: &Option<Dialog>,
    race: &Race,
    ours: bool,
    now: u64,
) -> (p: Pushed)
    ensures
        p.warned == warns(*g, *a),
        *final(r) == in_career(
            if p.warned {
                warned_of(*old(r), *a, now)
            } else {
                *old(r)
            },
            asks(*old(s), *g, *a),
            now,
        ),
        p.warned || asks(*old(s), *g, *a) ==> final(r).career_ms == now,
        p.learning == (asks(*old(s), *g, *a) || tells(*old(s), *g, *a, now)),
        *final(s) == (if p.learning {
            learning_of(*old(s), *g, *a, now)
        } else {
            *old(s)
        }),
        p.hyper_off == (g.hyper && age(now, old(r).hyper.raceskip_ms) < RACESKIP_LOCK_MS),
        p.closes == (advances(old(r).window, g.career, *race) && open_gate(
            old(r).window.gate,
            now,
        ) && !ours),
{
    let warned: bool = arm_warning(r, g, a, now);
    let learning: bool = arm_learning(r, s, g, a, now);
    Pushed {
        warned,
        learning,
        hyper_off: hyper_safety_on_dialog(&r.hyper, g.hyper, now),
        closes: result_acts(&r.window, g.career, race, ours, now),
    }
}

/// A dialog was pushed with two arguments: either can be what it is pushed with, and the first that is
/// recognized counts.
pub fn on_push2(
    r: &mut ResultSkip,
    s: &mut SkillSkip,
    g: &Gates,
    a: &Option<Dialog>,
    b: &Option<Dialog>,
    race: &Race,
    ours: bool,
    now: u64,
) -> (p: Pushed)
    ensures
        p.warned == (warns(*g, *a) || warns(*g, *b)),
        *final(r) == in_career(
            if warns(*g, *a) {
                warned_of(*old(r), *a, now)
            } else if warns(*g, *b) {
                warned_of(*old(r), *b, now)
            } else {
                *old(r)
            },
            asks(*old(s), *g, *a) || !tells(*old(s), *g, *a, now) && asks(*old(s), *g, *b),
            now,
        ),
        ({
            let first = asks(*old(s), *g, *a) || tells(*old(s), *g, *a, now);
            let second = asks(*old(s), *g, *b) || tells(*old(s), *g, *b, now);
            &&& p.learning == (first || second)
            &&& *final(s) == (if first {
                learning_of(*old(s), *g, *a, now)
            } else if second {
                learning_of(*old(s), *g, *b, now)
            } else {
                *old(s)
            })
        }),
        p.hyper_off == (g.hyper && age(now, old(r).hyper.raceskip_ms) < RACESKIP_LOCK_MS),
        p.closes == (advances(old(r).window, g.career, *race) && open_gate(
            old(r).window.gate,
            now,
        ) && !ours),
{
    let warned: bool = arm_warning(r, g, a, now) || arm_warning(r, g, b, now);
    let learning: bool = arm_learning(r, s, g, a, now) || arm_learning(r, s, g, b, now);
    Pushed {
        warned,
        learning,
        hyper_off: hyper_safety_on_dialog(&r.hyper, g.hyper, now),
        closes: result_acts(&r.window, g.career, race, ours, now),
    }
}

/// What tells apart the kinds of dialogs: the class of what it is pushed with, and its own.
pub open spec fn kind_of(arg: Seq<char>, dialog: Seq<char>) -> Seq<char> {
    arg + "|"@ + dialog
}

/// Whether dialogs are written down: something acts on them, in a career.
pub open spec fn writes_down(g: Gates) -> bool {
    (g.warnings || g.hyper || g.inspiration || g.skills) && g.career
}

/// The line for a kind of dialog.
pub open spec fn dialog_line(arg: Seq<char>, dialog: Seq<char>) -> Seq<char> {
    "[dialog] pushed: arg=\""@ + arg + "\" dialog=\""@ + dialog + "\""@
}

/// A dialog was pushed: the line to write, where its kind was not written down before.
pub fn log_dialog_once(seen: &mut Vec<String>, g: &Gates, arg: &str, dialog: &str) -> (r: Option<
    String,
>)
    ensures
        r is Some <==> writes_down(*g) && !lines(old(seen)@).contains(kind_of(arg@, dialog@)),
        r is Some ==> r.unwrap()@ == dialog_line(arg@, dialog@),
        lines(final(seen)@) == (if r is Some {
            lines(old(seen)@).push(kind_of(arg@, dialog@))
        } else {
            lines(old(seen)@)
        }),
{
    if !(g.warnings || g.hyper || g.inspiration || g.skills) || !g.career {
        return None;
    }
    let mut kind: String = arg.to_owned();
    kind.append("|");
    kind.append(dialog);
    let ghost all = lines(seen@);
    let mut i: usize = 0;
    while i < seen.len()
        invariant
            i <= seen.len(),
            all == lines(seen@),
            kind@ == kind_of(arg@, dialog@),
            forall|j: int| 0 <= j < i ==> all[j] != kind@,
            *seen == *old(seen),
            writes_down(*g),
        decreases seen.len() - i,
    {
        if same(seen[i].as_str(), kind.as_str()) {
            assert(all[i as int] == kind@);
            return None;
        }
        i = i + 1;
    }
    seen.push(kind);
    assert(lines(seen@) =~= all.push(kind_of(arg@, dialog@)));
    let mut line: String = "[dialog] pushed: arg=\"".to_owned();
    line.append(arg);
    line.append("\" dialog=\"");
    line.append(dialog);
    line.append("\"");
    Some(line)
}

/// A kind of dialog is written down once: after a push of it, another of the same kind is silent.
pub proof fn lemma_dialog_written_once(
    seen: Seq<Seq<char>>,
    told: Seq<Seq<char>>,
    g: Gates,
    arg: Seq<char>,
    dialog: Seq<char>,
)
    requires
        writes_down(g),
        told == (if !seen.contains(kind_of(arg, dialog)) {
            seen.push(kind_of(arg, dialog))
        } else {
            seen
        }),
    ensures
        told.contains(kind_of(arg, dialog)),
{
    if !seen.contains(kind_of(arg, dialog)) {
        assert(told[seen.len() as int] == kind_of(arg, dialog));
    }
}

/// A value in place of an object is never waited for, whatever the texts say.
pub proof fn lemma_only_objects_are_waited_for(s: SkillSkip, g: Gates, d: Dialog, now: u64)
    requires
        !object_at(d.target),
    ensures
        !warns(g, Some(d)),
        !asks(s, g, Some(d)),
        !tells(s, g, Some(d), now),
{
}

/// An address is an object's from 64 KiB on, in steps of eight.
pub proof fn lemma_object_at(addr: usize)
    ensures
        object_at(addr) <==> addr >= 65536 && addr % 8 == 0,
{
}

/// A warning that is waited for is confirmed for six seconds, and counts as being in a career.
pub proof fn lemma_warned(r: ResultSkip, g: Gates, d: Dialog, now: u64)
    requires
        warns(g, Some(d)),
        now < 0x8000_0000_0000_0000,
    ensures
        g.warnings && g.career,
        is_warning(d.title@, d.right@, d.left@),
        warned_of(r, Some(d), now).warn.target == d.target,
        warned_of(r, Some(d), now).warn.until_ms == now + 6000,
        warned_of(r, Some(d), now).career_ms == now,
        warned_of(r, Some(d), now).window == r.window && warned_of(r, Some(d), now).choice == r.choice,
{
}

/// A question about a skill is waited for for six seconds, and so is the answer to it, in a slot of its
/// own; a dialog is one of the two at most.
pub proof fn lemma_learning(s: SkillSkip, g: Gates, d: Dialog, now: u64)
    requires
        now < 0x8000_0000_0000_0000,
    ensures
        !(asks(s, g, Some(d)) && tells(s, g, Some(d), now)),
        asks(s, g, Some(d)) ==> {
            let t = learning_of(s, g, Some(d), now);
            &&& g.skills && s.active
            &&& is_confirm(s, d.right@, d.left@)
            &&& t.confirm_target == d.target && t.confirm_until == now + 6000
            &&& t.result_target == s.result_target && t.result_until == s.result_until
            &&& t.flow_until == s.flow_until && t.back_until == s.back_until
        },
        tells(s, g, Some(d), now) ==> {
            let t = learning_of(s, g, Some(d), now);
            &&& g.skills && s.active && now < s.flow_until
            &&& is_result(s, d.center@, d.left@, d.right@)
            &&& t.result_target == d.target && t.result_until == now + 6000
            &&& t.confirm_target == s.confirm_target && t.confirm_until == s.confirm_until
        },
        !asks(s, g, None) && !tells(s, g, None, now) && !warns(g, None),
{
}

/// A dialog is written down, by what it was pushed with and what it is, while anything that acts on
/// dialogs is on in a career; a career that is seen is noted.
pub proof fn lemma_dialog_notes(g: Gates, arg: Seq<char>, dialog: Seq<char>, r: ResultSkip, now: u64)
    ensures
        writes_down(g) <==> g.career && (g.warnings || g.hyper || g.inspiration || g.skills),
        dialog_line(arg, dialog) == "[dialog] pushed: arg=\""@ + arg + "\" dialog=\""@ + dialog + "\""@,
        kind_of(arg, dialog).len() == arg.len() + 1 + dialog.len(),
        kind_of(arg, dialog).take(arg.len() as int) == arg,
        kind_of(arg, dialog)[arg.len() as int] == '|',
        kind_of(arg, dialog).skip(arg.len() + 1int) == dialog,
        in_career(r, true, now).career_ms == now,
        in_career(r, false, now) == r,
        in_career(r, true, now).window == r.window && in_career(r, true, now).warn == r.warn,
{
    reveal_strlit("|");
    assert(kind_of(arg, dialog).take(arg.len() as int) =~= arg);
    assert(kind_of(arg, dialog).skip(arg.len() + 1int) =~= dialog);
}

} // verus!
