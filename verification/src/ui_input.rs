//! The click engine: which buttons are pressed and which dialogs closed, and how often.

use std::collections::{HashMap, HashSet};
use vstd::prelude::*;

use crate::guard::Gate;
use crate::guard::{age, open_gate};
use crate::race::Race;
use crate::skip::result::{is_advance_button, is_multi, press_allowed};
use crate::skip::result::{advance_name, allowed_name, multi_name};
use crate::skip::result::{later, saturating_later};
use crate::skip::result::{Window, MULTI_MAX, PRESS_GAP_MS, RR_LIFT_GRACE_MS, RR_LIFT_THROTTLE_MS};
use crate::text::{has_text, same};
use crate::text::occurs;

verus! {

/// How long, in milliseconds, a press may hold the engine.
pub const BUSY_TTL_MS: u64 = 750;

/// How many entries each memory holds before it is forgotten.
pub const NAME_CACHE_CAP: usize = 2048;

pub const PRESS_STATE_CAP: usize = 512;

pub const DONE_DLG_CAP: usize = 512;

pub const LOGGED_NAMES_CAP: usize = 256;

/// After how long, in milliseconds, a button is told of again.
pub const RELOG_MS: u64 = 30_000;

/// What the click engine remembers.
pub struct UiInput {
    pub busy: Gate,
    /// The names of buttons.
    pub names: HashMap<usize, String>,
    /// How often and when a button was last pressed.
    pub presses: HashMap<usize, (u32, u64)>,
    /// The dialogs that were closed.
    pub done: HashSet<usize>,
    /// The buttons that were told of, and when.
    pub logged: Vec<(String, u64)>,
}

/// Nothing pressed yet.
pub fn new_input() -> (r: UiInput)
    ensures
        r.busy == (Gate { armed: false, since_ms: 0, cap_ms: BUSY_TTL_MS }),
        r.names@ == Map::<usize, String>::empty(),
        r.presses@ == Map::<usize, (u32, u64)>::empty(),
        r.done@ == Set::<usize>::empty(),
        r.logged@.len() == 0,
{
    broadcast use vstd::std_specs::hash::group_hash_axioms;

    UiInput {
        busy: Gate::new(BUSY_TTL_MS),
        names: HashMap::new(),
        presses: HashMap::new(),
        done: HashSet::new(),
        logged: Vec::new(),
    }
}

/// Whether the engine is in the middle of a press.
pub fn busy(u: &UiInput, now: u64) -> (r: bool)
    ensures
        r == open_gate(u.busy, now),
{
    u.busy.is_open(now)
}

/// A press begins.
pub fn enter(u: &mut UiInput, now: u64)
    ensures
        *final(u) == (UiInput {
            busy: Gate { armed: true, since_ms: now, ..old(u).busy },
            ..*old(u)
        }),
{
    u.busy.arm(now);
}

/// A press ends.
pub fn leave(u: &mut UiInput)
    ensures
        *final(u) == (UiInput { busy: Gate { armed: false, ..old(u).busy }, ..*old(u) }),
{
    let _ = u.busy.disarm();
}

/// End a press that never returned. Returns whether there was one.
pub fn reap_busy(u: &mut UiInput, now: u64) -> (r: bool)
    ensures
        r == (old(u).busy.armed && !open_gate(old(u).busy, now)),
        *final(u) == (UiInput {
            busy: Gate { armed: old(u).busy.armed && !r, ..old(u).busy },
            ..*old(u)
        }),
{
    u.busy.reap(now)
}

/// Whether every memory of the engine is empty.
pub open spec fn forgot(u: UiInput) -> bool {
    &&& u.names@ == Map::<usize, String>::empty()
    &&& u.presses@ == Map::<usize, (u32, u64)>::empty()
    &&& u.done@ == Set::<usize>::empty()
    &&& u.logged@.len() == 0
}

/// Forget everything but whether a press is on.
pub fn clear_caches(u: &mut UiInput)
    ensures
        forgot(*final(u)),
        final(u).busy == old(u).busy,
{
    broadcast use vstd::std_specs::hash::group_hash_axioms;

    u.names = HashMap::new();
    u.presses = HashMap::new();
    u.done = HashSet::new();
    u.logged = Vec::new();
}

/// Give every button a fresh allowance of presses.
pub fn clear_press_state(u: &mut UiInput)
    ensures
        final(u).presses@ == Map::<usize, (u32, u64)>::empty(),
        *final(u) == (UiInput { presses: final(u).presses, ..*old(u) }),
{
    broadcast use vstd::std_specs::hash::group_hash_axioms;

    u.presses = HashMap::new();
}

/// How many entries the memories hold: names, presses, dialogs, buttons told of.
pub fn cache_sizes(u: &UiInput) -> (r: (usize, usize, usize, usize))
    ensures
        r.0 == u.names@.len(),
        r.1 == u.presses@.len(),
        r.2 == u.done@.len(),
        r.3 == u.logged@.len(),
{
    broadcast use vstd::std_specs::hash::group_hash_axioms;

    (u.names.len(), u.presses.len(), u.done.len(), u.logged.len())
}

/// The name of a button, if it is remembered.
pub fn button_name(u: &UiInput, key: usize) -> (r: Option<&String>)
    ensures
        r == (if u.names@.dom().contains(key) {
            Some(&u.names@[key])
        } else {
            None
        }),
{
    broadcast use vstd::std_specs::hash::group_hash_axioms;

    u.names.get(&key)
}

/// Remember the name of a button; a memory that is full is forgotten first.
pub fn note_name(u: &mut UiInput, key: usize, name: &str)
    ensures
        ({
            let held = if old(u).names@.len() >= NAME_CACHE_CAP {
                Map::<usize, String>::empty()
            } else {
                old(u).names@
            };
            &&& final(u).names@ == held.insert(key, final(u).names@[key])
            &&& final(u).names@[key]@ == name@
        }),
        *final(u) == (UiInput { names: final(u).names, ..*old(u) }),
{
    broadcast use vstd::std_specs::hash::group_hash_axioms;

    if u.names.len() >= NAME_CACHE_CAP {
        u.names = HashMap::new();
    }
    let own: String = name.to_owned();
    let _ = u.names.insert(key, own);
}

/// What a row of buttons that were told of says.
pub open spec fn told_view(s: Seq<(String, u64)>) -> Seq<(Seq<char>, u64)> {
    s.map_values(|p: (String, u64)| (p.0@, p.1))
}

/// When a button was told of, if it was.
pub open spec fn told_at(s: Seq<(Seq<char>, u64)>, name: Seq<char>) -> Option<u64>
    decreases s.len(),
{
    if s.len() == 0 {
        None
    } else if s[0].0 == name {
        Some(s[0].1)
    } else {
        told_at(s.drop_first(), name)
    }
}

/// The buttons that were told of, but for one.
pub open spec fn told_without(s: Seq<(Seq<char>, u64)>, name: Seq<char>) -> Seq<(Seq<char>, u64)>
    decreases s.len(),
{
    if s.len() == 0 {
        s
    } else if s.last().0 == name {
        told_without(s.drop_last(), name)
    } else {
        told_without(s.drop_last(), name).push(s.last())
    }
}

/// The buttons that were told of after one more was; a memory that is full is forgotten first.
pub open spec fn told_after(s: Seq<(Seq<char>, u64)>, name: Seq<char>, now: u64) -> Seq<
    (Seq<char>, u64),
> {
    seq![(name, now)] + (if s.len() >= LOGGED_NAMES_CAP {
        Seq::empty()
    } else {
        told_without(s, name)
    })
}

/// Whether a button is told of: it has a name, and it was not told of, or long ago where buttons are
/// told of again.
pub open spec fn tells(s: Seq<(Seq<char>, u64)>, name: Seq<char>, relog: bool, now: u64) -> bool {
    name.len() > 0 && match told_at(s, name) {
        None => true,
        Some(t) => relog && age(now, t) >= RELOG_MS,
    }
}

/// When a button was told of.
fn find_told(s: &Vec<(String, u64)>, name: &str) -> (r: Option<u64>)
    ensures
        r == told_at(told_view(s@), name@),
{
    let ghost all = told_view(s@);
    let mut i: usize = 0;
    assert(all.skip(0) =~= all);
    while i < s.len()
        invariant
            i <= s@.len(),
            all == told_view(s@),
            told_at(all, name@) == told_at(all.skip(i as int), name@),
        decreases s@.len() - i,
    {
        assert(all.skip(i as int)[0] == (s@[i as int].0@, s@[i as int].1));
        if same(s[i].0.as_str(), name) {
            return Some(s[i].1);
        }
        assert(all.skip(i as int).drop_first() =~= all.skip(i as int + 1));
        i = i + 1;
    }
    None
}

/// A button was seen. Returns whether it is told of.
pub fn log_due(u: &mut UiInput, name: &str, relog: bool, now: u64) -> (r: bool)
    ensures
        r == tells(told_view(old(u).logged@), name@, relog, now),
        !r ==> *final(u) == *old(u),
        r ==> {
            &&& told_view(final(u).logged@) == told_after(told_view(old(u).logged@), name@, now)
            &&& *final(u) == (UiInput { logged: final(u).logged, ..*old(u) })
        },
{
    if name.unicode_len() == 0 {
        return false;
    }
    if let Some(t) = find_told(&u.logged, name) {
        if !relog || now.saturating_sub(t) < RELOG_MS {
            return false;
        }
    }
    let ghost all = told_view(u.logged@);
    let mut kept: Vec<(String, u64)> = Vec::new();
    kept.push((name.to_owned(), now));
    assert(told_view(kept@) =~= seq![(name@, now)]);
    if u.logged.len() < LOGGED_NAMES_CAP {
        let mut j: usize = 0;
        assert(told_view(kept@) =~= seq![(name@, now)] + told_without(all.take(0), name@));
        while j < u.logged.len()
            invariant
                j <= u.logged@.len(),
                all == told_view(u.logged@),
                *u == *old(u),
                told_view(kept@) == seq![(name@, now)] + told_without(all.take(j as int), name@),
            decreases u.logged@.len() - j,
        {
            let ghost before = kept@;
            let ghost entry = (u.logged@[j as int].0@, u.logged@[j as int].1);
            assert(all.take(j as int + 1).drop_last() =~= all.take(j as int));
            assert(all.take(j as int + 1).last() == entry);
            if !same(u.logged[j].0.as_str(), name) {
                kept.push((u.logged[j].0.as_str().to_owned(), u.logged[j].1));
                assert(told_view(kept@) =~= told_view(before).push(entry));
                assert(told_view(kept@) =~= seq![(name@, now)] + told_without(
                    all.take(j as int + 1),
                    name@,
                ));
            }
            j = j + 1;
        }
        assert(all.take(j as int) =~= all);
    } else {
        assert(told_view(kept@) =~= told_after(all, name@, now));
    }
    u.logged = kept;
    true
}

/// How often and when a button was pressed.
pub open spec fn pressed(m: Map<usize, (u32, u64)>, key: usize) -> (u32, u64) {
    if m.dom().contains(key) {
        m[key]
    } else {
        (0, 0)
    }
}

/// How often a button may be pressed.
pub open spec fn allowance(name: Seq<char>) -> u32 {
    if multi_name(name) {
        MULTI_MAX
    } else {
        1
    }
}

/// Whether a button is pressed: the engine is free, the button may be pressed now, it has presses left,
/// and the last one is not too recent.
pub open spec fn presses_on(u: UiInput, race: Race, key: usize, name: Seq<char>, now: u64) -> bool {
    let p = pressed(u.presses@, key);
    &&& key != 0
    &&& !open_gate(u.busy, now)
    &&& allowed_name(race, name)
    &&& p.0 < allowance(name)
    &&& now.wrapping_sub(p.1) >= PRESS_GAP_MS
}

/// Whether a button is pressed.
pub fn auto_press(u: &UiInput, race: &Race, key: usize, name: &str, now: u64) -> (r: bool)
    ensures
        r == presses_on(*u, *race, key, name@, now),
{
    broadcast use vstd::std_specs::hash::group_hash_axioms;

    if key == 0 || u.busy.is_open(now) || !press_allowed(race, name) {
        return false;
    }
    let max: u32 = if is_multi(name) {
        MULTI_MAX
    } else {
        1
    };
    let p: (u32, u64) = match u.presses.get(&key) {
        Some(p) => *p,
        None => (0, 0),
    };
    p.0 < max && now.wrapping_sub(p.1) >= PRESS_GAP_MS
}

/// The button to press is locked: whether the block on input is lifted. A button that advances is
/// given a grace first, and then lifted again and again, not too often.
pub fn on_locked(w: &mut Window, name: &str, now: u64) -> (r: bool)
    ensures
        r == (advance_name(name@) && old(w).next_lift != 0 && now >= old(w).next_lift),
        *final(w) == (if advance_name(name@) && old(w).next_lift == 0 {
            Window { next_lift: later(now, RR_LIFT_GRACE_MS), ..*old(w) }
        } else if r {
            Window { next_lift: later(now, RR_LIFT_THROTTLE_MS), ..*old(w) }
        } else {
            *old(w)
        }),
{
    if !is_advance_button(name) {
        return false;
    }
    if w.next_lift == 0 {
        w.next_lift = saturating_later(now, RR_LIFT_GRACE_MS);
        return false;
    }
    if now >= w.next_lift {
        w.next_lift = saturating_later(now, RR_LIFT_THROTTLE_MS);
        return true;
    }
    false
}

/// The presses that are remembered once a button was pressed; a memory that is full is forgotten first.
pub open spec fn presses_after(m: Map<usize, (u32, u64)>, key: usize, now: u64) -> Map<
    usize,
    (u32, u64),
> {
    let held = if m.len() >= PRESS_STATE_CAP && !m.dom().contains(key) {
        Map::<usize, (u32, u64)>::empty()
    } else {
        m
    };
    held.insert(key, (pressed(m, key).0.wrapping_add(1), now))
}

/// A button was pressed.
pub fn on_pressed(u: &mut UiInput, w: &mut Window, key: usize, now: u64)
    ensures
        final(u).presses@ == presses_after(old(u).presses@, key, now),
        *final(u) == (UiInput { presses: final(u).presses, ..*old(u) }),
        *final(w) == (Window {
            presses: old(w).presses.wrapping_add(1),
            next_lift: 0,
            ..*old(w)
        }),
{
    broadcast use vstd::std_specs::hash::group_hash_axioms;

    let count: u32 = match u.presses.get(&key) {
        Some(p) => p.0,
        None => 0,
    };
    if u.presses.len() >= PRESS_STATE_CAP && !u.presses.contains_key(&key) {
        u.presses = HashMap::new();
    }
    let _ = u.presses.insert(key, (count.wrapping_add(1), now));
    w.presses = w.presses.wrapping_add(1);
    w.next_lift = 0;
}

/// Whether a button may be clicked: it is there, the engine is free, and the button is not locked.
pub fn click_now(u: &UiInput, key: usize, locked: bool, now: u64) -> (r: bool)
    ensures
        r == (key != 0 && !open_gate(u.busy, now) && !locked),
{
    key != 0 && !u.busy.is_open(now) && !locked
}

/// The dialogs that count as closed before one more is looked at; a memory that is full is forgotten.
pub open spec fn closed_before(s: Set<usize>) -> Set<usize> {
    if s.len() >= DONE_DLG_CAP {
        Set::empty()
    } else {
        s
    }
}

/// A dialog was pushed: whether it is closed. Each is closed once, and only the common kind.
pub fn auto_close(u: &mut UiInput, key: usize, class: &str, now: u64) -> (r: bool)
    ensures
        ({
            let looked = key != 0 && !open_gate(old(u).busy, now) && occurs(
                class@,
                "DialogCommon"@,
            );
            let held = closed_before(old(u).done@);
            &&& r == (looked && !held.contains(key))
            &&& looked ==> final(u).done@ == held.insert(key)
            &&& !looked ==> *final(u) == *old(u)
            &&& *final(u) == (UiInput { done: final(u).done, ..*old(u) })
        }),
{
    broadcast use vstd::std_specs::hash::group_hash_axioms;

    if key == 0 || u.busy.is_open(now) || !has_text(class, "DialogCommon") {
        return false;
    }
    if u.done.len() >= DONE_DLG_CAP {
        u.done = HashSet::new();
    }
    if u.done.contains(&key) {
        assert(u.done@ =~= u.done@.insert(key));
        return false;
    }
    let _ = u.done.insert(key);
    true
}

/// Once a button has had the presses that it is allowed, it is not pressed again, however much time
/// passes.
pub proof fn lemma_presses_run_out(u: UiInput, race: Race, key: usize, name: Seq<char>, now: u64)
    requires
        pressed(u.presses@, key).0 >= allowance(name),
    ensures
        !presses_on(u, race, key, name, now),
{
}

/// Two presses of a button lie at least the gap apart.
pub proof fn lemma_presses_are_spaced(
    m: Map<usize, (u32, u64)>,
    u: UiInput,
    race: Race,
    key: usize,
    name: Seq<char>,
    now: u64,
    soon: u64,
)
    requires
        u.presses@ == presses_after(m, key, now),
        now <= soon < now + PRESS_GAP_MS,
    ensures
        !presses_on(u, race, key, name, soon),
{
    assert(pressed(u.presses@, key).1 == now);
}

/// The memory of presses stays bounded.
pub proof fn lemma_presses_bounded(m: Map<usize, (u32, u64)>, key: usize, now: u64)
    requires
        m.dom().finite(),
        m.len() <= PRESS_STATE_CAP,
    ensures
        presses_after(m, key, now).len() <= PRESS_STATE_CAP,
{
}

/// A dialog is not closed a second time while it is remembered.
pub proof fn lemma_closed_once(s: Set<usize>, key: usize)
    requires
        s.finite(),
        s.len() < DONE_DLG_CAP,
        s.contains(key),
    ensures
        closed_before(s).contains(key),
{
}

/// A name is told once, and again half a minute later where that is asked for; an empty name never.
pub proof fn lemma_tells(s: Seq<(Seq<char>, u64)>, name: Seq<char>, relog: bool, now: u64)
    ensures
        name.len() == 0 ==> !tells(s, name, relog, now),
        name.len() > 0 && told_at(s, name) is None ==> tells(s, name, relog, now),
        name.len() > 0 ==> (told_at(s, name) matches Some(t) ==> {
            &&& !relog ==> !tells(s, name, relog, now)
            &&& relog && t <= now ==> (tells(s, name, relog, now) <==> t + 30_000 <= now)
        }),
{
}

/// What is told is remembered with its time, first; the other names keep theirs, unless there are 256 of
/// them, which are then forgotten.
pub proof fn lemma_told_after(s: Seq<(Seq<char>, u64)>, name: Seq<char>, now: u64, other: Seq<char>)
    ensures
        told_at(told_after(s, name, now), name) == Some(now),
        s.len() < 256 && other != name ==> told_at(told_after(s, name, now), other) == told_at(s, other),
        s.len() >= 256 && other != name ==> told_at(told_after(s, name, now), other) is None,
{
    let r = told_after(s, name, now);
    assert(r[0] == (name, now));
    if s.len() < 256 {
        assert(r.drop_first() =~= told_without(s, name));
        lemma_told_without(s, name, other);
    } else {
        assert(r.drop_first() =~= Seq::empty());
        assert(told_at(r.drop_first(), other) is None);
    }
}

proof fn lemma_told_pushed(s: Seq<(Seq<char>, u64)>, p: (Seq<char>, u64), name: Seq<char>)
    ensures
        told_at(s.push(p), name) == (if told_at(s, name) is Some {
            told_at(s, name)
        } else if p.0 == name {
            Some(p.1)
        } else {
            None
        }),
    decreases s.len(),
{
    let r = s.push(p);
    if s.len() == 0 {
        assert(r[0] == p);
        assert(r.drop_first() =~= Seq::empty());
        assert(told_at(r.drop_first(), name) is None);
    } else {
        assert(r[0] == s[0]);
        assert(r.drop_first() =~= s.drop_first().push(p));
        lemma_told_pushed(s.drop_first(), p, name);
    }
}

proof fn lemma_told_without(s: Seq<(Seq<char>, u64)>, name: Seq<char>, other: Seq<char>)
    ensures
        other != name ==> told_at(told_without(s, name), other) == told_at(s, other),
    decreases s.len(),
{
    if s.len() > 0 {
        let t = s.drop_last();
        lemma_told_without(t, name, other);
        assert(t.push(s.last()) =~= s);
        lemma_told_pushed(t, s.last(), other);
        lemma_told_pushed(told_without(t, name), s.last(), other);
    }
}

/// A button may be pressed four times where it is a tap target or a common button, and once otherwise; no
/// two presses are less than 130 ms apart, and none is made while a press is under way.
pub proof fn lemma_presses_on(u: UiInput, race: Race, key: usize, name: Seq<char>, now: u64)
    ensures
        multi_name(name) ==> allowance(name) == 4,
        !multi_name(name) ==> allowance(name) == 1,
        key == 0 || open_gate(u.busy, now) || !allowed_name(race, name) ==> !presses_on(
            u,
            race,
            key,
            name,
            now,
        ),
        pressed(u.presses@, key).1 <= now ==> (presses_on(u, race, key, name, now) <==> key != 0
            && !open_gate(u.busy, now) && allowed_name(race, name) && pressed(u.presses@, key).0
            < allowance(name) && pressed(u.presses@, key).1 + 130 <= now),
        !u.presses@.dom().contains(key) ==> pressed(u.presses@, key) == (0u32, 0u64),
        u.presses@.dom().contains(key) ==> pressed(u.presses@, key) == u.presses@[key],
{
}

/// A press is counted for its own button, with its time; the other buttons keep theirs, unless 512 are
/// remembered and this one is new.
pub proof fn lemma_presses_after(m: Map<usize, (u32, u64)>, key: usize, now: u64, other: usize)
    ensures
        pressed(presses_after(m, key, now), key).1 == now,
        pressed(m, key).0 < u32::MAX ==> pressed(presses_after(m, key, now), key).0 == pressed(m, key).0
            + 1,
        other != key && (m.len() < 512 || m.dom().contains(key)) ==> pressed(
            presses_after(m, key, now),
            other,
        ) == pressed(m, other),
        other != key && m.len() >= 512 && !m.dom().contains(key) ==> pressed(
            presses_after(m, key, now),
            other,
        ) == (0u32, 0u64),
{
}

/// The dialogs that were closed are remembered up to 512 of them, and then forgotten together.
pub proof fn lemma_closed_before(s: Set<usize>)
    ensures
        s.len() < 512 ==> closed_before(s) == s,
        s.len() >= 512 ==> closed_before(s) == Set::<usize>::empty(),
{
}

/// Forgetting leaves no name, no press, no closed dialog and nothing told.
pub proof fn lemma_forgot(u: UiInput)
    requires
        forgot(u),
    ensures
        u.names@.dom() == Set::<usize>::empty(),
        u.presses@.dom() == Set::<usize>::empty(),
        forall|k: usize| !#[trigger] u.done@.contains(k),
        u.logged@.len() == 0,
        forall|name: Seq<char>| #[trigger] told_at(told_view(u.logged@), name) is None,
{
    assert(u.names@.dom() =~= Set::<usize>::empty());
    assert(u.presses@.dom() =~= Set::<usize>::empty());
    assert(told_view(u.logged@).len() == 0);
}

} // verus!
