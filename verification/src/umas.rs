//! Which rosters of trained characters are written to disk.

use vstd::prelude::*;

use crate::runtime::allowed;
use crate::runtime::{Power, Subsystem};
use crate::settings::Settings;
use crate::text::{has_text, same, show_u64};
use crate::text::{dec, occurs};

verus! {

/// What the exporter remembers.
#[derive(Clone, Copy, PartialEq, Eq, Structural, Debug)]
pub struct Umas {
    pub enabled: bool,
    /// The size of the largest roster written.
    pub max_count: usize,
}

/// A method of the game: its class, its name, and the types of its parameters.
pub struct MethodInfo {
    pub class: String,
    pub name: String,
    pub params: Vec<String>,
}

/// Nothing written yet.
pub fn new_umas() -> (r: Umas)
    ensures
        r == (Umas { enabled: false, max_count: 0 }),
{
    Umas { enabled: false, max_count: 0 }
}

/// Switch the export.
pub fn set_enabled(u: &mut Umas, on: bool)
    ensures
        *final(u) == (Umas { enabled: on, ..*old(u) }),
{
    u.enabled = on;
}

/// Apply the settings at startup.
pub fn apply(u: &mut Umas, s: &Settings)
    ensures
        *final(u) == (Umas { enabled: s.misc.umas_export, ..*old(u) }),
{
    set_enabled(u, s.misc.umas_export);
}

/// Whether a roster of this size is looked at: the export is on and may run, and the roster is no
/// empty or partial one.
pub open spec fn admitted(u: Umas, p: Power, count: usize) -> bool {
    u.enabled && allowed(p, Subsystem::Export) && count > 0 && count >= u.max_count
}

/// Whether a roster of this size is looked at.
pub fn admits(u: &Umas, p: &Power, count: usize) -> (r: bool)
    ensures
        r == admitted(*u, *p, count),
{
    u.enabled && crate::runtime::active(p, Subsystem::Export) && count > 0 && count >= u.max_count
}

/// Whether a dump of a roster holds anything.
pub open spec fn usable(json: Seq<char>) -> bool {
    json.len() > 0 && json != "null"@ && json != "<err>"@
}

/// A roster was dumped: whether it is to be written.
pub fn save(u: &mut Umas, p: &Power, count: usize, json: &str) -> (r: bool)
    ensures
        r == (admitted(*old(u), *p, count) && usable(json@)),
        *final(u) == (if r {
            Umas { max_count: count, ..*old(u) }
        } else {
            *old(u)
        }),
        final(u).max_count >= old(u).max_count,
{
    if !admits(u, p, count) {
        return false;
    }
    if json.unicode_len() == 0 || same(json, "null") || same(json, "<err>") {
        return false;
    }
    u.max_count = count;
    true
}

/// Whether a type is an array of trained characters.
pub open spec fn is_roster(t: Seq<char>) -> bool {
    occurs(t, "TrainedChara"@) && occurs(t, "[]"@)
}

/// Whether a method takes a roster.
pub open spec fn takes_roster(m: MethodInfo) -> bool {
    exists|i: int| 0 <= i < m.params@.len() && is_roster((#[trigger] m.params@[i])@)
}

/// Whether a method is the one that applies the whole roster.
pub open spec fn is_wanted(m: MethodInfo) -> bool {
    takes_roster(m) && occurs(m.class@, "WorkTrainedCharaData"@) && occurs(m.name@, "UpdateAll"@)
}

/// The first method from `from` on that applies the whole roster.
pub open spec fn first_wanted(s: Seq<MethodInfo>, from: int) -> int
    decreases s.len() - from,
{
    if from >= s.len() {
        s.len() as int
    } else if is_wanted(s[from]) {
        from
    } else {
        first_wanted(s, from + 1)
    }
}

/// The first method from `from` on that takes a roster.
pub open spec fn first_taker(s: Seq<MethodInfo>, from: int) -> int
    decreases s.len() - from,
{
    if from >= s.len() {
        s.len() as int
    } else if takes_roster(s[from]) {
        from
    } else {
        first_taker(s, from + 1)
    }
}

/// Whether a method takes a roster.
fn takes(m: &MethodInfo) -> (r: bool)
    ensures
        r == takes_roster(*m),
{
    let mut i: usize = 0;
    while i < m.params.len()
        invariant
            i <= m.params.len(),
            forall|j: int| 0 <= j < i ==> !is_roster((#[trigger] m.params@[j])@),
        decreases m.params.len() - i,
    {
        let t: &str = m.params[i].as_str();
        if has_text(t, "TrainedChara") && has_text(t, "[]") {
            assert(is_roster(m.params@[i as int]@));
            return true;
        }
        i = i + 1;
    }
    false
}

/// The method to watch: the first that applies the whole roster, or else, as a fallback, the first
/// that takes one. The result says whether it is a fallback.
pub fn pick_method(methods: &Vec<MethodInfo>) -> (r: Option<(usize, bool)>)
    ensures
        ({
            let w = first_wanted(methods@, 0);
            let t = first_taker(methods@, 0);
            r == (if w < methods@.len() {
                Some((w as usize, false))
            } else if t < methods@.len() {
                Some((t as usize, true))
            } else {
                None
            })
        }),
{
    let mut fallback: Option<usize> = None;
    let mut i: usize = 0;
    while i < methods.len()
        invariant
            i <= methods.len(),
            first_wanted(methods@, 0) == first_wanted(methods@, i as int),
            match fallback {
                Some(k) => k < methods@.len() && first_taker(methods@, 0) == k,
                None => first_taker(methods@, 0) == first_taker(methods@, i as int),
            },
        decreases methods.len() - i,
    {
        if takes(&methods[i]) {
            if has_text(methods[i].class.as_str(), "WorkTrainedCharaData") && has_text(
                methods[i].name.as_str(),
                "UpdateAll",
            ) {
                return Some((i, false));
            }
            if fallback.is_none() {
                fallback = Some(i);
            }
        }
        i = i + 1;
    }
    match fallback {
        Some(k) => Some((k, true)),
        None => None,
    }
}

/// How the method that is watched is described.
pub fn describe(m: &MethodInfo, fallback: bool) -> (r: String)
    ensures
        r@ == (if fallback {
            "(fallback) "@
        } else {
            ""@
        }) + m.class@ + "."@ + m.name@ + " (params="@ + dec(m.params@.len() as int) + ")"@,
{
    let mut s: String = if fallback {
        "(fallback) ".to_owned()
    } else {
        "".to_owned()
    };
    s.append(m.class.as_str());
    s.append(".");
    s.append(m.name.as_str());
    s.append(" (params=");
    s.append(show_u64(m.params.len() as u64).as_str());
    s.append(")");
    s
}

/// A partial roster never replaces a larger one that was written.
pub proof fn lemma_partial_is_skipped(u: Umas, p: Power, count: usize)
    requires
        count < u.max_count,
    ensures
        !admitted(u, p, count),
{
}

/// What was found of the game at startup.
pub struct Setup {
    pub init: bool,
    pub image: bool,
    /// Classes and methods can be listed.
    pub listable: bool,
    /// What is known of the method that was picked: it has an address, and someone else watches it.
    pub pointer: bool,
    pub detoured: bool,
    /// Whether it could be watched: a detour was made, and switched on.
    pub hooked: Result<bool, String>,
}

/// The report on an installation where `picked` says whether a method was.
pub open spec fn report(s: Setup, picked: bool) -> Seq<char> {
    if !s.init {
        "il2cpp init failed"@
    } else if !s.image {
        "game image not found"@
    } else if !s.listable {
        "il2cpp enum fns unavailable"@
    } else if !picked {
        "no TrainedChara[] method found"@
    } else if !s.pointer {
        "method pointer null"@
    } else if s.detoured {
        "already detoured (skipped)"@
    } else {
        match s.hooked {
            Ok(true) => "hooked TrainedChara[] method (veterans export)"@,
            Ok(false) => "detour enable failed"@,
            Err(e) => "detour failed: "@ + e@,
        }
    }
}

/// Report on the installation.
pub fn install(s: &Setup, methods: &Vec<MethodInfo>) -> (r: String)
    ensures
        r@ == report(*s, first_taker(methods@, 0) < methods@.len()),
{
    proof {
        lemma_wanted_takes(methods@, 0);
    }
    if !s.init {
        "il2cpp init failed".to_owned()
    } else if !s.image {
        "game image not found".to_owned()
    } else if !s.listable {
        "il2cpp enum fns unavailable".to_owned()
    } else if pick_method(methods).is_none() {
        "no TrainedChara[] method found".to_owned()
    } else if !s.pointer {
        "method pointer null".to_owned()
    } else if s.detoured {
        "already detoured (skipped)".to_owned()
    } else {
        match &s.hooked {
            Ok(on) => if *on {
                "hooked TrainedChara[] method (veterans export)".to_owned()
            } else {
                "detour enable failed".to_owned()
            },
            Err(e) => {
                let mut t: String = "detour failed: ".to_owned();
                t.append(e.as_str());
                t
            },
        }
    }
}

/// The roster update itself takes a roster: where it is found, so is a method that takes one.
proof fn lemma_wanted_takes(s: Seq<MethodInfo>, from: int)
    requires
        0 <= from,
    ensures
        first_wanted(s, from) < s.len() ==> first_taker(s, from) < s.len(),
    decreases s.len() - from,
{
    if from < s.len() {
        lemma_wanted_takes(s, from + 1);
    }
}

/// A roster is exported while exporting is on and allowed, when it has anyone and no fewer than before.
pub proof fn lemma_admitted(u: Umas, p: Power, count: usize)
    ensures
        admitted(u, p, count) <==> u.enabled && (p.overseer_on || p.keep_export) && count != 0
            && u.max_count <= count,
{
}

/// A text is no export where it is empty, nothing or an error.
pub proof fn lemma_usable(json: Seq<char>)
    ensures
        usable(json) <==> json.len() != 0 && json != "null"@ && json != "<err>"@,
{
}

/// A method takes the roster where one of its parameters is a list of trained characters; the wanted one
/// updates them all.
pub proof fn lemma_roster_method(m: MethodInfo)
    ensures
        takes_roster(m) <==> exists|i: int|
            0 <= i < m.params@.len() && occurs((#[trigger] m.params@[i])@, "TrainedChara"@) && occurs(
                m.params@[i]@,
                "[]"@,
            ),
        is_wanted(m) <==> takes_roster(m) && occurs(m.class@, "WorkTrainedCharaData"@) && occurs(
            m.name@,
            "UpdateAll"@,
        ),
{
    if takes_roster(m) {
        let i = choose|i: int| 0 <= i < m.params@.len() && is_roster((#[trigger] m.params@[i])@);
        assert(occurs(m.params@[i]@, "TrainedChara"@));
    }
    if exists|i: int|
        0 <= i < m.params@.len() && occurs((#[trigger] m.params@[i])@, "TrainedChara"@) && occurs(
            m.params@[i]@,
            "[]"@,
        ) {
        let i = choose|i: int|
            0 <= i < m.params@.len() && occurs((#[trigger] m.params@[i])@, "TrainedChara"@) && occurs(
                m.params@[i]@,
                "[]"@,
            );
        assert(is_roster(m.params@[i]@));
    }
}

/// The first wanted method is the first that is wanted, and the first taker the first that takes the
/// roster; the end of the list stands for none.
pub proof fn lemma_first_methods(s: Seq<MethodInfo>, from: int)
    requires
        0 <= from <= s.len(),
    ensures
        from <= first_wanted(s, from) <= s.len(),
        first_wanted(s, from) < s.len() ==> is_wanted(s[first_wanted(s, from)]),
        forall|i: int| from <= i < first_wanted(s, from) ==> !is_wanted(#[trigger] s[i]),
        from <= first_taker(s, from) <= s.len(),
        first_taker(s, from) < s.len() ==> takes_roster(s[first_taker(s, from)]),
        forall|i: int| from <= i < first_taker(s, from) ==> !takes_roster(#[trigger] s[i]),
    decreases s.len() - from,
{
    if from < s.len() {
        lemma_first_methods(s, from + 1);
    }
}

/// The report tells the first thing that went wrong, in the order in which they are tried.
pub proof fn lemma_report(s: Setup, picked: bool)
    ensures
        !s.init ==> report(s, picked) == "il2cpp init failed"@,
        s.init && !s.image ==> report(s, picked) == "game image not found"@,
        s.init && s.image && !s.listable ==> report(s, picked) == "il2cpp enum fns unavailable"@,
        s.init && s.image && s.listable && !picked ==> report(s, picked)
            == "no TrainedChara[] method found"@,
        s.init && s.image && s.listable && picked && !s.pointer ==> report(s, picked)
            == "method pointer null"@,
        s.init && s.image && s.listable && picked && s.pointer && s.detoured ==> report(s, picked)
            == "already detoured (skipped)"@,
        s.init && s.image && s.listable && picked && s.pointer && !s.detoured ==> {
            &&& s.hooked matches Ok(b) ==> report(s, picked) == if b {
                "hooked TrainedChara[] method (veterans export)"@
            } else {
                "detour enable failed"@
            }
            &&& s.hooked matches Err(e) ==> report(s, picked) == "detour failed: "@ + e@
        },
{
}

} // verus!
