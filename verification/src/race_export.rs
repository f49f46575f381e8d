//! Which races are written to disk, and under which names.

use vstd::prelude::*;

use crate::json::{field, int_field, bits_field, list_field, put_text, text_field};
use crate::json::{json_tree, json_trees, Json};
use crate::plurals::trim_range;
use crate::plurals::{trim_end, trim_start, trimmed};
use crate::runtime::allowed;
use crate::runtime::{Power, Subsystem};
use crate::settings::Settings;
use crate::text::{chars_of, same, string_of};

verus! {

/// What the exporter remembers.
#[derive(Clone, Copy, PartialEq, Eq, Structural, Debug)]
pub struct Export {
    pub enabled: bool,
    /// The race that was last written, and its result; 0 for none.
    pub last_race: usize,
    pub last_sim: usize,
}

/// Where a race is written.
pub struct Target {
    pub folder: String,
    /// The winner's name, fit for a file name, and the bits of the winning time.
    pub winner: Option<(String, u64)>,
}

/// Nothing written yet.
pub fn new_export() -> (r: Export)
    ensures
        r == (Export { enabled: false, last_race: 0, last_sim: 0 }),
{
    Export { enabled: false, last_race: 0, last_sim: 0 }
}

/// Switch the export.
pub fn set_enabled(e: &mut Export, on: bool)
    ensures
        *final(e) == (Export { enabled: on, ..*old(e) }),
{
    e.enabled = on;
}

/// Apply the settings at startup.
pub fn apply(e: &mut Export, s: &Settings)
    ensures
        *final(e) == (Export { enabled: s.misc.race_export, ..*old(e) }),
{
    set_enabled(e, s.misc.race_export);
}

/// Whether a race, or a Team Trials result, may be written at all.
pub open spec fn open_for(e: Export, p: Power, race: usize) -> bool {
    race != 0 && e.enabled && allowed(p, Subsystem::Export)
}

/// Whether a race is ready and another one than was last written. `sim` is its result, where the
/// game tells it; 0 while there is none.
pub open spec fn is_fresh(e: Export, race: usize, sim: Option<usize>) -> bool {
    &&& sim != Some(0usize)
    &&& race != e.last_race || (sim is Some && sim->0 != e.last_sim)
}

/// A race was seen: whether it is to be written.
pub fn maybe_dump(e: &mut Export, p: &Power, race: usize, sim: Option<usize>) -> (r: bool)
    ensures
        r == (open_for(*old(e), *p, race) && is_fresh(*old(e), race, sim)),
        *final(e) == (if r {
            Export {
                last_race: race,
                last_sim: match sim {
                    Some(s) => s,
                    None => 0,
                },
                ..*old(e)
            }
        } else {
            *old(e)
        }),
{
    if race == 0 || !e.enabled || !crate::runtime::active(p, Subsystem::Export) {
        return false;
    }
    let known: usize = match sim {
        Some(s) => {
            if s == 0 {
                return false;
            }
            s
        },
        None => 0,
    };
    let fresh: bool = race != e.last_race || (sim.is_some() && known != e.last_sim);
    if !fresh {
        return false;
    }
    e.last_race = race;
    e.last_sim = known;
    true
}

/// Whether a character is a letter or a number, by its Unicode properties.
pub uninterp spec fn alphanumeric(c: char) -> bool;

/// `char::is_alphanumeric`: whether the character is a letter or a number; its answer is named.
pub assume_specification[ char::is_alphanumeric ](c: char) -> (r: bool)
    ensures
        r == alphanumeric(c),
;

/// What a character is in a file name.
pub open spec fn clean_char(c: char) -> char {
    if alphanumeric(c) || c == ' ' || c == '-' {
        c
    } else {
        '_'
    }
}

/// A text fit for a file name.
pub open spec fn sanitized(s: Seq<char>) -> Seq<char> {
    trimmed(s.map_values(|c: char| clean_char(c)))
}

/// A text fit for a file name.
pub fn sanitize(s: &str) -> (r: String)
    ensures
        r@ == sanitized(s@),
{
    let cs: Vec<char> = chars_of(s);
    let mut out: Vec<char> = Vec::new();
    let mut i: usize = 0;
    while i < cs.len()
        invariant
            i <= cs.len(),
            out@.len() == i,
            forall|j: int| 0 <= j < i ==> #[trigger] out@[j] == clean_char(cs@[j]),
        decreases cs.len() - i,
    {
        let c: char = cs[i];
        let k: char = if c.is_alphanumeric() || c == ' ' || c == '-' {
            c
        } else {
            '_'
        };
        out.push(k);
        i = i + 1;
    }
    assert(out@ =~= s@.map_values(|c: char| clean_char(c)));
    let n: usize = out.len();
    let b: (usize, usize) = trim_range(&out, 0, n);
    assert(out@.subrange(0, n as int) =~= out@);
    string_of(&out, b.0, b.1)
}

/// The folder for a kind of race.
pub open spec fn folder_of(kind: Seq<char>) -> Seq<char> {
    if kind == "Single"@ {
        "Career"@
    } else if kind == "RoomMatch"@ {
        "Room match"@
    } else if kind == "Champions"@ {
        "Champions meeting"@
    } else if kind == "Practice"@ {
        "Practice room"@
    } else if kind == "Stadium"@ || kind == "TeamStadium"@ || kind == "Daily"@ {
        "Team trials"@
    } else if kind == ""@ {
        "Other"@
    } else {
        sanitized(kind)
    }
}

/// The folder for a kind of race; a kind that is not known gets a folder of its own.
pub fn folder_for(kind: &str) -> (r: String)
    ensures
        r@ == folder_of(kind@),
{
    if same(kind, "Single") {
        "Career".to_owned()
    } else if same(kind, "RoomMatch") {
        "Room match".to_owned()
    } else if same(kind, "Champions") {
        "Champions meeting".to_owned()
    } else if same(kind, "Practice") {
        "Practice room".to_owned()
    } else if same(kind, "Stadium") || same(kind, "TeamStadium") || same(kind, "Daily") {
        "Team trials".to_owned()
    } else if same(kind, "") {
        "Other".to_owned()
    } else {
        sanitize(kind)
    }
}

/// The first horse of a row that finished first.
pub open spec fn first_place(s: Seq<Json>) -> Option<Json>
    decreases s.len(),
{
    if s.len() == 0 {
        None
    } else if s[0].int_at("FinishOrder"@) == Some(0i64) {
        Some(s[0])
    } else {
        first_place(s.drop_first())
    }
}

/// The winner in an array of the race.
pub open spec fn winner_in(v: Json, key: Seq<char>) -> Option<Json> {
    match v.list_at(key) {
        Some(l) => first_place(l),
        None => None,
    }
}

/// The winner of a race.
pub open spec fn winner_spec(v: Json) -> Option<Json> {
    match winner_in(v, "<RaceHorse>k__BackingField"@) {
        Some(w) => Some(w),
        None => winner_in(v, "<PlayerTeamMemberArray>k__BackingField"@),
    }
}

/// The name of a horse.
pub open spec fn horse_name(w: Json) -> Seq<char> {
    match w.text_at("<charaName>k__BackingField"@) {
        Some(s) => s,
        None => "race"@,
    }
}

/// The bits of the finishing time of a horse; 0 where it is not told.
pub open spec fn horse_time(w: Json) -> u64 {
    match w.bits_at("FinishTimeRaw"@) {
        Some(b) => b,
        None => 0,
    }
}

/// Find the first horse of a row that finished first.
fn find_first(l: &Vec<serde_json::Value>) -> (r: Option<&serde_json::Value>)
    ensures
        (match r {
            Some(w) => first_place(json_trees(l@)) == Some(json_tree(*w)),
            None => first_place(json_trees(l@)) is None,
        }),
{
    let ghost all = json_trees(l@);
    let mut i: usize = 0;
    assert(all.skip(0) =~= all);
    while i < l.len()
        invariant
            i <= l.len(),
            all == json_trees(l@),
            first_place(all) == first_place(all.skip(i as int)),
        decreases l.len() - i,
    {
        assert(all.skip(i as int)[0] == json_tree(l@[i as int]));
        match int_field(&l[i], "FinishOrder") {
            Some(n) => {
                if n == 0 {
                    return Some(&l[i]);
                }
            },
            None => {},
        }
        assert(all.skip(i as int).drop_first() =~= all.skip(i as int + 1));
        i = i + 1;
    }
    None
}

/// The winner of a race: name and the bits of the time.
pub fn winner_of(v: &serde_json::Value) -> (r: Option<(String, u64)>)
    ensures
        (match winner_spec(json_tree(*v)) {
            Some(w) => r is Some && (r->0).0@ == horse_name(w) && (r->0).1 == horse_time(w),
            None => r is None,
        }),
{
    let mut found: Option<&serde_json::Value> = match list_field(v, "<RaceHorse>k__BackingField") {
        Some(l) => find_first(l),
        None => None,
    };
    if found.is_none() {
        found = match list_field(v, "<PlayerTeamMemberArray>k__BackingField") {
            Some(l) => find_first(l),
            None => None,
        };
    }
    match found {
        Some(w) => {
            let name: String = match text_field(w, "<charaName>k__BackingField") {
                Some(s) => s.to_owned(),
                None => "race".to_owned(),
            };
            let time: u64 = match bits_field(w, "FinishTimeRaw") {
                Some(b) => b,
                None => 0,
            };
            Some((name, time))
        },
        None => None,
    }
}

/// A value with the version that viewers expect.
pub open spec fn stamped(v: Json) -> Json {
    match v {
        Json::Dict(m) => Json::Dict(m.insert("horseACT_version"@, Json::Text("1.1.4"@))),
        t => t,
    }
}

/// Stamp the version that viewers expect on a value.
pub fn stamp_version(v: &mut serde_json::Value)
    ensures
        json_tree(*final(v)) == stamped(json_tree(*old(v))),
{
    put_text(v, "horseACT_version", "1.1.4");
}

/// Whether a race holds its replay.
pub open spec fn has_replay(v: Json) -> bool {
    match v.text_at("<SimDataBase64>k__BackingField"@) {
        Some(s) => s.len() > 0,
        None => false,
    }
}

/// The kind of a race.
pub open spec fn kind_of(v: Json) -> Seq<char> {
    match v.text_at("<RaceType>k__BackingField"@) {
        Some(s) => s,
        None => ""@,
    }
}

/// Prepare a race to be written: stamp it, and tell where it goes. `None` for a race without its
/// replay, which stays as it is.
pub fn save(v: &mut serde_json::Value) -> (r: Option<Target>)
    ensures
        r is Some <==> has_replay(json_tree(*old(v))),
        r is None ==> json_tree(*final(v)) == json_tree(*old(v)),
        r is Some ==> {
            let t = stamped(json_tree(*old(v)));
            &&& json_tree(*final(v)) == t
            &&& (r->0).folder@ == folder_of(kind_of(t))
            &&& (match winner_spec(t) {
                Some(w) => (r->0).winner is Some && ((r->0).winner->0).0@ == sanitized(
                    horse_name(w),
                ) && ((r->0).winner->0).1 == horse_time(w),
                None => (r->0).winner is None,
            })
        },
{
    let ready: bool = match text_field(v, "<SimDataBase64>k__BackingField") {
        Some(s) => s.unicode_len() > 0,
        None => false,
    };
    if !ready {
        return None;
    }
    stamp_version(v);
    let folder: String = match text_field(v, "<RaceType>k__BackingField") {
        Some(k) => folder_for(k),
        None => folder_for(""),
    };
    let winner: Option<(String, u64)> = match winner_of(v) {
        Some(w) => Some((sanitize(w.0.as_str()), w.1)),
        None => None,
    };
    Some(Target { folder, winner })
}

/// The name of a race's file. `time` is the winning time to four places, `stamp` the time of writing.
pub fn file_name(winner: Option<(&str, &str)>, stamp: &str) -> (r: String)
    ensures
        r@ == (match winner {
            Some(w) => w.0@ + "-"@ + w.1@ + "s-"@ + stamp@ + ".json"@,
            None => "race-"@ + stamp@ + ".json"@,
        }),
{
    let mut s: String = match winner {
        Some(w) => {
            let mut n: String = w.0.to_owned();
            n.append("-");
            n.append(w.1);
            n.append("s-");
            n
        },
        None => "race-".to_owned(),
    };
    s.append(stamp);
    s.append(".json");
    s
}

/// Whether a value looks like a Team Trials result.
pub open spec fn looks_like_trials(v: Json) -> bool {
    v.at("race_result_array"@) is Some || (v.at("data"@) is Some && v.at("data"@)->0.at(
        "race_result_array"@,
    ) is Some)
}

/// Whether a Team Trials result that was seen is looked at: exports are on, and may run.
pub fn takes_team_trials(e: &Export, p: &Power, response: usize) -> (r: bool)
    ensures
        r == open_for(*e, *p, response),
        r == (response != 0 && e.enabled && allowed(*p, Subsystem::Export)),
{
    response != 0 && e.enabled && crate::runtime::active(p, Subsystem::Export)
}

/// Prepare a Team Trials result to be written: stamp it and tell its file name. `None` where it does
/// not look like one.
pub fn dump_team_trials(v: &mut serde_json::Value, stamp: &str) -> (r: Option<String>)
    ensures
        r is Some <==> looks_like_trials(json_tree(*old(v))),
        r is Some ==> (r->0)@ == "TT-"@ + stamp@ + ".json"@,
        json_tree(*final(v)) == (if r is Some {
            stamped(json_tree(*old(v)))
        } else {
            json_tree(*old(v))
        }),
{
    let looks: bool = match field(v, "race_result_array") {
        Some(_) => true,
        None => match field(v, "data") {
            Some(d) => field(d, "race_result_array").is_some(),
            None => false,
        },
    };
    if !looks {
        return None;
    }
    stamp_version(v);
    let mut s: String = "TT-".to_owned();
    s.append(stamp);
    s.append(".json");
    Some(s)
}

/// Stamping changes nothing that decides where a race goes.
pub proof fn lemma_stamp_keeps_race(v: Json)
    ensures
        kind_of(stamped(v)) == kind_of(v),
        winner_spec(stamped(v)) == winner_spec(v),
        has_replay(stamped(v)) == has_replay(v),
        stamped(stamped(v)) == stamped(v),
{
    reveal_strlit("horseACT_version");
    reveal_strlit("<RaceType>k__BackingField");
    reveal_strlit("<SimDataBase64>k__BackingField");
    reveal_strlit("<RaceHorse>k__BackingField");
    reveal_strlit("<PlayerTeamMemberArray>k__BackingField");
    assert("horseACT_version"@[0] == 'h');
    assert("<RaceType>k__BackingField"@[0] == '<');
    assert("<SimDataBase64>k__BackingField"@[0] == '<');
    assert("<RaceHorse>k__BackingField"@[0] == '<');
    assert("<PlayerTeamMemberArray>k__BackingField"@[0] == '<');
    match v {
        Json::Dict(m) => {
            let k = "horseACT_version"@;
            let t = Json::Text("1.1.4"@);
            assert(m.insert(k, t).insert(k, t) =~= m.insert(k, t));
        },
        _ => {},
    }
}

/// A race that was written is not written again until it, or its result, is another one.
pub proof fn lemma_written_once(e: Export, race: usize, sim: Option<usize>)
    requires
        e.last_race == race,
        sim is Some ==> e.last_sim == sim->0,
    ensures
        !is_fresh(e, race, sim),
{
}

/// Trimming leaves no character that was not there.
proof fn lemma_trim_keeps(s: Seq<char>, i: int)
    ensures
        0 <= i < trim_start(s).len() ==> s.contains(trim_start(s)[i]),
        0 <= i < trim_end(s).len() ==> s.contains(trim_end(s)[i]),
    decreases s.len(),
{
    if s.len() > 0 {
        let head = s.drop_first();
        let tail = s.drop_last();
        lemma_trim_keeps(head, i);
        lemma_trim_keeps(tail, i);
        if 0 <= i < trim_start(head).len() {
            let k = choose|k: int| 0 <= k < head.len() && head[k] == trim_start(head)[i];
            assert(s[k + 1] == head[k]);
        }
        if 0 <= i < trim_end(tail).len() {
            let k = choose|k: int| 0 <= k < tail.len() && tail[k] == trim_end(tail)[i];
            assert(s[k] == tail[k]);
        }
    }
}

/// A name that is fit for a file holds letters, numbers, spaces, dashes and underscores only.
pub proof fn lemma_name_is_clean(s: Seq<char>, i: int)
    requires
        0 <= i < sanitized(s).len(),
    ensures
        ({
            let c = sanitized(s)[i];
            alphanumeric(c) || c == ' ' || c == '-' || c == '_'
        }),
{
    let m = s.map_values(|c: char| clean_char(c));
    let t = trim_start(m);
    lemma_trim_keeps(t, i);
    let k = choose|k: int| 0 <= k < t.len() && t[k] == trim_end(t)[i];
    lemma_trim_keeps(m, k);
    let j = choose|j: int| 0 <= j < m.len() && m[j] == t[k];
    assert(m[j] == clean_char(s[j]));
}

/// The folder of each kind of race; any other kind has one of its own name.
pub proof fn lemma_folders(kind: Seq<char>)
    ensures
        folder_of("Single"@) == "Career"@,
        folder_of("RoomMatch"@) == "Room match"@,
        folder_of("Champions"@) == "Champions meeting"@,
        folder_of("Practice"@) == "Practice room"@,
        folder_of("Stadium"@) == "Team trials"@,
        folder_of("TeamStadium"@) == "Team trials"@,
        folder_of("Daily"@) == "Team trials"@,
        folder_of(Seq::empty()) == "Other"@,
        !seq![
            "Single"@,
            "RoomMatch"@,
            "Champions"@,
            "Practice"@,
            "Stadium"@,
            "TeamStadium"@,
            "Daily"@,
            ""@,
        ].contains(kind) ==> folder_of(kind) == sanitized(kind),
{
    reveal_strlit("Single");
    reveal_strlit("RoomMatch");
    reveal_strlit("Champions");
    reveal_strlit("Practice");
    reveal_strlit("Stadium");
    reveal_strlit("TeamStadium");
    reveal_strlit("Daily");
    reveal_strlit("");
    let all = seq![
        "Single"@,
        "RoomMatch"@,
        "Champions"@,
        "Practice"@,
        "Stadium"@,
        "TeamStadium"@,
        "Daily"@,
        ""@,
    ];
    assert(all[0] == "Single"@ && all[1] == "RoomMatch"@ && all[2] == "Champions"@ && all[3]
        == "Practice"@ && all[4] == "Stadium"@ && all[5] == "TeamStadium"@ && all[6] == "Daily"@
        && all[7] == ""@);
    assert(""@ =~= Seq::<char>::empty());
    assert("Single"@[0] == 'S' && "Single"@[1] == 'i' && "RoomMatch"@[0] == 'R' && "Champions"@[0] == 'C'
        && "Practice"@[0] == 'P' && "Stadium"@[0] == 'S' && "Stadium"@[1] == 't' && "TeamStadium"@[0]
        == 'T' && "Daily"@[0] == 'D');
    assert("Single"@.len() == 6 && "RoomMatch"@.len() == 9 && "Champions"@.len() == 9 && "Practice"@.len()
        == 8 && "Stadium"@.len() == 7 && "TeamStadium"@.len() == 11 && "Daily"@.len() == 5);
}

/// The winner is the first horse that finished first, of the runners or else of the player's team.
proof fn lemma_first_place(s: Seq<Json>)
    ensures
        first_place(s) matches Some(w) ==> exists|i: int|
            0 <= i < s.len() && #[trigger] s[i] == w && w.int_at("FinishOrder"@) == Some(0i64) && forall|
                j: int,
            |
                0 <= j < i ==> (#[trigger] s[j]).int_at("FinishOrder"@) != Some(0i64),
        first_place(s) is None ==> forall|j: int|
            0 <= j < s.len() ==> (#[trigger] s[j]).int_at("FinishOrder"@) != Some(0i64),
    decreases s.len(),
{
    if s.len() > 0 && s[0].int_at("FinishOrder"@) != Some(0i64) {
        let t = s.drop_first();
        lemma_first_place(t);
        assert forall|j: int| 0 < j < s.len() implies #[trigger] s[j] == t[j - 1] by {}
        if first_place(t) is Some {
            let w = first_place(t)->0;
            let i = choose|i: int|
                0 <= i < t.len() && #[trigger] t[i] == w && w.int_at("FinishOrder"@) == Some(0i64)
                    && forall|j: int|
                    0 <= j < i ==> (#[trigger] t[j]).int_at("FinishOrder"@) != Some(0i64);
            assert(s[i + 1] == t[i]);
            assert forall|j: int| 0 <= j < i + 1 implies (#[trigger] s[j]).int_at("FinishOrder"@) != Some(
                0i64,
            ) by {
                if j > 0 {
                    assert(s[j] == t[j - 1]);
                }
            }
        } else {
            assert forall|j: int| 0 <= j < s.len() implies (#[trigger] s[j]).int_at("FinishOrder"@)
                != Some(0i64) by {
                if j > 0 {
                    assert(s[j] == t[j - 1]);
                }
            }
        }
    }
}

/// The winner of a race finished first among its horses, or, where none of them did, among the player's
/// team.
pub proof fn lemma_winner(v: Json)
    ensures
        winner_spec(v) matches Some(w) ==> w.int_at("FinishOrder"@) == Some(0i64) && ((v.list_at(
            "<RaceHorse>k__BackingField"@,
        ) matches Some(l) && l.contains(w)) || (v.list_at(
            "<PlayerTeamMemberArray>k__BackingField"@,
        ) matches Some(l) && l.contains(w))),
        v.list_at("<RaceHorse>k__BackingField"@) matches Some(l) ==> forall|i: int|
            0 <= i < l.len() && (#[trigger] l[i]).int_at("FinishOrder"@) == Some(0i64) ==> (winner_spec(
                v,
            ) matches Some(w) && l.contains(w)),
        winner_spec(v) is None ==> {
            &&& v.list_at("<RaceHorse>k__BackingField"@) matches Some(l) ==> forall|i: int|
                0 <= i < l.len() ==> (#[trigger] l[i]).int_at("FinishOrder"@) != Some(0i64)
            &&& v.list_at("<PlayerTeamMemberArray>k__BackingField"@) matches Some(l) ==> forall|i: int|
                0 <= i < l.len() ==> (#[trigger] l[i]).int_at("FinishOrder"@) != Some(0i64)
        },
{
    if let Some(l) = v.list_at("<RaceHorse>k__BackingField"@) {
        lemma_first_place(l);
    }
    if let Some(l) = v.list_at("<PlayerTeamMemberArray>k__BackingField"@) {
        lemma_first_place(l);
    }
}

/// What a file is named after: the winner's name and time, as the race tells them.
pub proof fn lemma_named_after(w: Json, v: Json)
    ensures
        w.text_at("<charaName>k__BackingField"@) matches Some(s) ==> horse_name(w) == s,
        w.text_at("<charaName>k__BackingField"@) is None ==> horse_name(w) == "race"@,
        w.bits_at("FinishTimeRaw"@) matches Some(b) ==> horse_time(w) == b,
        w.bits_at("FinishTimeRaw"@) is None ==> horse_time(w) == 0,
        v.text_at("<RaceType>k__BackingField"@) matches Some(s) ==> kind_of(v) == s,
        v.text_at("<RaceType>k__BackingField"@) is None ==> kind_of(v).len() == 0,
        has_replay(v) <==> (v.text_at("<SimDataBase64>k__BackingField"@) matches Some(s) && s.len() > 0),
        looks_like_trials(v) <==> v.at("race_result_array"@) is Some || (v.at("data"@) matches Some(d)
            && d.at("race_result_array"@) is Some),
{
    reveal_strlit("");
}

/// A stamped race is the same race with the version beside it.
pub proof fn lemma_stamp(m: Map<Seq<char>, Json>)
    ensures
        stamped(Json::Dict(m)) matches Json::Dict(r) && r.dom().contains("horseACT_version"@)
            && r["horseACT_version"@] == Json::Text("1.1.4"@) && forall|k: Seq<char>| #[trigger]
            m.dom().contains(k) && k != "horseACT_version"@ ==> r.dom().contains(k) && r[k] == m[k],
{
}

/// A race is written while writing is on and there is one; again only where it, or its simulation, is
/// another.
pub proof fn lemma_export_due(e: Export, race: usize, sim: Option<usize>)
    ensures
        sim == Some(0usize) ==> !is_fresh(e, race, sim),
        sim is None ==> (is_fresh(e, race, sim) <==> race != e.last_race),
        sim matches Some(s) ==> (s != 0 ==> (is_fresh(e, race, sim) <==> race != e.last_race || s
            != e.last_sim)),
{
}

/// A file name keeps letters, numbers, blanks and hyphens; every other character is an underscore.
pub proof fn lemma_clean_char(c: char)
    ensures
        alphanumeric(c) ==> clean_char(c) == c,
        clean_char(' ') == ' ',
        clean_char('-') == '-',
        !alphanumeric(c) && c != ' ' && c != '-' ==> clean_char(c) == '_',
{
}

/// A race is written only while writing is on and allowed, and only where there is one.
pub proof fn lemma_open_for(e: Export, p: Power, race: usize)
    ensures
        open_for(e, p, race) <==> race != 0 && e.enabled && (p.overseer_on || p.keep_export),
{
}

} // verus!
