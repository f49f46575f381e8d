//! The record of a finished career.

use vstd::prelude::*;

use crate::career::{BondRow, FinishPayload};
use crate::msgpack::{
    as_arr, find_first, first_int, first_list, get_int, get_list, int_or_zero, map_get, node_int,
    node_pairs, node_text, Node, Tree,
};
use crate::msgpack::{first_hit, keys_of, lemma_three_lists, or_zero, pairs, trees};
use crate::response_hook::account::bond_rows;
use crate::response_hook::account::read_bonds;
use crate::text::{has_text, same};
use crate::text::occurs;

verus! {

/// How many scenario results a record keeps.
pub const MAX_SCENARIO_RESULTS: usize = 32;

/// How many raw statistics a record keeps.
pub const MAX_RAW: usize = 96;

/// Whether a roster entry is the character `id`.
pub open spec fn is_chara(c: Tree, id: i64) -> bool {
    c.get_int("trained_chara_id"@) == Some(id)
}

/// The first roster entry that is the character `id`.
pub open spec fn roster_entry(list: Seq<Tree>, id: i64) -> Option<Tree>
    decreases list.len(),
{
    if list.len() == 0 {
        None
    } else if is_chara(list[0], id) {
        Some(list[0])
    } else {
        roster_entry(list.drop_first(), id)
    }
}

/// The finish block of a response and the character that finished. There is one only where the
/// block says which character finished, and that character is the one it describes or is on the
/// roster that it carries.
pub open spec fn finished(t: Tree) -> Option<(Tree, Tree)> {
    match first_hit(t, "single_mode_finish_common"@) {
        None => None,
        Some(fin) => match (fin.get_int("trained_chara_id"@), fin.get("trained_chara"@)) {
            (Some(id), Some(tc)) if id > 0 => match tc {
                Tree::List(list) => match roster_entry(list, id) {
                    Some(c) => Some((fin, c)),
                    None => None,
                },
                _ => if is_chara(tc, id) {
                    Some((fin, tc))
                } else {
                    None
                },
            },
            _ => None,
        },
    }
}

/// The factor that an entry speaks of: a bare id, or a record with one.
pub open spec fn factor_id(v: Tree) -> i64 {
    match v.as_int() {
        Some(n) => n,
        None => or_zero(v.first_int(seq!["factor_id"@, "id"@])),
    }
}

/// The skill that an entry speaks of: a record with an id, or a bare one.
pub open spec fn skill_id(v: Tree) -> i64 {
    match v.first_int(seq!["skill_id"@, "id"@]) {
        Some(n) => n,
        None => or_zero(v.as_int()),
    }
}

/// The positive ids of a row of factors, in order.
pub open spec fn factor_ids(rows: Seq<Tree>) -> Seq<i64>
    decreases rows.len(),
{
    if rows.len() == 0 {
        Seq::empty()
    } else if factor_id(rows.last()) > 0 {
        factor_ids(rows.drop_last()).push(factor_id(rows.last()))
    } else {
        factor_ids(rows.drop_last())
    }
}

/// The positive ids of a row of skills, in order.
pub open spec fn skill_ids(rows: Seq<Tree>) -> Seq<i64>
    decreases rows.len(),
{
    if rows.len() == 0 {
        Seq::empty()
    } else if skill_id(rows.last()) > 0 {
        skill_ids(rows.drop_last()).push(skill_id(rows.last()))
    } else {
        skill_ids(rows.drop_last())
    }
}

/// The factors under the first of `keys` that is an array.
pub open spec fn factors_under(v: Tree, keys: Seq<Seq<char>>) -> Seq<i64> {
    match v.first_list(keys) {
        Some(rows) => factor_ids(rows),
        None => Seq::empty(),
    }
}

/// The sparks of a trained character.
pub open spec fn own_factors(chara: Tree) -> Seq<i64> {
    factors_under(chara, seq!["factor_id_array"@, "factor_array"@, "succession_factor_array"@])
}

/// The inherited sparks of a trained character.
pub open spec fn inherited_factors(chara: Tree) -> Seq<i64> {
    factors_under(chara, seq!["succession_factor_id_array"@, "inherit_factor_id_array"@])
}

/// The skills that a trained character finished with.
pub open spec fn final_skills(chara: Tree) -> Seq<i64> {
    match chara.first_list(seq!["skill_array"@, "skill_list"@, "chara_skill_array"@]) {
        Some(rows) => skill_ids(rows),
        None => Seq::empty(),
    }
}

/// The bonds of a trained character.
pub open spec fn final_bonds(chara: Tree) -> Seq<BondRow> {
    match chara.first_list(
        seq!["support_card_array"@, "support_card_list"@, "training_partner_array"@],
    ) {
        Some(rows) => bond_rows(rows),
        None => Seq::empty(),
    }
}

/// How many races a trained character ran.
pub open spec fn races_run(chara: Tree) -> i64 {
    match chara.get_list("race_result_list"@) {
        Some(rows) => rows.len() as i64,
        None => 0,
    }
}

/// The difficulty, on the finish block or else on the character.
pub open spec fn difficulty_of(fin: Tree, chara: Tree) -> i64 {
    match fin.first_int(seq!["difficulty"@, "difficulty_id"@]) {
        Some(n) => n,
        None => or_zero(chara.first_int(seq!["difficulty"@, "difficulty_id"@])),
    }
}

/// What a row of named numbers says.
pub open spec fn named(s: Seq<(String, i64)>) -> Seq<(Seq<char>, i64)> {
    s.map_values(|p: (String, i64)| (p.0@, p.1))
}

/// Set the number named `key`, which is appended when there is none.
pub open spec fn put_named(s: Seq<(Seq<char>, i64)>, key: Seq<char>, n: i64) -> Seq<
    (Seq<char>, i64),
>
    decreases s.len(),
{
    if s.len() == 0 {
        seq![(key, n)]
    } else if s[0].0 == key {
        seq![(key, n)] + s.drop_first()
    } else {
        seq![s[0]] + put_named(s.drop_first(), key, n)
    }
}

/// Whether a key speaks of the scenario, a score or a rank.
pub open spec fn scenario_key(key: Seq<char>) -> bool {
    occurs(key, "scenario"@) || occurs(key, "score"@) || occurs(key, "rank"@)
}

/// The integers of a block that speak of the scenario, a score or a rank; no new ones are taken
/// once there are [`MAX_SCENARIO_RESULTS`].
pub open spec fn scenario_results(d: Seq<(Tree, Tree)>) -> Seq<(Seq<char>, i64)>
    decreases d.len(),
{
    if d.len() == 0 {
        Seq::empty()
    } else {
        let before = scenario_results(d.drop_last());
        match d.last() {
            (Tree::Text(key), Tree::Int(n)) if scenario_key(key) && before.len()
                < MAX_SCENARIO_RESULTS => put_named(before, key, n),
            _ => before,
        }
    }
}

/// The integers of a block; reading stops once there are [`MAX_RAW`].
pub open spec fn raw_numbers(d: Seq<(Tree, Tree)>) -> Seq<(Seq<char>, i64)>
    decreases d.len(),
{
    if d.len() == 0 {
        Seq::empty()
    } else {
        let before = raw_numbers(d.drop_last());
        match d.last() {
            (Tree::Text(key), Tree::Int(n)) if before.len() < MAX_RAW => put_named(
                before,
                key,
                n,
            ),
            _ => before,
        }
    }
}

/// The pairs of a block; none where it is not a map.
pub open spec fn pairs_or_none(t: Tree) -> Seq<(Tree, Tree)> {
    match t {
        Tree::Dict(d) => d,
        _ => Seq::empty(),
    }
}

/// One entry of `name` where `present`, none otherwise.
pub open spec fn flag(present: bool, name: Seq<char>) -> Seq<Seq<char>> {
    if present {
        seq![name]
    } else {
        Seq::empty()
    }
}

/// Which parts of a record were found.
pub open spec fn resolved_of(chara: Tree) -> Seq<Seq<char>> {
    flag(own_factors(chara).len() > 0, "sparks"@) + flag(
        final_skills(chara).len() > 0,
        "skills"@,
    ) + flag(final_bonds(chara).len() > 0, "bonds"@) + seq!["core"@]
}

impl FinishPayload {
    /// Whether this records the finish block `fin` for the character `chara`.
    pub open spec fn records(self, fin: Tree, chara: Tree) -> bool {
        &&& self.card_id == chara.int_or_zero("card_id"@)
        &&& self.rank_score == chara.int_or_zero("rank_score"@)
        &&& self.fans == chara.int_or_zero("fans"@)
        &&& self.speed == chara.int_or_zero("speed"@)
        &&& self.stamina == chara.int_or_zero("stamina"@)
        &&& self.power == chara.int_or_zero("power"@)
        &&& self.guts == chara.int_or_zero("guts"@)
        &&& self.wit == chara.int_or_zero("wiz"@)
        &&& self.skill_point == chara.int_or_zero("skill_point"@)
        &&& self.wins == chara.int_or_zero("wins"@)
        &&& self.race_count == races_run(chara)
        &&& self.scenario_id == chara.int_or_zero("scenario_id"@)
        &&& self.factor_ids@ == own_factors(chara)
        &&& self.inherited_factor_ids@ == inherited_factors(chara)
        &&& self.skill_ids@ == final_skills(chara)
        &&& self.bonds@ == final_bonds(chara)
        &&& self.running_style == or_zero(
            chara.first_int(seq!["running_style"@, "runningStyle"@, "last_running_style"@]),
        )
        &&& self.proper_distance == or_zero(
            chara.first_int(seq!["proper_distance"@, "proper_distance_middle"@, "distance_type"@]),
        )
        &&& self.difficulty == difficulty_of(fin, chara)
        &&& named(self.scenario_results@) == scenario_results(pairs_or_none(fin))
        &&& named(self.raw@) == raw_numbers(pairs_or_none(chara))
        &&& keys_of(self.resolved@) == resolved_of(chara)
    }
}

/// Whether a roster entry is the character `id`.
fn read_is_chara(c: &Node, id: i64) -> (r: bool)
    ensures
        r == is_chara(c@, id),
{
    match get_int(c, "trained_chara_id") {
        Some(n) => n == id,
        None => false,
    }
}

/// The first roster entry that is the character `id`.
fn read_roster<'a>(list: &'a Vec<Node>, id: i64) -> (r: Option<&'a Node>)
    ensures
        (match r {
            Some(n) => Some(n@),
            None => None,
        }) == roster_entry(trees(list@), id),
{
    let ghost all = trees(list@);
    let mut i: usize = 0;
    assert(all.skip(0) =~= all);
    while i < list.len()
        invariant
            i <= list.len(),
            all == trees(list@),
            roster_entry(all, id) == roster_entry(all.skip(i as int), id),
        decreases list.len() - i,
    {
        assert(all.skip(i as int)[0] == list@[i as int]@);
        if read_is_chara(&list[i], id) {
            return Some(&list[i]);
        }
        assert(all.skip(i as int).drop_first() =~= all.skip(i as int + 1));
        i = i + 1;
    }
    None
}

/// The positive factor ids of an array.
pub fn read_factor_ids(rows: &Vec<Node>) -> (r: Vec<i64>)
    ensures
        r@ == factor_ids(trees(rows@)),
{
    let ghost all = trees(rows@);
    let ks: [&str; 2] = ["factor_id", "id"];
    assert(keys_of(ks@) =~= seq!["factor_id"@, "id"@]);
    let mut out: Vec<i64> = Vec::new();
    let mut i: usize = 0;
    assert(out@ =~= factor_ids(all.take(0)));
    while i < rows.len()
        invariant
            i <= rows.len(),
            all == trees(rows@),
            keys_of(ks@) == seq!["factor_id"@, "id"@],
            out@ == factor_ids(all.take(i as int)),
        decreases rows.len() - i,
    {
        assert(all.take(i as int + 1).drop_last() =~= all.take(i as int));
        assert(all.take(i as int + 1).last() == rows@[i as int]@);
        let id: i64 = match node_int(&rows[i]) {
            Some(n) => n,
            None => match first_int(&rows[i], ks.as_slice()) {
                Some(n) => n,
                None => 0,
            },
        };
        if id > 0 {
            out.push(id);
        }
        i = i + 1;
    }
    assert(all.take(i as int) =~= all);
    out
}

/// The positive skill ids of an array.
fn read_skill_ids(rows: &Vec<Node>) -> (r: Vec<i64>)
    ensures
        r@ == skill_ids(trees(rows@)),
{
    let ghost all = trees(rows@);
    let ks: [&str; 2] = ["skill_id", "id"];
    assert(keys_of(ks@) =~= seq!["skill_id"@, "id"@]);
    let mut out: Vec<i64> = Vec::new();
    let mut i: usize = 0;
    assert(out@ =~= skill_ids(all.take(0)));
    while i < rows.len()
        invariant
            i <= rows.len(),
            all == trees(rows@),
            keys_of(ks@) == seq!["skill_id"@, "id"@],
            out@ == skill_ids(all.take(i as int)),
        decreases rows.len() - i,
    {
        assert(all.take(i as int + 1).drop_last() =~= all.take(i as int));
        assert(all.take(i as int + 1).last() == rows@[i as int]@);
        let id: i64 = match first_int(&rows[i], ks.as_slice()) {
            Some(n) => n,
            None => match node_int(&rows[i]) {
                Some(n) => n,
                None => 0,
            },
        };
        if id > 0 {
            out.push(id);
        }
        i = i + 1;
    }
    assert(all.take(i as int) =~= all);
    out
}

/// Set the number named `key`, which is appended when there is none.
fn set_named(s: &mut Vec<(String, i64)>, key: &String, n: i64)
    ensures
        named(final(s)@) == put_named(named(old(s)@), key@, n),
{
    let ghost all = named(s@);
    let mut i: usize = 0;
    assert(all.skip(0) =~= all);
    assert(all.take(0) + put_named(all.skip(0), key@, n) =~= put_named(all, key@, n));
    while i < s.len()
        invariant
            i <= s.len(),
            named(s@) == all,
            all == named(old(s)@),
            put_named(all, key@, n) == all.take(i as int) + put_named(
                all.skip(i as int),
                key@,
                n,
            ),
        decreases s.len() - i,
    {
        let ghost rest = all.skip(i as int);
        assert(rest.drop_first() =~= all.skip(i as int + 1));
        assert(rest[0] == (s@[i as int].0@, s@[i as int].1));
        if same(s[i].0.as_str(), key.as_str()) {
            s.set(i, (key.clone(), n));
            assert(named(s@) =~= all.take(i as int) + put_named(rest, key@, n));
            return ;
        }
        assert(all.take(i as int) + put_named(rest, key@, n) =~= all.take(i as int + 1)
            + put_named(all.skip(i as int + 1), key@, n));
        i = i + 1;
    }
    s.push((key.clone(), n));
    assert(named(s@) =~= all.take(i as int) + put_named(all.skip(i as int), key@, n));
}

/// The integers of a block that speak of the scenario, a score or a rank.
fn read_scenario_results(d: &Vec<(Node, Node)>) -> (r: Vec<(String, i64)>)
    ensures
        named(r@) == scenario_results(pairs(d@)),
{
    let ghost all = pairs(d@);
    let mut out: Vec<(String, i64)> = Vec::new();
    let mut i: usize = 0;
    assert(named(out@) =~= scenario_results(all.take(0)));
    while i < d.len()
        invariant
            i <= d.len(),
            all == pairs(d@),
            named(out@) == scenario_results(all.take(i as int)),
        decreases d.len() - i,
    {
        assert(all.take(i as int + 1).drop_last() =~= all.take(i as int));
        assert(all.take(i as int + 1).last() == (d@[i as int].0@, d@[i as int].1@));
        if let Some(key) = node_text(&d[i].0) {
            if let Some(n) = node_int(&d[i].1) {
                if has_text(key.as_str(), "scenario") || has_text(key.as_str(), "score")
                    || has_text(key.as_str(), "rank") {
                    if out.len() < MAX_SCENARIO_RESULTS {
                        set_named(&mut out, key, n);
                    }
                }
            }
        }
        i = i + 1;
    }
    assert(all.take(i as int) =~= all);
    out
}

/// Once full, the raw numbers stay as they are.
proof fn lemma_raw_full(d: Seq<(Tree, Tree)>, i: int)
    requires
        0 <= i <= d.len(),
        raw_numbers(d.take(i)).len() >= MAX_RAW,
    ensures
        raw_numbers(d) == raw_numbers(d.take(i)),
    decreases d.len() - i,
{
    if i < d.len() {
        assert(d.take(i + 1).drop_last() =~= d.take(i));
        lemma_raw_full(d, i + 1);
    } else {
        assert(d.take(i) =~= d);
    }
}

/// The integers of a block.
fn read_raw(d: &Vec<(Node, Node)>) -> (r: Vec<(String, i64)>)
    ensures
        named(r@) == raw_numbers(pairs(d@)),
{
    let ghost all = pairs(d@);
    let mut out: Vec<(String, i64)> = Vec::new();
    let mut i: usize = 0;
    assert(named(out@) =~= raw_numbers(all.take(0)));
    while i < d.len()
        invariant
            i <= d.len(),
            all == pairs(d@),
            named(out@) == raw_numbers(all.take(i as int)),
        decreases d.len() - i,
    {
        assert(all.take(i as int + 1).drop_last() =~= all.take(i as int));
        assert(all.take(i as int + 1).last() == (d@[i as int].0@, d@[i as int].1@));
        if let Some(key) = node_text(&d[i].0) {
            if let Some(n) = node_int(&d[i].1) {
                if out.len() >= MAX_RAW {
                    proof {
                        lemma_raw_full(all, i as int);
                    }
                    return out;
                }
                set_named(&mut out, key, n);
            }
        }
        i = i + 1;
    }
    assert(all.take(i as int) =~= all);
    out
}

/// The finish block of a response and the character that finished.
fn read_finished<'a>(val: &'a Node) -> (r: Option<(&'a Node, &'a Node)>)
    ensures
        (match r {
            Some((fin, chara)) => Some((fin@, chara@)),
            None => None,
        }) == finished(val@),
{
    match find_first(val, "single_mode_finish_common") {
        None => None,
        Some(fin) => {
            let id: i64 = match get_int(fin, "trained_chara_id") {
                Some(n) => n,
                None => 0,
            };
            if id <= 0 {
                return None;
            }
            match map_get(fin, "trained_chara") {
                None => None,
                Some(tc) => match as_arr(tc) {
                    Some(list) => match read_roster(list, id) {
                        Some(c) => Some((fin, c)),
                        None => None,
                    },
                    None => if read_is_chara(tc, id) {
                        Some((fin, tc))
                    } else {
                        None
                    },
                },
            }
        },
    }
}

/// Read a finished career off a response. `None` where the response does not say which character
/// finished, or does not describe that character.
pub fn parse_finish(val: &Node) -> (r: Option<FinishPayload>)
    ensures
        r is Some == (finished(val@) is Some),
        r matches Some(p) ==> p.records((finished(val@)->0).0, (finished(val@)->0).1),
{
    match read_finished(val) {
        None => None,
        Some((fin, chara)) => {
            let race_count: i64 = match get_list(chara, "race_result_list") {
                Some(rows) => rows.len() as i64,
                None => 0,
            };
            let k1: [&str; 3] = ["factor_id_array", "factor_array", "succession_factor_array"];
            assert(keys_of(k1@) =~= seq![
                "factor_id_array"@,
                "factor_array"@,
                "succession_factor_array"@,
            ]);
            let factor_ids: Vec<i64> = match first_list(chara, k1.as_slice()) {
                Some(rows) => read_factor_ids(rows),
                None => Vec::new(),
            };
            let k2: [&str; 2] = ["succession_factor_id_array", "inherit_factor_id_array"];
            assert(keys_of(k2@) =~= seq![
                "succession_factor_id_array"@,
                "inherit_factor_id_array"@,
            ]);
            let inherited_factor_ids: Vec<i64> = match first_list(chara, k2.as_slice()) {
                Some(rows) => read_factor_ids(rows),
                None => Vec::new(),
            };
            let k3: [&str; 3] = ["skill_array", "skill_list", "chara_skill_array"];
            assert(keys_of(k3@) =~= seq!["skill_array"@, "skill_list"@, "chara_skill_array"@]);
            let skill_ids: Vec<i64> = match first_list(chara, k3.as_slice()) {
                Some(rows) => read_skill_ids(rows),
                None => Vec::new(),
            };
            let k4: [&str; 3] = [
                "support_card_array",
                "support_card_list",
                "training_partner_array",
            ];
            assert(keys_of(k4@) =~= seq![
                "support_card_array"@,
                "support_card_list"@,
                "training_partner_array"@,
            ]);
            let bonds: Vec<BondRow> = match first_list(chara, k4.as_slice()) {
                Some(rows) => read_bonds(rows),
                None => Vec::new(),
            };
            let k5: [&str; 3] = ["running_style", "runningStyle", "last_running_style"];
            assert(keys_of(k5@) =~= seq!["running_style"@, "runningStyle"@, "last_running_style"@]);
            let running_style: i64 = match first_int(chara, k5.as_slice()) {
                Some(n) => n,
                None => 0,
            };
            let k6: [&str; 3] = ["proper_distance", "proper_distance_middle", "distance_type"];
            assert(keys_of(k6@) =~= seq![
                "proper_distance"@,
                "proper_distance_middle"@,
                "distance_type"@,
            ]);
            let proper_distance: i64 = match first_int(chara, k6.as_slice()) {
                Some(n) => n,
                None => 0,
            };
            let k7: [&str; 2] = ["difficulty", "difficulty_id"];
            assert(keys_of(k7@) =~= seq!["difficulty"@, "difficulty_id"@]);
            let difficulty: i64 = match first_int(fin, k7.as_slice()) {
                Some(n) => n,
                None => match first_int(chara, k7.as_slice()) {
                    Some(n) => n,
                    None => 0,
                },
            };
            let results: Vec<(String, i64)> = match node_pairs(fin) {
                Some(d) => read_scenario_results(d),
                None => Vec::new(),
            };
            assert(named(results@) =~= scenario_results(pairs_or_none(fin@)));
            let raw: Vec<(String, i64)> = match node_pairs(chara) {
                Some(d) => read_raw(d),
                None => Vec::new(),
            };
            assert(named(raw@) =~= raw_numbers(pairs_or_none(chara@)));
            let mut resolved: Vec<&'static str> = Vec::new();
            if factor_ids.len() > 0 {
                resolved.push("sparks");
            }
            if skill_ids.len() > 0 {
                resolved.push("skills");
            }
            if bonds.len() > 0 {
                resolved.push("bonds");
            }
            resolved.push("core");
            assert(keys_of(resolved@) =~= resolved_of(chara@));
            Some(
                FinishPayload {
                    card_id: int_or_zero(chara, "card_id"),
                    rank_score: int_or_zero(chara, "rank_score"),
                    fans: int_or_zero(chara, "fans"),
                    speed: int_or_zero(chara, "speed"),
                    stamina: int_or_zero(chara, "stamina"),
                    power: int_or_zero(chara, "power"),
                    guts: int_or_zero(chara, "guts"),
                    wit: int_or_zero(chara, "wiz"),
                    skill_point: int_or_zero(chara, "skill_point"),
                    wins: int_or_zero(chara, "wins"),
                    race_count,
                    scenario_id: int_or_zero(chara, "scenario_id"),
                    factor_ids,
                    inherited_factor_ids,
                    skill_ids,
                    bonds,
                    running_style,
                    proper_distance,
                    difficulty,
                    scenario_results: results,
                    raw,
                    resolved,
                },
            )
        },
    }
}

/// A block that carries a roster but no finished character, as at login, records nothing.
pub proof fn lemma_login_roster_is_no_finish(t: Tree)
    requires
        first_hit(t, "single_mode_finish_common"@) matches Some(fin) ==> fin.int_or_zero(
            "trained_chara_id"@,
        ) <= 0,
    ensures
        finished(t) is None,
{
}

/// The bounded parts of a record stay within their bounds.
pub proof fn lemma_finish_bounded(d: Seq<(Tree, Tree)>)
    ensures
        scenario_results(d).len() <= MAX_SCENARIO_RESULTS,
        raw_numbers(d).len() <= MAX_RAW,
    decreases d.len(),
{
    if d.len() > 0 {
        lemma_finish_bounded(d.drop_last());
        let key = match d.last().0 {
            Tree::Text(k) => k,
            _ => Seq::empty(),
        };
        let n = match d.last().1 {
            Tree::Int(m) => m,
            _ => 0,
        };
        lemma_put_named_len(scenario_results(d.drop_last()), key, n);
        lemma_put_named_len(raw_numbers(d.drop_last()), key, n);
    }
}

/// Setting a number adds at most one entry.
proof fn lemma_put_named_len(s: Seq<(Seq<char>, i64)>, key: Seq<char>, n: i64)
    ensures
        put_named(s, key, n).len() <= s.len() + 1,
    decreases s.len(),
{
    if s.len() > 0 {
        lemma_put_named_len(s.drop_first(), key, n);
    }
}

/// A career has finished where the first closing block names a character above zero that its roster, or
/// the one character in its place, holds; the record is then that of the first entry of that character.
pub proof fn lemma_finished(t: Tree)
    ensures
        finished(t) matches Some(p) ==> {
            &&& first_hit(t, "single_mode_finish_common"@) == Some(p.0)
            &&& p.0.int_or_zero("trained_chara_id"@) > 0
            &&& p.1.get_int("trained_chara_id"@) == p.0.get_int("trained_chara_id"@)
            &&& p.0.get("trained_chara"@) is Some
            &&& p.0.get("trained_chara"@)->0 matches Tree::List(l) ==> exists|i: int|
                0 <= i < l.len() && #[trigger] l[i] == p.1 && forall|j: int|
                    0 <= j < i ==> (#[trigger] l[j]).get_int("trained_chara_id"@) != p.0.get_int(
                        "trained_chara_id"@,
                    )
            &&& !(p.0.get("trained_chara"@)->0 is List) ==> p.0.get("trained_chara"@) == Some(p.1)
        },
        finished(t) is None ==> (first_hit(t, "single_mode_finish_common"@) matches Some(fin) ==> (
        fin.int_or_zero("trained_chara_id"@) > 0 ==> (fin.get("trained_chara"@) matches Some(tc) ==> {
            &&& tc matches Tree::List(l) ==> forall|j: int|
                0 <= j < l.len() ==> (#[trigger] l[j]).get_int("trained_chara_id"@) != fin.get_int(
                    "trained_chara_id"@,
                )
            &&& !(tc is List) ==> tc.get_int("trained_chara_id"@) != fin.get_int("trained_chara_id"@)
        }))),
{
    if let Some(fin) = first_hit(t, "single_mode_finish_common"@) {
        if let Some(Tree::List(l)) = fin.get("trained_chara"@) {
            lemma_roster_entry(l, fin.int_or_zero("trained_chara_id"@));
        }
    }
}

proof fn lemma_roster_entry(l: Seq<Tree>, id: i64)
    ensures
        roster_entry(l, id) matches Some(c) ==> exists|i: int|
            0 <= i < l.len() && #[trigger] l[i] == c && c.get_int("trained_chara_id"@) == Some(id)
                && forall|j: int|
                0 <= j < i ==> (#[trigger] l[j]).get_int("trained_chara_id"@) != Some(id),
        roster_entry(l, id) is None ==> forall|j: int|
            0 <= j < l.len() ==> (#[trigger] l[j]).get_int("trained_chara_id"@) != Some(id),
    decreases l.len(),
{
    if l.len() > 0 && !is_chara(l[0], id) {
        let rest = l.drop_first();
        lemma_roster_entry(rest, id);
        assert forall|j: int| 0 < j < l.len() implies #[trigger] l[j] == rest[j - 1] by {}
        if roster_entry(rest, id) is Some {
            let c = roster_entry(rest, id)->0;
            let i = choose|i: int|
                0 <= i < rest.len() && #[trigger] rest[i] == c && c.get_int("trained_chara_id"@) == Some(
                    id,
                ) && forall|j: int|
                    0 <= j < i ==> (#[trigger] rest[j]).get_int("trained_chara_id"@) != Some(id);
            assert(l[i + 1] == rest[i]);
            assert forall|j: int| 0 <= j < i + 1 implies (#[trigger] l[j]).get_int("trained_chara_id"@)
                != Some(id) by {
                if j > 0 {
                    assert(l[j] == rest[j - 1]);
                }
            }
        } else {
            assert forall|j: int| 0 <= j < l.len() implies (#[trigger] l[j]).get_int(
                "trained_chara_id"@,
            ) != Some(id) by {
                if j > 0 {
                    assert(l[j] == rest[j - 1]);
                }
            }
        }
    }
}

/// Of two keys the first counts under which there is a number.
proof fn lemma_two_keys(b: Tree, x: Seq<char>, y: Seq<char>)
    ensures
        b.first_int(seq![x, y]) == (if b.get_int(x) is Some {
            b.get_int(x)
        } else {
            b.get_int(y)
        }),
{
    assert(seq![x, y].drop_first() =~= seq![y]);
    assert(seq![y].drop_first() =~= Seq::empty());
    assert(b.first_int(Seq::empty()) is None);
    assert(b.first_int(seq![y]) == b.get_int(y));
}

/// The sparks of a record are the numbers above zero of its rows, in their order: a row is the number
/// itself or names it.
pub proof fn lemma_factor_ids(rows: Seq<Tree>, row: Tree)
    ensures
        factor_ids(Seq::empty()).len() == 0,
        row matches Tree::Int(n) ==> {
            &&& n > 0 ==> factor_ids(rows.push(row)) == factor_ids(rows).push(n)
            &&& n <= 0 ==> factor_ids(rows.push(row)) == factor_ids(rows)
        },
        !(row is Int) ==> {
            let n = if row.get_int("factor_id"@) is Some {
                row.get_int("factor_id"@)
            } else {
                row.get_int("id"@)
            };
            &&& n is Some && n->0 > 0 ==> factor_ids(rows.push(row)) == factor_ids(rows).push(n->0)
            &&& n is None || n->0 <= 0 ==> factor_ids(rows.push(row)) == factor_ids(rows)
        },
{
    assert(rows.push(row).drop_last() =~= rows);
    lemma_two_keys(row, "factor_id"@, "id"@);
}

/// The skills of a record are the numbers above zero of its rows, in their order: a row names the skill or
/// is its number.
pub proof fn lemma_skill_ids(rows: Seq<Tree>, row: Tree)
    ensures
        skill_ids(Seq::empty()).len() == 0,
        row matches Tree::Int(n) ==> {
            &&& n > 0 ==> skill_ids(rows.push(row)) == skill_ids(rows).push(n)
            &&& n <= 0 ==> skill_ids(rows.push(row)) == skill_ids(rows)
        },
        !(row is Int) ==> {
            let n = if row.get_int("skill_id"@) is Some {
                row.get_int("skill_id"@)
            } else {
                row.get_int("id"@)
            };
            &&& n is Some && n->0 > 0 ==> skill_ids(rows.push(row)) == skill_ids(rows).push(n->0)
            &&& n is None || n->0 <= 0 ==> skill_ids(rows.push(row)) == skill_ids(rows)
        },
{
    assert(rows.push(row).drop_last() =~= rows);
    lemma_two_keys(row, "skill_id"@, "id"@);
}

/// What is named under a key, if anything is.
pub open spec fn named_at(s: Seq<(Seq<char>, i64)>, key: Seq<char>) -> Option<i64>
    decreases s.len(),
{
    if s.len() == 0 {
        None
    } else if s[0].0 == key {
        Some(s[0].1)
    } else {
        named_at(s.drop_first(), key)
    }
}

/// A number put under a name replaces the one that was there, and leaves all others.
pub proof fn lemma_put_named(s: Seq<(Seq<char>, i64)>, key: Seq<char>, n: i64, other: Seq<char>)
    ensures
        named_at(put_named(s, key, n), key) == Some(n),
        other != key ==> named_at(put_named(s, key, n), other) == named_at(s, other),
        named_at(s, key) is None ==> put_named(s, key, n) == s.push((key, n)),
        named_at(s, key) is Some ==> put_named(s, key, n).len() == s.len(),
    decreases s.len(),
{
    let r = put_named(s, key, n);
    if s.len() == 0 {
        assert(r.drop_first() =~= Seq::empty());
        assert(named_at(r.drop_first(), other) is None);
        assert(r =~= s.push((key, n)));
    } else if s[0].0 == key {
        assert(r.drop_first() =~= s.drop_first());
    } else {
        lemma_put_named(s.drop_first(), key, n, other);
        assert(r.drop_first() =~= put_named(s.drop_first(), key, n));
        if named_at(s, key) is None {
            assert(r =~= s.push((key, n)));
        }
    }
}

/// A record keeps a number of the closing block as a result where its name speaks of a scenario, a score
/// or a rank, up to 32 of them; of the character it keeps every number, up to 96.
pub proof fn lemma_kept_numbers(d: Seq<(Tree, Tree)>, key: Seq<char>, n: i64, k: Tree, x: Tree)
    ensures
        ({
            let e = d.push((Tree::Text(key), Tree::Int(n)));
            let telling = occurs(key, "scenario"@) || occurs(key, "score"@) || occurs(key, "rank"@);
            &&& telling && scenario_results(d).len() < 32 ==> scenario_results(e) == put_named(
                scenario_results(d),
                key,
                n,
            )
            &&& !telling || scenario_results(d).len() >= 32 ==> scenario_results(e) == scenario_results(d)
            &&& raw_numbers(d).len() < 96 ==> raw_numbers(e) == put_named(raw_numbers(d), key, n)
            &&& raw_numbers(d).len() >= 96 ==> raw_numbers(e) == raw_numbers(d)
        }),
        !(k is Text && x is Int) ==> scenario_results(d.push((k, x))) == scenario_results(d)
            && raw_numbers(d.push((k, x))) == raw_numbers(d),
        scenario_results(Seq::empty()).len() == 0 && raw_numbers(Seq::empty()).len() == 0,
{
    assert(d.push((Tree::Text(key), Tree::Int(n))).drop_last() =~= d);
    assert(d.push((k, x)).drop_last() =~= d);
}

/// Every figure of a record is the one that the finished character, or the closing block, names so.
pub proof fn lemma_record_figures(p: FinishPayload, fin: Tree, c: Tree)
    requires
        p.records(fin, c),
    ensures
        p.card_id == c.int_or_zero("card_id"@),
        p.rank_score == c.int_or_zero("rank_score"@),
        p.fans == c.int_or_zero("fans"@),
        p.speed == c.int_or_zero("speed"@),
        p.stamina == c.int_or_zero("stamina"@),
        p.power == c.int_or_zero("power"@),
        p.guts == c.int_or_zero("guts"@),
        p.wit == c.int_or_zero("wiz"@),
        p.skill_point == c.int_or_zero("skill_point"@),
        p.wins == c.int_or_zero("wins"@),
        p.scenario_id == c.int_or_zero("scenario_id"@),
        c.get_list("race_result_list"@) is None ==> p.race_count == 0,
        c.get_list("race_result_list"@) matches Some(l) ==> (l.len() < 1_000_000 ==> p.race_count
            == l.len()),
        c.get_int("running_style"@) matches Some(n) ==> p.running_style == n,
        c.get_int("proper_distance"@) matches Some(n) ==> p.proper_distance == n,
        fin.get_int("difficulty"@) matches Some(n) ==> p.difficulty == n,
        fin.get_int("difficulty"@) is None ==> (fin.get_int("difficulty_id"@) matches Some(n)
            ==> p.difficulty == n),
        fin.get_int("difficulty"@) is None && fin.get_int("difficulty_id"@) is None ==> (c.get_int(
            "difficulty"@,
        ) matches Some(n) ==> p.difficulty == n),
        c.get_list("factor_id_array"@) matches Some(l) ==> p.factor_ids@ == factor_ids(l),
        c.get_list("succession_factor_id_array"@) matches Some(l) ==> p.inherited_factor_ids@
            == factor_ids(l),
        c.get_list("skill_array"@) matches Some(l) ==> p.skill_ids@ == skill_ids(l),
        c.get_list("support_card_array"@) matches Some(l) ==> p.bonds@ == bond_rows(l),
        fin matches Tree::Dict(d) ==> named(p.scenario_results@) == scenario_results(d),
        c matches Tree::Dict(d) ==> named(p.raw@) == raw_numbers(d),
{
    lemma_two_keys(fin, "difficulty"@, "difficulty_id"@);
    lemma_two_keys(c, "difficulty"@, "difficulty_id"@);
    let a = seq!["running_style"@, "runningStyle"@, "last_running_style"@];
    assert(a[0] == "running_style"@);
    let b = seq!["proper_distance"@, "proper_distance_middle"@, "distance_type"@];
    assert(b[0] == "proper_distance"@);
    let f = seq!["factor_id_array"@, "factor_array"@, "succession_factor_array"@];
    assert(f[0] == "factor_id_array"@);
    let g = seq!["succession_factor_id_array"@, "inherit_factor_id_array"@];
    assert(g[0] == "succession_factor_id_array"@);
    let s = seq!["skill_array"@, "skill_list"@, "chara_skill_array"@];
    assert(s[0] == "skill_array"@);
    let q = seq!["support_card_array"@, "support_card_list"@, "training_partner_array"@];
    assert(q[0] == "support_card_array"@);
}

/// A record says which of its parts were found: sparks, skills and bonds where there are any, and the core
/// figures always, last.
pub proof fn lemma_resolved(c: Tree)
    ensures
        resolved_of(c).last() == "core"@,
        resolved_of(c).contains("sparks"@) <==> own_factors(c).len() > 0,
        resolved_of(c).contains("skills"@) <==> final_skills(c).len() > 0,
        resolved_of(c).contains("bonds"@) <==> final_bonds(c).len() > 0,
        1 <= resolved_of(c).len() <= 4,
{
    reveal_strlit("sparks");
    reveal_strlit("skills");
    reveal_strlit("bonds");
    reveal_strlit("core");
    assert("sparks"@[1] == 'p');
    assert("skills"@[1] == 'k');
    assert("bonds"@[1] == 'o');
    assert("core"@.len() == 4 && "bonds"@.len() == 5 && "sparks"@.len() == 6 && "skills"@.len() == 6);
    let a = flag(own_factors(c).len() > 0, "sparks"@);
    let b = flag(final_skills(c).len() > 0, "skills"@);
    let d = flag(final_bonds(c).len() > 0, "bonds"@);
    let r = resolved_of(c);
    if own_factors(c).len() > 0 {
        assert(r[0] == "sparks"@);
    }
    if final_skills(c).len() > 0 {
        assert(r[a.len() as int] == "skills"@);
    }
    if final_bonds(c).len() > 0 {
        assert(r[(a.len() + b.len()) as int] == "bonds"@);
    }
}

/// Where a part of a record is not under its first name, it is read under the next.
pub proof fn lemma_record_fallbacks(p: FinishPayload, fin: Tree, c: Tree)
    requires
        p.records(fin, c),
    ensures
        c.get_list("factor_id_array"@) is None ==> {
            &&& c.get_list("factor_array"@) matches Some(l) ==> p.factor_ids@ == factor_ids(l)
            &&& c.get_list("factor_array"@) is None ==> (c.get_list(
                "succession_factor_array"@,
            ) matches Some(l) ==> p.factor_ids@ == factor_ids(l))
        },
        c.get_list("succession_factor_id_array"@) is None ==> (c.get_list(
            "inherit_factor_id_array"@,
        ) matches Some(l) ==> p.inherited_factor_ids@ == factor_ids(l)),
        c.get_list("skill_array"@) is None ==> {
            &&& c.get_list("skill_list"@) matches Some(l) ==> p.skill_ids@ == skill_ids(l)
            &&& c.get_list("skill_list"@) is None ==> (c.get_list("chara_skill_array"@) matches Some(l)
                ==> p.skill_ids@ == skill_ids(l))
        },
        c.get_list("support_card_array"@) is None ==> {
            &&& c.get_list("support_card_list"@) matches Some(l) ==> p.bonds@ == bond_rows(l)
            &&& c.get_list("support_card_list"@) is None ==> (c.get_list(
                "training_partner_array"@,
            ) matches Some(l) ==> p.bonds@ == bond_rows(l))
        },
        c.get_int("running_style"@) is None ==> {
            &&& c.get_int("runningStyle"@) matches Some(n) ==> p.running_style == n
            &&& c.get_int("runningStyle"@) is None ==> (c.get_int("last_running_style"@) matches Some(n)
                ==> p.running_style == n)
        },
        c.get_int("proper_distance"@) is None ==> {
            &&& c.get_int("proper_distance_middle"@) matches Some(n) ==> p.proper_distance == n
            &&& c.get_int("proper_distance_middle"@) is None ==> (c.get_int("distance_type"@) matches Some(n)
                ==> p.proper_distance == n)
        },
{
    lemma_three_lists(c, "factor_id_array"@, "factor_array"@, "succession_factor_array"@);
    lemma_three_lists(c, "skill_array"@, "skill_list"@, "chara_skill_array"@);
    lemma_three_lists(c, "support_card_array"@, "support_card_list"@, "training_partner_array"@);
    let g = seq!["succession_factor_id_array"@, "inherit_factor_id_array"@];
    assert(g.drop_first() =~= seq!["inherit_factor_id_array"@]);
    let h = seq!["inherit_factor_id_array"@];
    assert(h.drop_first() =~= Seq::empty());
    assert(c.first_list(h.drop_first()) is None);
    assert(c.first_list(h) == c.get_list("inherit_factor_id_array"@));
    let a = seq!["running_style"@, "runningStyle"@, "last_running_style"@];
    assert(a.drop_first() =~= seq!["runningStyle"@, "last_running_style"@]);
    lemma_two_keys(c, "runningStyle"@, "last_running_style"@);
    let b = seq!["proper_distance"@, "proper_distance_middle"@, "distance_type"@];
    assert(b.drop_first() =~= seq!["proper_distance_middle"@, "distance_type"@]);
    lemma_two_keys(c, "proper_distance_middle"@, "distance_type"@);
}

} // verus!
