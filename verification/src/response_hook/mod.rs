//! What every decompressed API response is read for.
//!
//! One pass over the payload looks for the keys that anything here cares about; the document is
//! decoded at most once, and only when some parser asked for it.

use vstd::prelude::*;
use vstd::utf8::encode_utf8;

use crate::career::{Account, FinishPayload, PlannedRace};
use crate::career::plan_views;
use crate::msgpack::{as_arr, contains_any, decode, find_all, find_first, int_or_zero, node_int, Node, Tree};
use crate::msgpack::{first_hit, first_int_of, hits, msgpack_tree, or_zero, trees, trees_ref};
use crate::names::Names;
use crate::names::lines;
use crate::race_field::{clear, note, FieldState};
use crate::race_field::{field_of, FieldView};
use crate::response_hook::account::{parse_account, AccountReport};
use crate::response_hook::career_start::{
    factor_views, lemma_plan, lemma_plan_by_year, notices, offered_ids, offered_sparks, owned,
    plan_found, plan_of, walk_sparks,
};
use crate::response_hook::career_start::{
    parse_blocked, parse_career_plan, parse_factors, parse_spark_offer, SparkOffer,
};
use crate::response_hook::finish::finished;
use crate::response_hook::finish::parse_finish;
use crate::text::occurs;

pub mod account;
pub mod career_start;
pub mod finish;

verus! {

/// The largest response that is looked at.
pub const MAX_RESPONSE: usize = 52_428_800;

/// The player's horse in a race: its place in the array, its gate, and the field size.
#[derive(Clone, Copy, PartialEq, Eq, Structural, Debug)]
pub struct NetPlayer {
    pub index: i32,
    pub frame_order: i32,
    pub horses: i32,
}

/// The first horse of an array that belongs to an account; the others carry 0.
pub open spec fn player_in(horses: Seq<Tree>) -> Option<int>
    decreases horses.len(),
{
    if horses.len() == 0 {
        None
    } else {
        match player_in(horses.drop_last()) {
            Some(i) => Some(i),
            None => if horses.last().int_or_zero("viewer_id"@) != 0 {
                Some(horses.len() - 1)
            } else {
                None
            },
        }
    }
}

/// The player's horse in the first of a row of values that has one.
pub open spec fn player_of(found: Seq<Tree>) -> Option<NetPlayer>
    decreases found.len(),
{
    if found.len() == 0 {
        None
    } else {
        match found[0] {
            Tree::List(horses) => match player_in(horses) {
                Some(i) => Some(
                    NetPlayer {
                        index: i as i32,
                        frame_order: horses[i].int_or_zero("frame_order"@) as i32,
                        horses: horses.len() as i32,
                    },
                ),
                None => player_of(found.drop_first()),
            },
            _ => player_of(found.drop_first()),
        }
    }
}

/// The place of the first horse that belongs to an account.
fn read_player(horses: &Vec<Node>) -> (r: Option<usize>)
    ensures
        (match r {
            Some(i) => Some(i as int),
            None => None,
        }) == player_in(trees(horses@)),
        r matches Some(i) ==> i < horses.len(),
{
    let ghost all = trees(horses@);
    let mut found: Option<usize> = None;
    let mut i: usize = 0;
    assert(player_in(all.take(0)) is None);
    while i < horses.len()
        invariant
            i <= horses.len(),
            all == trees(horses@),
            (match found {
                Some(k) => Some(k as int),
                None => None,
            }) == player_in(all.take(i as int)),
            found matches Some(k) ==> k < horses.len(),
        decreases horses.len() - i,
    {
        assert(all.take(i as int + 1).drop_last() =~= all.take(i as int));
        assert(all.take(i as int + 1).last() == horses@[i as int]@);
        if found.is_none() && int_or_zero(&horses[i], "viewer_id") != 0 {
            found = Some(i);
        }
        i = i + 1;
    }
    assert(all.take(i as int) =~= all);
    found
}

/// Find the player's horse in a race response.
pub fn parse_race(val: &Node) -> (r: Option<NetPlayer>)
    ensures
        r == player_of(hits(val@, "race_horse_data"@)),
{
    let found = find_all(val, "race_horse_data");
    let ghost all = trees_ref(found@);
    let mut i: usize = 0;
    assert(all.skip(0) =~= all);
    while i < found.len()
        invariant
            i <= found.len(),
            all == trees_ref(found@),
            player_of(hits(val@, "race_horse_data"@)) == player_of(all.skip(i as int)),
        decreases found.len() - i,
    {
        assert(all.skip(i as int)[0] == found@[i as int]@);
        if let Some(horses) = as_arr(found[i]) {
            if let Some(k) = read_player(horses) {
                assert(trees(horses@)[k as int] == horses@[k as int]@);
                return Some(
                    NetPlayer {
                        index: k as i32,
                        frame_order: int_or_zero(&horses[k], "frame_order") as i32,
                        horses: horses.len() as i32,
                    },
                );
            }
        }
        assert(all.skip(i as int).drop_first() =~= all.skip(i as int + 1));
        i = i + 1;
    }
    None
}

/// The remaining race retries that a response tells of.
pub open spec fn continues_of(t: Tree) -> Option<i32> {
    match first_hit(t, "available_continue_num"@) {
        Some(Tree::Int(n)) => Some(n as i32),
        _ => None,
    }
}

/// Read the remaining race retries.
pub fn parse_continues(val: &Node) -> (r: Option<i32>)
    ensures
        r == continues_of(val@),
{
    match find_first(val, "available_continue_num") {
        Some(v) => match node_int(v) {
            Some(n) => Some(n as i32),
            None => None,
        },
        None => None,
    }
}

/// Which readers are switched on.
#[derive(Clone, Copy, PartialEq, Eq, Structural, Debug)]
pub struct Gates {
    /// The analysis of responses.
    pub analysis: bool,
    /// The companion bridge, which is handed every response.
    pub export: bool,
    /// The spark inventory.
    pub legacy_capture: bool,
}

/// What a captured payload is kept as.
#[derive(Clone, Copy, PartialEq, Eq, Structural, Debug)]
pub enum Capture {
    Race,
    Career,
}

/// What one response leads to, in the order in which it is to be published. Where `finish` is
/// there, the career is over: what described a live turn is retired with it.
pub struct Fanout {
    /// Hand the payload to the companion bridge.
    pub forward: bool,
    pub player: Option<NetPlayer>,
    pub continues: Option<i32>,
    pub account: Option<AccountReport>,
    pub finish: Option<FinishPayload>,
    pub sparks: Vec<(i64, Vec<i64>)>,
    /// The pending event is in this response.
    pub events: bool,
    /// The reward table of the pending event is in this response.
    pub choice_rewards: bool,
    /// A different race was entered: a result still shown belongs to the previous one.
    pub retire_reveal: bool,
    pub offer: Option<SparkOffer>,
    pub plan: Option<Vec<PlannedRace>>,
    pub blocked: Option<Vec<String>>,
    /// Keep the payload.
    pub capture: Option<Capture>,
}

/// Whether a payload mentions a key.
pub open spec fn mentions(bytes: Seq<u8>, key: Seq<char>) -> bool {
    occurs(bytes, encode_utf8(key))
}

/// Whether a payload is looked at: some reader is on, and it is neither empty nor too large.
pub open spec fn looked_at(bytes: Seq<u8>, g: Gates) -> bool {
    (g.analysis || g.export) && 0 < bytes.len() <= MAX_RESPONSE
}

/// Whether a payload is analysed and mentions a key.
pub open spec fn wanted(bytes: Seq<u8>, g: Gates, key: Seq<char>) -> bool {
    looked_at(bytes, g) && g.analysis && mentions(bytes, key)
}

/// What a payload is read for.
#[derive(Clone, Copy, PartialEq, Eq, Structural, Debug)]
pub struct Wants {
    /// The player's horse, and the field of the race.
    pub race: bool,
    /// The remaining race retries.
    pub continues: bool,
    /// Account resources and the career panels.
    pub account: bool,
    /// A finished career.
    pub finish: bool,
    /// Sparks.
    pub sparks: bool,
    /// The pending event.
    pub events: bool,
    /// The reward table of the pending event.
    pub choice_rewards: bool,
    /// The spark offer.
    pub offer: bool,
    /// The race plan.
    pub plan: bool,
    /// What did not increase.
    pub blocked: bool,
}

/// What a payload is read for, by the keys that it mentions.
pub open spec fn wants_of(bytes: Seq<u8>, g: Gates) -> Wants {
    Wants {
        race: wanted(bytes, g, "race_horse_data"@),
        continues: wanted(bytes, g, "available_continue_num"@) && (mentions(
            bytes,
            "choice_array"@,
        ) || mentions(bytes, "choice_reward_array"@)),
        account: wanted(bytes, g, "chara_info"@) || wanted(bytes, g, "coin_info"@) || wanted(
            bytes,
            g,
            "tp_info"@,
        ) || wanted(bytes, g, "rp_info"@) || wanted(bytes, g, "race_reward_info"@),
        finish: wanted(bytes, g, "single_mode_finish_common"@),
        sparks: wanted(bytes, g, "factor_id_array"@) && g.legacy_capture,
        events: wanted(bytes, g, "unchecked_event_array"@),
        choice_rewards: wanted(bytes, g, "choice_reward_array"@),
        offer: wanted(bytes, g, "factor_select_info_array"@),
        plan: wanted(bytes, g, "single_mode_start_common"@),
        blocked: wanted(bytes, g, "not_up_parameter_info"@),
    }
}

impl Wants {
    /// Whether anything is read off the document.
    pub open spec fn anything(self) -> bool {
        self.race || self.continues || self.account || self.finish || self.sparks || self.events
            || self.choice_rewards || self.offer || self.plan || self.blocked
    }
}

/// What a payload is kept as: a race result before a career screen.
pub open spec fn capture_of(bytes: Seq<u8>, g: Gates) -> Option<Capture> {
    if wanted(bytes, g, "race_scenario"@) {
        Some(Capture::Race)
    } else if wanted(bytes, g, "chara_info"@) && mentions(bytes, "home_info"@) {
        Some(Capture::Career)
    } else {
        None
    }
}

/// What the field on screen says.
pub open spec fn shown(st: FieldState) -> Option<FieldView> {
    match st.latest {
        Some(f) => Some(f@),
        None => None,
    }
}

/// The field on screen once the account and finish parsers have had their say.
pub open spec fn field_kept(w: Wants, t: Tree, before: Option<FieldView>) -> Option<FieldView> {
    if w.account && first_hit(t, "race_reward_info"@) is Some {
        None
    } else if w.finish && finished(t) is Some {
        None
    } else {
        before
    }
}

/// The field that a response puts on screen.
pub open spec fn field_entered(w: Wants, t: Tree, names: Names) -> Option<FieldView> {
    if w.race {
        field_of(t, names)
    } else {
        None
    }
}

impl Fanout {
    /// Whether nothing is read off the document.
    pub open spec fn reads_nothing(self) -> bool {
        &&& self.player is None
        &&& self.continues is None
        &&& self.account is None
        &&& self.finish is None
        &&& self.sparks@.len() == 0
        &&& !self.events
        &&& !self.choice_rewards
        &&& !self.retire_reveal
        &&& self.offer is None
        &&& self.plan is None
        &&& self.blocked is None
    }

    /// Whether this is what a document with contents `t` leads to when it is read for `w`.
    pub open spec fn reads(
        self,
        w: Wants,
        t: Tree,
        prior: Account,
        names: Names,
        before: Option<FieldView>,
    ) -> bool {
        &&& self.player == (if w.race {
            player_of(hits(t, "race_horse_data"@))
        } else {
            None
        })
        &&& self.continues == (if w.continues {
            continues_of(t)
        } else {
            None
        })
        &&& self.account is Some == w.account
        &&& (self.account matches Some(a) ==> a.tells(t, prior, names))
        &&& self.finish is Some == (w.finish && finished(t) is Some)
        &&& (self.finish matches Some(p) ==> p.records((finished(t)->0).0, (finished(t)->0).1))
        &&& owned(self.sparks@) == (if w.sparks {
            walk_sparks(t, 0, Seq::empty())
        } else {
            Seq::empty()
        })
        &&& self.events == w.events
        &&& self.choice_rewards == w.choice_rewards
        &&& self.retire_reveal == (field_entered(w, t, names) matches Some(f) && !(field_kept(
            w,
            t,
            before,
        ) matches Some(k) && k.program_id == f.program_id))
        &&& self.offer is Some == (w.offer && offered_ids(t).len() > 0)
        &&& (self.offer matches Some(o) ==> {
            &&& factor_views(o.sparks@) == offered_sparks(offered_ids(t), names)
            &&& o.rerolls_left == or_zero(first_int_of(hits(t, "lottery_remain_num"@)))
            &&& o.rerolls_used == or_zero(first_int_of(hits(t, "lottery_count"@)))
        })
        &&& self.plan is Some == (w.plan && plan_found(t, names).len() > 0)
        &&& (self.plan matches Some(p) ==> plan_views(p@) == plan_of(t, names))
        &&& (match self.blocked {
            Some(b) => Some(lines(b@)),
            None => None,
        }) == (if w.blocked {
            match first_hit(t, "not_up_parameter_info"@) {
                Some(Tree::Dict(d)) => Some(notices(d)),
                _ => None,
            }
        } else {
            None
        })
    }
}

/// What a payload is read for, and what it is kept as.
fn scan(bytes: &[u8], g: Gates) -> (r: (Wants, Option<Capture>))
    requires
        looked_at(bytes@, g),
        g.analysis,
    ensures
        r.0 == wants_of(bytes@, g),
        r.1 == capture_of(bytes@, g),
{
    let needles: [&[u8]; 17] = [
        "race_horse_data".as_bytes(),
        "available_continue_num".as_bytes(),
        "choice_array".as_bytes(),
        "choice_reward_array".as_bytes(),
        "chara_info".as_bytes(),
        "coin_info".as_bytes(),
        "tp_info".as_bytes(),
        "rp_info".as_bytes(),
        "race_reward_info".as_bytes(),
        "home_info".as_bytes(),
        "race_scenario".as_bytes(),
        "single_mode_finish_common".as_bytes(),
        "factor_id_array".as_bytes(),
        "unchecked_event_array".as_bytes(),
        "factor_select_info_array".as_bytes(),
        "single_mode_start_common".as_bytes(),
        "not_up_parameter_info".as_bytes(),
    ];
    let seen = contains_any(bytes, needles.as_slice());
    let w = Wants {
        race: seen[0],
        continues: seen[1] && (seen[2] || seen[3]),
        account: seen[4] || seen[5] || seen[6] || seen[7] || seen[8],
        finish: seen[11],
        sparks: seen[12] && g.legacy_capture,
        events: seen[13],
        choice_rewards: seen[3],
        offer: seen[14],
        plan: seen[15],
        blocked: seen[16],
    };
    let capture: Option<Capture> = if seen[10] {
        Some(Capture::Race)
    } else if seen[4] && seen[9] {
        Some(Capture::Career)
    } else {
        None
    };
    (w, capture)
}

/// Read a document for `w`.
pub fn read_document(
    val: &Node,
    w: Wants,
    prior: Account,
    names: &Names,
    field: &mut FieldState,
) -> (r: Fanout)
    ensures
        r.reads(w, val@, prior, *names, shown(*old(field))),
        shown(*final(field)) == (match field_entered(w, val@, *names) {
            Some(f) => Some(f),
            None => field_kept(w, val@, shown(*old(field))),
        }),
        !r.forward,
        r.capture is None,
{
    let player: Option<NetPlayer> = if w.race {
        parse_race(val)
    } else {
        None
    };
    let continues: Option<i32> = if w.continues {
        parse_continues(val)
    } else {
        None
    };
    let account: Option<AccountReport> = if w.account {
        let report = parse_account(val, prior, names);
        if report.race_over {
            clear(field);
        }
        Some(report)
    } else {
        None
    };
    let finish: Option<FinishPayload> = if w.finish {
        let record = parse_finish(val);
        if record.is_some() {
            clear(field);
        }
        record
    } else {
        None
    };
    let sparks: Vec<(i64, Vec<i64>)> = if w.sparks {
        parse_factors(val)
    } else {
        Vec::new()
    };
    assert(!w.sparks ==> owned(sparks@) =~= Seq::empty());
    assert(shown(*field) == field_kept(w, val@, shown(*old(field))));
    let retire_reveal: bool = if w.race {
        note(field, val, names)
    } else {
        false
    };
    let offer: Option<SparkOffer> = if w.offer {
        parse_spark_offer(val, names)
    } else {
        None
    };
    let plan: Option<Vec<PlannedRace>> = if w.plan {
        parse_career_plan(val, names)
    } else {
        None
    };
    let blocked: Option<Vec<String>> = if w.blocked {
        parse_blocked(val)
    } else {
        None
    };
    Fanout {
        forward: false,
        player,
        continues,
        account,
        finish,
        sparks,
        events: w.events,
        choice_rewards: w.choice_rewards,
        retire_reveal,
        offer,
        plan,
        blocked,
        capture: None,
    }
}

/// Nothing to do.
fn idle() -> (r: Fanout)
    ensures
        r.reads_nothing(),
        !r.forward,
        r.capture is None,
{
    Fanout {
        forward: false,
        player: None,
        continues: None,
        account: None,
        finish: None,
        sparks: Vec::new(),
        events: false,
        choice_rewards: false,
        retire_reveal: false,
        offer: None,
        plan: None,
        blocked: None,
        capture: None,
    }
}

/// Read one response. What it leads to is returned; the field on screen is brought up to date.
pub fn on_response(
    bytes: &[u8],
    g: Gates,
    prior: Account,
    names: &Names,
    field: &mut FieldState,
) -> (r: Fanout)
    ensures
        r.forward == (looked_at(bytes@, g) && g.export),
        r.capture == capture_of(bytes@, g),
        (match (wants_of(bytes@, g).anything(), msgpack_tree(bytes@)) {
            (true, Some(t)) => {
                let w = wants_of(bytes@, g);
                &&& r.reads(w, t, prior, *names, shown(*old(field)))
                &&& shown(*final(field)) == (match field_entered(w, t, *names) {
                    Some(f) => Some(f),
                    None => field_kept(w, t, shown(*old(field))),
                })
            },
            _ => r.reads_nothing() && *final(field) == *old(field),
        }),
{
    let mut out = idle();
    if !g.analysis && !g.export {
        return out;
    }
    if bytes.len() == 0 || bytes.len() > MAX_RESPONSE {
        return out;
    }
    if !g.analysis {
        out.forward = true;
        return out;
    }
    let (w, capture) = scan(bytes, g);
    if w.race || w.continues || w.account || w.finish || w.sparks || w.events || w.choice_rewards
        || w.offer || w.plan || w.blocked {
        if let Some(val) = decode(bytes) {
            out = read_document(&val, w, prior, names, field);
        }
    }
    out.forward = g.export;
    out.capture = capture;
    out
}

/// With every reader off, a response is not looked at: nothing is forwarded, read or kept.
pub proof fn lemma_suspended_is_free(bytes: Seq<u8>, g: Gates)
    requires
        !g.analysis,
        !g.export,
    ensures
        !looked_at(bytes, g),
        capture_of(bytes, g) is None,
        !wants_of(bytes, g).anything(),
{
}

/// A race result takes precedence over a career screen when a payload is kept.
pub proof fn lemma_race_capture_first(bytes: Seq<u8>, g: Gates)
    requires
        wanted(bytes, g, "race_scenario"@),
    ensures
        capture_of(bytes, g) == Some(Capture::Race),
{
}

/// A response that carries no field, or an empty one, keeps the field on screen, unless it tells
/// of a race that ended or of a career that finished.
pub proof fn lemma_field_survives(w: Wants, t: Tree, names: Names, before: Option<FieldView>)
    requires
        field_of(t, names) is None,
        first_hit(t, "race_reward_info"@) is None,
        finished(t) is None,
    ensures
        field_entered(w, t, names) is None,
        field_kept(w, t, before) == before,
{
}

/// The player's horse is the first of the first list of horses in which any belongs to an account.
pub proof fn lemma_player_in(horses: Seq<Tree>)
    ensures
        player_in(horses) matches Some(i) ==> {
            &&& 0 <= i < horses.len()
            &&& horses[i].int_or_zero("viewer_id"@) != 0
            &&& forall|j: int| 0 <= j < i ==> (#[trigger] horses[j]).int_or_zero("viewer_id"@) == 0
        },
        player_in(horses) is None ==> forall|j: int|
            0 <= j < horses.len() ==> (#[trigger] horses[j]).int_or_zero("viewer_id"@) == 0,
    decreases horses.len(),
{
    if horses.len() > 0 {
        let rest = horses.drop_last();
        lemma_player_in(rest);
        assert forall|j: int| 0 <= j < rest.len() implies rest[j] == #[trigger] horses[j] by {}
        assert(horses[horses.len() - 1] == horses.last());
        if player_in(rest) is None {
            assert forall|j: int| 0 <= j < rest.len() implies (#[trigger] horses[j]).int_or_zero(
                "viewer_id"@,
            ) == 0 by {
                assert(rest[j] == horses[j]);
            }
        } else {
            let i = player_in(rest)->0;
            assert(rest[i] == horses[i]);
            assert forall|j: int| 0 <= j < i implies (#[trigger] horses[j]).int_or_zero("viewer_id"@)
                == 0 by {
                assert(rest[j] == horses[j]);
            }
        }
    }
}

/// The player is told by where its horse stands in that list, by its own post position and by how many
/// horses there are.
pub proof fn lemma_player(found: Seq<Tree>, horses: Seq<Tree>, i: int)
    requires
        found.len() > 0,
        found[0] == Tree::List(horses),
        0 <= i < horses.len() < 1000,
        horses[i].int_or_zero("viewer_id"@) != 0,
        forall|j: int| 0 <= j < i ==> (#[trigger] horses[j]).int_or_zero("viewer_id"@) == 0,
    ensures
        player_of(found) matches Some(p) && p.index == i && p.horses == horses.len() && (0
            <= horses[i].int_or_zero("frame_order"@) < 1000 ==> p.frame_order == horses[i].int_or_zero(
            "frame_order"@,
        )),
{
    lemma_player_in(horses);
}

/// A list without the player is passed over.
pub proof fn lemma_player_passed(found: Seq<Tree>)
    requires
        found.len() > 0,
        found[0] matches Tree::List(horses) ==> forall|j: int|
            0 <= j < horses.len() ==> (#[trigger] horses[j]).int_or_zero("viewer_id"@) == 0,
    ensures
        player_of(found) == player_of(found.drop_first()),
{
    if let Tree::List(horses) = found[0] {
        lemma_player_in(horses);
    }
}

/// The retries left are the first number of that name.
pub proof fn lemma_continues(t: Tree)
    ensures
        first_hit(t, "available_continue_num"@) matches Some(Tree::Int(n)) ==> (0 <= n < 1000
            ==> continues_of(t) == Some(n as i32)),
        first_hit(t, "available_continue_num"@) is None ==> continues_of(t) is None,
{
}

/// A response is looked at while it is not empty, not above 50 MB, and anyone wants it.
pub proof fn lemma_looked_at(bytes: Seq<u8>, g: Gates)
    ensures
        looked_at(bytes, g) <==> (g.analysis || g.export) && bytes.len() != 0 && bytes.len()
            <= 50 * 1024 * 1024,
{
}

/// A part is wanted exactly where the analysis is on and the response mentions the key that it lives
/// under.
pub proof fn lemma_wants(bytes: Seq<u8>, g: Gates)
    requires
        0 < bytes.len() <= 50 * 1024 * 1024,
    ensures
        ({
            let w = wants_of(bytes, g);
            let told = |key: Seq<char>| g.analysis && occurs(bytes, encode_utf8(key));
            &&& w.race <==> told("race_horse_data"@)
            &&& w.continues <==> told("available_continue_num"@) && (told("choice_array"@) || told(
                "choice_reward_array"@,
            ))
            &&& w.account <==> told("chara_info"@) || told("coin_info"@) || told("tp_info"@) || told(
                "rp_info"@,
            ) || told("race_reward_info"@)
            &&& w.finish <==> told("single_mode_finish_common"@)
            &&& w.sparks <==> told("factor_id_array"@) && g.legacy_capture
            &&& w.events <==> told("unchecked_event_array"@)
            &&& w.choice_rewards <==> told("choice_reward_array"@)
            &&& w.offer <==> told("factor_select_info_array"@)
            &&& w.plan <==> told("single_mode_start_common"@)
            &&& w.blocked <==> told("not_up_parameter_info"@)
            &&& w.anything() <==> w.race || w.continues || w.account || w.finish || w.sparks || w.events
                || w.choice_rewards || w.offer || w.plan || w.blocked
            &&& capture_of(bytes, g) == Some(Capture::Race) <==> told("race_scenario"@)
            &&& capture_of(bytes, g) == Some(Capture::Career) <==> told("chara_info"@) && told(
                "home_info"@,
            ) && !told("race_scenario"@)
        }),
{
}

/// A document is read for what is wanted and for nothing else.
pub proof fn lemma_reads_what_is_wanted(
    r: Fanout,
    w: Wants,
    t: Tree,
    prior: Account,
    names: Names,
    before: Option<FieldView>,
)
    requires
        r.reads(w, t, prior, names, before),
    ensures
        !w.race ==> r.player is None && !r.retire_reveal,
        !w.continues ==> r.continues is None,
        w.account <==> r.account is Some,
        !w.finish ==> r.finish is None,
        !w.sparks ==> r.sparks@.len() == 0,
        w.events <==> r.events,
        w.choice_rewards <==> r.choice_rewards,
        !w.offer ==> r.offer is None,
        !w.plan ==> r.plan is None,
        !w.blocked ==> r.blocked is None,
        w.race ==> r.player == player_of(hits(t, "race_horse_data"@)),
        w.continues ==> r.continues == continues_of(t),
        w.finish ==> (finished(t) is Some <==> r.finish is Some),
        w.offer ==> (offered_ids(t).len() > 0 <==> r.offer is Some),
        w.plan ==> (plan_of(t, names).len() > 0 <==> r.plan is Some),
        r.plan matches Some(p) ==> plan_views(p@) == plan_of(t, names),
        r.offer matches Some(o) ==> {
            &&& o.rerolls_left == or_zero(first_int_of(hits(t, "lottery_remain_num"@)))
            &&& o.rerolls_used == or_zero(first_int_of(hits(t, "lottery_count"@)))
        },
{
    assert(owned(r.sparks@).len() == r.sparks@.len());
    lemma_plan(t, names);
    broadcast use vstd::seq_lib::group_to_multiset_ensures;

    assert(plan_of(t, names).to_multiset().len() == plan_of(t, names).len());
    assert(plan_found(t, names).to_multiset().len() == plan_found(t, names).len());
}

/// The plan that is published goes by year, and within a year by program.
pub proof fn lemma_published_plan(
    r: Fanout,
    w: Wants,
    t: Tree,
    prior: Account,
    names: Names,
    before: Option<FieldView>,
)
    requires
        r.reads(w, t, prior, names, before),
    ensures
        r.plan matches Some(plan) ==> forall|i: int, j: int|
            0 <= i < j < plan@.len() ==> {
                let p = #[trigger] plan@[i];
                let q = #[trigger] plan@[j];
                p.year < q.year || p.year == q.year && p.program_id < q.program_id
            },
{
    lemma_plan_by_year(t, names);
    if r.plan is Some {
        let plan = r.plan->0@;
        let views = plan_of(t, names);
        assert(plan_views(plan).len() == plan.len());
        assert forall|i: int, j: int| 0 <= i < j < plan.len() implies ({
            let p = #[trigger] plan[i];
            let q = #[trigger] plan[j];
            p.year < q.year || p.year == q.year && p.program_id < q.program_id
        }) by {
            assert(plan_views(plan)[i] == plan[i]@);
            assert(plan_views(plan)[j] == plan[j]@);
            assert(views[i].year == plan[i].year && views[j].year == plan[j].year);
        }
    }
}

/// A race that ended, or a career that did, takes the field off the screen; a new field replaces it.
pub proof fn lemma_field_replaced(w: Wants, t: Tree, names: Names, before: Option<FieldView>)
    ensures
        w.account && first_hit(t, "race_reward_info"@) is Some ==> field_kept(w, t, before) is None,
        w.finish && finished(t) is Some ==> field_kept(w, t, before) is None,
        !w.account && !w.finish ==> field_kept(w, t, before) == before,
        w.race ==> field_entered(w, t, names) == field_of(t, names),
        !w.race ==> field_entered(w, t, names) is None,
{
}

} // verus!
