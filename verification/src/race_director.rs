//! Live race telemetry for the broadcast display.
//!
//! Every frame brings a reading of every horse; the followed one brings more. Numbers of single
//! precision are carried as their bits.

use std::collections::HashMap;
use vstd::prelude::*;

use crate::bits::{at_least, below, is_nan, rank, ZERO};
use crate::bits::{less, reaches};
use crate::order::{lemma_insert_at, lemma_sort, sort_by_key};
use crate::text::{chars_of, same, show_i64, string_of};
use crate::text::{dec, dec_nat, digit};

verus! {

/// How long, in milliseconds, telemetry counts as fresh.
pub const FRESH_MS: u64 = 500;

/// A silence longer than this, in milliseconds, ends a race.
pub const GAP_MS: u64 = 800;

/// How long, in milliseconds, a change of position is shown at least.
pub const TREND_MS: u64 = 150;

/// How many stretches a course is divided into for the pace history.
pub const PACE_BUCKETS: usize = 140;

/// How many skills of a horse are looked at, and how many effects of a skill.
pub const MAX_SKILLS: usize = 64;

pub const MAX_DETAILS: usize = 4;

/// The bits of 0.5, the speed in metres per second from which the pace is recorded.
pub const MIN_PACE: u32 = 0x3f00_0000;

/// The bits of 0.05 and 60: an effect is shown while the seconds left lie between them.
pub const MIN_LEFT: u32 = 0x3d4c_cccd;

pub const MAX_LEFT: u32 = 0x4270_0000;

/// One skill effect that is active on the followed horse.
#[derive(Clone, Copy, PartialEq, Eq, Structural, Debug)]
pub struct ActiveSkill {
    pub id: i32,
    /// Seconds left.
    pub left: u32,
    /// 0 speed, 1 heal, 2 acceleration, -1 none.
    pub category: i32,
    pub debuff: bool,
}

/// What the followed horse is up to.
#[derive(Clone, Copy, PartialEq, Eq, Structural, Debug)]
pub struct FollowState {
    /// Over-eager, burning stamina.
    pub kakari: bool,
    pub temptation_mode: i32,
    pub keep_mode: i32,
    /// Accelerating downhill.
    pub downhill: bool,
}

/// One horse, as the display shows it.
#[derive(Clone, Copy, PartialEq, Eq, Structural, Debug)]
pub struct HorseTelem {
    pub gate: i32,
    pub order: i32,
    pub hp: u32,
    pub max_hp: u32,
    pub speed: u32,
    pub distance: u32,
    pub spurt: bool,
    pub exhausted: bool,
    pub skills: i32,
    pub late_start: bool,
    pub fight: bool,
    pub leading: bool,
    pub blocked: bool,
    pub prev_order: i32,
    pub popularity: i32,
    pub running_style: i32,
    pub defeat: i32,
    pub wx: u32,
    pub wz: u32,
}

/// What is read of one horse in one frame; `None` for what the game does not tell.
pub struct Reading {
    pub order: Option<i32>,
    pub hp: Option<u32>,
    pub max_hp: Option<u32>,
    pub speed: Option<u32>,
    pub distance: Option<u32>,
    pub phase: Option<i32>,
    pub hp_empty: Option<bool>,
    pub bad_start: Option<bool>,
    pub fight: Option<bool>,
    pub top: Option<bool>,
    pub block_time: Option<u32>,
    pub prev_order: Option<i32>,
    pub defeat: Option<i32>,
    pub position: Option<(u32, u32)>,
    pub popularity: Option<i32>,
    pub style: Option<i32>,
    /// The trainer's name and account.
    pub trainer: Option<(String, i64)>,
}

/// One effect of a skill.
#[derive(Clone, Copy, PartialEq, Eq, Structural, Debug)]
pub struct DetailRead {
    pub activated: bool,
    pub left: u32,
    pub category: i32,
    pub debuff: bool,
}

/// One skill of the followed horse.
pub struct SkillRead {
    pub id: i32,
    pub details: Vec<Option<DetailRead>>,
}

/// What is read of the followed horse in one frame.
pub struct FollowRead {
    /// The skills used so far, in order.
    pub used: Vec<i32>,
    /// The game's name for each of them.
    pub names: Vec<Option<String>>,
    /// What each of them does, in short.
    pub effects: Vec<String>,
    pub skills: Option<Vec<Option<SkillRead>>>,
    pub follow: Option<FollowState>,
    pub phase: Option<i32>,
    pub outlook: Option<i32>,
}

/// What is timed.
#[derive(Clone, Copy, PartialEq, Eq, Structural, Debug)]
pub struct Beat {
    /// When a horse was last read.
    pub last_telem_ms: u64,
    /// How many races were seen.
    pub epoch: u64,
    /// When positions were last noted.
    pub last_pos_ms: u64,
}

/// The race on display.
pub struct Board {
    /// Each horse once.
    pub telem: Vec<HorseTelem>,
    /// The trainer's name and account, by gate.
    pub trainers: HashMap<i32, (String, i64)>,
    /// The place in which a horse crossed the line, by gate.
    pub finish: HashMap<i32, i32>,
    /// How many horses crossed the line.
    pub finish_next: i32,
    /// The position last noted, by gate.
    pub prev: HashMap<i32, i32>,
}

/// What outlasts a race.
pub struct Roster {
    /// The horse's name, by gate.
    pub names: HashMap<i32, String>,
    /// The character, by gate.
    pub ids: HashMap<i32, i32>,
    /// What a skill does, by skill.
    pub effects: HashMap<i32, String>,
}

/// The followed horse.
pub struct Watched {
    /// The skills used, with their names.
    pub feed: Vec<(i32, String)>,
    /// How many of them are in the feed.
    pub seen: usize,
    pub active: Vec<ActiveSkill>,
    pub follow: FollowState,
    pub outlook: i32,
    /// The speed at each stretch of the course so far.
    pub trace: Vec<u32>,
}

/// The telemetry.
pub struct Director {
    pub beat: Beat,
    pub board: Board,
    pub roster: Roster,
    pub watched: Watched,
}

/// The followed horse and its rival.
pub struct TelemView {
    pub followed: HorseTelem,
    pub followed_name: String,
    /// The horse ahead, or the one behind for the leader.
    pub rival: Option<HorseTelem>,
    pub rival_name: String,
    pub rival_ahead: bool,
    pub field_size: i32,
    /// 0 while unknown.
    pub chara_id: i32,
}

/// One row of the timing tower.
pub struct FieldRow {
    pub pos: i32,
    pub gate: i32,
    pub name: String,
    pub style: i32,
    pub hp: u32,
    pub max_hp: u32,
    /// Places gained since positions were last noted.
    pub trend: i32,
    pub popularity: i32,
    pub spurt: bool,
    pub exhausted: bool,
    pub fight: bool,
    pub blocked: bool,
    pub followed: bool,
    pub dist: u32,
    pub speed: u32,
    pub trainer: String,
    pub viewer_id: i64,
    pub wx: u32,
    pub wz: u32,
}

/// Nothing is known of what the followed horse is up to.
pub open spec fn idle() -> FollowState {
    FollowState { kakari: false, temptation_mode: 0, keep_mode: 0, downhill: false }
}

/// A number that was read, or 0.
pub open spec fn num(o: Option<i32>) -> i32 {
    match o {
        Some(v) => v,
        None => 0,
    }
}

/// The bits of a number that was read, or of 0.
pub open spec fn bits_or_zero(o: Option<u32>) -> u32 {
    match o {
        Some(v) => v,
        None => ZERO,
    }
}

/// What the display shows of a reading.
pub open spec fn telem_spec(gate: i32, r: Reading) -> HorseTelem {
    HorseTelem {
        gate,
        order: num(r.order),
        hp: bits_or_zero(r.hp),
        max_hp: bits_or_zero(r.max_hp),
        speed: bits_or_zero(r.speed),
        distance: bits_or_zero(r.distance),
        spurt: r.phase is Some && r.phase->0 >= 2,
        exhausted: r.hp_empty == Some(true),
        skills: 0,
        late_start: r.bad_start == Some(true),
        fight: r.fight == Some(true),
        leading: r.top == Some(true),
        blocked: r.block_time is Some && below(ZERO, r.block_time->0),
        prev_order: num(r.prev_order),
        popularity: num(r.popularity),
        running_style: num(r.style),
        defeat: num(r.defeat),
        wx: match r.position {
            Some(p) => p.0,
            None => ZERO,
        },
        wz: match r.position {
            Some(p) => p.1,
            None => ZERO,
        },
    }
}

/// The horses with `t` in place of the one in the same gate, or at the end.
pub open spec fn with_telem(s: Seq<HorseTelem>, t: HorseTelem) -> Seq<HorseTelem>
    decreases s.len(),
{
    if s.len() == 0 {
        seq![t]
    } else if s[0].gate == t.gate {
        seq![t] + s.drop_first()
    } else {
        seq![s[0]] + with_telem(s.drop_first(), t)
    }
}

/// The first horse in gate `g`.
pub open spec fn at_gate(s: Seq<HorseTelem>, g: i32) -> Option<HorseTelem>
    decreases s.len(),
{
    if s.len() == 0 {
        None
    } else if s[0].gate == g {
        Some(s[0])
    } else {
        at_gate(s.drop_first(), g)
    }
}

/// The first horse whose order is `o`.
pub open spec fn at_order(s: Seq<HorseTelem>, o: i32) -> Option<HorseTelem>
    decreases s.len(),
{
    if s.len() == 0 {
        None
    } else if s[0].order == o {
        Some(s[0])
    } else {
        at_order(s.drop_first(), o)
    }
}

/// Whether each gate occurs once.
pub open spec fn gates_distinct(s: Seq<HorseTelem>) -> bool {
    forall|i: int, j: int| 0 <= i < j < s.len() ==> (#[trigger] s[i]).gate != (#[trigger] s[j]).gate
}

/// What a horse is called: its name, or its gate.
pub open spec fn gate_title(names: Map<i32, String>, gate: i32) -> Seq<char> {
    if names.dom().contains(gate) && names[gate]@.len() > 0 {
        names[gate]@
    } else {
        "Gate "@ + dec(gate as int)
    }
}

/// Whether a silence ended the last race.
pub open spec fn race_over(b: Beat, now: u64) -> bool {
    now - b.last_telem_ms > GAP_MS
}

/// Whether the followed horse's record is blank.
pub open spec fn unwatched(w: Watched) -> bool {
    &&& w.feed@.len() == 0
    &&& w.seen == 0
    &&& w.trace@.len() == 0
    &&& outlook_blank(w)
}

/// Whether nothing is known of the followed horse's prospects.
pub open spec fn outlook_blank(w: Watched) -> bool {
    &&& w.outlook == 0
    &&& w.active@.len() == 0
    &&& w.follow == idle()
}

/// Whether the board is empty.
pub open spec fn board_blank(b: Board) -> bool {
    &&& b.telem@.len() == 0
    &&& b.trainers@ == Map::<i32, (String, i64)>::empty()
    &&& b.finish@ == Map::<i32, i32>::empty()
    &&& b.finish_next == 0
    &&& b.prev@ == Map::<i32, i32>::empty()
}

/// The pace history with speed `v` at stretch `b`; stretches that were passed over get the last
/// speed before them.
pub open spec fn paced(t: Seq<u32>, b: int, v: u32) -> Seq<u32> {
    if b < t.len() {
        t.update(b, v)
    } else {
        t + Seq::new(
            (b - t.len()) as nat,
            |i: int|
                if t.len() > 0 {
                    t.last()
                } else {
                    v
                },
        ) + seq![v]
    }
}

/// The trainers, with the one of `gate` noted where none was.
pub open spec fn trainers_after(
    m: Map<i32, (String, i64)>,
    r: Map<i32, (String, i64)>,
    gate: i32,
    trainer: Option<(String, i64)>,
) -> bool {
    if trainer is Some && !m.dom().contains(gate) {
        &&& r == m.insert(gate, r[gate])
        &&& r[gate].0@ == (trainer->0).0@
        &&& r[gate].1 == (trainer->0).1
    } else {
        r == m
    }
}

/// Whether a horse has just crossed the line: it has covered the course, and no place is noted.
pub open spec fn crosses(finish: Map<i32, i32>, t: HorseTelem, course: u32) -> bool {
    below(ZERO, course) && at_least(t.distance, course) && !finish.dom().contains(t.gate)
}

/// Whether the pace is recorded.
pub open spec fn records_pace(t: HorseTelem, target: i32, course: u32) -> bool {
    t.gate == target && below(ZERO, course) && below(MIN_PACE, t.speed)
}

/// The last stretch at most.
pub open spec fn stretch(b: usize) -> int {
    if b < PACE_BUCKETS {
        b as int
    } else {
        PACE_BUCKETS - 1
    }
}

/// The record of the followed horse after a frame.
pub open spec fn watched_after(
    w: Watched,
    r: Watched,
    over: bool,
    t: HorseTelem,
    target: i32,
    course: u32,
    bucket: usize,
) -> bool {
    let before = if over {
        Seq::<u32>::empty()
    } else {
        w.trace@
    };
    &&& r.trace@ == (if records_pace(t, target, course) {
        paced(before, stretch(bucket), t.speed)
    } else {
        before
    })
    &&& over ==> r.feed@.len() == 0 && r.seen == 0 && outlook_blank(r)
    &&& !over ==> r.feed == w.feed && r.seen == w.seen && r.active == w.active && r.follow
        == w.follow && r.outlook == w.outlook
}

/// The board after a frame.
pub open spec fn board_after(
    b: Board,
    r: Board,
    over: bool,
    t: HorseTelem,
    trainer: Option<(String, i64)>,
    course: u32,
) -> bool {
    let finish = if over {
        Map::<i32, i32>::empty()
    } else {
        b.finish@
    };
    let next = if over {
        0i32
    } else {
        b.finish_next
    };
    &&& r.telem@ == with_telem(
        if over {
            Seq::empty()
        } else {
            b.telem@
        },
        t,
    )
    &&& if over {
        r.trainers@ == Map::<i32, (String, i64)>::empty()
    } else {
        trainers_after(b.trainers@, r.trainers@, t.gate, trainer)
    }
    &&& if crosses(finish, t, course) {
        r.finish@ == finish.insert(t.gate, next.wrapping_add(1)) && r.finish_next
            == next.wrapping_add(1)
    } else {
        r.finish@ == finish && r.finish_next == next
    }
    &&& r.prev@ == (if over {
        Map::<i32, i32>::empty()
    } else {
        b.prev@
    })
}

/// No race yet.
pub fn new_director() -> (r: Director)
    ensures
        r.beat == (Beat { last_telem_ms: 0, epoch: 0, last_pos_ms: 0 }),
        board_blank(r.board),
        unwatched(r.watched),
        r.roster.names@ == Map::<i32, String>::empty(),
        r.roster.ids@ == Map::<i32, i32>::empty(),
        r.roster.effects@ == Map::<i32, String>::empty(),
{
    broadcast use vstd::std_specs::hash::group_hash_axioms;

    Director {
        beat: Beat { last_telem_ms: 0, epoch: 0, last_pos_ms: 0 },
        board: Board {
            telem: Vec::new(),
            trainers: HashMap::new(),
            finish: HashMap::new(),
            finish_next: 0,
            prev: HashMap::new(),
        },
        roster: Roster { names: HashMap::new(), ids: HashMap::new(), effects: HashMap::new() },
        watched: Watched {
            feed: Vec::new(),
            seen: 0,
            active: Vec::new(),
            follow: FollowState {
                kakari: false,
                temptation_mode: 0,
                keep_mode: 0,
                downhill: false,
            },
            outlook: 0,
            trace: Vec::new(),
        },
    }
}

/// How many races were seen.
pub fn race_epoch(d: &Director) -> (r: u64)
    ensures
        r == d.beat.epoch,
{
    d.beat.epoch
}

/// Whether telemetry is fresh.
fn telem_fresh(d: &Director, now: u64) -> (r: bool)
    ensures
        r == (now - d.beat.last_telem_ms < FRESH_MS),
{
    now < d.beat.last_telem_ms || now - d.beat.last_telem_ms < FRESH_MS
}

/// Whether the display is on: it is wanted, and either telemetry is fresh or the race scene is still
/// there.
pub fn race_active(d: &Director, wanted: bool, in_race: bool, now: u64) -> (r: bool)
    ensures
        r == (wanted && (now - d.beat.last_telem_ms < FRESH_MS || in_race)),
{
    wanted && (telem_fresh(d, now) || in_race)
}

/// The skills that the followed horse used, in order.
pub fn skill_feed(d: &Director) -> (r: &Vec<(i32, String)>)
    ensures
        r == d.watched.feed,
{
    &d.watched.feed
}

/// The effects that are active on the followed horse.
pub fn active_skills(d: &Director) -> (r: &Vec<ActiveSkill>)
    ensures
        r == d.watched.active,
{
    &d.watched.active
}

/// What the followed horse is up to.
pub fn follow_state(d: &Director) -> (r: FollowState)
    ensures
        r == d.watched.follow,
{
    d.watched.follow
}

/// Whether the followed horse's stamina lasts: bit 0 or 1 for yes, bit 2 or 3 for no, 0 while
/// unknown.
pub fn spurt_outlook(d: &Director) -> (r: i32)
    ensures
        r == d.watched.outlook,
{
    d.watched.outlook
}

/// The followed horse's speed at each stretch so far.
pub fn speed_trace(d: &Director) -> (r: &Vec<u32>)
    ensures
        r == d.watched.trace,
{
    &d.watched.trace
}

/// What a skill does, in short; empty while unknown.
pub fn skill_effect_of(d: &Director, id: i32) -> (r: String)
    ensures
        r@ == (if d.roster.effects@.dom().contains(id) {
            d.roster.effects@[id]@
        } else {
            ""@
        }),
{
    broadcast use vstd::std_specs::hash::group_hash_axioms;

    match d.roster.effects.get(&id) {
        Some(s) => s.as_str().to_owned(),
        None => "".to_owned(),
    }
}

/// Forget the skills that the followed horse used.
fn reset_skill_feed(w: &mut Watched)
    ensures
        final(w).feed@.len() == 0,
        final(w).seen == 0,
        *final(w) == (Watched { feed: final(w).feed, seen: 0, ..*old(w) }),
{
    w.seen = 0;
    w.feed = Vec::new();
}

/// Forget the followed horse's prospects.
fn reset_outlook(w: &mut Watched)
    ensures
        outlook_blank(*final(w)),
        *final(w) == (Watched {
            outlook: 0,
            active: final(w).active,
            follow: final(w).follow,
            ..*old(w)
        }),
{
    w.outlook = 0;
    w.active = Vec::new();
    w.follow = FollowState { kakari: false, temptation_mode: 0, keep_mode: 0, downhill: false };
}

/// Forget the pace history and the prospects of the followed horse.
pub fn reset_pace(d: &mut Director)
    ensures
        final(d).watched.trace@.len() == 0,
        outlook_blank(final(d).watched),
        final(d).watched.feed == old(d).watched.feed,
        final(d).watched.seen == old(d).watched.seen,
        *final(d) == (Director { watched: final(d).watched, ..*old(d) }),
{
    d.watched.trace = Vec::new();
    reset_outlook(&mut d.watched);
}

/// Another horse is followed.
pub fn on_switch_follow(d: &mut Director)
    ensures
        unwatched(final(d).watched),
        *final(d) == (Director { watched: final(d).watched, ..*old(d) }),
{
    reset_skill_feed(&mut d.watched);
    reset_pace(d);
}

/// A race begins: forget the horses and the skills used.
pub fn on_new_race(d: &mut Director)
    ensures
        final(d).board.telem@.len() == 0,
        final(d).watched.feed@.len() == 0,
        final(d).watched.seen == 0,
        *final(d) == (Director {
            board: Board { telem: final(d).board.telem, ..old(d).board },
            watched: Watched { feed: final(d).watched.feed, seen: 0, ..old(d).watched },
            ..*old(d)
        }),
{
    d.board.telem = Vec::new();
    reset_skill_feed(&mut d.watched);
}

/// What a horse is called.
fn gate_name(names: &HashMap<i32, String>, gate: i32) -> (r: String)
    ensures
        r@ == gate_title(names@, gate),
{
    broadcast use vstd::std_specs::hash::group_hash_axioms;

    match names.get(&gate) {
        Some(s) => {
            if s.as_str().unicode_len() > 0 {
                return s.as_str().to_owned();
            }
        },
        None => {},
    }
    let mut s: String = "Gate ".to_owned();
    s.append(show_i64(gate as i64).as_str());
    s
}

/// The first horse in a gate.
fn find_gate(s: &Vec<HorseTelem>, g: i32) -> (r: Option<HorseTelem>)
    ensures
        r == at_gate(s@, g),
{
    let mut i: usize = 0;
    assert(s@.skip(0) =~= s@);
    while i < s.len()
        invariant
            i <= s.len(),
            at_gate(s@, g) == at_gate(s@.skip(i as int), g),
        decreases s.len() - i,
    {
        assert(s@.skip(i as int)[0] == s@[i as int]);
        if s[i].gate == g {
            return Some(s[i]);
        }
        assert(s@.skip(i as int).drop_first() =~= s@.skip(i as int + 1));
        i = i + 1;
    }
    None
}

/// The first horse with an order.
fn find_order(s: &Vec<HorseTelem>, o: i32) -> (r: Option<HorseTelem>)
    ensures
        r == at_order(s@, o),
{
    let mut i: usize = 0;
    assert(s@.skip(0) =~= s@);
    while i < s.len()
        invariant
            i <= s.len(),
            at_order(s@, o) == at_order(s@.skip(i as int), o),
        decreases s.len() - i,
    {
        assert(s@.skip(i as int)[0] == s@[i as int]);
        if s[i].order == o {
            return Some(s[i]);
        }
        assert(s@.skip(i as int).drop_first() =~= s@.skip(i as int + 1));
        i = i + 1;
    }
    None
}

/// Put a horse in place of the one in the same gate, or at the end.
fn put_telem(s: &mut Vec<HorseTelem>, t: HorseTelem)
    ensures
        final(s)@ == with_telem(old(s)@, t),
{
    let ghost all = s@;
    let mut i: usize = 0;
    assert(all.skip(0) =~= all);
    assert(all.take(0) + with_telem(all.skip(0), t) =~= with_telem(all, t));
    while i < s.len()
        invariant
            i <= s.len(),
            s@ == all,
            all == old(s)@,
            with_telem(all, t) == all.take(i as int) + with_telem(all.skip(i as int), t),
        decreases s.len() - i,
    {
        let ghost rest = all.skip(i as int);
        assert(rest[0] == all[i as int]);
        assert(rest.drop_first() =~= all.skip(i as int + 1));
        if s[i].gate == t.gate {
            s.set(i, t);
            assert(s@ =~= all.take(i as int) + with_telem(rest, t));
            return ;
        }
        assert(all.take(i as int) + with_telem(rest, t) =~= all.take(i as int + 1) + with_telem(
            all.skip(i as int + 1),
            t,
        ));
        i = i + 1;
    }
    s.push(t);
    assert(s@ =~= all.take(i as int) + with_telem(all.skip(i as int), t));
}

/// The order of the rival that the display compares the followed horse with.
pub open spec fn rival_order(order: i32) -> i32 {
    if order > 1 {
        (order - 1) as i32
    } else {
        (order + 1) as i32
    }
}

/// What the display shows of the followed horse.
pub open spec fn shows_followed(v: TelemView, d: Director, h: HorseTelem) -> bool {
    let rival = at_order(d.board.telem@, rival_order(h.order));
    &&& v.followed == h
    &&& v.followed_name@ == gate_title(d.roster.names@, h.gate)
    &&& v.rival == rival
    &&& v.rival_name@ == (match rival {
        Some(r) => gate_title(d.roster.names@, r.gate),
        None => ""@,
    })
    &&& v.rival_ahead == (h.order > 1)
    &&& v.field_size == d.board.telem@.len() as i32
    &&& v.chara_id == (if d.roster.ids@.dom().contains(h.gate) {
        d.roster.ids@[h.gate]
    } else {
        0
    })
}

/// The followed horse and its rival; `None` while the followed horse was not read.
pub fn telemetry(d: &Director, target: i32) -> (r: Option<TelemView>)
    ensures
        r is Some <==> at_gate(d.board.telem@, target) is Some,
        r is Some ==> shows_followed(r->0, *d, at_gate(d.board.telem@, target)->0),
{
    broadcast use vstd::std_specs::hash::group_hash_axioms;

    match find_gate(&d.board.telem, target) {
        None => None,
        Some(h) => {
            let want: i32 = if h.order > 1 {
                h.order - 1
            } else {
                h.order + 1
            };
            let rival: Option<HorseTelem> = find_order(&d.board.telem, want);
            let rival_name: String = match rival {
                Some(r) => gate_name(&d.roster.names, r.gate),
                None => "".to_owned(),
            };
            let chara_id: i32 = match d.roster.ids.get(&h.gate) {
                Some(v) => *v,
                None => 0,
            };
            Some(
                TelemView {
                    followed: h,
                    followed_name: gate_name(&d.roster.names, h.gate),
                    rival,
                    rival_name,
                    rival_ahead: h.order > 1,
                    field_size: d.board.telem.len() as i32,
                    chara_id,
                },
            )
        },
    }
}

/// By what the tower sorts: horses that crossed the line come first, in the order in which they did,
/// then the others, the farther one first. A distance that is no number counts as 0.
pub open spec fn lead_key(finish: Map<i32, i32>, h: HorseTelem) -> int {
    if finish.dom().contains(h.gate) {
        finish[h.gate] as int
    } else {
        0x1_0000_0000 - (if is_nan(h.distance) {
            0
        } else {
            rank(h.distance)
        })
    }
}

/// The sort key as a function.
pub open spec fn leads(finish: Map<i32, i32>) -> spec_fn(HorseTelem) -> int {
    |h: HorseTelem| lead_key(finish, h)
}

/// The field, leader first.
pub open spec fn tower(b: Board) -> Seq<HorseTelem> {
    sort_by_key(b.telem@, leads(b.finish@))
}

/// The sort key of a horse.
fn key_of(finish: &HashMap<i32, i32>, h: &HorseTelem) -> (r: i64)
    ensures
        r == lead_key(finish@, *h),
{
    broadcast use vstd::std_specs::hash::group_hash_axioms;

    match finish.get(&h.gate) {
        Some(n) => *n as i64,
        None => {
            let b: u32 = h.distance;
            let nan: bool = (0x7f80_0000 < b && b < 0x8000_0000) || b > 0xff80_0000;
            if nan {
                0x1_0000_0000
            } else if b >= 0x8000_0000 {
                0x1_0000_0000 - (0x8000_0000 - b as i64)
            } else {
                0x1_0000_0000 - b as i64
            }
        },
    }
}

/// The field, leader first.
fn sort_field(b: &Board) -> (r: Vec<HorseTelem>)
    ensures
        r@ == tower(*b),
{
    let ghost key = leads(b.finish@);
    let ghost all = b.telem@;
    let mut out: Vec<HorseTelem> = Vec::new();
    let mut i: usize = 0;
    assert(out@ =~= sort_by_key(all.take(0), key));
    while i < b.telem.len()
        invariant
            i <= b.telem.len(),
            all == b.telem@,
            key == leads(b.finish@),
            out@ == sort_by_key(all.take(i as int), key),
        decreases b.telem.len() - i,
    {
        let h: HorseTelem = b.telem[i];
        let x: i64 = key_of(&b.finish, &h);
        let ghost so_far = out@;
        proof {
            lemma_sort(all.take(i as int), key);
        }
        let mut k: usize = out.len();
        while k > 0 && key_of(&b.finish, &out[k - 1]) > x
            invariant
                k <= out.len(),
                out@ == so_far,
                key == leads(b.finish@),
                x == key(h),
                forall|j: int| k <= j < so_far.len() ==> key(#[trigger] so_far[j]) > x,
            decreases k,
        {
            k = k - 1;
        }
        proof {
            lemma_insert_at(so_far, h, key, k as int);
            assert(all.take(i as int + 1).drop_last() =~= all.take(i as int));
            assert(all.take(i as int + 1).last() == h);
        }
        out.insert(k, h);
        i = i + 1;
    }
    assert(all.take(i as int) =~= all);
    out
}

/// The position of row `i`.
pub open spec fn pos_of(i: int) -> i32 {
    (i + 1) as i32
}

/// What row `i` of the tower shows of horse `h`.
pub open spec fn shows_row(row: FieldRow, d: Director, h: HorseTelem, i: int, target: i32) -> bool {
    &&& row.pos == pos_of(i)
    &&& row.gate == h.gate
    &&& row.name@ == gate_title(d.roster.names@, h.gate)
    &&& row.style == h.running_style
    &&& row.hp == h.hp
    &&& row.max_hp == h.max_hp
    &&& row.trend == (if d.board.prev@.dom().contains(h.gate) {
        d.board.prev@[h.gate].wrapping_sub(pos_of(i))
    } else {
        0
    })
    &&& row.popularity == h.popularity
    &&& row.spurt == h.spurt
    &&& row.exhausted == h.exhausted
    &&& row.fight == h.fight
    &&& row.blocked == h.blocked
    &&& row.followed == (h.gate == target)
    &&& row.dist == h.distance
    &&& row.speed == h.speed
    &&& row.trainer@ == (if d.board.trainers@.dom().contains(h.gate) {
        d.board.trainers@[h.gate].0@
    } else {
        ""@
    })
    &&& row.viewer_id == (if d.board.trainers@.dom().contains(h.gate) {
        d.board.trainers@[h.gate].1
    } else {
        0
    })
    &&& row.wx == h.wx
    &&& row.wz == h.wz
}

/// The positions after those of a tower were noted.
pub open spec fn noted(prev: Map<i32, i32>, s: Seq<HorseTelem>) -> Map<i32, i32>
    decreases s.len(),
{
    if s.len() == 0 {
        prev
    } else {
        noted(prev, s.drop_last()).insert(s.last().gate, pos_of(s.len() - 1))
    }
}

/// Whether positions are noted again.
pub open spec fn notes_positions(d: Director, now: u64) -> bool {
    d.board.telem@.len() > 0 && now - d.beat.last_pos_ms > TREND_MS
}

/// Row `i` of the tower.
fn row_for(d: &Director, h: &HorseTelem, i: usize, target: i32) -> (r: FieldRow)
    requires
        i < usize::MAX,
    ensures
        shows_row(r, *d, *h, i as int, target),
{
    broadcast use vstd::std_specs::hash::group_hash_axioms;

    let pos: i32 = (i + 1) as i32;
    let trend: i32 = match d.board.prev.get(&h.gate) {
        Some(p) => p.wrapping_sub(pos),
        None => 0,
    };
    let trainer: String = match d.board.trainers.get(&h.gate) {
        Some(t) => t.0.as_str().to_owned(),
        None => "".to_owned(),
    };
    let viewer_id: i64 = match d.board.trainers.get(&h.gate) {
        Some(t) => t.1,
        None => 0,
    };
    FieldRow {
        pos,
        gate: h.gate,
        name: gate_name(&d.roster.names, h.gate),
        style: h.running_style,
        hp: h.hp,
        max_hp: h.max_hp,
        trend,
        popularity: h.popularity,
        spurt: h.spurt,
        exhausted: h.exhausted,
        fight: h.fight,
        blocked: h.blocked,
        followed: h.gate == target,
        dist: h.distance,
        speed: h.speed,
        trainer,
        viewer_id,
        wx: h.wx,
        wz: h.wz,
    }
}

/// The timing tower, leader first. Positions are noted for the next change, not too often.
pub fn field_rows(d: &mut Director, target: i32, now: u64) -> (r: Vec<FieldRow>)
    ensures
        r@.len() == old(d).board.telem@.len(),
        forall|i: int|
            0 <= i < r@.len() ==> shows_row(
                #[trigger] r@[i],
                *old(d),
                tower(old(d).board)[i],
                i,
                target,
            ),
        final(d).board.prev@ == (if notes_positions(*old(d), now) {
            noted(old(d).board.prev@, tower(old(d).board))
        } else {
            old(d).board.prev@
        }),
        *final(d) == (Director {
            beat: Beat {
                last_pos_ms: if notes_positions(*old(d), now) {
                    now
                } else {
                    old(d).beat.last_pos_ms
                },
                ..old(d).beat
            },
            board: Board { prev: final(d).board.prev, ..old(d).board },
            ..*old(d)
        }),
{
    broadcast use vstd::std_specs::hash::group_hash_axioms;

    let hs: Vec<HorseTelem> = sort_field(&d.board);
    proof {
        lemma_sort(d.board.telem@, leads(d.board.finish@));
    }
    let mut out: Vec<FieldRow> = Vec::new();
    let mut i: usize = 0;
    while i < hs.len()
        invariant
            i <= hs.len(),
            hs@ == tower(old(d).board),
            *d == *old(d),
            out@.len() == i,
            forall|j: int|
                0 <= j < i ==> shows_row(#[trigger] out@[j], *old(d), hs@[j], j, target),
        decreases hs.len() - i,
    {
        out.push(row_for(d, &hs[i], i, target));
        i = i + 1;
    }
    if hs.len() == 0 || now <= d.beat.last_pos_ms || now - d.beat.last_pos_ms <= TREND_MS {
        return out;
    }
    let ghost prev = d.board.prev@;
    let mut k: usize = 0;
    assert(hs@.take(0) =~= Seq::empty());
    while k < hs.len()
        invariant
            k <= hs.len(),
            prev == old(d).board.prev@,
            d.board.prev@ == noted(prev, hs@.take(k as int)),
            *d == (Director {
                board: Board { prev: d.board.prev, ..old(d).board },
                ..*old(d)
            }),
        decreases hs.len() - k,
    {
        broadcast use vstd::std_specs::hash::group_hash_axioms;

        proof {
            assert(hs@.take(k as int + 1).drop_last() =~= hs@.take(k as int));
            assert(hs@.take(k as int + 1).last() == hs@[k as int]);
        }
        let _ = d.board.prev.insert(hs[k].gate, (k + 1) as i32);
        k = k + 1;
    }
    assert(hs@.take(k as int) =~= hs@);
    d.beat.last_pos_ms = now;
    out
}

/// What the display shows of a reading.
pub fn telem_of(gate: i32, r: &Reading) -> (t: HorseTelem)
    ensures
        t == telem_spec(gate, *r),
{
    HorseTelem {
        gate,
        order: int_or(r.order),
        hp: bits_or(r.hp),
        max_hp: bits_or(r.max_hp),
        speed: bits_or(r.speed),
        distance: bits_or(r.distance),
        spurt: match r.phase {
            Some(p) => p >= 2,
            None => false,
        },
        exhausted: flag(r.hp_empty),
        skills: 0,
        late_start: flag(r.bad_start),
        fight: flag(r.fight),
        leading: flag(r.top),
        blocked: match r.block_time {
            Some(t) => less(ZERO, t),
            None => false,
        },
        prev_order: int_or(r.prev_order),
        popularity: int_or(r.popularity),
        running_style: int_or(r.style),
        defeat: int_or(r.defeat),
        wx: match r.position {
            Some(p) => p.0,
            None => ZERO,
        },
        wz: match r.position {
            Some(p) => p.1,
            None => ZERO,
        },
    }
}

/// A number that was read, or 0.
fn int_or(o: Option<i32>) -> (r: i32)
    ensures
        r == num(o),
{
    match o {
        Some(v) => v,
        None => 0,
    }
}

/// The bits of a number that was read, or of 0.
fn bits_or(o: Option<u32>) -> (r: u32)
    ensures
        r == bits_or_zero(o),
{
    match o {
        Some(v) => v,
        None => ZERO,
    }
}

/// Whether a flag was read and is set.
fn flag(o: Option<bool>) -> (r: bool)
    ensures
        r == (o == Some(true)),
{
    match o {
        Some(v) => v,
        None => false,
    }
}

/// Record a speed at a stretch of the course.
fn push_pace(t: &mut Vec<u32>, b: usize, v: u32)
    ensures
        final(t)@ == paced(old(t)@, stretch(b), v),
{
    let b: usize = if b < PACE_BUCKETS {
        b
    } else {
        PACE_BUCKETS - 1
    };
    let ghost before = t@;
    if b < t.len() {
        t.set(b, v);
        return ;
    }
    let fill: u32 = if t.len() > 0 {
        t[t.len() - 1]
    } else {
        v
    };
    while t.len() < b
        invariant
            before.len() <= t@.len() <= b,
            t@ == before + Seq::new((t@.len() - before.len()) as nat, |i: int| fill),
        decreases b - t@.len(),
    {
        t.push(fill);
        assert(t@ =~= before + Seq::new((t@.len() - before.len()) as nat, |i: int| fill));
    }
    t.push(v);
    assert(t@ =~= paced(before, b as int, v));
}

/// Note a trainer, where none is noted.
fn note_trainer(m: &mut HashMap<i32, (String, i64)>, gate: i32, trainer: &Option<(String, i64)>)
    ensures
        trainers_after(old(m)@, final(m)@, gate, *trainer),
{
    broadcast use vstd::std_specs::hash::group_hash_axioms;

    match trainer {
        Some(t) => {
            if !m.contains_key(&gate) {
                let name: String = t.0.as_str().to_owned();
                let _ = m.insert(gate, (name, t.1));
            }
        },
        None => {},
    }
}

/// A horse was read. A silence before it means that another race began, and wipes what is left of
/// the last one, a trainer told by this very frame included. `bucket` is the stretch of the course
/// that the horse is on; `target` the followed gate; `course` the length of the course.
pub fn publish_frame(
    d: &mut Director,
    gate: i32,
    r: &Reading,
    target: i32,
    course: u32,
    bucket: usize,
    now: u64,
)
    ensures
        gate <= 0 || r.hp is None ==> *final(d) == *old(d),
        gate > 0 && r.hp is Some ==> {
            let over = race_over(old(d).beat, now);
            let t = telem_spec(gate, *r);
            &&& board_after(old(d).board, final(d).board, over, t, r.trainer, course)
            &&& watched_after(old(d).watched, final(d).watched, over, t, target, course, bucket)
            &&& final(d).roster == old(d).roster
            &&& final(d).beat == (Beat {
                last_telem_ms: now,
                epoch: if over {
                    old(d).beat.epoch.wrapping_add(1)
                } else {
                    old(d).beat.epoch
                },
                ..old(d).beat
            })
        },
{
    broadcast use vstd::std_specs::hash::group_hash_axioms;

    if gate <= 0 || r.hp.is_none() {
        return ;
    }
    note_trainer(&mut d.board.trainers, gate, &r.trainer);
    let t: HorseTelem = telem_of(gate, r);
    let over: bool = now > d.beat.last_telem_ms && now - d.beat.last_telem_ms > GAP_MS;
    if over {
        d.board = Board {
            telem: Vec::new(),
            trainers: HashMap::new(),
            finish: HashMap::new(),
            finish_next: 0,
            prev: HashMap::new(),
        };
        reset_skill_feed(&mut d.watched);
        reset_pace(d);
        assert(d.watched.trace@ =~= Seq::<u32>::empty());
        d.beat.epoch = d.beat.epoch.wrapping_add(1);
    }
    d.beat.last_telem_ms = now;
    put_telem(&mut d.board.telem, t);
    if less(ZERO, course) && reaches(t.distance, course) && !d.board.finish.contains_key(&gate) {
        let place: i32 = d.board.finish_next.wrapping_add(1);
        d.board.finish_next = place;
        let _ = d.board.finish.insert(gate, place);
    }
    if gate == target && less(ZERO, course) && less(MIN_PACE, t.speed) {
        push_pace(&mut d.watched.trace, bucket, t.speed);
    }
}

/// Whether a character ends no name: a space, or a symbol that the display cannot draw.
pub open spec fn trailing(c: char) -> bool {
    c == ' ' || c as u32 > 0x24f
}

/// How much of a name is left without what ends none.
pub open spec fn trimmed_len(s: Seq<char>) -> nat
    decreases s.len(),
{
    if s.len() > 0 && trailing(s.last()) {
        trimmed_len(s.drop_last())
    } else {
        s.len()
    }
}

/// The game's name for a skill, or its number where there is none.
pub open spec fn raw_name(id: i32, raw: Option<String>) -> Seq<char> {
    match raw {
        Some(s) => if s@.len() > 0 {
            s@
        } else {
            "Skill "@ + dec(id as int)
        },
        None => "Skill "@ + dec(id as int),
    }
}

/// What a skill is called on the display.
pub open spec fn skill_title(id: i32, raw: Option<String>) -> Seq<char> {
    let s = raw_name(id, raw);
    if trimmed_len(s) == 0 {
        s
    } else {
        s.take(trimmed_len(s) as int)
    }
}

/// What a skill is called on the display.
pub fn skill_name(id: i32, raw: &Option<String>) -> (r: String)
    ensures
        r@ == skill_title(id, *raw),
{
    let full: String = match raw {
        Some(s) => if s.as_str().unicode_len() > 0 {
            s.as_str().to_owned()
        } else {
            numbered(id)
        },
        None => numbered(id),
    };
    let cs: Vec<char> = chars_of(full.as_str());
    let mut n: usize = cs.len();
    assert(cs@.take(n as int) =~= cs@);
    while n > 0 && (cs[n - 1] == ' ' || cs[n - 1] as u32 > 0x24f)
        invariant
            n <= cs.len(),
            trimmed_len(cs@) == trimmed_len(cs@.take(n as int)),
        decreases n,
    {
        assert(cs@.take(n as int).last() == cs@[n - 1]);
        assert(cs@.take(n as int).drop_last() =~= cs@.take(n - 1));
        n = n - 1;
    }
    assert(n > 0 ==> cs@.take(n as int).last() == cs@[n - 1]);
    if n == 0 {
        full
    } else {
        assert(cs@.subrange(0, n as int) =~= cs@.take(n as int));
        string_of(&cs, 0, n)
    }
}

/// A skill without a name.
fn numbered(id: i32) -> (r: String)
    ensures
        r@ == "Skill "@ + dec(id as int),
{
    let mut s: String = "Skill ".to_owned();
    s.append(show_i64(id as i64).as_str());
    s
}

/// What the feed says.
pub open spec fn feed_view(s: Seq<(i32, String)>) -> Seq<(i32, Seq<char>)> {
    s.map_values(|p: (i32, String)| (p.0, p.1@))
}

/// The game's name for skill `i` of those used.
pub open spec fn name_at(names: Seq<Option<String>>, i: int) -> Option<String> {
    if 0 <= i < names.len() {
        names[i]
    } else {
        None
    }
}

/// What skill `i` of those used does.
pub open spec fn effect_at(effects: Seq<String>, i: int) -> Seq<char> {
    if 0 <= i < effects.len() {
        effects[i]@
    } else {
        ""@
    }
}

/// Whether there are skills that the feed does not hold yet.
pub open spec fn feed_due(seen: usize, used: Seq<i32>) -> bool {
    seen < used.len() <= MAX_SKILLS
}

/// The entries of the feed for the skills from `from` on.
pub open spec fn entries(used: Seq<i32>, names: Seq<Option<String>>, from: int) -> Seq<
    (i32, Seq<char>),
> {
    Seq::new(
        (used.len() - from) as nat,
        |k: int| (used[from + k], skill_title(used[from + k], name_at(names, from + k))),
    )
}

/// What is known of skill effects after the skills from `from` on were noted: what was known stays,
/// and the first effect told of a new skill is added.
pub open spec fn effects_after(
    m: Map<i32, String>,
    r: Map<i32, String>,
    used: Seq<i32>,
    effects: Seq<String>,
    from: int,
) -> bool {
    &&& forall|id: i32| #[trigger]
        m.dom().contains(id) ==> r.dom().contains(id) && r[id] == m[id]
    &&& forall|id: i32| #[trigger]
        r.dom().contains(id) && !m.dom().contains(id) ==> exists|i: int|
            from <= i < used.len() && #[trigger] used[i] == id
    &&& forall|i: int|
        from <= i < used.len() && !m.dom().contains(#[trigger] used[i]) && first_at(used, from, i)
            ==> r.dom().contains(used[i]) && r[used[i]]@ == effect_at(effects, i)
}

/// Whether no skill between `from` and `i` is the one at `i`.
pub open spec fn first_at(used: Seq<i32>, from: int, i: int) -> bool {
    forall|j: int| from <= j < i ==> #[trigger] used[j] != used[i]
}

/// Add the skills that the followed horse has used since the last frame to the feed.
fn update_skill_feed(
    w: &mut Watched,
    known: &mut HashMap<i32, String>,
    used: &Vec<i32>,
    names: &Vec<Option<String>>,
    effects: &Vec<String>,
)
    ensures
        !feed_due(old(w).seen, used@) ==> *final(w) == *old(w) && *final(known) == *old(known),
        feed_due(old(w).seen, used@) ==> {
            &&& final(w).seen == used@.len()
            &&& feed_view(final(w).feed@) == feed_view(old(w).feed@) + entries(
                used@,
                names@,
                old(w).seen as int,
            )
            &&& effects_after(
                old(known)@,
                final(known)@,
                used@,
                effects@,
                old(w).seen as int,
            )
            &&& *final(w) == (Watched { feed: final(w).feed, seen: final(w).seen, ..*old(w) })
        },
{
    broadcast use vstd::std_specs::hash::group_hash_axioms;

    if used.len() > MAX_SKILLS || used.len() <= w.seen {
        return ;
    }
    let from: usize = w.seen;
    let ghost m = known@;
    let ghost start = feed_view(w.feed@);
    let ghost list = entries(used@, names@, from as int);
    let mut i: usize = from;
    assert(start + list.take(0) =~= start);
    while i < used.len()
        invariant
            from <= i <= used.len(),
            list == entries(used@, names@, from as int),
            feed_view(w.feed@) == start + list.take(i - from),
            *w == (Watched { feed: w.feed, ..*old(w) }),
            m == old(known)@,
            effects_after(m, known@, used@.take(i as int), effects@, from as int),
        decreases used.len() - i,
    {
        broadcast use vstd::std_specs::hash::group_hash_axioms;

        let id: i32 = used[i];
        let name: String = if i < names.len() {
            skill_name(id, &names[i])
        } else {
            skill_name(id, &None)
        };
        let ghost said = name@;
        let ghost feed = w.feed@;
        w.feed.push((id, name));
        assert(feed_view(w.feed@) =~= feed_view(feed).push((id, said)));
        assert(list[i - from] == (id, said));
        assert(list.take(i - from + 1) =~= list.take(i - from).push((id, said)));
        assert(start + list.take(i - from + 1) =~= (start + list.take(i - from)).push((id, said)));
        let ghost before = known@;
        if !known.contains_key(&id) {
            let effect: String = if i < effects.len() {
                effects[i].as_str().to_owned()
            } else {
                "".to_owned()
            };
            let _ = known.insert(id, effect);
            assert(known@[id]@ == effect_at(effects@, i as int));
        }
        proof {
            lemma_effect_noted(m, before, known@, used@, effects@, from as int, i as int);
        }
        i = i + 1;
    }
    assert(list.take(i - from) =~= list);
    assert(used@.take(i as int) =~= used@);
    w.seen = used.len();
}

/// Noting one more skill.
proof fn lemma_effect_noted(
    m: Map<i32, String>,
    b: Map<i32, String>,
    r: Map<i32, String>,
    used: Seq<i32>,
    effects: Seq<String>,
    from: int,
    i: int,
)
    requires
        0 <= from <= i < used.len(),
        effects_after(m, b, used.take(i), effects, from),
        if b.dom().contains(used[i]) {
            r == b
        } else {
            r == b.insert(used[i], r[used[i]]) && r[used[i]]@ == effect_at(effects, i)
        },
    ensures
        effects_after(m, r, used.take(i + 1), effects, from),
{
    let u = used.take(i);
    let v = used.take(i + 1);
    assert forall|id: i32| #[trigger] r.dom().contains(id) && !m.dom().contains(id) implies exists|
        k: int,
    |
        from <= k < v.len() && #[trigger] v[k] == id by {
        if b.dom().contains(id) {
            let k = choose|k: int| from <= k < u.len() && #[trigger] u[k] == id;
            assert(v[k] == id);
        } else {
            assert(v[i] == id);
        }
    }
    assert forall|k: int|
        from <= k < v.len() && !m.dom().contains(#[trigger] v[k]) && first_at(
            v,
            from,
            k,
        ) implies r.dom().contains(v[k]) && r[v[k]]@ == effect_at(effects, k) by {
        if k < i {
            assert(u[k] == v[k]);
            assert forall|j: int| from <= j < k implies #[trigger] u[j] != u[k] by {
                assert(v[j] == u[j]);
            }
            assert(first_at(u, from, k));
        } else {
            if b.dom().contains(v[i]) {
                let j = choose|j: int| from <= j < u.len() && #[trigger] u[j] == v[i];
                assert(v[j] == u[j]);
                assert(false);
            }
        }
    }
}

/// Whether an effect is shown.
pub open spec fn is_live(d: DetailRead) -> bool {
    d.activated && below(MIN_LEFT, d.left) && below(d.left, MAX_LEFT)
}

/// The effect of a skill that lasts longest, the first of several.
pub open spec fn longest(ds: Seq<Option<DetailRead>>) -> Option<DetailRead>
    decreases ds.len(),
{
    if ds.len() == 0 {
        None
    } else {
        let best = longest(ds.drop_last());
        match ds.last() {
            Some(d) => if is_live(d) && (best is None || below((best->0).left, d.left)) {
                Some(d)
            } else {
                best
            },
            None => best,
        }
    }
}

/// The first of a row, `n` at most.
pub open spec fn first_of<T>(s: Seq<T>, n: nat) -> Seq<T> {
    if s.len() <= n {
        s
    } else {
        s.take(n as int)
    }
}

/// The skills of a row that are active, each with its longest effect.
pub open spec fn active_of(s: Seq<Option<SkillRead>>) -> Seq<ActiveSkill>
    decreases s.len(),
{
    if s.len() == 0 {
        Seq::empty()
    } else {
        let rest = active_of(s.drop_last());
        match s.last() {
            Some(k) => match longest(first_of(k.details@, MAX_DETAILS as nat)) {
                Some(d) => rest.push(
                    ActiveSkill {
                        id: k.id,
                        left: d.left,
                        category: d.category,
                        debuff: d.debuff,
                    },
                ),
                None => rest,
            },
            None => rest,
        }
    }
}

/// The effect of a skill that lasts longest.
fn best_detail(ds: &Vec<Option<DetailRead>>) -> (r: Option<DetailRead>)
    ensures
        r == longest(first_of(ds@, MAX_DETAILS as nat)),
{
    let n: usize = if ds.len() <= MAX_DETAILS {
        ds.len()
    } else {
        MAX_DETAILS
    };
    let mut best: Option<DetailRead> = None;
    let mut i: usize = 0;
    while i < n
        invariant
            i <= n <= ds.len(),
            best == longest(ds@.take(i as int)),
        decreases n - i,
    {
        assert(ds@.take(i as int + 1).drop_last() =~= ds@.take(i as int));
        assert(ds@.take(i as int + 1).last() == ds@[i as int]);
        if let Some(d) = ds[i] {
            if d.activated && less(MIN_LEFT, d.left) && less(d.left, MAX_LEFT) {
                let better: bool = match best {
                    Some(b) => less(b.left, d.left),
                    None => true,
                };
                if better {
                    best = Some(d);
                }
            }
        }
        i = i + 1;
    }
    assert(first_of(ds@, MAX_DETAILS as nat) =~= ds@.take(n as int));
    best
}

/// The skills that are active.
fn update_active_skills(skills: &Vec<Option<SkillRead>>) -> (r: Vec<ActiveSkill>)
    ensures
        r@ == active_of(first_of(skills@, MAX_SKILLS as nat)),
{
    let n: usize = if skills.len() <= MAX_SKILLS {
        skills.len()
    } else {
        MAX_SKILLS
    };
    let mut out: Vec<ActiveSkill> = Vec::new();
    let mut i: usize = 0;
    while i < n
        invariant
            i <= n <= skills.len(),
            out@ == active_of(skills@.take(i as int)),
        decreases n - i,
    {
        assert(skills@.take(i as int + 1).drop_last() =~= skills@.take(i as int));
        assert(skills@.take(i as int + 1).last() == skills@[i as int]);
        if let Some(k) = &skills[i] {
            if let Some(d) = best_detail(&k.details) {
                out.push(
                    ActiveSkill {
                        id: k.id,
                        left: d.left,
                        category: d.category,
                        debuff: d.debuff,
                    },
                );
            }
        }
        i = i + 1;
    }
    assert(first_of(skills@, MAX_SKILLS as nat) =~= skills@.take(n as int));
    out
}

/// The followed horse was read.
pub fn update_followed(d: &mut Director, f: &FollowRead)
    ensures
        final(d).beat == old(d).beat,
        final(d).board == old(d).board,
        final(d).roster.names == old(d).roster.names,
        final(d).roster.ids == old(d).roster.ids,
        final(d).watched.trace == old(d).watched.trace,
        feed_due(old(d).watched.seen, f.used@) ==> {
            &&& final(d).watched.seen == f.used@.len()
            &&& feed_view(final(d).watched.feed@) == feed_view(old(d).watched.feed@) + entries(
                f.used@,
                f.names@,
                old(d).watched.seen as int,
            )
            &&& effects_after(
                old(d).roster.effects@,
                final(d).roster.effects@,
                f.used@,
                f.effects@,
                old(d).watched.seen as int,
            )
        },
        !feed_due(old(d).watched.seen, f.used@) ==> {
            &&& final(d).watched.seen == old(d).watched.seen
            &&& final(d).watched.feed == old(d).watched.feed
            &&& final(d).roster.effects == old(d).roster.effects
        },
        final(d).watched.active@ == (match f.skills {
            Some(s) => active_of(first_of(s@, MAX_SKILLS as nat)),
            None => old(d).watched.active@,
        }),
        final(d).watched.follow == (match f.follow {
            Some(s) => s,
            None => old(d).watched.follow,
        }),
        final(d).watched.outlook == (if f.phase is Some && f.phase->0 >= 2 && f.outlook is Some {
            f.outlook->0
        } else {
            old(d).watched.outlook
        }),
{
    update_skill_feed(&mut d.watched, &mut d.roster.effects, &f.used, &f.names, &f.effects);
    if let Some(s) = &f.skills {
        d.watched.active = update_active_skills(s);
    }
    if let Some(s) = f.follow {
        d.watched.follow = s;
    }
    if let Some(p) = f.phase {
        if p >= 2 {
            if let Some(o) = f.outlook {
                d.watched.outlook = o;
            }
        }
    }
}

/// The names after one was told: an empty one is not noted.
pub open spec fn named_after(
    m: Map<i32, String>,
    r: Map<i32, String>,
    gate: i32,
    name: Option<String>,
) -> bool {
    if name is Some && (name->0)@.len() > 0 {
        r == m.insert(gate, r[gate]) && r[gate]@ == (name->0)@
    } else {
        r == m
    }
}

/// A horse takes its gate: note its name and character.
pub fn on_ctor(d: &mut Director, gate: i32, name: &Option<String>, chara_id: Option<i32>)
    ensures
        named_after(old(d).roster.names@, final(d).roster.names@, gate, *name),
        final(d).roster.ids@ == (if chara_id is Some && chara_id->0 > 0 {
            old(d).roster.ids@.insert(gate, chara_id->0)
        } else {
            old(d).roster.ids@
        }),
        *final(d) == (Director {
            roster: Roster {
                names: final(d).roster.names,
                ids: final(d).roster.ids,
                ..old(d).roster
            },
            ..*old(d)
        }),
{
    broadcast use vstd::std_specs::hash::group_hash_axioms;

    if let Some(n) = name {
        if n.as_str().unicode_len() > 0 {
            let own: String = n.as_str().to_owned();
            let _ = d.roster.names.insert(gate, own);
        }
    }
    if let Some(c) = chara_id {
        if c > 0 {
            let _ = d.roster.ids.insert(gate, c);
        }
    }
}

/// The bits of 0.4: an effect that lasts no longer is shown without its duration.
pub const MIN_DURATION: u32 = 0x3ecc_cccd;

/// How the numbers of a skill effect print: the value without and with two places, as a per cent, and
/// the duration in seconds with one place. `time` is the duration in single-precision bits.
pub struct EffectTexts {
    pub whole: String,
    pub fine: String,
    pub percent: String,
    pub seconds: String,
    pub time: u32,
}

/// The duration of an effect, where it is shown.
pub open spec fn duration(t: EffectTexts) -> Seq<char> {
    if below(MIN_DURATION, t.time) {
        " "@ + t.seconds@ + "s"@
    } else {
        ""@
    }
}

/// What an ability of a skill does, in short: `kind` is its type, `value` its size.
pub open spec fn effect_spec(kind: i32, value: i32, t: EffectTexts) -> Seq<char> {
    if kind == 0 || value == 0 {
        ""@
    } else if kind == 1 {
        "+"@ + t.whole@ + " Speed"@
    } else if kind == 2 {
        "+"@ + t.whole@ + " Stamina"@
    } else if kind == 3 {
        "+"@ + t.whole@ + " Power"@
    } else if kind == 4 {
        "+"@ + t.whole@ + " Guts"@
    } else if kind == 5 {
        "+"@ + t.whole@ + " Wisdom"@
    } else if kind == 21 || kind == 22 || kind == 27 {
        "+"@ + t.fine@ + " m/s"@ + duration(t)
    } else if kind == 31 {
        "+"@ + t.fine@ + " m/s2"@ + duration(t)
    } else if kind == 9 {
        "+"@ + t.percent@ + "% HP"@
    } else {
        "+"@ + t.fine@ + duration(t)
    }
}

/// Three texts, one behind the other.
fn joined3(a: &str, b: &str, c: &str) -> (r: String)
    ensures
        r@ == a@ + b@ + c@,
{
    let mut s: String = a.to_owned();
    s.append(b);
    s.append(c);
    s
}

/// What an ability of a skill does, in short.
pub fn compute_skill_effect(kind: i32, value: i32, t: &EffectTexts) -> (r: String)
    ensures
        r@ == effect_spec(kind, value, *t),
{
    if kind == 0 || value == 0 {
        return "".to_owned();
    }
    let lasting: String = if less(MIN_DURATION, t.time) {
        joined3(" ", t.seconds.as_str(), "s")
    } else {
        "".to_owned()
    };
    match kind {
        1 => joined3("+", t.whole.as_str(), " Speed"),
        2 => joined3("+", t.whole.as_str(), " Stamina"),
        3 => joined3("+", t.whole.as_str(), " Power"),
        4 => joined3("+", t.whole.as_str(), " Guts"),
        5 => joined3("+", t.whole.as_str(), " Wisdom"),
        21 | 22 | 27 => {
            let mut s: String = joined3("+", t.fine.as_str(), " m/s");
            s.append(lasting.as_str());
            s
        },
        31 => {
            let mut s: String = joined3("+", t.fine.as_str(), " m/s2");
            s.append(lasting.as_str());
            s
        },
        9 => joined3("+", t.percent.as_str(), "% HP"),
        _ => joined3("+", t.fine.as_str(), lasting.as_str()),
    }
}

/// Where a field of a class lies in memory.
pub struct FieldAt {
    pub class: String,
    pub field: String,
    pub offset: usize,
}

/// Where a field lies; 0 where that is not known.
pub open spec fn offset_of(s: Seq<FieldAt>, class: Seq<char>, field: Seq<char>) -> usize
    decreases s.len(),
{
    if s.len() == 0 {
        0
    } else if s[0].class@ == class && s[0].field@ == field {
        s[0].offset
    } else {
        offset_of(s.drop_first(), class, field)
    }
}

/// The first of three places that is known; 0 for none.
pub open spec fn first_known(a: usize, b: usize, c: usize) -> usize {
    if a != 0 {
        a
    } else if b != 0 {
        b
    } else {
        c
    }
}

/// Where the fields of a horse that are read every frame lie; 0 for those that are not known.
#[derive(Clone, Copy, PartialEq, Eq, Structural, Debug)]
pub struct HorseOffsets {
    pub hp: usize,
    pub max_hp: usize,
    pub order: usize,
    pub speed: usize,
    pub distance: usize,
    pub hp_empty: usize,
    pub phase: usize,
    pub bad_start: usize,
    pub fight: usize,
    pub top: usize,
    pub block_front: usize,
    pub prev_order: usize,
    pub defeat: usize,
}

/// Where the fields that lead from a horse to the rest, and those of its identity, lie.
#[derive(Clone, Copy, PartialEq, Eq, Structural, Debug)]
pub struct DataOffsets {
    pub horse_data: usize,
    pub popularity: usize,
    pub response: usize,
    pub style: usize,
    pub trainer_name: usize,
    pub viewer_id: usize,
    pub name: usize,
    pub chara_id: usize,
    pub ai: usize,
}

/// Where the fields of skills lie.
#[derive(Clone, Copy, PartialEq, Eq, Structural, Debug)]
pub struct SkillOffsets {
    pub manager: usize,
    pub used_list: usize,
    pub skills: usize,
    pub master: usize,
    pub details: usize,
    pub left: usize,
    pub category: usize,
    pub debuff: usize,
    pub activated: usize,
}

/// Where everything that telemetry reads lies.
#[derive(Clone, Copy, PartialEq, Eq, Structural, Debug)]
pub struct Offsets {
    pub horse: HorseOffsets,
    pub data: DataOffsets,
    pub skill: SkillOffsets,
}

/// Where the fields of a horse lie, by a table.
pub open spec fn horse_offsets(s: Seq<FieldAt>) -> HorseOffsets {
    let c = "Gallop.HorseRaceInfo"@;
    HorseOffsets {
        hp: offset_of(s, c, "_hp"@),
        max_hp: offset_of(s, c, "_maxHp"@),
        order: offset_of(s, c, "<CurOrder>k__BackingField"@),
        speed: offset_of(s, c, "_lastSpeed"@),
        distance: offset_of(s, c, "_distance"@),
        hp_empty: offset_of(s, c, "<IsHpEmptyOnRace>k__BackingField"@),
        phase: offset_of(s, c, "_phase"@),
        bad_start: offset_of(s, c, "<IsBadStart>k__BackingField"@),
        fight: offset_of(s, c, "<IsCompeteFight>k__BackingField"@),
        top: offset_of(s, c, "<IsCompeteTop>k__BackingField"@),
        block_front: offset_of(s, c, "<BlockFrontContinueTime>k__BackingField"@),
        prev_order: offset_of(s, c, "<PrevOrder>k__BackingField"@),
        defeat: offset_of(s, c, "_defeat"@),
    }
}

/// Where the fields of a horse's identity lie, by a table.
pub open spec fn data_offsets(s: Seq<FieldAt>) -> DataOffsets {
    let c = "Gallop.HorseRaceInfo"@;
    let d = "Gallop.HorseData"@;
    let r = "Gallop.RaceHorseData"@;
    DataOffsets {
        horse_data: offset_of(s, c, "_horseData"@),
        popularity: offset_of(s, d, "<Popularity>k__BackingField"@),
        response: offset_of(s, d, "_responseHorseData"@),
        style: offset_of(s, r, "running_style"@),
        trainer_name: offset_of(s, r, "trainer_name"@),
        viewer_id: offset_of(s, r, "viewer_id"@),
        name: offset_of(s, d, "<charaName>k__BackingField"@),
        chara_id: first_known(
            offset_of(s, d, "<charaId>k__BackingField"@),
            offset_of(s, d, "charaId"@),
            offset_of(s, d, "_charaId"@),
        ),
        ai: offset_of(s, c, "_horseRaceAI"@),
    }
}

/// Where the fields of skills lie, by a table.
pub open spec fn skill_offsets(s: Seq<FieldAt>) -> SkillOffsets {
    let m = "Gallop.SkillManager"@;
    let b = "Gallop.SkillBase"@;
    let d = "Gallop.SkillDetail"@;
    SkillOffsets {
        manager: offset_of(s, "Gallop.HorseRaceInfo"@, "_skillManager"@),
        used_list: offset_of(s, m, "_usedSkillIdList"@),
        skills: offset_of(s, m, "_skills"@),
        master: offset_of(s, b, "<SkillMaster>k__BackingField"@),
        details: offset_of(s, b, "<Details>k__BackingField"@),
        left: offset_of(s, d, "<LeftTime>k__BackingField"@),
        category: offset_of(s, d, "<Category>k__BackingField"@),
        debuff: offset_of(s, d, "_isDebuff"@),
        activated: offset_of(s, d, "<IsActivated>k__BackingField"@),
    }
}

/// Find where a field lies.
fn find_offset(s: &Vec<FieldAt>, class: &str, field: &str) -> (r: usize)
    ensures
        r == offset_of(s@, class@, field@),
{
    let mut i: usize = 0;
    assert(s@.skip(0) =~= s@);
    while i < s.len()
        invariant
            i <= s@.len(),
            offset_of(s@, class@, field@) == offset_of(s@.skip(i as int), class@, field@),
        decreases s@.len() - i,
    {
        assert(s@.skip(i as int)[0] == s@[i as int]);
        if same(s[i].class.as_str(), class) && same(s[i].field.as_str(), field) {
            return s[i].offset;
        }
        assert(s@.skip(i as int).drop_first() =~= s@.skip(i as int + 1));
        i = i + 1;
    }
    0
}

/// Where everything that telemetry reads lies, and whether telemetry can run: it needs to know where a
/// horse's stamina lies.
pub fn install_offsets(s: &Vec<FieldAt>) -> (r: (Offsets, bool))
    ensures
        r.0.horse == horse_offsets(s@),
        r.0.data == data_offsets(s@),
        r.0.skill == skill_offsets(s@),
        r.1 == (r.0.horse.hp != 0),
{
    let c: &str = "Gallop.HorseRaceInfo";
    let d: &str = "Gallop.HorseData";
    let rd: &str = "Gallop.RaceHorseData";
    let m: &str = "Gallop.SkillManager";
    let b: &str = "Gallop.SkillBase";
    let sd: &str = "Gallop.SkillDetail";
    let horse = HorseOffsets {
        hp: find_offset(s, c, "_hp"),
        max_hp: find_offset(s, c, "_maxHp"),
        order: find_offset(s, c, "<CurOrder>k__BackingField"),
        speed: find_offset(s, c, "_lastSpeed"),
        distance: find_offset(s, c, "_distance"),
        hp_empty: find_offset(s, c, "<IsHpEmptyOnRace>k__BackingField"),
        phase: find_offset(s, c, "_phase"),
        bad_start: find_offset(s, c, "<IsBadStart>k__BackingField"),
        fight: find_offset(s, c, "<IsCompeteFight>k__BackingField"),
        top: find_offset(s, c, "<IsCompeteTop>k__BackingField"),
        block_front: find_offset(s, c, "<BlockFrontContinueTime>k__BackingField"),
        prev_order: find_offset(s, c, "<PrevOrder>k__BackingField"),
        defeat: find_offset(s, c, "_defeat"),
    };
    let first: usize = find_offset(s, d, "<charaId>k__BackingField");
    let second: usize = find_offset(s, d, "charaId");
    let third: usize = find_offset(s, d, "_charaId");
    let data = DataOffsets {
        horse_data: find_offset(s, c, "_horseData"),
        popularity: find_offset(s, d, "<Popularity>k__BackingField"),
        response: find_offset(s, d, "_responseHorseData"),
        style: find_offset(s, rd, "running_style"),
        trainer_name: find_offset(s, rd, "trainer_name"),
        viewer_id: find_offset(s, rd, "viewer_id"),
        name: find_offset(s, d, "<charaName>k__BackingField"),
        chara_id: if first != 0 {
            first
        } else if second != 0 {
            second
        } else {
            third
        },
        ai: find_offset(s, c, "_horseRaceAI"),
    };
    let skill = SkillOffsets {
        manager: find_offset(s, c, "_skillManager"),
        used_list: find_offset(s, m, "_usedSkillIdList"),
        skills: find_offset(s, m, "_skills"),
        master: find_offset(s, b, "<SkillMaster>k__BackingField"),
        details: find_offset(s, b, "<Details>k__BackingField"),
        left: find_offset(s, sd, "<LeftTime>k__BackingField"),
        category: find_offset(s, sd, "<Category>k__BackingField"),
        debuff: find_offset(s, sd, "_isDebuff"),
        activated: find_offset(s, sd, "<IsActivated>k__BackingField"),
    };
    let known: bool = horse.hp != 0;
    (Offsets { horse, data, skill }, known)
}

/// The tower holds every horse once and is ordered: a horse that crossed the line stands before
/// every horse that did not, and before those that crossed later; of two that still run, the one
/// that is not behind stands first.
pub proof fn lemma_tower(b: Board, i: int, j: int)
    requires
        0 <= i < j < b.telem@.len(),
    ensures
        tower(b).len() == b.telem@.len(),
        tower(b).to_multiset() == b.telem@.to_multiset(),
        ({
            let x = tower(b)[i];
            let y = tower(b)[j];
            &&& b.finish@.dom().contains(y.gate) ==> b.finish@.dom().contains(x.gate)
                && b.finish@[x.gate] <= b.finish@[y.gate]
            &&& !b.finish@.dom().contains(x.gate) && !is_nan(x.distance) && !is_nan(y.distance)
                ==> !below(x.distance, y.distance)
        }),
{
    let key = leads(b.finish@);
    lemma_sort(b.telem@, key);
    let x = tower(b)[i];
    let y = tower(b)[j];
    assert(key(x) <= key(y));
    assert(lead_key(b.finish@, x) <= lead_key(b.finish@, y));
}

/// The places of those that crossed the line are 1, 2, and so on, each once.
pub open spec fn places_counted(finish: Map<i32, i32>, next: i32) -> bool {
    &&& 0 <= next
    &&& forall|g: i32| #[trigger] finish.dom().contains(g) ==> 1 <= finish[g] <= next
    &&& forall|g: i32, h: i32| #[trigger]
        finish.dom().contains(g) && #[trigger] finish.dom().contains(h) && g != h ==> finish[g]
            != finish[h]
}

/// A place at the line is given once, in the order of crossing, and stays for the rest of the race.
pub proof fn lemma_place_is_frozen(
    b: Board,
    r: Board,
    t: HorseTelem,
    trainer: Option<(String, i64)>,
    course: u32,
)
    requires
        board_after(b, r, false, t, trainer, course),
        places_counted(b.finish@, b.finish_next),
        b.finish_next < i32::MAX,
    ensures
        places_counted(r.finish@, r.finish_next),
        forall|g: i32| #[trigger]
            b.finish@.dom().contains(g) ==> r.finish@.dom().contains(g) && r.finish@[g]
                == b.finish@[g],
        crosses(b.finish@, t, course) ==> r.finish@[t.gate] == b.finish_next + 1,
{
}

/// After a silence nothing of the last race is left on the board but the horse just read.
pub proof fn lemma_new_race_is_clean(
    b: Board,
    r: Board,
    t: HorseTelem,
    trainer: Option<(String, i64)>,
    course: u32,
)
    requires
        board_after(b, r, true, t, trainer, course),
    ensures
        r.telem@ == seq![t],
        r.trainers@.dom() == Set::<i32>::empty(),
        r.prev@.dom() == Set::<i32>::empty(),
        forall|g: i32| #[trigger] r.finish@.dom().contains(g) ==> g == t.gate && r.finish@[g] == 1,
{
    assert(r.trainers@.dom() =~= Set::<i32>::empty());
    assert(r.prev@.dom() =~= Set::<i32>::empty());
}

/// Each horse stands on the board once, the one just read as it was read, the others as they were.
pub proof fn lemma_board_distinct(s: Seq<HorseTelem>, t: HorseTelem)
    requires
        gates_distinct(s),
    ensures
        gates_distinct(with_telem(s, t)),
        at_gate(with_telem(s, t), t.gate) == Some(t),
        forall|g: i32| g != t.gate ==> #[trigger] at_gate(with_telem(s, t), g) == at_gate(s, g),
        forall|i: int|
            0 <= i < with_telem(s, t).len() ==> (#[trigger] with_telem(s, t)[i]).gate == t.gate
                || exists|k: int| 0 <= k < s.len() && (#[trigger] s[k]).gate == with_telem(
                s,
                t,
            )[i].gate,
    decreases s.len(),
{
    let r = with_telem(s, t);
    if s.len() == 0 {
        assert(r.drop_first() =~= Seq::empty());
        assert forall|g: i32| g != t.gate implies #[trigger] at_gate(r, g) == at_gate(s, g) by {
            assert(at_gate(r.drop_first(), g) is None);
        }
    } else if s[0].gate == t.gate {
        assert(r.drop_first() =~= s.drop_first());
        assert forall|i: int, j: int| 0 <= i < j < r.len() implies (#[trigger] r[i]).gate != (
        #[trigger] r[j]).gate by {
            assert(s[i].gate != s[j].gate);
        }
        assert forall|i: int| 0 <= i < r.len() implies (#[trigger] r[i]).gate == t.gate || exists|
            k: int,
        |
            0 <= k < s.len() && (#[trigger] s[k]).gate == r[i].gate by {
            assert(s[i].gate == r[i].gate);
        }
    } else {
        let q = s.drop_first();
        assert forall|i: int, j: int| 0 <= i < j < q.len() implies (#[trigger] q[i]).gate != (
        #[trigger] q[j]).gate by {
            assert(s[i + 1].gate != s[j + 1].gate);
        }
        lemma_board_distinct(q, t);
        let p = with_telem(q, t);
        assert(r.drop_first() =~= p);
        assert forall|g: i32| g != t.gate implies #[trigger] at_gate(r, g) == at_gate(s, g) by {
            assert(at_gate(p, g) == at_gate(q, g));
        }
        assert forall|i: int| 0 <= i < r.len() implies (#[trigger] r[i]).gate == t.gate || exists|
            k: int,
        |
            0 <= k < s.len() && (#[trigger] s[k]).gate == r[i].gate by {
            if i == 0 {
                assert(s[0].gate == r[0].gate);
            } else {
                assert(r[i] == p[i - 1]);
                if p[i - 1].gate != t.gate {
                    let k = choose|k: int| 0 <= k < q.len() && (#[trigger] q[k]).gate == p[i
                        - 1].gate;
                    assert(s[k + 1].gate == r[i].gate);
                }
            }
        }
        assert forall|i: int, j: int| 0 <= i < j < r.len() implies (#[trigger] r[i]).gate != (
        #[trigger] r[j]).gate by {
            assert(r[j] == p[j - 1]);
            if i == 0 {
                if p[j - 1].gate != t.gate {
                    let k = choose|k: int| 0 <= k < q.len() && (#[trigger] q[k]).gate == p[j
                        - 1].gate;
                    assert(s[0].gate != s[k + 1].gate);
                }
            } else {
                assert(r[i] == p[i - 1]);
            }
        }
    }
}

/// The pace history only grows, and never beyond the course.
pub proof fn lemma_pace_bounded(t: Seq<u32>, b: usize, v: u32)
    requires
        t.len() <= PACE_BUCKETS,
    ensures
        t.len() <= paced(t, stretch(b), v).len() <= PACE_BUCKETS,
        paced(t, stretch(b), v)[stretch(b)] == v,
        forall|i: int| 0 <= i < t.len() && i != stretch(b) ==> paced(t, stretch(b), v)[i] == t[i],
{
}

/// The first horse of a gate on the board is the one that is found, and none where no horse has it.
pub proof fn lemma_at_gate(s: Seq<HorseTelem>, g: i32)
    ensures
        at_gate(s, g) matches Some(h) ==> h.gate == g && s.contains(h),
        at_gate(s, g) is None ==> forall|i: int| 0 <= i < s.len() ==> (#[trigger] s[i]).gate != g,
        forall|i: int|
            0 <= i < s.len() && (#[trigger] s[i]).gate == g && (forall|j: int|
                0 <= j < i ==> (#[trigger] s[j]).gate != g) ==> at_gate(s, g) == Some(s[i]),
    decreases s.len(),
{
    if s.len() > 0 && s[0].gate != g {
        let t = s.drop_first();
        lemma_at_gate(t, g);
        assert forall|i: int| 0 <= i < s.len() && (#[trigger] s[i]).gate == g && (forall|j: int|
            0 <= j < i ==> (#[trigger] s[j]).gate != g) implies at_gate(s, g) == Some(s[i]) by {
            assert(t[i - 1] == s[i]);
            assert forall|j: int| 0 <= j < i - 1 implies (#[trigger] t[j]).gate != g by {
                assert(t[j] == s[j + 1]);
            }
        }
        if at_gate(s, g) is None {
            assert forall|i: int| 0 <= i < s.len() implies (#[trigger] s[i]).gate != g by {
                if i > 0 {
                    assert(t[i - 1] == s[i]);
                }
            }
        } else {
            let k = choose|k: int| 0 <= k < t.len() && t[k] == at_gate(s, g)->0;
            assert(s[k + 1] == t[k]);
        }
    }
}

/// The first horse of a place on the board is the one that is found, and none where no horse has it.
proof fn lemma_at_order(s: Seq<HorseTelem>, o: i32)
    ensures
        at_order(s, o) matches Some(h) ==> h.order == o && s.contains(h),
        at_order(s, o) is None ==> forall|i: int| 0 <= i < s.len() ==> (#[trigger] s[i]).order != o,
    decreases s.len(),
{
    if s.len() > 0 && s[0].order != o {
        let t = s.drop_first();
        lemma_at_order(t, o);
        if at_order(s, o) is None {
            assert forall|i: int| 0 <= i < s.len() implies (#[trigger] s[i]).order != o by {
                if i > 0 {
                    assert(t[i - 1] == s[i]);
                }
            }
        } else {
            let k = choose|k: int| 0 <= k < t.len() && t[k] == at_order(s, o)->0;
            assert(s[k + 1] == t[k]);
        }
    }
}

/// The rival stands next to the followed horse: one place ahead of it, or one behind it for the leader.
/// No horse on the board stands between the two, and there is no rival only where no horse has that
/// place.
pub proof fn lemma_rival_is_adjacent(v: TelemView, d: Director, h: HorseTelem)
    requires
        shows_followed(v, d, h),
    ensures
        v.rival matches Some(r) ==> {
            &&& d.board.telem@.contains(r)
            &&& h.order > 1 ==> r.order == h.order - 1
            &&& h.order <= 1 ==> r.order == h.order + 1
            &&& forall|x: HorseTelem| #[trigger]
                d.board.telem@.contains(x) ==> !(r.order < x.order < h.order) && !(h.order < x.order
                    < r.order)
            &&& v.rival_ahead <==> r.order < h.order
            &&& d.roster.names@.dom().contains(r.gate) && d.roster.names@[r.gate]@.len() > 0
                ==> v.rival_name@ == d.roster.names@[r.gate]@
        },
        v.rival is None ==> v.rival_name@.len() == 0 && forall|x: HorseTelem| #[trigger]
            d.board.telem@.contains(x) ==> {
                &&& h.order > 1 ==> x.order != h.order - 1
                &&& h.order <= 1 ==> x.order != h.order + 1
            },
        v.rival_ahead <==> h.order > 1,
{
    reveal_strlit("");
    lemma_at_order(d.board.telem@, rival_order(h.order));
    if v.rival is None {
        assert forall|x: HorseTelem| #[trigger] d.board.telem@.contains(x) implies {
            &&& h.order > 1 ==> x.order != h.order - 1
            &&& h.order <= 1 ==> x.order != h.order + 1
        } by {
            let k = choose|k: int| 0 <= k < d.board.telem@.len() && d.board.telem@[k] == x;
            assert(d.board.telem@[k].order != rival_order(h.order));
        }
    }
}

/// The followed horse is shown as it was last read, under its own name and with its own character, beside
/// the number of horses on the board.
pub proof fn lemma_followed_is_shown(v: TelemView, d: Director, target: i32)
    requires
        at_gate(d.board.telem@, target) is Some,
        shows_followed(v, d, at_gate(d.board.telem@, target)->0),
    ensures
        v.followed.gate == target,
        d.board.telem@.contains(v.followed),
        d.roster.names@.dom().contains(target) && d.roster.names@[target]@.len() > 0
            ==> v.followed_name@ == d.roster.names@[target]@,
        !d.roster.names@.dom().contains(target) ==> v.followed_name@ == "Gate "@ + dec(target as int),
        d.roster.ids@.dom().contains(target) ==> v.chara_id == d.roster.ids@[target],
        !d.roster.ids@.dom().contains(target) ==> v.chara_id == 0,
        d.board.telem@.len() <= i32::MAX ==> v.field_size == d.board.telem@.len(),
{
    lemma_at_gate(d.board.telem@, target);
}

/// Every value that is read of a horse is the one that is shown of it; what is not told is 0 or no.
pub proof fn lemma_reading_is_kept(gate: i32, r: Reading)
    ensures
        ({
            let t = telem_spec(gate, r);
            &&& t.gate == gate
            &&& r.order matches Some(x) ==> t.order == x
            &&& r.hp matches Some(x) ==> t.hp == x
            &&& r.max_hp matches Some(x) ==> t.max_hp == x
            &&& r.speed matches Some(x) ==> t.speed == x
            &&& r.distance matches Some(x) ==> t.distance == x
            &&& r.prev_order matches Some(x) ==> t.prev_order == x
            &&& r.popularity matches Some(x) ==> t.popularity == x
            &&& r.style matches Some(x) ==> t.running_style == x
            &&& r.defeat matches Some(x) ==> t.defeat == x
            &&& r.position matches Some(x) ==> t.wx == x.0 && t.wz == x.1
            &&& t.spurt <==> (r.phase matches Some(x) && x > 1)
            &&& t.exhausted <==> (r.hp_empty matches Some(x) && x)
            &&& t.late_start <==> (r.bad_start matches Some(x) && x)
            &&& t.fight <==> (r.fight matches Some(x) && x)
            &&& t.leading <==> (r.top matches Some(x) && x)
            &&& t.blocked <==> (r.block_time matches Some(x) && 0 < x <= 0x7f80_0000)
            &&& r.order is None ==> t.order == 0
            &&& r.hp is None ==> t.hp == 0
            &&& r.max_hp is None ==> t.max_hp == 0
            &&& r.speed is None ==> t.speed == 0
            &&& r.distance is None ==> t.distance == 0
            &&& r.position is None ==> t.wx == 0 && t.wz == 0
            &&& t.skills == 0
        }),
{
}

/// A race is over once more than 800 ms have passed without a reading, and not before.
pub proof fn lemma_silence_ends_race(b: Beat, now: u64)
    ensures
        race_over(b, now) <==> b.last_telem_ms + 800 < now,
{
}

/// Positions are noted once more than 150 ms have passed since the last time, while horses run.
pub proof fn lemma_positions_are_noted(d: Director, now: u64)
    ensures
        notes_positions(d, now) <==> d.beat.last_pos_ms + 150 < now && d.board.telem@.len() != 0,
{
}

/// A horse crosses the line once, when it has run no less than the course, whose length is known.
pub proof fn lemma_crossing(finish: Map<i32, i32>, t: HorseTelem, course: u32)
    ensures
        crosses(finish, t, course) ==> !finish.dom().contains(t.gate),
        course == 0 ==> !crosses(finish, t, course),
        0 < course <= 0x7f80_0000 && t.distance <= 0x7f80_0000 && !finish.dom().contains(t.gate) ==> (
        crosses(finish, t, course) <==> course <= t.distance),
{
}

/// Only the followed horse's pace is recorded, and only above half a metre a second. A stretch that was
/// skipped has the last pace before it; past the last stretch the last one is written.
pub proof fn lemma_pace_filled(t: Seq<u32>, b: usize, v: u32, h: HorseTelem, target: i32, course: u32)
    requires
        t.len() <= 140,
    ensures
        stretch(b) <= 139,
        b < 140 ==> stretch(b) == b,
        b >= 140 ==> stretch(b) == 139,
        paced(t, stretch(b), v).len() == if t.len() > stretch(b) {
            t.len() as int
        } else {
            stretch(b) + 1
        },
        forall|i: int|
            t.len() <= i < stretch(b) ==> #[trigger] paced(t, stretch(b), v)[i] == if t.len() == 0 {
                v
            } else {
                t[t.len() - 1]
            },
        records_pace(h, target, course) ==> h.gate == target && course != 0 && h.speed > 0x3f00_0000,
        h.gate == target && 0 < course <= 0x7f80_0000 && 0x3f00_0000 < h.speed <= 0x7f80_0000
            ==> records_pace(h, target, course),
{
}

/// A row tells of its own horse: its place counted from 1, and how many places it has gained since they
/// were noted.
pub proof fn lemma_row_is_its_horse(row: FieldRow, d: Director, h: HorseTelem, i: int, target: i32)
    requires
        shows_row(row, d, h, i, target),
        0 <= i < 1000,
    ensures
        row.pos == i + 1,
        row.gate == h.gate,
        row.hp == h.hp && row.max_hp == h.max_hp && row.dist == h.distance && row.speed == h.speed,
        row.wx == h.wx && row.wz == h.wz,
        row.style == h.running_style && row.popularity == h.popularity,
        row.spurt == h.spurt && row.exhausted == h.exhausted && row.fight == h.fight && row.blocked
            == h.blocked,
        row.followed <==> h.gate == target,
        !d.board.prev@.dom().contains(h.gate) ==> row.trend == 0,
        d.board.prev@.dom().contains(h.gate) && 0 <= d.board.prev@[h.gate] <= 1000 ==> row.pos
            + row.trend == d.board.prev@[h.gate],
        d.roster.names@.dom().contains(h.gate) && d.roster.names@[h.gate]@.len() > 0 ==> row.name@
            == d.roster.names@[h.gate]@,
        !d.roster.names@.dom().contains(h.gate) ==> row.name@ == "Gate "@ + dec(h.gate as int),
        d.board.trainers@.dom().contains(h.gate) ==> row.trainer@ == d.board.trainers@[h.gate].0@
            && row.viewer_id == d.board.trainers@[h.gate].1,
        !d.board.trainers@.dom().contains(h.gate) ==> row.trainer@.len() == 0 && row.viewer_id == 0,
{
    reveal_strlit("");
}

/// The noted places are those of the tower, counted from 1.
pub proof fn lemma_noted(prev: Map<i32, i32>, s: Seq<HorseTelem>, i: int)
    requires
        0 <= i < s.len() < 1000,
        forall|j: int| i < j < s.len() ==> (#[trigger] s[j]).gate != s[i].gate,
    ensures
        noted(prev, s).dom().contains(s[i].gate),
        noted(prev, s)[s[i].gate] == i + 1,
    decreases s.len(),
{
    if i < s.len() - 1 {
        let t = s.drop_last();
        assert(s[s.len() - 1].gate != s[i].gate);
        assert(t[i] == s[i]);
        assert forall|j: int| i < j < t.len() implies (#[trigger] t[j]).gate != t[i].gate by {
            assert(t[j] == s[j]);
        }
        lemma_noted(prev, t, i);
    }
}

/// A horse that is not on the tower keeps the place that was noted for it.
pub proof fn lemma_not_noted(prev: Map<i32, i32>, s: Seq<HorseTelem>, gate: i32)
    requires
        forall|i: int| 0 <= i < s.len() ==> (#[trigger] s[i]).gate != gate,
    ensures
        noted(prev, s).dom().contains(gate) <==> prev.dom().contains(gate),
        noted(prev, s)[gate] == prev[gate],
    decreases s.len(),
{
    if s.len() > 0 {
        let t = s.drop_last();
        assert(s[s.len() - 1].gate != gate);
        assert forall|i: int| 0 <= i < t.len() implies (#[trigger] t[i]).gate != gate by {
            assert(t[i] == s[i]);
        }
        lemma_not_noted(prev, t, gate);
    }
}

/// What is cut off a skill's name is its tail of blanks and of signs beyond the Latin letters, all of it
/// and nothing else; a name that is nothing but such a tail stays whole.
proof fn lemma_trimmed_len(s: Seq<char>)
    ensures
        trimmed_len(s) <= s.len(),
        trimmed_len(s) > 0 ==> s[trimmed_len(s) - 1] != ' ' && s[trimmed_len(s) - 1] as u32 <= 0x24f,
        forall|i: int| trimmed_len(s) <= i < s.len() ==> #[trigger] s[i] == ' ' || s[i] as u32 > 0x24f,
    decreases s.len(),
{
    if s.len() > 0 && trailing(s.last()) {
        let t = s.drop_last();
        lemma_trimmed_len(t);
        assert forall|i: int| trimmed_len(s) <= i < s.len() implies #[trigger] s[i] == ' ' || s[i] as u32
            > 0x24f by {
            if i < t.len() {
                assert(t[i] == s[i]);
            }
        }
    }
}

/// A skill is titled by the name that is read for it, without its tail of blanks and of signs beyond the
/// Latin letters, and by its number where no name is read.
pub proof fn lemma_skill_title(id: i32, raw: Option<String>)
    ensures
        raw matches Some(s) ==> (s@.len() > 0 ==> {
            let t = skill_title(id, raw);
            &&& t.len() > 0
            &&& t.is_prefix_of(s@)
            &&& t.len() < s@.len() ==> t.last() != ' ' && t.last() as u32 <= 0x24f
            &&& forall|i: int|
                t.len() <= i < s@.len() ==> #[trigger] s@[i] == ' ' || s@[i] as u32 > 0x24f
            &&& (exists|i: int| 0 <= i < s@.len() && #[trigger] s@[i] != ' ' && s@[i] as u32 <= 0x24f)
                ==> t.last() != ' ' && t.last() as u32 <= 0x24f
        }),
        raw is None || raw->0@.len() == 0 ==> skill_title(id, raw) == "Skill "@ + dec(id as int),
{
    reveal_strlit("Skill ");
    lemma_trimmed_len(raw_name(id, raw));
    let n = "Skill "@ + dec(id as int);
    if raw is None || raw->0@.len() == 0 {
        lemma_dec_ends_in_digit(id as int);
        assert(n.last() == dec(id as int).last());
        assert(trimmed_len(n) == n.len());
        assert(n.take(n.len() as int) =~= n);
    } else {
        let s = raw->0@;
        if trimmed_len(s) == 0 {
            assert(s.is_prefix_of(s));
        }
    }
}

/// A number ends in a digit.
proof fn lemma_dec_ends_in_digit(n: int)
    ensures
        dec(n).len() > 0,
        '0' <= dec(n).last() <= '9',
{
    let m = if n < 0 {
        (-n) as nat
    } else {
        n as nat
    };
    assert(dec_nat(m).len() > 0);
    assert(dec(n).last() == dec_nat(m).last());
    assert(dec_nat(m).last() == digit((m % 10) as int));
}

/// The feed gains the skills that were not seen yet, each under its own title, in the order of their use.
/// At most 64 are ever taken.
pub proof fn lemma_feed_entries(seen: usize, used: Seq<i32>, names: Seq<Option<String>>)
    ensures
        feed_due(seen, used) <==> seen < used.len() && used.len() <= 64,
        seen <= used.len() ==> {
            let e = entries(used, names, seen as int);
            &&& e.len() + seen == used.len()
            &&& forall|k: int| 0 <= k < e.len() ==> (#[trigger] e[k]).0 == used[seen + k]
            &&& forall|k: int|
                0 <= k < e.len() && seen + k < names.len() ==> (#[trigger] e[k]).1 == skill_title(
                    used[seen + k],
                    names[seen + k],
                )
        },
{
}

/// Of a skill's effects the one is shown that lasts longest among those that run, the first of them where
/// several do; an effect runs while more than a twentieth of a second and less than a minute is left.
pub proof fn lemma_longest(ds: Seq<Option<DetailRead>>)
    ensures
        longest(ds) matches Some(d) ==> {
            &&& ds.contains(Some(d))
            &&& d.activated
            &&& 0x3d4c_cccd < d.left < 0x4270_0000
            &&& forall|i: int|
                0 <= i < ds.len() ==> (#[trigger] ds[i] matches Some(x) ==> (x.activated && x.left
                    < 0x4270_0000 ==> x.left <= d.left))
        },
        longest(ds) is None ==> forall|i: int|
            0 <= i < ds.len() ==> (#[trigger] ds[i] matches Some(x) ==> !(x.activated && 0x3d4c_cccd
                < x.left < 0x4270_0000)),
    decreases ds.len(),
{
    if ds.len() > 0 {
        let t = ds.drop_last();
        lemma_longest(t);
        assert forall|i: int| 0 <= i < t.len() implies #[trigger] ds[i] == t[i] by {}
        assert(ds[ds.len() - 1] == ds.last());
        if longest(t) is Some {
            let k = choose|k: int| 0 <= k < t.len() && t[k] == Some(longest(t)->0);
            assert(ds[k] == t[k]);
        }
        if longest(ds) is Some {
            let d = longest(ds)->0;
            assert forall|i: int| 0 <= i < ds.len() implies (#[trigger] ds[i] matches Some(x) ==> (
            x.activated && x.left < 0x4270_0000 ==> x.left <= d.left)) by {
                if i < t.len() {
                    assert(t[i] == ds[i]);
                }
            }
        } else {
            assert forall|i: int| 0 <= i < ds.len() implies (#[trigger] ds[i] matches Some(x) ==> !(
            x.activated && 0x3d4c_cccd < x.left < 0x4270_0000)) by {
                if i < t.len() {
                    assert(t[i] == ds[i]);
                }
            }
        }
    }
}

/// Each active effect is one of a skill that is read, under that skill's number, and every skill with an
/// effect that runs among its first four is there.
pub proof fn lemma_active(s: Seq<Option<SkillRead>>)
    ensures
        active_of(s).len() <= s.len(),
        forall|i: int|
            #![trigger active_of(s)[i]]
            0 <= i < active_of(s).len() ==> exists|k: int|
                #![trigger s[k]]
                0 <= k < s.len() && (s[k] matches Some(x) && x.id == active_of(s)[i].id && (longest(
                    first_of(x.details@, 4),
                ) matches Some(d) && d.left == active_of(s)[i].left && d.category
                    == active_of(s)[i].category && d.debuff == active_of(s)[i].debuff)),
        forall|k: int|
            0 <= k < s.len() ==> (#[trigger] s[k] matches Some(x) ==> (longest(
                first_of(x.details@, 4),
            ) is Some ==> exists|i: int|
                #![trigger active_of(s)[i]]
                0 <= i < active_of(s).len() && active_of(s)[i].id == x.id)),
    decreases s.len(),
{
    if s.len() > 0 {
        let t = s.drop_last();
        lemma_active(t);
        let a = active_of(t);
        let b = active_of(s);
        assert forall|k: int| 0 <= k < t.len() implies #[trigger] s[k] == t[k] by {}
        assert(s[s.len() - 1] == s.last());
        assert forall|i: int| 0 <= i < a.len() implies a[i] == #[trigger] b[i] by {}
        assert forall|i: int|
            #![trigger b[i]]
            0 <= i < b.len() implies exists|k: int|
            #![trigger s[k]]
            0 <= k < s.len() && (s[k] matches Some(x) && x.id == b[i].id && (longest(
                first_of(x.details@, 4),
            ) matches Some(d) && d.left == b[i].left && d.category == b[i].category && d.debuff
                == b[i].debuff)) by {
            if i < a.len() {
                assert(a[i] == b[i]);
                let k = choose|k: int|
                    #![trigger t[k]]
                    0 <= k < t.len() && (t[k] matches Some(x) && x.id == a[i].id && (longest(
                        first_of(x.details@, 4),
                    ) matches Some(d) && d.left == a[i].left && d.category == a[i].category
                        && d.debuff == a[i].debuff));
                assert(s[k] == t[k]);
            } else {
                assert(s[s.len() - 1] is Some);
            }
        }
        assert forall|k: int| 0 <= k < s.len() implies (#[trigger] s[k] matches Some(x) ==> (longest(
            first_of(x.details@, 4),
        ) is Some ==> exists|i: int|
            #![trigger b[i]]
            0 <= i < b.len() && b[i].id == x.id)) by {
            if s[k] is Some && longest(first_of(s[k]->0.details@, 4)) is Some {
                if k < t.len() {
                    assert(t[k] == s[k]);
                    let i = choose|i: int|
                        #![trigger a[i]]
                        0 <= i < a.len() && a[i].id == s[k]->0.id;
                    assert(b[i] == a[i]);
                } else {
                    assert(b[b.len() - 1].id == s[k]->0.id);
                }
            }
        }
    }
}

/// What each kind of effect is called: the five stats by whole points, speed and acceleration in metres
/// with how long they last, stamina in percent. An effect of no kind or no size has no text.
pub proof fn lemma_effect_kinds(kind: i32, value: i32, t: EffectTexts)
    ensures
        value == 0 ==> effect_spec(kind, value, t).len() == 0,
        effect_spec(0, value, t).len() == 0,
        value != 0 ==> {
            let lasting = if 0x3ecc_cccd < t.time <= 0x7f80_0000 {
                " "@ + t.seconds@ + "s"@
            } else {
                Seq::<char>::empty()
            };
            &&& effect_spec(1, value, t) == "+"@ + t.whole@ + " Speed"@
            &&& effect_spec(2, value, t) == "+"@ + t.whole@ + " Stamina"@
            &&& effect_spec(3, value, t) == "+"@ + t.whole@ + " Power"@
            &&& effect_spec(4, value, t) == "+"@ + t.whole@ + " Guts"@
            &&& effect_spec(5, value, t) == "+"@ + t.whole@ + " Wisdom"@
            &&& effect_spec(9, value, t) == "+"@ + t.percent@ + "% HP"@
            &&& effect_spec(21, value, t) == "+"@ + t.fine@ + " m/s"@ + lasting
            &&& effect_spec(22, value, t) == effect_spec(21, value, t)
            &&& effect_spec(27, value, t) == effect_spec(21, value, t)
            &&& effect_spec(31, value, t) == "+"@ + t.fine@ + " m/s2"@ + lasting
            &&& !seq![0i32, 1, 2, 3, 4, 5, 9, 21, 22, 27, 31].contains(kind) ==> effect_spec(
                kind,
                value,
                t,
            ) == "+"@ + t.fine@ + lasting
        },
{
    reveal_strlit("");
    let all = seq![0i32, 1, 2, 3, 4, 5, 9, 21, 22, 27, 31];
    assert(all[0] == 0 && all[1] == 1 && all[2] == 2 && all[3] == 3 && all[4] == 4 && all[5] == 5
        && all[6] == 9 && all[7] == 21 && all[8] == 22 && all[9] == 27 && all[10] == 31);
    assert(""@ =~= Seq::<char>::empty());
}

/// Whether an offset is that of the first field of a class under a name, or 0 where there is none.
pub open spec fn is_offset(s: Seq<FieldAt>, class: Seq<char>, field: Seq<char>, r: usize) -> bool {
    ||| exists|i: int|
        0 <= i < s.len() && (#[trigger] s[i]).class@ == class && s[i].field@ == field && s[i].offset
            == r && forall|j: int|
            0 <= j < i ==> !((#[trigger] s[j]).class@ == class && s[j].field@ == field)
    ||| r == 0 && forall|i: int|
        0 <= i < s.len() ==> !((#[trigger] s[i]).class@ == class && s[i].field@ == field)
}

proof fn lemma_offset(s: Seq<FieldAt>, class: Seq<char>, field: Seq<char>)
    ensures
        is_offset(s, class, field, offset_of(s, class, field)),
    decreases s.len(),
{
    if s.len() > 0 {
        if s[0].class@ == class && s[0].field@ == field {
        } else {
            let t = s.drop_first();
            let r = offset_of(s, class, field);
            lemma_offset(t, class, field);
            assert forall|i: int| 0 < i < s.len() implies #[trigger] s[i] == t[i - 1] by {}
            if exists|i: int|
                0 <= i < t.len() && (#[trigger] t[i]).class@ == class && t[i].field@ == field
                    && t[i].offset == r && forall|j: int|
                    0 <= j < i ==> !((#[trigger] t[j]).class@ == class && t[j].field@ == field) {
                let i = choose|i: int|
                    0 <= i < t.len() && (#[trigger] t[i]).class@ == class && t[i].field@ == field
                        && t[i].offset == r && forall|j: int|
                        0 <= j < i ==> !((#[trigger] t[j]).class@ == class && t[j].field@ == field);
                assert(s[i + 1] == t[i]);
                assert forall|j: int| 0 <= j < i + 1 implies !((#[trigger] s[j]).class@ == class
                    && s[j].field@ == field) by {
                    if j > 0 {
                        assert(s[j] == t[j - 1]);
                    }
                }
            } else {
                assert forall|i: int| 0 <= i < s.len() implies !((#[trigger] s[i]).class@ == class
                    && s[i].field@ == field) by {
                    if i > 0 {
                        assert(s[i] == t[i - 1]);
                    }
                }
            }
        }
    }
}

/// Each value of a horse is read where the game keeps the field of that name.
pub proof fn lemma_horse_offsets(s: Seq<FieldAt>)
    ensures
        ({
            let c = "Gallop.HorseRaceInfo"@;
            let o = horse_offsets(s);
            &&& is_offset(s, c, "_hp"@, o.hp)
            &&& is_offset(s, c, "_maxHp"@, o.max_hp)
            &&& is_offset(s, c, "<CurOrder>k__BackingField"@, o.order)
            &&& is_offset(s, c, "_lastSpeed"@, o.speed)
            &&& is_offset(s, c, "_distance"@, o.distance)
            &&& is_offset(s, c, "<IsHpEmptyOnRace>k__BackingField"@, o.hp_empty)
            &&& is_offset(s, c, "_phase"@, o.phase)
            &&& is_offset(s, c, "<IsBadStart>k__BackingField"@, o.bad_start)
            &&& is_offset(s, c, "<IsCompeteFight>k__BackingField"@, o.fight)
            &&& is_offset(s, c, "<IsCompeteTop>k__BackingField"@, o.top)
            &&& is_offset(s, c, "<BlockFrontContinueTime>k__BackingField"@, o.block_front)
            &&& is_offset(s, c, "<PrevOrder>k__BackingField"@, o.prev_order)
            &&& is_offset(s, c, "_defeat"@, o.defeat)
        }),
{
    assert forall|c: Seq<char>, f: Seq<char>| is_offset(s, c, f, #[trigger] offset_of(s, c, f)) by {
        lemma_offset(s, c, f);
    }
}

/// What the game knows of a horse beside the race is read where it keeps the field of that name; the
/// character under the first of three names that it goes by.
pub proof fn lemma_data_offsets(s: Seq<FieldAt>)
    ensures
        ({
            let c = "Gallop.HorseRaceInfo"@;
            let d = "Gallop.HorseData"@;
            let r = "Gallop.RaceHorseData"@;
            let o = data_offsets(s);
            &&& is_offset(s, c, "_horseData"@, o.horse_data)
            &&& is_offset(s, d, "<Popularity>k__BackingField"@, o.popularity)
            &&& is_offset(s, d, "_responseHorseData"@, o.response)
            &&& is_offset(s, r, "running_style"@, o.style)
            &&& is_offset(s, r, "trainer_name"@, o.trainer_name)
            &&& is_offset(s, r, "viewer_id"@, o.viewer_id)
            &&& is_offset(s, d, "<charaName>k__BackingField"@, o.name)
            &&& is_offset(s, c, "_horseRaceAI"@, o.ai)
            &&& ({
                ||| is_offset(s, d, "<charaId>k__BackingField"@, o.chara_id) && o.chara_id != 0
                ||| is_offset(s, d, "<charaId>k__BackingField"@, 0) && is_offset(
                    s,
                    d,
                    "charaId"@,
                    o.chara_id,
                ) && o.chara_id != 0
                ||| is_offset(s, d, "<charaId>k__BackingField"@, 0) && is_offset(s, d, "charaId"@, 0)
                    && is_offset(s, d, "_charaId"@, o.chara_id)
            })
        }),
{
    assert forall|c: Seq<char>, f: Seq<char>| is_offset(s, c, f, #[trigger] offset_of(s, c, f)) by {
        lemma_offset(s, c, f);
    }
}

/// What is read of skills stands where the game keeps the field of that name.
pub proof fn lemma_skill_offsets(s: Seq<FieldAt>)
    ensures
        ({
            let m = "Gallop.SkillManager"@;
            let b = "Gallop.SkillBase"@;
            let d = "Gallop.SkillDetail"@;
            let o = skill_offsets(s);
            &&& is_offset(s, "Gallop.HorseRaceInfo"@, "_skillManager"@, o.manager)
            &&& is_offset(s, m, "_usedSkillIdList"@, o.used_list)
            &&& is_offset(s, m, "_skills"@, o.skills)
            &&& is_offset(s, b, "<SkillMaster>k__BackingField"@, o.master)
            &&& is_offset(s, b, "<Details>k__BackingField"@, o.details)
            &&& is_offset(s, d, "<LeftTime>k__BackingField"@, o.left)
            &&& is_offset(s, d, "<Category>k__BackingField"@, o.category)
            &&& is_offset(s, d, "_isDebuff"@, o.debuff)
            &&& is_offset(s, d, "<IsActivated>k__BackingField"@, o.activated)
        }),
{
    assert forall|c: Seq<char>, f: Seq<char>| is_offset(s, c, f, #[trigger] offset_of(s, c, f)) by {
        lemma_offset(s, c, f);
    }
}

/// A horse's name is kept once it is told and not empty, under the horse's own gate; nobody else's name
/// changes. A trainer is kept as first told.
pub proof fn lemma_told_names(
    m: Map<i32, String>,
    r: Map<i32, String>,
    gate: i32,
    name: Option<String>,
    t: Map<i32, (String, i64)>,
    u: Map<i32, (String, i64)>,
    trainer: Option<(String, i64)>,
)
    requires
        named_after(m, r, gate, name),
        trainers_after(t, u, gate, trainer),
    ensures
        name matches Some(n) ==> (n@.len() > 0 ==> r.dom().contains(gate) && r[gate]@ == n@),
        forall|g: i32| g != gate ==> (#[trigger] r.dom().contains(g) <==> m.dom().contains(g)),
        forall|g: i32| g != gate && m.dom().contains(g) ==> #[trigger] r[g] == m[g],
        name is None ==> r == m,
        t.dom().contains(gate) ==> u == t,
        trainer matches Some(w) ==> (!t.dom().contains(gate) ==> u.dom().contains(gate)
            && u[gate].0@ == w.0@ && u[gate].1 == w.1),
        forall|g: i32| g != gate ==> (#[trigger] u.dom().contains(g) <==> t.dom().contains(g)),
        forall|g: i32| g != gate && t.dom().contains(g) ==> #[trigger] u[g] == t[g],
{
}

/// Before a race nothing is known; switching to another horse forgets what was watched of the last one.
pub proof fn lemma_blank(w: Watched, b: Board)
    ensures
        unwatched(w) <==> w.feed@.len() == 0 && w.seen == 0 && w.trace@.len() == 0 && w.outlook == 0
            && w.active@.len() == 0 && !w.follow.kakari && w.follow.temptation_mode == 0
            && w.follow.keep_mode == 0 && !w.follow.downhill,
        outlook_blank(w) <==> w.outlook == 0 && w.active@.len() == 0 && !w.follow.kakari
            && w.follow.temptation_mode == 0 && w.follow.keep_mode == 0 && !w.follow.downhill,
        board_blank(b) ==> b.telem@.len() == 0 && b.finish_next == 0 && b.trainers@.dom()
            == Set::<i32>::empty() && b.finish@.dom() == Set::<i32>::empty() && b.prev@.dom()
            == Set::<i32>::empty(),
{
    if board_blank(b) {
        assert(b.trainers@.dom() =~= Set::<i32>::empty());
        assert(b.finish@.dom() =~= Set::<i32>::empty());
        assert(b.prev@.dom() =~= Set::<i32>::empty());
    }
}

/// A reading leaves what was watched of the followed horse alone, but for its pace; after a silence all of
/// it is forgotten.
pub proof fn lemma_watched(
    w: Watched,
    r: Watched,
    over: bool,
    t: HorseTelem,
    target: i32,
    course: u32,
    bucket: usize,
)
    requires
        watched_after(w, r, over, t, target, course, bucket),
        w.trace@.len() <= 140,
    ensures
        over ==> r.feed@.len() == 0 && r.seen == 0 && r.active@.len() == 0 && r.outlook == 0,
        !over ==> r.feed == w.feed && r.seen == w.seen && r.active == w.active && r.follow == w.follow
            && r.outlook == w.outlook,
        !over && t.gate != target ==> r.trace@ == w.trace@,
        over && t.gate != target ==> r.trace@.len() == 0,
        !over && t.gate == target && 0 < course <= 0x7f80_0000 && 0x3f00_0000 < t.speed <= 0x7f80_0000
            && bucket < 140 ==> r.trace@.len() > bucket && r.trace@[bucket as int] == t.speed,
{
}

/// What a skill does is noted once, with what was read for its first use; what was noted before stays.
pub proof fn lemma_effects(
    m: Map<i32, String>,
    r: Map<i32, String>,
    used: Seq<i32>,
    effects: Seq<String>,
    from: int,
    i: int,
)
    requires
        effects_after(m, r, used, effects, from),
        0 <= from <= i < used.len(),
        i < effects.len(),
        forall|j: int| from <= j < i ==> #[trigger] used[j] != used[i],
    ensures
        r.dom().contains(used[i]),
        m.dom().contains(used[i]) ==> r[used[i]] == m[used[i]],
        !m.dom().contains(used[i]) ==> r[used[i]]@ == effects[i]@,
        forall|id: i32| #[trigger] m.dom().contains(id) ==> r.dom().contains(id) && r[id] == m[id],
{
    assert(first_at(used, from, i));
}

/// The feed is shown as it was told: each skill's number beside its title.
pub proof fn lemma_feed_view(s: Seq<(i32, String)>, used: Seq<i32>, names: Seq<Option<String>>, from: int)
    requires
        0 <= from <= used.len(),
    ensures
        feed_view(s).len() == s.len(),
        forall|i: int| 0 <= i < s.len() ==> #[trigger] feed_view(s)[i] == (s[i].0, s[i].1@),
        forall|k: int|
            0 <= k < used.len() - from && from + k >= names.len() ==> (#[trigger] entries(
                used,
                names,
                from,
            )[k]).1 == "Skill "@ + dec(used[from + k] as int),
{
    assert forall|k: int|
        0 <= k < used.len() - from && from + k >= names.len() implies (#[trigger] entries(
        used,
        names,
        from,
    )[k]).1 == "Skill "@ + dec(used[from + k] as int) by {
        lemma_skill_title(used[from + k], None);
    }
}

} // verus!
