//! The race being run: horse frames, the player's placement and the race header.

use vstd::prelude::*;

use crate::text::{add_word, join, show_i64};
use crate::text::{dec, joined, word};

verus! {

/// How long, in milliseconds, no new frame is published after one was.
pub const EMIT_MS: u64 = 500;

/// One horse in one frame. Distance, lane, speed and HP are double-precision bits, rounded as they
/// are shown.
#[derive(Clone, Copy, PartialEq, Eq, Structural, Debug)]
pub struct RaceHorse {
    pub idx: i64,
    pub dist: u64,
    pub lane: u64,
    pub speed: u64,
    pub hp: u64,
    pub max_hp: u64,
    pub tempt: i64,
    pub block: i64,
}

/// What is published of the race. Times are double-precision bits.
pub struct LiveRace {
    pub active: bool,
    pub time: u64,
    pub duration: u64,
    pub player_index: i64,
    pub horse_count: i64,
    pub horses: Vec<RaceHorse>,
}

/// What is known of the race.
pub struct Race {
    /// The player's horse; -1 while unknown.
    pub player_index: i32,
    pub last_emit: u64,
    pub frames: u64,
    /// The horses of the frame being read, by ascending index.
    pub buffer: Vec<RaceHorse>,
    /// The player's place; 0 while unknown.
    pub finish_order: i32,
    /// Retries left; -1 while unknown.
    pub continues: i32,
    /// The player's frame order in the race response; -1 while unknown.
    pub frame_order: i32,
    pub course_dist: i32,
    pub track_id: i32,
    pub grade: i32,
    pub header: String,
    /// The race that the header was built from.
    pub last_info: usize,
    pub live: LiveRace,
}

/// What a race says of itself.
#[derive(Clone, Copy, PartialEq, Eq, Structural, Debug)]
pub struct RaceInfo {
    /// Tells one race from another; 0 for none.
    pub id: usize,
    pub distance: i32,
    pub track: i32,
    pub kind: i32,
    pub grade: i32,
}

/// Whether the horses stand by ascending index, each index once.
pub open spec fn rising(s: Seq<RaceHorse>) -> bool {
    forall|i: int, j: int| 0 <= i < j < s.len() ==> (#[trigger] s[i]).idx < (#[trigger] s[j]).idx
}

/// The horses with `h` put in its place, in place of one with the same index.
pub open spec fn with_horse(s: Seq<RaceHorse>, h: RaceHorse) -> Seq<RaceHorse>
    decreases s.len(),
{
    if s.len() == 0 || s.last().idx < h.idx {
        s.push(h)
    } else if s.last().idx == h.idx {
        s.drop_last().push(h)
    } else {
        with_horse(s.drop_last(), h).push(s.last())
    }
}

/// The name of a race track.
pub open spec fn track_title(id: i32) -> Seq<char> {
    if id == 10001 {
        "Sapporo"@
    } else if id == 10002 {
        "Hakodate"@
    } else if id == 10003 {
        "Niigata"@
    } else if id == 10004 {
        "Fukushima"@
    } else if id == 10005 {
        "Nakayama"@
    } else if id == 10006 {
        "Tokyo"@
    } else if id == 10007 {
        "Chukyo"@
    } else if id == 10008 {
        "Kyoto"@
    } else if id == 10009 {
        "Hanshin"@
    } else if id == 10010 {
        "Kokura"@
    } else if id == 10101 {
        "Ooi"@
    } else {
        "Track "@ + dec(id as int)
    }
}

/// The name of a distance class.
pub open spec fn kind_title(t: i32) -> Seq<char> {
    if t == 1 {
        "Short"@
    } else if t == 2 {
        "Mile"@
    } else if t == 3 {
        "Medium"@
    } else if t == 4 {
        "Long"@
    } else {
        ""@
    }
}

/// The header of a race.
pub open spec fn header_of(i: RaceInfo) -> Seq<char> {
    track_title(i.track) + " "@ + dec(i.distance as int) + "m "@ + kind_title(i.kind)
}

/// Whether the header is built anew: the race is ready, and it is another one or has no header yet.
pub open spec fn header_due(r: Race, i: RaceInfo) -> bool {
    i.id != 0 && i.distance > 0 && !(i.id == r.last_info && r.header@.len() > 0)
}

/// Whether a published race holds nothing yet.
pub open spec fn blank(l: LiveRace) -> bool {
    &&& l.time == 0
    &&& l.duration == 0
    &&& l.player_index == 0
    &&& l.horse_count == 0
    &&& l.horses@.len() == 0
}

/// No race yet.
pub fn new_race() -> (r: Race)
    ensures
        r.player_index == -1,
        r.last_emit == 0,
        r.frames == 0,
        r.buffer@.len() == 0,
        r.finish_order == 0,
        r.continues == -1,
        r.frame_order == -1,
        r.course_dist == 0,
        r.track_id == 0,
        r.grade == 0,
        r.header@ == ""@,
        r.last_info == 0,
        blank(r.live),
        !r.live.active,
{
    Race {
        player_index: -1,
        last_emit: 0,
        frames: 0,
        buffer: Vec::new(),
        finish_order: 0,
        continues: -1,
        frame_order: -1,
        course_dist: 0,
        track_id: 0,
        grade: 0,
        header: "".to_owned(),
        last_info: 0,
        live: LiveRace {
            active: false,
            time: 0,
            duration: 0,
            player_index: 0,
            horse_count: 0,
            horses: Vec::new(),
        },
    }
}

/// The player's horse and how many frames were published.
pub fn stats(r: &Race) -> (s: (i32, u64))
    ensures
        s == (r.player_index, r.frames),
{
    (r.player_index, r.frames)
}

/// The player's place: 1 for a win, 0 while unknown.
pub fn player_finish_order(r: &Race) -> (n: i32)
    ensures
        n == r.finish_order,
{
    r.finish_order
}

/// How often a lost race can still be retried; -1 while unknown.
pub fn continues_available(r: &Race) -> (n: i32)
    ensures
        n == r.continues,
{
    r.continues
}

/// Note how often a lost race can still be retried.
pub fn set_continues_available(r: &mut Race, n: i32)
    ensures
        *final(r) == (Race { continues: n, ..*old(r) }),
{
    r.continues = n;
}

/// Note the player's frame order, told by a race response.
pub fn set_net_player(r: &mut Race, _arr_idx: i32, frame_order: i32, _horses: i32)
    ensures
        *final(r) == (Race { frame_order, ..*old(r) }),
{
    r.frame_order = frame_order;
}

/// The race grade; 0 while unknown.
pub fn race_grade(r: &Race) -> (n: i32)
    ensures
        n == r.grade,
{
    r.grade
}

/// The race track; 0 while unknown.
pub fn track_id(r: &Race) -> (n: i32)
    ensures
        n == r.track_id,
{
    r.track_id
}

/// The race header, such as `Hanshin 1600m Mile`; empty until a race is loaded.
pub fn race_header(r: &Race) -> (s: String)
    ensures
        s@ == r.header@,
{
    r.header.as_str().to_owned()
}

/// The length of the course in metres; 0 while unknown.
pub fn course_distance(r: &Race) -> (n: i32)
    ensures
        n == r.course_dist,
{
    r.course_dist
}

/// The name of a race track.
fn track_name(id: i32) -> (r: String)
    ensures
        r@ == track_title(id),
{
    let name: &str = match id {
        10001 => "Sapporo",
        10002 => "Hakodate",
        10003 => "Niigata",
        10004 => "Fukushima",
        10005 => "Nakayama",
        10006 => "Tokyo",
        10007 => "Chukyo",
        10008 => "Kyoto",
        10009 => "Hanshin",
        10010 => "Kokura",
        10101 => "Ooi",
        _ => {
            let mut s: String = "Track ".to_owned();
            s.append(show_i64(id as i64).as_str());
            return s;
        },
    };
    name.to_owned()
}

/// The name of a distance class.
fn dist_type(t: i32) -> (r: &'static str)
    ensures
        r@ == kind_title(t),
{
    match t {
        1 => "Short",
        2 => "Mile",
        3 => "Medium",
        4 => "Long",
        _ => "",
    }
}

/// Build the race header when a new race has been loaded.
pub fn compute_header(r: &mut Race, i: &RaceInfo)
    ensures
        !header_due(*old(r), *i) ==> *final(r) == *old(r),
        header_due(*old(r), *i) ==> {
            &&& final(r).header@ == header_of(*i)
            &&& *final(r) == (Race {
                last_info: i.id,
                course_dist: i.distance,
                track_id: i.track,
                grade: i.grade,
                header: final(r).header,
                ..*old(r)
            })
        },
{
    if i.id == 0 {
        return ;
    }
    if i.id == r.last_info && r.header.as_str().unicode_len() > 0 {
        return ;
    }
    if i.distance <= 0 {
        return ;
    }
    r.last_info = i.id;
    r.course_dist = i.distance;
    r.track_id = i.track;
    r.grade = i.grade;
    let mut h: String = track_name(i.track);
    h.append(" ");
    h.append(show_i64(i.distance as i64).as_str());
    h.append("m ");
    h.append(dist_type(i.kind));
    r.header = h;
}

/// The 0-based place of the horse at `idx`; -1 where there is none. `places` is what the result holds
/// of each horse.
pub open spec fn place_at(places: Seq<Option<i32>>, idx: int) -> i32 {
    if 0 <= idx < places.len() {
        match places[idx] {
            Some(p) => p,
            None => (-1) as i32,
        }
    } else {
        (-1) as i32
    }
}

/// The 0-based place of the horse at `idx`.
pub fn sim_finish_order(places: &Vec<Option<i32>>, idx: i32) -> (r: i32)
    ensures
        r == place_at(places@, idx as int),
{
    if idx < 0 || idx as usize >= places.len() {
        return -1;
    }
    match places[idx as usize] {
        Some(p) => p,
        None => -1,
    }
}

/// Put a horse of the current frame in its place.
fn put_horse(s: &mut Vec<RaceHorse>, h: RaceHorse)
    ensures
        final(s)@ == with_horse(old(s)@, h),
{
    let ghost all = s@;
    let mut k: usize = s.len();
    while k > 0 && s[k - 1].idx > h.idx
        invariant
            k <= s.len(),
            s@ == all,
            all == old(s)@,
            forall|i: int| k <= i < all.len() ==> (#[trigger] all[i]).idx > h.idx,
        decreases k,
    {
        k = k - 1;
    }
    proof {
        lemma_horse_at(all, h, k as int);
    }
    if k > 0 && s[k - 1].idx == h.idx {
        s.set(k - 1, h);
    } else {
        s.insert(k, h);
    }
}

/// Where a horse is put.
proof fn lemma_horse_at(s: Seq<RaceHorse>, h: RaceHorse, k: int)
    requires
        0 <= k <= s.len(),
        k > 0 ==> s[k - 1].idx <= h.idx,
        forall|i: int| k <= i < s.len() ==> (#[trigger] s[i]).idx > h.idx,
    ensures
        with_horse(s, h) == (if k > 0 && s[k - 1].idx == h.idx {
            s.update(k - 1, h)
        } else {
            s.insert(k, h)
        }),
    decreases s.len(),
{
    if k == s.len() {
        assert(s.insert(k, h) =~= s.push(h));
        if s.len() > 0 {
            assert(s.drop_last().push(h) =~= s.update(k - 1, h));
        }
    } else {
        assert(s[s.len() - 1].idx > h.idx);
        lemma_horse_at(s.drop_last(), h, k);
        assert(s.drop_last().insert(k, h).push(s.last()) =~= s.insert(k, h));
        if k > 0 {
            assert(s.drop_last().update(k - 1, h).push(s.last()) =~= s.update(k - 1, h));
        }
    }
}

/// Whether the frame that horse 0 completes is published.
pub open spec fn emits(r: Race, horse: i32, now: u64) -> bool {
    horse == 0 && now.wrapping_sub(r.last_emit) >= EMIT_MS
}

/// A horse of a frame was read. Horse 0 completes the frame: it is published, at most every
/// [`EMIT_MS`], and the next one begins.
pub fn on_frame(r: &mut Race, horse: i32, h: RaceHorse, time: u64, now: u64)
    ensures
        ({
            let all = with_horse(old(r).buffer@, h);
            &&& final(r).buffer@ == (if horse == 0 {
                Seq::empty()
            } else {
                all
            })
            &&& emits(*old(r), horse, now) ==> {
                &&& final(r).last_emit == now
                &&& final(r).frames == old(r).frames.wrapping_add(1)
                &&& final(r).live.active
                &&& final(r).live.time == time
                &&& final(r).live.duration == old(r).live.duration
                &&& final(r).live.player_index == old(r).player_index
                &&& final(r).live.horse_count == all.len() as i64
                &&& final(r).live.horses@ == all
            }
            &&& !emits(*old(r), horse, now) ==> {
                &&& final(r).last_emit == old(r).last_emit
                &&& final(r).frames == old(r).frames
                &&& final(r).live == old(r).live
            }
            &&& *final(r) == (Race {
                buffer: final(r).buffer,
                last_emit: final(r).last_emit,
                frames: final(r).frames,
                live: final(r).live,
                ..*old(r)
            })
        }),
{
    put_horse(&mut r.buffer, h);
    if horse == 0 {
        if now.wrapping_sub(r.last_emit) >= EMIT_MS {
            r.last_emit = now;
            r.frames = r.frames.wrapping_add(1);
            let count: i64 = r.buffer.len() as i64;
            let mut horses: Vec<RaceHorse> = Vec::new();
            horses.append(&mut r.buffer);
            let duration: u64 = r.live.duration;
            r.live = LiveRace {
                active: true,
                time,
                duration,
                player_index: r.player_index as i64,
                horse_count: count,
                horses,
            };
        }
        r.buffer = Vec::new();
    }
}

/// A race begins: nothing of the last one stays but the retries, the player's frame order, the
/// track and the grade.
pub fn on_import(r: &mut Race)
    ensures
        final(r).last_emit == 0,
        final(r).player_index == -1,
        final(r).finish_order == 0,
        final(r).course_dist == 0,
        final(r).header@ == ""@,
        final(r).buffer@.len() == 0,
        blank(final(r).live),
        final(r).live.active,
        final(r).frames == old(r).frames,
        final(r).continues == old(r).continues,
        final(r).frame_order == old(r).frame_order,
        final(r).track_id == old(r).track_id,
        final(r).grade == old(r).grade,
        final(r).last_info == old(r).last_info,
{
    r.last_emit = 0;
    r.player_index = -1;
    r.finish_order = 0;
    r.course_dist = 0;
    r.header = "".to_owned();
    r.buffer = Vec::new();
    r.live = LiveRace {
        active: true,
        time: 0,
        duration: 0,
        player_index: 0,
        horse_count: 0,
        horses: Vec::new(),
    };
}

/// The player's place in a result, 1 for the winner; 0 where it cannot be told.
pub open spec fn place_of(frame_order: i32, places: Seq<Option<i32>>) -> i32 {
    let p = place_at(places, frame_order - 1);
    if frame_order > 0 && p >= 0 {
        p.wrapping_add(1)
    } else {
        0
    }
}

/// A race result was imported. `sim` is its horse count and duration, `places` the 0-based place of
/// each horse.
pub fn on_post(r: &mut Race, sim: Option<(i64, u64)>, places: &Vec<Option<i32>>)
    ensures
        final(r).finish_order == place_of(old(r).frame_order, places@),
        final(r).live == (match sim {
            Some(s) => LiveRace { horse_count: s.0, duration: s.1, ..old(r).live },
            None => old(r).live,
        }),
        *final(r) == (Race {
            finish_order: final(r).finish_order,
            live: final(r).live,
            ..*old(r)
        }),
{
    if let Some(s) = sim {
        r.live.horse_count = s.0;
        r.live.duration = s.1;
    }
    r.finish_order = 0;
    let idx: i32 = if r.frame_order > 0 {
        r.frame_order - 1
    } else {
        -1
    };
    let p: i32 = sim_finish_order(places, idx);
    if p >= 0 {
        r.finish_order = p.wrapping_add(1);
    }
}

/// The game asked for the player's horse. A new answer is noted and published, and the header is
/// built where it is due.
pub fn on_player(r: &mut Race, idx: i32, info: &RaceInfo)
    ensures
        ({
            let noted = if idx >= 0 && idx != old(r).player_index {
                Race {
                    player_index: idx,
                    live: LiveRace { player_index: idx as i64, ..old(r).live },
                    ..*old(r)
                }
            } else {
                *old(r)
            };
            &&& !header_due(*old(r), *info) ==> *final(r) == noted
            &&& header_due(*old(r), *info) ==> {
                &&& final(r).header@ == header_of(*info)
                &&& *final(r) == (Race {
                    last_info: info.id,
                    course_dist: info.distance,
                    track_id: info.track,
                    grade: info.grade,
                    header: final(r).header,
                    ..noted
                })
            }
        }),
{
    if idx >= 0 && r.player_index != idx {
        r.player_index = idx;
        r.live.player_index = idx as i64;
    }
    compute_header(r, info);
}

/// A frame holds each horse once, by ascending index, the horse just read as it was read.
pub proof fn lemma_frame_in_order(s: Seq<RaceHorse>, h: RaceHorse)
    requires
        rising(s),
    ensures
        rising(with_horse(s, h)),
        with_horse(s, h).contains(h),
        forall|i: int|
            0 <= i < s.len() && (#[trigger] s[i]).idx != h.idx ==> with_horse(s, h).contains(s[i]),
        forall|i: int|
            0 <= i < with_horse(s, h).len() ==> (#[trigger] with_horse(s, h)[i] == h || s.contains(
                with_horse(s, h)[i],
            )),
{
    let k = lemma_split(s, h);
    lemma_horse_at(s, h, k);
    let r = with_horse(s, h);
    if k > 0 && s[k - 1].idx == h.idx {
        lemma_replaced(s, h, k - 1, r);
    } else {
        assert(k > 0 ==> s[k - 1].idx < h.idx);
        lemma_inserted(s, h, k, r);
    }
}

/// Replacing a horse by one of the same index keeps the order and the other horses.
proof fn lemma_replaced(s: Seq<RaceHorse>, h: RaceHorse, k: int, r: Seq<RaceHorse>)
    requires
        rising(s),
        0 <= k < s.len(),
        s[k].idx == h.idx,
        r == s.update(k, h),
    ensures
        rising(r),
        r.contains(h),
        forall|i: int| 0 <= i < s.len() && (#[trigger] s[i]).idx != h.idx ==> r.contains(s[i]),
        forall|i: int| 0 <= i < r.len() ==> (#[trigger] r[i] == h || s.contains(r[i])),
{
    assert(r[k] == h);
    assert forall|i: int, j: int| 0 <= i < j < r.len() implies (#[trigger] r[i]).idx < (
    #[trigger] r[j]).idx by {
        assert(s[i].idx < s[j].idx);
    }
    assert forall|i: int| 0 <= i < s.len() && (#[trigger] s[i]).idx != h.idx implies r.contains(
        s[i],
    ) by {
        assert(r[i] == s[i]);
    }
    assert forall|i: int| 0 <= i < r.len() implies (#[trigger] r[i] == h || s.contains(r[i])) by {
        if i != k {
            assert(r[i] == s[i]);
        }
    }
}

/// Inserting a horse between those before and behind it keeps the order and the other horses.
proof fn lemma_inserted(s: Seq<RaceHorse>, h: RaceHorse, k: int, r: Seq<RaceHorse>)
    requires
        rising(s),
        0 <= k <= s.len(),
        forall|i: int| 0 <= i < k ==> (#[trigger] s[i]).idx < h.idx,
        forall|i: int| k <= i < s.len() ==> (#[trigger] s[i]).idx > h.idx,
        r == s.insert(k, h),
    ensures
        rising(r),
        r.contains(h),
        forall|i: int| 0 <= i < s.len() && (#[trigger] s[i]).idx != h.idx ==> r.contains(s[i]),
        forall|i: int| 0 <= i < r.len() ==> (#[trigger] r[i] == h || s.contains(r[i])),
{
    assert(r[k] == h);
    assert(forall|i: int| 0 <= i < k ==> #[trigger] r[i] == s[i]);
    assert(forall|i: int| k < i < r.len() ==> #[trigger] r[i] == s[i - 1]);
    assert forall|i: int, j: int| 0 <= i < j < r.len() implies (#[trigger] r[i]).idx < (
    #[trigger] r[j]).idx by {
        if i < k && j < k {
            assert(s[i].idx < s[j].idx);
        } else if i < k && j > k {
            assert(s[i].idx < s[j - 1].idx);
        } else if i > k {
            assert(s[i - 1].idx < s[j - 1].idx);
        }
    }
    assert forall|i: int| 0 <= i < s.len() && (#[trigger] s[i]).idx != h.idx implies r.contains(
        s[i],
    ) by {
        if i < k {
            assert(r[i] == s[i]);
        } else {
            assert(r[i + 1] == s[i]);
        }
    }
    assert forall|i: int| 0 <= i < r.len() implies (#[trigger] r[i] == h || s.contains(r[i])) by {
        if i < k {
            assert(s.contains(s[i]));
        } else if i > k {
            assert(s.contains(s[i - 1]));
        }
    }
}

/// How many horses come before, or at, the place of `h`.
proof fn lemma_split(s: Seq<RaceHorse>, h: RaceHorse) -> (k: int)
    requires
        rising(s),
    ensures
        0 <= k <= s.len(),
        forall|i: int| 0 <= i < k ==> (#[trigger] s[i]).idx <= h.idx,
        forall|i: int| 0 <= i < k - 1 ==> (#[trigger] s[i]).idx < h.idx,
        k > 0 ==> s[k - 1].idx <= h.idx,
        forall|i: int| k <= i < s.len() ==> (#[trigger] s[i]).idx > h.idx,
    decreases s.len(),
{
    if s.len() == 0 {
        0
    } else if s.last().idx <= h.idx {
        assert forall|i: int| 0 <= i < s.len() implies (#[trigger] s[i]).idx <= h.idx && (i
            < s.len() - 1 ==> s[i].idx < h.idx) by {
            if i < s.len() - 1 {
                assert(s[i].idx < s[s.len() - 1].idx);
            }
        }
        s.len() as int
    } else {
        let t = s.drop_last();
        assert(rising(t));
        let k = lemma_split(t, h);
        assert forall|i: int| 0 <= i < k implies (#[trigger] s[i]).idx <= h.idx by {
            assert(t[i] == s[i]);
        }
        assert forall|i: int| 0 <= i < k - 1 implies (#[trigger] s[i]).idx < h.idx by {
            assert(t[i] == s[i]);
        }
        assert forall|i: int| k <= i < s.len() implies (#[trigger] s[i]).idx > h.idx by {
            if i < t.len() {
                assert(t[i] == s[i]);
            }
        }
        k
    }
}

/// A place is told as a win exactly when the result has the player's horse first.
pub proof fn lemma_win(frame_order: i32, places: Seq<Option<i32>>)
    ensures
        place_of(frame_order, places) == 1 <==> (0 < frame_order <= places.len() && places[frame_order
            - 1] == Some(0i32)),
{
}

/// A header that was built for a race is not built again for it, and is for any other race that is
/// ready.
pub proof fn lemma_header_once(r: Race, i: RaceInfo, other: RaceInfo)
    requires
        r.last_info == i.id,
        r.header@.len() > 0,
        other.id != i.id,
        other.id != 0,
        other.distance > 0,
    ensures
        !header_due(r, i),
        header_due(r, other),
{
}

/// Which of the game's functions are watched.
#[derive(Clone, Copy, PartialEq, Eq, Structural, Debug)]
pub struct Hooks {
    /// The reader of races is known at all.
    pub reader: bool,
    pub frame: bool,
    pub import: bool,
    pub post: bool,
    pub player: bool,
    /// The race header can be read.
    pub header: bool,
    /// A race is exported when its track is asked for, when its result is unpacked, and when it is
    /// simulated.
    pub export: bool,
    pub export_unpacked: bool,
    pub export_simulated: bool,
}

/// The names of what is watched.
pub open spec fn hook_names(h: Hooks) -> Seq<Seq<char>> {
    Seq::<Seq<char>>::empty() + word(h.frame, "frame"@) + word(h.import, "import"@) + word(
        h.post,
        "post"@,
    ) + word(h.player, "player"@) + word(h.header, "header"@) + word(h.export, "export"@) + word(
        h.export_unpacked,
        "export-3d"@,
    ) + word(h.export_simulated, "export-sim"@)
}

/// Report what is watched.
pub fn install(h: &Hooks) -> (r: String)
    ensures
        r@ == (if !h.reader {
            "reader miss"@
        } else {
            "hooks=["@ + joined(hook_names(*h), ","@) + "]"@
        }),
{
    if !h.reader {
        return "reader miss".to_owned();
    }
    let mut got: Vec<&'static str> = Vec::new();
    assert(crate::text::words(got@) =~= Seq::<Seq<char>>::empty());
    add_word(&mut got, h.frame, "frame");
    add_word(&mut got, h.import, "import");
    add_word(&mut got, h.post, "post");
    add_word(&mut got, h.player, "player");
    add_word(&mut got, h.header, "header");
    add_word(&mut got, h.export, "export");
    add_word(&mut got, h.export_unpacked, "export-3d");
    add_word(&mut got, h.export_simulated, "export-sim");
    let mut s: String = "hooks=[".to_owned();
    s.append(join(&got, ",").as_str());
    s.append("]");
    s
}

/// Each track goes by its name, the ten of the league in the order of their numbers.
pub proof fn lemma_tracks(id: i32)
    ensures
        10001 <= id <= 10010 ==> track_title(id) == seq![
            "Sapporo"@,
            "Hakodate"@,
            "Niigata"@,
            "Fukushima"@,
            "Nakayama"@,
            "Tokyo"@,
            "Chukyo"@,
            "Kyoto"@,
            "Hanshin"@,
            "Kokura"@,
        ][id - 10001],
        track_title(10101) == "Ooi"@,
        id < 10001 || id > 10010 && id != 10101 ==> track_title(id) == "Track "@ + dec(id as int),
{
}

/// The header of a race names its track, its length in metres and its kind.
pub proof fn lemma_header(i: RaceInfo)
    ensures
        1 <= i.kind <= 4 ==> header_of(i) == track_title(i.track) + " "@ + dec(i.distance as int) + "m "@
            + seq!["Short"@, "Mile"@, "Medium"@, "Long"@][i.kind - 1],
        i.kind < 1 || i.kind > 4 ==> header_of(i) == track_title(i.track) + " "@ + dec(i.distance as int)
            + "m "@,
{
    reveal_strlit("");
    if i.kind < 1 || i.kind > 4 {
        assert(header_of(i) =~= track_title(i.track) + " "@ + dec(i.distance as int) + "m "@);
    }
}

/// A header is due for a race that is known and has a length, unless it is the one already shown.
pub proof fn lemma_header_due(r: Race, i: RaceInfo)
    ensures
        i.id == 0 || i.distance <= 0 ==> !header_due(r, i),
        i.id != 0 && i.distance > 0 && r.last_info != i.id ==> header_due(r, i),
        i.id != 0 && i.distance > 0 && r.header@.len() == 0 ==> header_due(r, i),
        r.last_info == i.id && r.header@.len() > 0 ==> !header_due(r, i),
{
}

/// A horse's place is the one that is read for its post position, counted from 1; 0 where none is read.
pub proof fn lemma_place(frame_order: i32, places: Seq<Option<i32>>)
    ensures
        1 <= frame_order <= places.len() ==> (places[frame_order - 1] matches Some(p) ==> (0 <= p < 1000
            ==> place_of(frame_order, places) == p + 1)),
        1 <= frame_order <= places.len() && (places[frame_order - 1] is None || places[frame_order
            - 1]->0 < 0) ==> place_of(frame_order, places) == 0,
        frame_order < 1 || frame_order > places.len() ==> place_of(frame_order, places) == 0,
{
}

/// A frame is published for the first horse alone, and at most every half second.
pub proof fn lemma_emits(r: Race, horse: i32, now: u64)
    requires
        r.last_emit <= now,
    ensures
        emits(r, horse, now) <==> horse == 0 && r.last_emit + 500 <= now,
{
}

/// A name that applies is added behind the others.
proof fn lemma_word_added(a: Seq<Seq<char>>, on: bool, x: Seq<char>)
    ensures
        (a + word(on, x)).len() == a.len() + b2i(on),
        on ==> (a + word(on, x)).contains(x),
        forall|y: Seq<char>| #[trigger] a.contains(y) ==> (a + word(on, x)).contains(y),
{
    let r = a + word(on, x);
    if on {
        assert(r[a.len() as int] == x);
    }
    assert forall|y: Seq<char>| #[trigger] a.contains(y) implies r.contains(y) by {
        let i = choose|i: int| 0 <= i < a.len() && a[i] == y;
        assert(r[i] == y);
    }
}

/// The hooks that are set are named, and no others.
pub proof fn lemma_hook_names(h: Hooks)
    ensures
        hook_names(h).len() == b2i(h.frame) + b2i(h.import) + b2i(h.post) + b2i(h.player) + b2i(h.header)
            + b2i(h.export) + b2i(h.export_unpacked) + b2i(h.export_simulated),
        h.frame ==> hook_names(h).contains("frame"@),
        h.import ==> hook_names(h).contains("import"@),
        h.post ==> hook_names(h).contains("post"@),
        h.player ==> hook_names(h).contains("player"@),
        h.header ==> hook_names(h).contains("header"@),
        h.export ==> hook_names(h).contains("export"@),
        h.export_unpacked ==> hook_names(h).contains("export-3d"@),
        h.export_simulated ==> hook_names(h).contains("export-sim"@),
{
    let a = Seq::<Seq<char>>::empty();
    lemma_word_added(a, h.frame, "frame"@);
    let b = a + word(h.frame, "frame"@);
    lemma_word_added(b, h.import, "import"@);
    let c = b + word(h.import, "import"@);
    lemma_word_added(c, h.post, "post"@);
    let d = c + word(h.post, "post"@);
    lemma_word_added(d, h.player, "player"@);
    let e = d + word(h.player, "player"@);
    lemma_word_added(e, h.header, "header"@);
    let f = e + word(h.header, "header"@);
    lemma_word_added(f, h.export, "export"@);
    let g = f + word(h.export, "export"@);
    lemma_word_added(g, h.export_unpacked, "export-3d"@);
    let i = g + word(h.export_unpacked, "export-3d"@);
    lemma_word_added(i, h.export_simulated, "export-sim"@);
    assert(hook_names(h) == i + word(h.export_simulated, "export-sim"@));
}

/// With every hook set, the names stand in a fixed order.
pub proof fn lemma_hook_order(h: Hooks)
    requires
        h.frame && h.import && h.post && h.player && h.header && h.export && h.export_unpacked
            && h.export_simulated,
    ensures
        hook_names(h) == seq![
            "frame"@,
            "import"@,
            "post"@,
            "player"@,
            "header"@,
            "export"@,
            "export-3d"@,
            "export-sim"@,
        ],
{
    let a = seq!["frame"@, "import"@, "post"@, "player"@];
    let b = seq!["header"@, "export"@, "export-3d"@, "export-sim"@];
    assert(Seq::<Seq<char>>::empty() + seq!["frame"@] + seq!["import"@] + seq!["post"@] + seq![
        "player"@,
    ] =~= a);
    assert(hook_names(h) == a + seq!["header"@] + seq!["export"@] + seq!["export-3d"@] + seq![
        "export-sim"@,
    ]);
    assert(hook_names(h) =~= a + b);
}

/// One for yes, zero for no.
pub open spec fn b2i(b: bool) -> int {
    if b {
        1
    } else {
        0
    }
}

/// A live race that is blank has no time, no horses and no player.
pub proof fn lemma_blank(l: LiveRace)
    ensures
        blank(l) <==> l.time == 0 && l.duration == 0 && l.player_index == 0 && l.horse_count == 0
            && l.horses@.len() == 0,
{
}

} // verus!
