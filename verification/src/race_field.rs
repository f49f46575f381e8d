//! The field of the race about to be run, as the entry screen's response describes it.
//!
//! Everything here is arithmetic on numbers that the server volunteered: a runner's stat total is a
//! plain sum, and the ranking is a sort.

use vstd::prelude::*;

use crate::msgpack::{find_all, find_int, get_list, int_or_zero, Node, Tree};
use crate::msgpack::{first_int_of, hits, lemma_first_of_found, or_zero, trees, trees_ref};
use crate::names::{find_name, race_program, Names};
use crate::names::{name_of, program_of};
use crate::order::{insert_by_key, lemma_insert_at, lemma_sort, sort_by_key, with_key};

verus! {

/// One runner, as the server describes it before the gates open.
pub struct Runner {
    /// Post position, from 1.
    pub frame: i64,
    /// Character name; empty for the anonymous runners that fill out a small field.
    pub name: String,
    pub is_player: bool,
    pub speed: i64,
    pub stamina: i64,
    pub power: i64,
    pub guts: i64,
    pub wit: i64,
    /// The five stats summed.
    pub total: i64,
    pub style: &'static str,
    pub popularity: i64,
    /// 1 (awful) to 5 (great).
    pub mood: i64,
    /// Aptitude letters for this race's surface and distance, and for this runner's own style.
    pub apt_ground: &'static str,
    pub apt_distance: &'static str,
    pub apt_style: &'static str,
    pub skills: usize,
}

/// The field of a race.
pub struct Field {
    pub program_id: i64,
    /// Empty when the program is not in the table.
    pub race_name: String,
    pub distance: i64,
    pub distance_label: &'static str,
    pub ground: &'static str,
    pub weather: &'static str,
    pub condition: &'static str,
    /// Strongest first.
    pub runners: Vec<Runner>,
    pub field_size: usize,
    pub player_frame: i64,
    /// The player's position in `runners`, from 1; 0 when there is no player.
    pub player_rank: usize,
}

/// What a runner says.
#[verifier::ext_equal]
pub struct RunnerView {
    pub frame: i64,
    pub name: Seq<char>,
    pub is_player: bool,
    pub speed: i64,
    pub stamina: i64,
    pub power: i64,
    pub guts: i64,
    pub wit: i64,
    pub total: i64,
    pub style: Seq<char>,
    pub popularity: i64,
    pub mood: i64,
    pub apt_ground: Seq<char>,
    pub apt_distance: Seq<char>,
    pub apt_style: Seq<char>,
    pub skills: int,
}

/// What a field says.
#[verifier::ext_equal]
pub struct FieldView {
    pub program_id: i64,
    pub race_name: Seq<char>,
    pub distance: i64,
    pub distance_label: Seq<char>,
    pub ground: Seq<char>,
    pub weather: Seq<char>,
    pub condition: Seq<char>,
    pub runners: Seq<RunnerView>,
    pub field_size: int,
    pub player_frame: i64,
    pub player_rank: int,
}

impl View for Runner {
    type V = RunnerView;

    open spec fn view(&self) -> RunnerView {
        RunnerView {
            frame: self.frame,
            name: self.name@,
            is_player: self.is_player,
            speed: self.speed,
            stamina: self.stamina,
            power: self.power,
            guts: self.guts,
            wit: self.wit,
            total: self.total,
            style: self.style@,
            popularity: self.popularity,
            mood: self.mood,
            apt_ground: self.apt_ground@,
            apt_distance: self.apt_distance@,
            apt_style: self.apt_style@,
            skills: self.skills as int,
        }
    }
}

/// What a row of runners says.
pub open spec fn runner_views(s: Seq<Runner>) -> Seq<RunnerView> {
    s.map_values(|r: Runner| r@)
}

impl View for Field {
    type V = FieldView;

    open spec fn view(&self) -> FieldView {
        FieldView {
            program_id: self.program_id,
            race_name: self.race_name@,
            distance: self.distance,
            distance_label: self.distance_label@,
            ground: self.ground@,
            weather: self.weather@,
            condition: self.condition@,
            runners: runner_views(self.runners@),
            field_size: self.field_size as int,
            player_frame: self.player_frame,
            player_rank: self.player_rank as int,
        }
    }
}

/// The field on screen.
pub struct FieldState {
    pub latest: Option<Field>,
}

/// A distance class, which selects the distance aptitude that counts.
#[derive(Clone, Copy, PartialEq, Eq, Structural, Debug)]
pub enum Bracket {
    Unknown,
    Sprint,
    Mile,
    Medium,
    Long,
}

/// The class of a distance in metres.
pub open spec fn bracket_of(m: i64) -> Bracket {
    if m == 0 {
        Bracket::Unknown
    } else if m <= 1400 {
        Bracket::Sprint
    } else if m <= 1800 {
        Bracket::Mile
    } else if m <= 2400 {
        Bracket::Medium
    } else {
        Bracket::Long
    }
}

/// What a distance class is called.
pub open spec fn bracket_name(b: Bracket) -> Seq<char> {
    match b {
        Bracket::Unknown => "?"@,
        Bracket::Sprint => "Sprint"@,
        Bracket::Mile => "Mile"@,
        Bracket::Medium => "Medium"@,
        Bracket::Long => "Long"@,
    }
}

/// The letter of an aptitude grade, 1 (G) to 8 (S).
pub open spec fn grade_spec(v: i64) -> Seq<char> {
    if v == 8 {
        "S"@
    } else if v == 7 {
        "A"@
    } else if v == 6 {
        "B"@
    } else if v == 5 {
        "C"@
    } else if v == 4 {
        "D"@
    } else if v == 3 {
        "E"@
    } else if v == 2 {
        "F"@
    } else if v == 1 {
        "G"@
    } else {
        "?"@
    }
}

/// What a running style is called.
pub open spec fn style_spec(v: i64) -> Seq<char> {
    if v == 1 {
        "Front"@
    } else if v == 2 {
        "Pace"@
    } else if v == 3 {
        "Late"@
    } else if v == 4 {
        "End"@
    } else {
        "?"@
    }
}

/// What a weather code is called.
pub open spec fn weather_spec(v: i64) -> Seq<char> {
    if v == 1 {
        "Sunny"@
    } else if v == 2 {
        "Cloudy"@
    } else if v == 3 {
        "Rainy"@
    } else if v == 4 {
        "Snowy"@
    } else {
        "?"@
    }
}

/// What a track condition code is called.
pub open spec fn condition_spec(v: i64) -> Seq<char> {
    if v == 1 {
        "Firm"@
    } else if v == 2 {
        "Good"@
    } else if v == 3 {
        "Soft"@
    } else if v == 4 {
        "Heavy"@
    } else {
        "?"@
    }
}

/// What a ground code is called.
pub open spec fn ground_spec(code: i64) -> Seq<char> {
    if code == 2 {
        "Dirt"@
    } else {
        "Turf"@
    }
}

/// The surface aptitude that counts in a race on ground `code`.
pub open spec fn ground_aptitude(h: Tree, code: i64) -> i64 {
    if code == 2 {
        h.int_or_zero("proper_ground_dirt"@)
    } else {
        h.int_or_zero("proper_ground_turf"@)
    }
}

/// The distance aptitude that counts in a race of class `b`; 0 when the class is unknown.
pub open spec fn distance_aptitude(h: Tree, b: Bracket) -> i64 {
    match b {
        Bracket::Sprint => h.int_or_zero("proper_distance_short"@),
        Bracket::Mile => h.int_or_zero("proper_distance_mile"@),
        Bracket::Medium => h.int_or_zero("proper_distance_middle"@),
        Bracket::Long => h.int_or_zero("proper_distance_long"@),
        Bracket::Unknown => 0,
    }
}

/// The style aptitude for the style that a runner uses; 0 when the style is unknown.
pub open spec fn style_aptitude(h: Tree, style: i64) -> i64 {
    if style == 1 {
        h.int_or_zero("proper_running_style_nige"@)
    } else if style == 2 {
        h.int_or_zero("proper_running_style_senko"@)
    } else if style == 3 {
        h.int_or_zero("proper_running_style_sashi"@)
    } else if style == 4 {
        h.int_or_zero("proper_running_style_oikomi"@)
    } else {
        0
    }
}

/// The five stats summed.
pub open spec fn total_of(speed: i64, stamina: i64, power: i64, guts: i64, wit: i64) -> i64 {
    speed.wrapping_add(stamina).wrapping_add(power).wrapping_add(guts).wrapping_add(wit)
}

/// The name of a runner's character; the anonymous runners share id 1 and have none.
pub open spec fn runner_name(h: Tree, names: Names) -> Seq<char> {
    let id = h.int_or_zero("chara_id"@);
    if id > 1 {
        name_of(names.charas@, id)
    } else {
        Seq::empty()
    }
}

/// One runner of a race on ground `code` over `distance`, in the eyes of account `player`.
pub open spec fn runner_of(
    h: Tree,
    code: i64,
    distance: i64,
    player: i64,
    names: Names,
) -> RunnerView {
    let style = h.int_or_zero("running_style"@);
    let speed = h.int_or_zero("speed"@);
    let stamina = h.int_or_zero("stamina"@);
    let power = h.int_or_zero("pow"@);
    let guts = h.int_or_zero("guts"@);
    let wit = h.int_or_zero("wiz"@);
    let vid = h.int_or_zero("viewer_id"@);
    RunnerView {
        frame: h.int_or_zero("frame_order"@),
        name: runner_name(h, names),
        is_player: vid != 0 && vid == player,
        speed,
        stamina,
        power,
        guts,
        wit,
        total: total_of(speed, stamina, power, guts, wit),
        style: style_spec(style),
        popularity: h.int_or_zero("popularity"@),
        mood: h.int_or_zero("motivation"@),
        apt_ground: grade_spec(ground_aptitude(h, code)),
        apt_distance: grade_spec(distance_aptitude(h, bracket_of(distance))),
        apt_style: grade_spec(style_aptitude(h, style)),
        skills: (match h.get_list("skill_array"@) {
            Some(l) => l.len() as int,
            None => 0,
        }),
    }
}

/// The first `race_start_info` that lists horses. An empty one rides along on ordinary responses.
pub open spec fn first_start(found: Seq<Tree>) -> Option<Tree>
    decreases found.len(),
{
    if found.len() == 0 {
        None
    } else {
        match found[0].get_list("race_horse_data"@) {
            Some(l) if l.len() > 0 => Some(found[0]),
            _ => first_start(found.drop_first()),
        }
    }
}

/// The order of a field: descending stat totals.
pub open spec fn by_total() -> spec_fn(RunnerView) -> int {
    |r: RunnerView| -(r.total as int)
}

/// The position of the first runner that is the player, from 1; 0 when there is none.
pub open spec fn rank_of_player(s: Seq<RunnerView>) -> int
    decreases s.len(),
{
    if s.len() == 0 {
        0
    } else if rank_of_player(s.drop_last()) > 0 {
        rank_of_player(s.drop_last())
    } else if s.last().is_player {
        s.len() as int
    } else {
        0
    }
}

/// The account that the response belongs to; 0 when it does not say.
pub open spec fn account_viewer(t: Tree) -> i64 {
    or_zero(first_int_of(hits(t, "viewer_id"@)))
}

/// The runners of a race, strongest first.
pub open spec fn ranked(
    horses: Seq<Tree>,
    code: i64,
    distance: i64,
    player: i64,
    names: Names,
) -> Seq<RunnerView> {
    sort_by_key(
        horses.map_values(|h: Tree| runner_of(h, code, distance, player, names)),
        by_total(),
    )
}

/// The field that a response describes, if it describes one.
pub open spec fn field_of(t: Tree, names: Names) -> Option<FieldView> {
    match first_start(hits(t, "race_start_info"@)) {
        None => None,
        Some(rsi) => {
            let id = rsi.int_or_zero("program_id"@);
            let program = program_of(names.programs@, id);
            let horses = rsi.get_list("race_horse_data"@)->0;
            let runners = ranked(
                horses,
                program.ground,
                program.distance,
                account_viewer(t),
                names,
            );
            let rank = rank_of_player(runners);
            Some(
                FieldView {
                    program_id: id,
                    race_name: program.name,
                    distance: program.distance,
                    distance_label: bracket_name(bracket_of(program.distance)),
                    ground: ground_spec(program.ground),
                    weather: weather_spec(rsi.int_or_zero("weather"@)),
                    condition: condition_spec(rsi.int_or_zero("ground_condition"@)),
                    runners,
                    field_size: runners.len() as int,
                    player_frame: if rank > 0 {
                        runners[rank - 1].frame
                    } else {
                        0
                    },
                    player_rank: rank,
                },
            )
        },
    }
}

/// No field is on screen.
pub fn new_field_state() -> (r: FieldState)
    ensures
        r.latest is None,
{
    FieldState { latest: None }
}

/// The field for the race on screen, or `None` outside one.
pub fn latest(st: &FieldState) -> (r: Option<&Field>)
    ensures
        (match r {
            Some(f) => Some(*f),
            None => None,
        }) == st.latest,
{
    match &st.latest {
        Some(f) => Some(f),
        None => None,
    }
}

/// Drop the field: the race finished, or the career ended.
pub fn clear(st: &mut FieldState)
    ensures
        final(st).latest is None,
{
    st.latest = None;
}

/// The letter of an aptitude grade.
pub fn grade(v: i64) -> (r: &'static str)
    ensures
        r@ == grade_spec(v),
{
    match v {
        8 => "S",
        7 => "A",
        6 => "B",
        5 => "C",
        4 => "D",
        3 => "E",
        2 => "F",
        1 => "G",
        _ => "?",
    }
}

/// What a running style is called.
pub fn style_name(v: i64) -> (r: &'static str)
    ensures
        r@ == style_spec(v),
{
    match v {
        1 => "Front",
        2 => "Pace",
        3 => "Late",
        4 => "End",
        _ => "?",
    }
}

/// What a weather code is called.
pub fn weather_name(v: i64) -> (r: &'static str)
    ensures
        r@ == weather_spec(v),
{
    match v {
        1 => "Sunny",
        2 => "Cloudy",
        3 => "Rainy",
        4 => "Snowy",
        _ => "?",
    }
}

/// What a track condition code is called.
pub fn condition_name(v: i64) -> (r: &'static str)
    ensures
        r@ == condition_spec(v),
{
    match v {
        1 => "Firm",
        2 => "Good",
        3 => "Soft",
        4 => "Heavy",
        _ => "?",
    }
}

/// What a ground code is called.
pub fn ground_name(code: i64) -> (r: &'static str)
    ensures
        r@ == ground_spec(code),
{
    if code == 2 {
        "Dirt"
    } else {
        "Turf"
    }
}

/// The class of a distance.
fn bracket(m: i64) -> (r: Bracket)
    ensures
        r == bracket_of(m),
{
    if m == 0 {
        Bracket::Unknown
    } else if m <= 1400 {
        Bracket::Sprint
    } else if m <= 1800 {
        Bracket::Mile
    } else if m <= 2400 {
        Bracket::Medium
    } else {
        Bracket::Long
    }
}

/// What the class of a distance is called.
pub fn distance_bracket(m: i64) -> (r: &'static str)
    ensures
        r@ == bracket_name(bracket_of(m)),
{
    match bracket(m) {
        Bracket::Unknown => "?",
        Bracket::Sprint => "Sprint",
        Bracket::Mile => "Mile",
        Bracket::Medium => "Medium",
        Bracket::Long => "Long",
    }
}

/// One runner.
fn read_runner(h: &Node, code: i64, distance: i64, player: i64, names: &Names) -> (r: Runner)
    ensures
        r@ == runner_of(h@, code, distance, player, *names),
{
    let style: i64 = int_or_zero(h, "running_style");
    let apt_ground: i64 = if code == 2 {
        int_or_zero(h, "proper_ground_dirt")
    } else {
        int_or_zero(h, "proper_ground_turf")
    };
    let apt_distance: i64 = match bracket(distance) {
        Bracket::Sprint => int_or_zero(h, "proper_distance_short"),
        Bracket::Mile => int_or_zero(h, "proper_distance_mile"),
        Bracket::Medium => int_or_zero(h, "proper_distance_middle"),
        Bracket::Long => int_or_zero(h, "proper_distance_long"),
        Bracket::Unknown => 0,
    };
    let apt_style: i64 = match style {
        1 => int_or_zero(h, "proper_running_style_nige"),
        2 => int_or_zero(h, "proper_running_style_senko"),
        3 => int_or_zero(h, "proper_running_style_sashi"),
        4 => int_or_zero(h, "proper_running_style_oikomi"),
        _ => 0,
    };
    let speed: i64 = int_or_zero(h, "speed");
    let stamina: i64 = int_or_zero(h, "stamina");
    let power: i64 = int_or_zero(h, "pow");
    let guts: i64 = int_or_zero(h, "guts");
    let wit: i64 = int_or_zero(h, "wiz");
    let vid: i64 = int_or_zero(h, "viewer_id");
    let chara: i64 = int_or_zero(h, "chara_id");
    let name: String = if chara > 1 {
        find_name(&names.charas, chara)
    } else {
        String::new()
    };
    let skills: usize = match get_list(h, "skill_array") {
        Some(l) => l.len(),
        None => 0,
    };
    Runner {
        frame: int_or_zero(h, "frame_order"),
        name,
        is_player: vid != 0 && vid == player,
        speed,
        stamina,
        power,
        guts,
        wit,
        total: speed.wrapping_add(stamina).wrapping_add(power).wrapping_add(guts).wrapping_add(wit),
        style: style_name(style),
        popularity: int_or_zero(h, "popularity"),
        mood: int_or_zero(h, "motivation"),
        apt_ground: grade(apt_ground),
        apt_distance: grade(apt_distance),
        apt_style: grade(apt_style),
        skills,
    }
}

/// Put a runner behind those that are at least as strong.
fn place(out: &mut Vec<Runner>, r: Runner)
    ensures
        runner_views(final(out)@) == insert_by_key(runner_views(old(out)@), r@, by_total()),
{
    let ghost seen = runner_views(out@);
    let ghost x = r@;
    let ghost before = out@;
    let mut k: usize = out.len();
    while k > 0 && out[k - 1].total < r.total
        invariant
            k <= out.len(),
            out@ == before,
            seen == runner_views(out@),
            x == r@,
            forall|i: int| k <= i < out.len() ==> by_total()(#[trigger] seen[i]) > by_total()(x),
        decreases k,
    {
        assert(seen[k - 1] == out@[k - 1]@);
        k = k - 1;
    }
    proof {
        if k > 0 {
            assert(seen[k - 1] == out@[k - 1]@);
        }
        lemma_insert_at(seen, x, by_total(), k as int);
    }
    out.insert(k, r);
    assert(runner_views(out@) =~= seen.insert(k as int, x));
}

/// The runners of a race, strongest first.
fn read_ranked(horses: &Vec<Node>, code: i64, distance: i64, player: i64, names: &Names) -> (r: Vec<
    Runner,
>)
    ensures
        runner_views(r@) == ranked(trees(horses@), code, distance, player, *names),
{
    let ghost all = trees(horses@).map_values(
        |h: Tree| runner_of(h, code, distance, player, *names),
    );
    let mut out: Vec<Runner> = Vec::new();
    let mut i: usize = 0;
    assert(runner_views(out@) =~= sort_by_key(all.take(0), by_total()));
    while i < horses.len()
        invariant
            i <= horses.len(),
            all == trees(horses@).map_values(
                |h: Tree| runner_of(h, code, distance, player, *names),
            ),
            runner_views(out@) == sort_by_key(all.take(i as int), by_total()),
        decreases horses.len() - i,
    {
        assert(all.take(i as int + 1).drop_last() =~= all.take(i as int));
        assert(all.take(i as int + 1).last() == runner_of(
            horses@[i as int]@,
            code,
            distance,
            player,
            *names,
        ));
        let r = read_runner(&horses[i], code, distance, player, names);
        place(&mut out, r);
        i = i + 1;
    }
    assert(all.take(i as int) =~= all);
    out
}

/// The position of the player, from 1; 0 when there is none.
fn read_rank(runners: &Vec<Runner>) -> (r: usize)
    ensures
        r == rank_of_player(runner_views(runners@)),
        r <= runners.len(),
{
    let ghost all = runner_views(runners@);
    let mut rank: usize = 0;
    let mut i: usize = 0;
    assert(rank_of_player(all.take(0)) == 0);
    while i < runners.len()
        invariant
            i <= runners.len(),
            rank <= i,
            all == runner_views(runners@),
            rank == rank_of_player(all.take(i as int)),
        decreases runners.len() - i,
    {
        assert(all.take(i as int + 1).drop_last() =~= all.take(i as int));
        assert(all.take(i as int + 1).last() == runners@[i as int]@);
        if rank == 0 && runners[i].is_player {
            rank = i + 1;
        }
        i = i + 1;
    }
    assert(all.take(i as int) =~= all);
    rank
}

/// The first `race_start_info` that lists horses, with its horses.
fn read_start<'a>(val: &'a Node) -> (r: Option<(&'a Node, &'a Vec<Node>)>)
    ensures
        (match r {
            Some((rsi, horses)) => first_start(hits(val@, "race_start_info"@)) == Some(rsi@)
                && rsi@.get_list("race_horse_data"@) == Some(trees(horses@)),
            None => first_start(hits(val@, "race_start_info"@)) is None,
        }),
{
    let found = find_all(val, "race_start_info");
    let ghost all = trees_ref(found@);
    let mut i: usize = 0;
    assert(all.skip(0) =~= all);
    while i < found.len()
        invariant
            i <= found.len(),
            all == trees_ref(found@),
            first_start(hits(val@, "race_start_info"@)) == first_start(all.skip(i as int)),
        decreases found.len() - i,
    {
        assert(all.skip(i as int)[0] == found@[i as int]@);
        if let Some(horses) = get_list(found[i], "race_horse_data") {
            if horses.len() > 0 {
                return Some((found[i], horses));
            }
        }
        assert(all.skip(i as int).drop_first() =~= all.skip(i as int + 1));
        i = i + 1;
    }
    None
}

/// The field that a response describes.
pub fn read_field(val: &Node, names: &Names) -> (r: Option<Field>)
    ensures
        (match r {
            Some(f) => Some(f@),
            None => None,
        }) == field_of(val@, *names),
{
    match read_start(val) {
        None => None,
        Some((rsi, horses)) => {
            let program_id: i64 = int_or_zero(rsi, "program_id");
            let (race_name, code, distance) = race_program(&names.programs, program_id);
            let player: i64 = match find_int(val, "viewer_id") {
                Some(n) => n,
                None => 0,
            };
            let runners = read_ranked(horses, code, distance, player, names);
            let player_rank: usize = read_rank(&runners);
            let player_frame: i64 = if player_rank > 0 {
                assert(runner_views(runners@)[player_rank - 1] == runners@[player_rank - 1]@);
                runners[player_rank - 1].frame
            } else {
                0
            };
            Some(
                Field {
                    program_id,
                    race_name,
                    distance,
                    distance_label: distance_bracket(distance),
                    ground: ground_name(code),
                    weather: weather_name(int_or_zero(rsi, "weather")),
                    condition: condition_name(int_or_zero(rsi, "ground_condition")),
                    field_size: runners.len(),
                    player_frame,
                    player_rank,
                    runners,
                },
            )
        },
    }
}

/// Show the field that a response describes. A response without one, or with an empty one, leaves
/// the field on screen alone. Returns whether a different race was entered, so that a result shown
/// for the previous one no longer applies.
pub fn note(st: &mut FieldState, val: &Node, names: &Names) -> (r: bool)
    ensures
        (match field_of(val@, *names) {
            None => !r && *final(st) == *old(st),
            Some(f) => {
                &&& final(st).latest matches Some(g) && g@ == f
                &&& r == !(old(st).latest matches Some(g) && g.program_id == f.program_id)
            },
        }),
{
    match read_field(val, names) {
        None => false,
        Some(f) => {
            let is_new: bool = match &st.latest {
                Some(g) => g.program_id != f.program_id,
                None => true,
            };
            st.latest = Some(f);
            is_new
        },
    }
}

/// A field lists each horse once, strongest first, equal totals in the order of the response.
pub proof fn lemma_field_ranked(
    horses: Seq<Tree>,
    code: i64,
    distance: i64,
    player: i64,
    names: Names,
)
    ensures
        ({
            let listed = horses.map_values(
                |h: Tree| runner_of(h, code, distance, player, names),
            );
            let r = ranked(horses, code, distance, player, names);
            &&& r.len() == horses.len()
            &&& r.to_multiset() =~= listed.to_multiset()
            &&& forall|i: int, j: int|
                0 <= i <= j < r.len() ==> (#[trigger] r[i]).total >= (#[trigger] r[j]).total
            &&& forall|k: int| #[trigger]
                with_key(r, by_total(), k) == with_key(listed, by_total(), k)
        }),
{
    let listed = horses.map_values(|h: Tree| runner_of(h, code, distance, player, names));
    lemma_sort(listed, by_total());
    let r = ranked(horses, code, distance, player, names);
    assert forall|i: int, j: int| 0 <= i <= j < r.len() implies (#[trigger] r[i]).total >= (
    #[trigger] r[j]).total by {
        assert(by_total()(r[i]) <= by_total()(r[j]));
    }
}

/// The player's rank is the place of the first runner marked as the player.
pub proof fn lemma_rank_is_first_player(s: Seq<RunnerView>)
    ensures
        0 <= rank_of_player(s) <= s.len(),
        rank_of_player(s) > 0 ==> s[rank_of_player(s) - 1].is_player,
        forall|i: int|
            0 <= i < s.len() && (rank_of_player(s) == 0 || i < rank_of_player(s) - 1)
                ==> !(#[trigger] s[i]).is_player,
    decreases s.len(),
{
    if s.len() > 0 {
        let t = s.drop_last();
        lemma_rank_is_first_player(t);
        assert forall|i: int|
            0 <= i < s.len() && (rank_of_player(s) == 0 || i < rank_of_player(s)
                - 1) implies !(#[trigger] s[i]).is_player by {
            if i < t.len() {
                assert(t[i] == s[i]);
            }
        }
    }
}

/// The letter of an aptitude: G for 1, a better one for each step, S for 8, and a question mark for what
/// is no aptitude.
pub proof fn lemma_grade_letters(v: i64)
    ensures
        1 <= v <= 8 ==> grade_spec(v) == seq!["GFEDCBAS"@[v - 1]],
        v < 1 || v > 8 ==> grade_spec(v) == seq!['?'],
{
    reveal_strlit("GFEDCBAS");
    reveal_strlit("S");
    reveal_strlit("A");
    reveal_strlit("B");
    reveal_strlit("C");
    reveal_strlit("D");
    reveal_strlit("E");
    reveal_strlit("F");
    reveal_strlit("G");
    reveal_strlit("?");
    assert(grade_spec(v) =~= (if 1 <= v <= 8 {
        seq!["GFEDCBAS"@[v - 1]]
    } else {
        seq!['?']
    }));
}

/// The words for running styles, weather and the state of the ground, in the order of their codes.
pub proof fn lemma_words(v: i64)
    ensures
        1 <= v <= 4 ==> style_spec(v) == seq!["Front"@, "Pace"@, "Late"@, "End"@][v - 1],
        1 <= v <= 4 ==> weather_spec(v) == seq!["Sunny"@, "Cloudy"@, "Rainy"@, "Snowy"@][v - 1],
        1 <= v <= 4 ==> condition_spec(v) == seq!["Firm"@, "Good"@, "Soft"@, "Heavy"@][v - 1],
        v < 1 || v > 4 ==> style_spec(v) == "?"@ && weather_spec(v) == "?"@ && condition_spec(v) == "?"@,
        ground_spec(2) == "Dirt"@,
        v != 2 ==> ground_spec(v) == "Turf"@,
{
}

/// Races of up to 1400 m are sprints, up to 1800 m miles, up to 2400 m of medium length, and longer ones
/// long; an unknown length is 0.
pub proof fn lemma_brackets(m: i64)
    ensures
        m == 0 ==> bracket_name(bracket_of(m)) == "?"@,
        0 < m <= 1400 ==> bracket_name(bracket_of(m)) == "Sprint"@,
        1400 < m <= 1800 ==> bracket_name(bracket_of(m)) == "Mile"@,
        1800 < m <= 2400 ==> bracket_name(bracket_of(m)) == "Medium"@,
        2400 < m ==> bracket_name(bracket_of(m)) == "Long"@,
{
}

/// A runner's ground aptitude is the letter of the horse's own aptitude for the ground of the race: on
/// dirt the one for dirt, whatever the one for turf, and elsewhere the one for turf, whatever the one for
/// dirt.
pub proof fn lemma_ground_aptitude(
    h: Tree,
    g: Tree,
    code: i64,
    distance: i64,
    player: i64,
    names: Names,
)
    ensures
        code == 2 && 1 <= h.int_or_zero("proper_ground_dirt"@) <= 8 ==> runner_of(
            h,
            code,
            distance,
            player,
            names,
        ).apt_ground == seq!["GFEDCBAS"@[h.int_or_zero("proper_ground_dirt"@) - 1]],
        code != 2 && 1 <= h.int_or_zero("proper_ground_turf"@) <= 8 ==> runner_of(
            h,
            code,
            distance,
            player,
            names,
        ).apt_ground == seq!["GFEDCBAS"@[h.int_or_zero("proper_ground_turf"@) - 1]],
        code == 2 && h.int_or_zero("proper_ground_dirt"@) == g.int_or_zero("proper_ground_dirt"@)
            ==> runner_of(h, code, distance, player, names).apt_ground == runner_of(
            g,
            code,
            distance,
            player,
            names,
        ).apt_ground,
        code != 2 && h.int_or_zero("proper_ground_turf"@) == g.int_or_zero("proper_ground_turf"@)
            ==> runner_of(h, code, distance, player, names).apt_ground == runner_of(
            g,
            code,
            distance,
            player,
            names,
        ).apt_ground,
{
    lemma_grade_letters(h.int_or_zero("proper_ground_dirt"@));
    lemma_grade_letters(h.int_or_zero("proper_ground_turf"@));
}

/// A runner's distance aptitude is the letter of the horse's own aptitude for the length of the race.
pub proof fn lemma_distance_aptitude(h: Tree, code: i64, m: i64, player: i64, names: Names)
    ensures
        ({
            let apt = runner_of(h, code, m, player, names).apt_distance;
            &&& m == 0 ==> apt == seq!['?']
            &&& 0 < m <= 1400 ==> apt == grade_spec(h.int_or_zero("proper_distance_short"@))
            &&& 1400 < m <= 1800 ==> apt == grade_spec(h.int_or_zero("proper_distance_mile"@))
            &&& 1800 < m <= 2400 ==> apt == grade_spec(h.int_or_zero("proper_distance_middle"@))
            &&& 2400 < m ==> apt == grade_spec(h.int_or_zero("proper_distance_long"@))
        }),
{
    lemma_grade_letters(0);
}

/// A runner's style aptitude is the letter of the horse's own aptitude for the style that it runs.
pub proof fn lemma_style_aptitude(h: Tree, code: i64, m: i64, player: i64, names: Names)
    ensures
        ({
            let r = runner_of(h, code, m, player, names);
            let style = h.int_or_zero("running_style"@);
            &&& style == 1 ==> r.style == "Front"@ && r.apt_style == grade_spec(
                h.int_or_zero("proper_running_style_nige"@),
            )
            &&& style == 2 ==> r.style == "Pace"@ && r.apt_style == grade_spec(
                h.int_or_zero("proper_running_style_senko"@),
            )
            &&& style == 3 ==> r.style == "Late"@ && r.apt_style == grade_spec(
                h.int_or_zero("proper_running_style_sashi"@),
            )
            &&& style == 4 ==> r.style == "End"@ && r.apt_style == grade_spec(
                h.int_or_zero("proper_running_style_oikomi"@),
            )
            &&& style < 1 || style > 4 ==> r.style == "?"@ && r.apt_style == seq!['?']
        }),
{
    lemma_grade_letters(0);
}

/// Each number of a runner is the one that the server gives for it; the total is their sum; and the
/// player is told by the viewer id alone.
pub proof fn lemma_runner_numbers(h: Tree, code: i64, m: i64, player: i64, names: Names)
    ensures
        ({
            let r = runner_of(h, code, m, player, names);
            &&& r.frame == h.int_or_zero("frame_order"@)
            &&& r.speed == h.int_or_zero("speed"@)
            &&& r.stamina == h.int_or_zero("stamina"@)
            &&& r.power == h.int_or_zero("pow"@)
            &&& r.guts == h.int_or_zero("guts"@)
            &&& r.wit == h.int_or_zero("wiz"@)
            &&& 0 <= r.speed < 100_000 && 0 <= r.stamina < 100_000 && 0 <= r.power < 100_000 && 0
                <= r.guts < 100_000 && 0 <= r.wit < 100_000 ==> r.total == r.speed + r.stamina + r.power
                + r.guts + r.wit
            &&& r.popularity == h.int_or_zero("popularity"@)
            &&& r.mood == h.int_or_zero("motivation"@)
            &&& h.int_or_zero("viewer_id"@) == 0 ==> !r.is_player
            &&& player != 0 ==> (r.is_player <==> h.int_or_zero("viewer_id"@) == player)
            &&& h.get_list("skill_array"@) matches Some(l) ==> r.skills == l.len()
            &&& h.get_list("skill_array"@) is None ==> r.skills == 0
            &&& h.int_or_zero("chara_id"@) <= 1 ==> r.name.len() == 0
            &&& h.int_or_zero("chara_id"@) > 1 ==> r.name == name_of(
                names.charas@,
                h.int_or_zero("chara_id"@),
            )
        }),
{
}

/// Whether a field tells of a start: one runner for each of its horses with that horse's own numbers and
/// the letter of its own aptitude for the ground, ordered by their totals, and the player's place.
pub open spec fn tells_start(f: FieldView, start: Tree, names: Names) -> bool {
    let program = program_of(names.programs@, start.int_or_zero("program_id"@));
    let horses = start.get_list("race_horse_data"@)->0;
    &&& f.program_id == start.int_or_zero("program_id"@)
    &&& f.race_name == program.name
    &&& f.distance == program.distance
    &&& f.ground == if program.ground == 2 {
        "Dirt"@
    } else {
        "Turf"@
    }
    &&& f.weather == weather_spec(start.int_or_zero("weather"@))
    &&& f.condition == condition_spec(start.int_or_zero("ground_condition"@))
    &&& f.field_size == horses.len()
    &&& f.runners.len() == horses.len()
    &&& forall|i: int|
        0 <= i < f.runners.len() ==> exists|k: int|
            0 <= k < horses.len() && tells_horse(
                #[trigger] f.runners[i],
                #[trigger] horses[k],
                program.ground == 2,
            )
    &&& forall|i: int, j: int|
        0 <= i < j < f.runners.len() ==> (#[trigger] f.runners[i]).total >= (
        #[trigger] f.runners[j]).total
    &&& f.player_rank == 0 ==> f.player_frame == 0 && forall|i: int|
        0 <= i < f.runners.len() ==> !(#[trigger] f.runners[i]).is_player
    &&& f.player_rank != 0 ==> 1 <= f.player_rank <= f.runners.len() && f.runners[f.player_rank
        - 1].is_player && f.player_frame == f.runners[f.player_rank - 1].frame
}

/// Whether a runner has a horse's own numbers and the letter of its own aptitude for the ground.
pub open spec fn tells_horse(r: RunnerView, h: Tree, dirt: bool) -> bool {
    &&& r.frame == h.int_or_zero("frame_order"@)
    &&& r.speed == h.int_or_zero("speed"@)
    &&& r.stamina == h.int_or_zero("stamina"@)
    &&& r.power == h.int_or_zero("pow"@)
    &&& r.guts == h.int_or_zero("guts"@)
    &&& r.wit == h.int_or_zero("wiz"@)
    &&& r.apt_ground == grade_spec(
        if dirt {
            h.int_or_zero("proper_ground_dirt"@)
        } else {
            h.int_or_zero("proper_ground_turf"@)
        },
    )
}

/// The field is that of the first start that lists horses; there is none only where no start does.
pub proof fn lemma_field(t: Tree, names: Names)
    ensures
        field_of(t, names) matches Some(f) ==> exists|k: int|
            0 <= k < hits(t, "race_start_info"@).len() && (#[trigger] hits(
                t,
                "race_start_info"@,
            )[k].get_list("race_horse_data"@) matches Some(l) && l.len() > 0) && (forall|j: int|
                0 <= j < k ==> (#[trigger] hits(t, "race_start_info"@)[j].get_list(
                    "race_horse_data"@,
                ) matches Some(l) ==> l.len() == 0)) && tells_start(
                f,
                hits(t, "race_start_info"@)[k],
                names,
            ),
        field_of(t, names) is None ==> forall|j: int|
            0 <= j < hits(t, "race_start_info"@).len() ==> (#[trigger] hits(
                t,
                "race_start_info"@,
            )[j].get_list("race_horse_data"@) matches Some(l) ==> l.len() == 0),
{
    let found = hits(t, "race_start_info"@);
    lemma_first_start(found);
    if field_of(t, names) is Some {
        let f = field_of(t, names)->0;
        let k = choose|k: int|
            0 <= k < found.len() && first_start(found) == Some(found[k]) && (#[trigger] found[k].get_list(
                "race_horse_data"@,
            ) matches Some(l) && l.len() > 0) && forall|j: int|
                0 <= j < k ==> (#[trigger] found[j].get_list("race_horse_data"@) matches Some(l)
                    ==> l.len() == 0);
        let start = found[k];
        let horses = start.get_list("race_horse_data"@)->0;
        let program = program_of(names.programs@, start.int_or_zero("program_id"@));
        let player = account_viewer(t);
        lemma_field_ranked(horses, program.ground, program.distance, player, names);
        lemma_rank_is_first_player(f.runners);
        let listed = horses.map_values(
            |h: Tree| runner_of(h, program.ground, program.distance, player, names),
        );
        assert forall|i: int| 0 <= i < f.runners.len() implies exists|k: int|
            0 <= k < horses.len() && tells_horse(
                #[trigger] f.runners[i],
                #[trigger] horses[k],
                program.ground == 2,
            ) by {
            broadcast use vstd::seq_lib::group_to_multiset_ensures;

            assert(f.runners.to_multiset().count(f.runners[i]) > 0) by {
                assert(f.runners.contains(f.runners[i]));
            }
            assert(listed.to_multiset().count(f.runners[i]) > 0);
            assert(listed.contains(f.runners[i]));
            let n = choose|n: int| 0 <= n < listed.len() && listed[n] == f.runners[i];
            assert(listed[n] == runner_of(
                horses[n],
                program.ground,
                program.distance,
                player,
                names,
            ));
            assert(tells_horse(f.runners[i], horses[n], program.ground == 2));
        }
        assert(tells_start(f, start, names));
    }
}

/// The first start that lists horses is the one taken.
proof fn lemma_first_start(found: Seq<Tree>)
    ensures
        first_start(found) is Some ==> exists|k: int|
            0 <= k < found.len() && first_start(found) == Some(found[k]) && (
            #[trigger] found[k].get_list("race_horse_data"@) matches Some(l) && l.len() > 0) && forall|j: int|
                0 <= j < k ==> (#[trigger] found[j].get_list("race_horse_data"@) matches Some(l)
                    ==> l.len() == 0),
        first_start(found) is None ==> forall|j: int|
            0 <= j < found.len() ==> (#[trigger] found[j].get_list("race_horse_data"@) matches Some(l)
                ==> l.len() == 0),
    decreases found.len(),
{
    if found.len() > 0 {
        let rest = found.drop_first();
        lemma_first_start(rest);
        assert forall|j: int| 0 < j < found.len() implies #[trigger] found[j] == rest[j - 1] by {}
        match found[0].get_list("race_horse_data"@) {
            Some(l) if l.len() > 0 => {
                assert(first_start(found) == Some(found[0]));
            },
            _ => {
                if first_start(rest) is Some {
                    let k = choose|k: int|
                        0 <= k < rest.len() && first_start(rest) == Some(rest[k]) && (
                        #[trigger] rest[k].get_list("race_horse_data"@) matches Some(l) && l.len() > 0)
                            && forall|j: int|
                            0 <= j < k ==> (#[trigger] rest[j].get_list(
                                "race_horse_data"@,
                            ) matches Some(l) ==> l.len() == 0);
                    assert(found[k + 1] == rest[k]);
                    assert forall|j: int| 0 <= j < k + 1 implies (#[trigger] found[j].get_list(
                        "race_horse_data"@,
                    ) matches Some(l) ==> l.len() == 0) by {
                        if j > 0 {
                            assert(found[j] == rest[j - 1]);
                        }
                    }
                } else {
                    assert forall|j: int| 0 <= j < found.len() implies (
                    #[trigger] found[j].get_list("race_horse_data"@) matches Some(l) ==> l.len()
                        == 0) by {
                        if j > 0 {
                            assert(found[j] == rest[j - 1]);
                        }
                    }
                }
            },
        }
    }
}

/// The player is the viewer of the first viewer id of the response.
pub proof fn lemma_account_viewer(t: Tree)
    ensures
        forall|i: int|
            0 <= i < hits(t, "viewer_id"@).len() && (#[trigger] hits(
                t,
                "viewer_id"@,
            )[i] matches Tree::Int(n) && n != account_viewer(t)) ==> exists|j: int|
                0 <= j < i && #[trigger] hits(t, "viewer_id"@)[j] == Tree::Int(account_viewer(t)),
        (forall|i: int|
            0 <= i < hits(t, "viewer_id"@).len() ==> !(#[trigger] hits(t, "viewer_id"@)[i] is Int))
            ==> account_viewer(t) == 0,
{
    let s = hits(t, "viewer_id"@);
    lemma_first_of_found(s);
    lemma_first_int_found(s);
}

proof fn lemma_first_int_found(s: Seq<Tree>)
    ensures
        first_int_of(s) matches Some(n) ==> exists|j: int|
            0 <= j < s.len() && #[trigger] s[j] == Tree::Int(n) && forall|i: int|
                0 <= i < j ==> !(#[trigger] s[i] is Int),
    decreases s.len(),
{
    if s.len() > 0 {
        match s[0] {
            Tree::Int(n) => {},
            _ => {
                let t = s.drop_first();
                lemma_first_int_found(t);
                assert forall|i: int| 0 < i < s.len() implies #[trigger] s[i] == t[i - 1] by {}
                if first_int_of(t) is Some {
                    let n = first_int_of(t)->0;
                    let j = choose|j: int|
                        0 <= j < t.len() && #[trigger] t[j] == Tree::Int(n) && forall|i: int|
                            0 <= i < j ==> !(#[trigger] t[i] is Int);
                    assert(s[j + 1] == t[j]);
                    assert forall|i: int| 0 <= i < j + 1 implies !(#[trigger] s[i] is Int) by {
                        if i > 0 {
                            assert(s[i] == t[i - 1]);
                        }
                    }
                }
            },
        }
    }
}

/// A runner is seen as it is, field by field.
pub proof fn lemma_runner_view(r: Runner, f: Field)
    ensures
        r@.frame == r.frame && r@.name == r.name@ && r@.is_player == r.is_player,
        r@.speed == r.speed && r@.stamina == r.stamina && r@.power == r.power && r@.guts == r.guts && r@.wit
            == r.wit && r@.total == r.total,
        r@.style == r.style@ && r@.popularity == r.popularity && r@.mood == r.mood && r@.skills == r.skills,
        r@.apt_ground == r.apt_ground@ && r@.apt_distance == r.apt_distance@ && r@.apt_style
            == r.apt_style@,
        f@.program_id == f.program_id && f@.race_name == f.race_name@ && f@.distance == f.distance,
        f@.distance_label == f.distance_label@ && f@.ground == f.ground@ && f@.weather == f.weather@
            && f@.condition == f.condition@,
        f@.field_size == f.field_size && f@.player_frame == f.player_frame && f@.player_rank
            == f.player_rank,
        f@.runners.len() == f.runners@.len(),
        forall|i: int| 0 <= i < f.runners@.len() ==> #[trigger] f@.runners[i] == f.runners@[i]@,
{
}

} // verus!
