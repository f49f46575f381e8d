//! What the response parsers report about the account and the career in progress.

use vstd::prelude::*;

use crate::names::lines;

verus! {

/// Account resources; a field stays `None` until a response has carried it.
#[derive(Clone, Copy, PartialEq, Eq, Structural, Debug)]
pub struct Account {
    pub tp_cur: Option<i64>,
    pub tp_max: Option<i64>,
    pub rp_cur: Option<i64>,
    pub rp_max: Option<i64>,
    pub carats: Option<i64>,
    pub skill_point: Option<i64>,
    pub gold: Option<i64>,
}

/// The trainee's state on one turn.
#[derive(Clone, Copy, PartialEq, Eq, Structural, Debug)]
pub struct CareerState {
    pub turn: i64,
    pub speed: i64,
    pub stamina: i64,
    pub power: i64,
    pub guts: i64,
    pub wit: i64,
    pub skill_point: i64,
    pub fans: i64,
    pub mood: i64,
    pub energy: i64,
    pub max_energy: i64,
    pub card_id: i64,
    pub active: bool,
}

/// The bond with one support card.
#[derive(Clone, Copy, PartialEq, Eq, Structural, Debug)]
pub struct BondRow {
    pub id: i64,
    pub bond: i64,
    /// The bond has reached the game's cap of 100.
    pub maxed: bool,
}

/// The five stats.
#[derive(Clone, Copy, PartialEq, Eq, Structural, Debug)]
pub enum Stat {
    Speed,
    Stamina,
    Power,
    Guts,
    Wit,
}

/// What a training tile can raise or cost.
#[derive(Clone, Copy, PartialEq, Eq, Structural, Debug)]
pub enum Gain {
    Spd,
    Sta,
    Pwr,
    Gut,
    Wit,
    Energy,
}

impl Stat {
    /// The stat's name.
    pub open spec fn name_spec(self) -> Seq<char> {
        match self {
            Stat::Speed => "Speed"@,
            Stat::Stamina => "Stamina"@,
            Stat::Power => "Power"@,
            Stat::Guts => "Guts"@,
            Stat::Wit => "Wit"@,
        }
    }

    /// The stat's name.
    pub fn name(self) -> (r: &'static str)
        ensures
            r@ == self.name_spec(),
    {
        match self {
            Stat::Speed => "Speed",
            Stat::Stamina => "Stamina",
            Stat::Power => "Power",
            Stat::Guts => "Guts",
            Stat::Wit => "Wit",
        }
    }
}

impl Gain {
    /// The short label shown on a tile.
    pub open spec fn label_spec(self) -> Seq<char> {
        match self {
            Gain::Spd => "SPD"@,
            Gain::Sta => "STA"@,
            Gain::Pwr => "PWR"@,
            Gain::Gut => "GUT"@,
            Gain::Wit => "WIT"@,
            Gain::Energy => "Energy"@,
        }
    }

    /// The short label shown on a tile.
    pub fn label(self) -> (r: &'static str)
        ensures
            r@ == self.label_spec(),
    {
        match self {
            Gain::Spd => "SPD",
            Gain::Sta => "STA",
            Gain::Pwr => "PWR",
            Gain::Gut => "GUT",
            Gain::Wit => "WIT",
            Gain::Energy => "Energy",
        }
    }
}

/// A skill that the hint on a tile could give.
pub struct HintOption {
    pub name: String,
    /// The trainee already holds a hint of this skill's group.
    pub known: bool,
}

/// One training tile.
pub struct TrainingOpt {
    pub stat: Stat,
    pub gains: Vec<(Gain, i64)>,
    pub fail: i64,
    pub partners: Vec<String>,
    pub hint_partners: Vec<String>,
    pub hints: Vec<HintOption>,
}

/// What a training tile says.
#[verifier::ext_equal]
pub struct TrainingView {
    pub stat: Stat,
    pub gains: Seq<(Gain, i64)>,
    pub fail: i64,
    pub partners: Seq<Seq<char>>,
    pub hint_partners: Seq<Seq<char>>,
    pub hints: Seq<(Seq<char>, bool)>,
}

/// What a row of hint options says.
pub open spec fn hint_views(s: Seq<HintOption>) -> Seq<(Seq<char>, bool)> {
    s.map_values(|h: HintOption| (h.name@, h.known))
}

impl View for TrainingOpt {
    type V = TrainingView;

    open spec fn view(&self) -> TrainingView {
        TrainingView {
            stat: self.stat,
            gains: self.gains@,
            fail: self.fail,
            partners: lines(self.partners@),
            hint_partners: lines(self.hint_partners@),
            hints: hint_views(self.hints@),
        }
    }
}

/// What a row of tiles says.
pub open spec fn tile_views(s: Seq<TrainingOpt>) -> Seq<TrainingView> {
    s.map_values(|t: TrainingOpt| t@)
}

/// One race of the career plan.
pub struct PlannedRace {
    pub year: i64,
    pub program_id: i64,
    pub name: String,
    pub distance: i64,
    pub ground: &'static str,
    /// Entered by the player, rather than rolled by the career.
    pub reserved: bool,
}

/// What a planned race says.
#[verifier::ext_equal]
pub struct PlannedView {
    pub year: i64,
    pub program_id: i64,
    pub name: Seq<char>,
    pub distance: i64,
    pub ground: Seq<char>,
    pub reserved: bool,
}

impl View for PlannedRace {
    type V = PlannedView;

    open spec fn view(&self) -> PlannedView {
        PlannedView {
            year: self.year,
            program_id: self.program_id,
            name: self.name@,
            distance: self.distance,
            ground: self.ground@,
            reserved: self.reserved,
        }
    }
}

/// What a row of planned races says.
pub open spec fn plan_views(s: Seq<PlannedRace>) -> Seq<PlannedView> {
    s.map_values(|p: PlannedRace| p@)
}

/// The record of a finished career.
pub struct FinishPayload {
    pub card_id: i64,
    pub rank_score: i64,
    pub fans: i64,
    pub speed: i64,
    pub stamina: i64,
    pub power: i64,
    pub guts: i64,
    pub wit: i64,
    pub skill_point: i64,
    pub wins: i64,
    pub race_count: i64,
    pub scenario_id: i64,
    pub factor_ids: Vec<i64>,
    pub inherited_factor_ids: Vec<i64>,
    pub skill_ids: Vec<i64>,
    pub bonds: Vec<BondRow>,
    pub running_style: i64,
    pub proper_distance: i64,
    pub difficulty: i64,
    /// Integers on the finish block whose key speaks of the scenario, a score or a rank.
    pub scenario_results: Vec<(String, i64)>,
    /// Integers on the trained character.
    pub raw: Vec<(String, i64)>,
    /// Which optional parts were found.
    pub resolved: Vec<&'static str>,
}

/// What stats and gains are called.
pub proof fn lemma_labels()
    ensures
        Stat::Speed.name_spec() == "Speed"@,
        Stat::Stamina.name_spec() == "Stamina"@,
        Stat::Power.name_spec() == "Power"@,
        Stat::Guts.name_spec() == "Guts"@,
        Stat::Wit.name_spec() == "Wit"@,
        Gain::Spd.label_spec() == "SPD"@,
        Gain::Sta.label_spec() == "STA"@,
        Gain::Pwr.label_spec() == "PWR"@,
        Gain::Gut.label_spec() == "GUT"@,
        Gain::Wit.label_spec() == "WIT"@,
        Gain::Energy.label_spec() == "Energy"@,
{
}

/// No two stats share a name, and no two gains a label.
pub proof fn lemma_labels_differ(a: Stat, b: Stat, g: Gain, h: Gain)
    ensures
        a.name_spec() == b.name_spec() ==> a == b,
        g.label_spec() == h.label_spec() ==> g == h,
{
    reveal_strlit("Speed");
    reveal_strlit("Stamina");
    reveal_strlit("Power");
    reveal_strlit("Guts");
    reveal_strlit("Wit");
    reveal_strlit("SPD");
    reveal_strlit("STA");
    reveal_strlit("PWR");
    reveal_strlit("GUT");
    reveal_strlit("WIT");
    reveal_strlit("Energy");
    assert("Speed"@[0] == 'S' && "Power"@[0] == 'P' && "Speed"@.len() == 5 && "Power"@.len() == 5
        && "Stamina"@.len() == 7 && "Guts"@.len() == 4 && "Wit"@.len() == 3);
    assert("SPD"@[0] == 'S' && "STA"@[0] == 'S' && "SPD"@[1] == 'P' && "STA"@[1] == 'T' && "PWR"@[0] == 'P'
        && "GUT"@[0] == 'G' && "WIT"@[0] == 'W' && "Energy"@[0] == 'E');
}

/// A tile and a planned race are seen as they are, field by field.
pub proof fn lemma_career_views(t: TrainingOpt, p: PlannedRace, hints: Seq<HintOption>, tiles: Seq<TrainingOpt>)
    ensures
        t@.stat == t.stat && t@.gains == t.gains@ && t@.fail == t.fail,
        t@.partners == lines(t.partners@) && t@.hint_partners == lines(t.hint_partners@) && t@.hints
            == hint_views(t.hints@),
        p@.year == p.year && p@.program_id == p.program_id && p@.name == p.name@ && p@.distance
            == p.distance && p@.ground == p.ground@ && p@.reserved == p.reserved,
        hint_views(hints).len() == hints.len(),
        forall|i: int|
            0 <= i < hints.len() ==> #[trigger] hint_views(hints)[i] == (hints[i].name@, hints[i].known),
        tile_views(tiles).len() == tiles.len(),
        forall|i: int| 0 <= i < tiles.len() ==> #[trigger] tile_views(tiles)[i] == tiles[i]@,
{
}

} // verus!
