//! Account resources, the trainee's state and the career panels, read off one response.

use vstd::prelude::*;

use crate::career::{Account, BondRow, CareerState, Gain, HintOption, Stat, TrainingOpt, TrainingView};
use crate::career::{hint_views, tile_views};
use crate::msgpack::{
    as_arr, find_all, find_first, first_int, get_int, get_list, int_or_zero, node_int, Node, Tree,
};
use crate::msgpack::{first_hit, hits, keys_of, or_zero, trees, trees_ref};
use crate::names::{find_group, find_name, find_pool, Names};
use crate::names::{group_of, lines, name_of, pool_of};
use crate::text::{same, show_i64};
use crate::text::dec;

verus! {

/// What one response says about the account and the career.
pub struct AccountReport {
    pub account: Account,
    /// A trainee was described: a career is in progress.
    pub career_present: bool,
    /// The trainee's state, once the career has reached its first turn.
    pub career: Option<CareerState>,
    /// Held items, one line each; `None` keeps the lines shown before.
    pub items: Option<Vec<String>>,
    /// Shop offers, one line each; `None` keeps the lines shown before.
    pub catalog: Option<Vec<String>>,
    /// Support-card bonds; `None` keeps the rows shown before.
    pub bonds: Option<Vec<BondRow>>,
    /// Training tiles; `None` keeps the tiles shown before.
    pub training: Option<Vec<TrainingOpt>>,
    /// Place and gained fans of a race that just ended.
    pub race_result: Option<(i64, i64)>,
    /// A race ended: the field that was shown for it is history.
    pub race_over: bool,
    /// The race that ended was a first-grade win.
    pub g1_win: bool,
    /// Skills bought: id, name, cost.
    pub purchases: Vec<(i64, String, i64)>,
}

/// A newly read number, or the one held before.
pub open spec fn newer(found: Option<i64>, prior: Option<i64>) -> Option<i64> {
    match found {
        Some(n) => Some(n),
        None => prior,
    }
}

/// The number under `key` of a block that may be missing.
pub open spec fn block_int(block: Option<Tree>, key: Seq<char>) -> Option<i64> {
    match block {
        Some(b) => b.get_int(key),
        None => None,
    }
}

/// Carats: paid plus free coins, or the single count that some responses carry instead.
pub open spec fn carats_of(coin: Option<Tree>) -> Option<i64> {
    match coin {
        None => None,
        Some(c) => match c.get_int("coin"@) {
            Some(n) => Some(n.wrapping_add(c.int_or_zero("fcoin"@))),
            None => c.get_int("coin_num"@),
        },
    }
}

/// The number of race coins, under whichever name the block has it.
pub open spec fn gold_of(chara: Option<Tree>) -> Option<i64> {
    match chara {
        None => None,
        Some(c) => c.first_int(seq!["money"@, "current_money"@, "gold"@]),
    }
}

/// The account after a response: what it carries, and what was known before for the rest.
pub open spec fn account_of(t: Tree, prior: Account) -> Account {
    let tp = first_hit(t, "tp_info"@);
    let rp = first_hit(t, "rp_info"@);
    let ci = first_hit(t, "chara_info"@);
    Account {
        tp_cur: newer(block_int(tp, "current_tp"@), prior.tp_cur),
        tp_max: newer(block_int(tp, "max_tp"@), prior.tp_max),
        rp_cur: newer(block_int(rp, "current_rp"@), prior.rp_cur),
        rp_max: newer(block_int(rp, "max_rp"@), prior.rp_max),
        carats: newer(carats_of(first_hit(t, "coin_info"@)), prior.carats),
        skill_point: newer(block_int(ci, "skill_point"@), prior.skill_point),
        gold: newer(gold_of(ci), prior.gold),
    }
}

/// The trainee's state in a `chara_info` block.
pub open spec fn state_of(ci: Tree) -> CareerState {
    CareerState {
        turn: ci.int_or_zero("turn"@),
        speed: ci.int_or_zero("speed"@),
        stamina: ci.int_or_zero("stamina"@),
        power: ci.int_or_zero("power"@),
        guts: ci.int_or_zero("guts"@),
        wit: ci.int_or_zero("wiz"@),
        skill_point: ci.int_or_zero("skill_point"@),
        fans: ci.int_or_zero("fans"@),
        mood: ci.int_or_zero("motivation"@),
        energy: ci.int_or_zero("vital"@),
        max_energy: ci.int_or_zero("max_vital"@),
        card_id: ci.int_or_zero("card_id"@),
        active: true,
    }
}

/// The trainee's state, from the first turn on.
pub open spec fn career_of(t: Tree) -> Option<CareerState> {
    match first_hit(t, "chara_info"@) {
        Some(ci) if ci.int_or_zero("turn"@) > 0 => Some(state_of(ci)),
        _ => None,
    }
}

/// The turn a response belongs to; 0 when it does not say.
pub open spec fn turn_of(t: Tree) -> i64 {
    match first_hit(t, "chara_info"@) {
        Some(ci) => ci.int_or_zero("turn"@),
        None => 0,
    }
}

/// How many of an item a row speaks of.
pub open spec fn item_count(row: Tree) -> i64 {
    or_zero(row.first_int(seq!["num"@, "current_num"@, "item_num"@]))
}

/// One line, name and count, for each row with an item and a positive count.
pub open spec fn item_lines(rows: Seq<Tree>, names: Names) -> Seq<Seq<char>>
    decreases rows.len(),
{
    if rows.len() == 0 {
        Seq::empty()
    } else {
        let before = item_lines(rows.drop_last(), names);
        let row = rows.last();
        let id = row.int_or_zero("item_id"@);
        if id > 0 && item_count(row) > 0 {
            before.push(name_of(names.items@, id) + " x"@ + dec(item_count(row) as int))
        } else {
            before
        }
    }
}

/// Whether a shop row can still be bought on `turn`: not sold out and not expired.
pub open spec fn on_offer(row: Tree, turn: i64) -> bool {
    let limit = row.int_or_zero("limit_buy_count"@);
    let limit_turn = row.int_or_zero("limit_turn"@);
    !(limit > 0 && row.int_or_zero("item_buy_num"@) >= limit) && !(limit_turn > 0 && limit_turn
        < turn)
}

/// One line, name and cost, for each offer that can still be bought.
pub open spec fn catalog_lines(rows: Seq<Tree>, turn: i64, names: Names) -> Seq<Seq<char>>
    decreases rows.len(),
{
    if rows.len() == 0 {
        Seq::empty()
    } else {
        let before = catalog_lines(rows.drop_last(), turn, names);
        let row = rows.last();
        if on_offer(row, turn) {
            before.push(
                name_of(names.items@, row.int_or_zero("item_id"@)) + " ("@ + dec(
                    row.int_or_zero("coin_num"@) as int,
                ) + ")"@,
            )
        } else {
            before
        }
    }
}

/// The array under `key` of the scenario's own data block.
pub open spec fn free_list(t: Tree, key: Seq<char>) -> Option<Seq<Tree>> {
    match first_hit(t, "free_data_set"@) {
        Some(f) => f.get_list(key),
        None => None,
    }
}

/// The card a bond row speaks of.
pub open spec fn bond_card(row: Tree) -> i64 {
    or_zero(row.first_int(seq!["support_card_id"@, "card_id"@, "id"@]))
}

/// The bond a bond row speaks of.
pub open spec fn bond_value(row: Tree) -> i64 {
    or_zero(row.first_int(seq!["evaluation"@, "friendship"@, "bond"@, "evaluation_point"@]))
}

/// A bond for each row that names a card.
pub open spec fn bond_rows(rows: Seq<Tree>) -> Seq<BondRow>
    decreases rows.len(),
{
    if rows.len() == 0 {
        Seq::empty()
    } else {
        let before = bond_rows(rows.drop_last());
        let row = rows.last();
        if bond_card(row) > 0 {
            before.push(
                BondRow {
                    id: bond_card(row),
                    bond: bond_value(row),
                    maxed: bond_value(row) >= 100,
                },
            )
        } else {
            before
        }
    }
}

/// The bonds of the first of `keys` that holds any.
pub open spec fn first_bonds(ci: Tree, keys: Seq<Seq<char>>) -> Option<Seq<BondRow>>
    decreases keys.len(),
{
    if keys.len() == 0 {
        None
    } else {
        match ci.get_list(keys[0]) {
            Some(rows) if bond_rows(rows).len() > 0 => Some(bond_rows(rows)),
            _ => first_bonds(ci, keys.drop_first()),
        }
    }
}

/// The keys that a list of support cards has been seen under.
pub open spec fn bond_keys() -> Seq<Seq<char>> {
    seq!["support_card_array"@, "support_card_list"@, "training_partner_array"@]
}

/// The live bonds of the trainee, if the response lists any.
pub open spec fn bonds_of(t: Tree) -> Option<Seq<BondRow>> {
    match first_hit(t, "chara_info"@) {
        Some(ci) => first_bonds(ci, bond_keys()),
        None => None,
    }
}

/// The stat that a command trains; the 6xx ids are the summer-camp variants.
pub open spec fn stat_of(command: i64) -> Option<Stat> {
    if command == 101 || command == 601 {
        Some(Stat::Speed)
    } else if command == 105 || command == 602 {
        Some(Stat::Stamina)
    } else if command == 102 || command == 603 {
        Some(Stat::Power)
    } else if command == 103 || command == 604 {
        Some(Stat::Guts)
    } else if command == 106 || command == 605 {
        Some(Stat::Wit)
    } else {
        None
    }
}

/// What a parameter's target type raises.
pub open spec fn gain_of(target: i64) -> Option<Gain> {
    if target == 1 {
        Some(Gain::Spd)
    } else if target == 2 {
        Some(Gain::Sta)
    } else if target == 3 {
        Some(Gain::Pwr)
    } else if target == 4 {
        Some(Gain::Gut)
    } else if target == 5 {
        Some(Gain::Wit)
    } else if target == 30 {
        Some(Gain::Energy)
    } else {
        None
    }
}

/// Add `v` to the entry for `g`, which is appended when there is none.
pub open spec fn add_gain(gains: Seq<(Gain, i64)>, g: Gain, v: i64) -> Seq<(Gain, i64)>
    decreases gains.len(),
{
    if gains.len() == 0 {
        seq![(g, v)]
    } else if gains[0].0 == g {
        seq![(g, gains[0].1.wrapping_add(v))] + gains.drop_first()
    } else {
        seq![gains[0]] + add_gain(gains.drop_first(), g, v)
    }
}

/// The gains of a tile, summed per target, in order of first appearance.
pub open spec fn gains_of(params: Seq<Tree>) -> Seq<(Gain, i64)>
    decreases params.len(),
{
    if params.len() == 0 {
        Seq::empty()
    } else {
        let before = gains_of(params.drop_last());
        let p = params.last();
        match gain_of(p.int_or_zero("target_type"@)) {
            Some(g) => add_gain(before, g, p.int_or_zero("value"@)),
            None => before,
        }
    }
}

/// The card in deck position `pos`: the last row that gives both that position and a card.
pub open spec fn deck_card(cards: Seq<Tree>, pos: i64) -> Option<i64>
    decreases cards.len(),
{
    if cards.len() == 0 {
        None
    } else {
        let row = cards.last();
        if row.get_int("position"@) == Some(pos) && row.get_int("support_card_id"@) is Some {
            row.get_int("support_card_id"@)
        } else {
            deck_card(cards.drop_last(), pos)
        }
    }
}

/// What a support card is called.
pub open spec fn card_label(id: i64, names: Names) -> Seq<char> {
    if name_of(names.supports@, id).len() == 0 {
        "Card #"@ + dec(id as int)
    } else {
        name_of(names.supports@, id)
    }
}

/// What a training partner is called: a deck position by its card, a character by its name, and
/// anything else by its number.
pub open spec fn partner_label(id: i64, cards: Seq<Tree>, names: Names) -> Seq<char> {
    if 1 <= id <= 6 && deck_card(cards, id) is Some {
        card_label(deck_card(cards, id)->0, names)
    } else if id >= 1000 && name_of(names.charas@, id).len() > 0 {
        name_of(names.charas@, id)
    } else {
        "Partner #"@ + dec(id as int)
    }
}

/// The labels of a row of partners.
pub open spec fn partner_labels(ids: Seq<i64>, cards: Seq<Tree>, names: Names) -> Seq<Seq<char>> {
    ids.map_values(|id: i64| partner_label(id, cards, names))
}

/// The integers of an array, in order.
pub open spec fn ints_of(rows: Seq<Tree>) -> Seq<i64>
    decreases rows.len(),
{
    if rows.len() == 0 {
        Seq::empty()
    } else {
        match rows.last() {
            Tree::Int(n) => ints_of(rows.drop_last()).push(n),
            _ => ints_of(rows.drop_last()),
        }
    }
}

/// The integers of the array under `key`; none when there is no array.
pub open spec fn slots_of(cmd: Tree, key: Seq<char>) -> Seq<i64> {
    match cmd.get_list(key) {
        Some(rows) => ints_of(rows),
        None => Seq::empty(),
    }
}

/// Whether the trainee already holds a hint of group `g`.
pub open spec fn holds_group(held: Seq<Tree>, g: i64) -> bool {
    exists|i: int| 0 <= i < held.len() && (#[trigger] held[i]).get_int("group_id"@) == Some(g)
}

/// Whether the trainee already holds a hint of the group that a skill belongs to.
pub open spec fn skill_known(skill: Seq<char>, held: Seq<Tree>, names: Names) -> bool {
    match group_of(names.skill_groups@, skill) {
        Some(g) => holds_group(held, g),
        None => false,
    }
}

/// Whether a skill is already listed.
pub open spec fn listed(hints: Seq<(Seq<char>, bool)>, skill: Seq<char>) -> bool {
    exists|i: int| 0 <= i < hints.len() && (#[trigger] hints[i]).0 == skill
}

/// The skills of a pool added to those listed, each once.
pub open spec fn add_pool(
    hints: Seq<(Seq<char>, bool)>,
    pool: Seq<Seq<char>>,
    held: Seq<Tree>,
    names: Names,
) -> Seq<(Seq<char>, bool)>
    decreases pool.len(),
{
    if pool.len() == 0 {
        hints
    } else {
        let before = add_pool(hints, pool.drop_last(), held, names);
        if listed(before, pool.last()) {
            before
        } else {
            before.push((pool.last(), skill_known(pool.last(), held, names)))
        }
    }
}

/// The pools of the cards that offer a hint, pooled in order.
pub open spec fn pooled_hints(
    tips: Seq<i64>,
    cards: Seq<Tree>,
    held: Seq<Tree>,
    names: Names,
) -> Seq<(Seq<char>, bool)>
    decreases tips.len(),
{
    if tips.len() == 0 {
        Seq::empty()
    } else {
        let before = pooled_hints(tips.drop_last(), cards, held, names);
        match deck_card(cards, tips.last()) {
            Some(card) => add_pool(before, pool_of(names.hint_pools@, card), held, names),
            None => before,
        }
    }
}

/// The hints whose flag is `known`, in order.
pub open spec fn with_known(hints: Seq<(Seq<char>, bool)>, known: bool) -> Seq<(Seq<char>, bool)>
    decreases hints.len(),
{
    if hints.len() == 0 {
        Seq::empty()
    } else if hints.last().1 == known {
        with_known(hints.drop_last(), known).push(hints.last())
    } else {
        with_known(hints.drop_last(), known)
    }
}

/// The hints a tile could give: new skills before known ones, otherwise in pool order.
pub open spec fn hints_of(
    tips: Seq<i64>,
    cards: Seq<Tree>,
    held: Seq<Tree>,
    names: Names,
) -> Seq<(Seq<char>, bool)> {
    let pooled = pooled_hints(tips, cards, held, names);
    with_known(pooled, false) + with_known(pooled, true)
}

/// The tile for a training command, if it is one.
pub open spec fn tile_of(
    cmd: Tree,
    cards: Seq<Tree>,
    held: Seq<Tree>,
    names: Names,
) -> Option<TrainingView> {
    if cmd.int_or_zero("command_type"@) != 1 {
        None
    } else {
        match stat_of(cmd.int_or_zero("command_id"@)) {
            None => None,
            Some(stat) => Some(
                TrainingView {
                    stat,
                    gains: match cmd.get_list("params_inc_dec_info_array"@) {
                        Some(params) => gains_of(params),
                        None => Seq::empty(),
                    },
                    fail: cmd.int_or_zero("failure_rate"@),
                    partners: partner_labels(
                        slots_of(cmd, "training_partner_array"@),
                        cards,
                        names,
                    ),
                    hint_partners: partner_labels(
                        slots_of(cmd, "tips_event_partner_array"@),
                        cards,
                        names,
                    ),
                    hints: hints_of(slots_of(cmd, "tips_event_partner_array"@), cards, held, names),
                },
            ),
        }
    }
}

/// The tiles of a list of commands, in order.
pub open spec fn tiles_of(
    rows: Seq<Tree>,
    cards: Seq<Tree>,
    held: Seq<Tree>,
    names: Names,
) -> Seq<TrainingView>
    decreases rows.len(),
{
    if rows.len() == 0 {
        Seq::empty()
    } else {
        let before = tiles_of(rows.drop_last(), cards, held, names);
        match tile_of(rows.last(), cards, held, names) {
            Some(tile) => before.push(tile),
            None => before,
        }
    }
}

/// An array of the trainee's block; empty when there is none.
pub open spec fn chara_list(t: Tree, key: Seq<char>) -> Seq<Tree> {
    match first_hit(t, "chara_info"@) {
        Some(ci) => match ci.get_list(key) {
            Some(l) => l,
            None => Seq::empty(),
        },
        None => Seq::empty(),
    }
}

/// The training tiles, if the response lists commands.
pub open spec fn training_of(t: Tree, names: Names) -> Option<Seq<TrainingView>> {
    match first_hit(t, "home_info"@) {
        Some(home) => match home.get_list("command_info_array"@) {
            Some(rows) => Some(
                tiles_of(
                    rows,
                    chara_list(t, "support_card_array"@),
                    chara_list(t, "skill_tips_array"@),
                    names,
                ),
            ),
            None => None,
        },
        None => None,
    }
}

/// Place and gained fans, when the response tells of either.
pub open spec fn race_result_of(t: Tree) -> Option<(i64, i64)> {
    match first_hit(t, "race_reward_info"@) {
        Some(rr) => {
            let rank = rr.int_or_zero("result_rank"@);
            let fans = rr.int_or_zero("gained_fans"@);
            if rank > 0 || fans > 0 {
                Some((rank, fans))
            } else {
                None
            }
        },
        None => None,
    }
}

/// Whether the race that ended was won and of the first grade; a missing grade does not count.
pub open spec fn g1_win_of(t: Tree) -> bool {
    match first_hit(t, "race_reward_info"@) {
        Some(rr) => rr.int_or_zero("result_rank"@) == 1 && or_zero(
            rr.first_int(seq!["grade"@, "race_grade"@, "grade_id"@]),
        ) == 1,
        None => false,
    }
}

/// The skill a purchase row speaks of.
pub open spec fn bought_skill(row: Tree) -> i64 {
    or_zero(row.first_int(seq!["skill_id"@, "id"@]))
}

/// The cost a purchase row speaks of.
pub open spec fn bought_cost(row: Tree) -> i64 {
    or_zero(
        row.first_int(
            seq!["need_skill_point"@, "skill_point"@, "cost"@, "consume_skill_point"@],
        ),
    )
}

/// What a purchase says: id, name, cost.
pub open spec fn bought_views(s: Seq<(i64, String, i64)>) -> Seq<(i64, Seq<char>, i64)> {
    s.map_values(|p: (i64, String, i64)| (p.0, p.1@, p.2))
}

/// A purchase for each row with a skill and a cost.
pub open spec fn bought_rows(rows: Seq<Tree>, names: Names) -> Seq<(i64, Seq<char>, i64)>
    decreases rows.len(),
{
    if rows.len() == 0 {
        Seq::empty()
    } else {
        let before = bought_rows(rows.drop_last(), names);
        let row = rows.last();
        if bought_skill(row) > 0 && bought_cost(row) > 0 {
            before.push(
                (bought_skill(row), name_of(names.skills@, bought_skill(row)), bought_cost(row)),
            )
        } else {
            before
        }
    }
}

/// The purchases of every array in a row of values.
pub open spec fn bought_in(found: Seq<Tree>, names: Names) -> Seq<(i64, Seq<char>, i64)>
    decreases found.len(),
{
    if found.len() == 0 {
        Seq::empty()
    } else {
        let before = bought_in(found.drop_last(), names);
        match found.last() {
            Tree::List(rows) => before + bought_rows(rows, names),
            _ => before,
        }
    }
}

/// Every purchase that a response tells of.
pub open spec fn purchases_of(t: Tree, names: Names) -> Seq<(i64, Seq<char>, i64)> {
    bought_in(hits(t, "skill_learning_info_array"@), names) + bought_in(
        hits(t, "learning_skill_array"@),
        names,
    ) + bought_in(hits(t, "skill_tips_array"@), names)
}

/// What an optional row of strings spells.
pub open spec fn opt_lines(s: Option<Vec<String>>) -> Option<Seq<Seq<char>>> {
    match s {
        Some(v) => Some(lines(v@)),
        None => None,
    }
}

impl AccountReport {
    /// Whether this is the report on a response with contents `t`.
    pub open spec fn tells(self, t: Tree, prior: Account, names: Names) -> bool {
        &&& self.account == account_of(t, prior)
        &&& self.career_present == (first_hit(t, "chara_info"@) is Some)
        &&& self.career == career_of(t)
        &&& opt_lines(self.items) == (match free_list(t, "user_item_info_array"@) {
            Some(rows) => Some(item_lines(rows, names)),
            None => None,
        })
        &&& opt_lines(self.catalog) == (match free_list(t, "pick_up_item_info_array"@) {
            Some(rows) => Some(catalog_lines(rows, turn_of(t), names)),
            None => None,
        })
        &&& (match self.bonds {
            Some(b) => Some(b@),
            None => None,
        }) == bonds_of(t)
        &&& (match self.training {
            Some(o) => Some(tile_views(o@)),
            None => None,
        }) == training_of(t, names)
        &&& self.race_result == race_result_of(t)
        &&& self.race_over == (first_hit(t, "race_reward_info"@) is Some)
        &&& self.g1_win == g1_win_of(t)
        &&& bought_views(self.purchases@) == purchases_of(t, names)
    }
}

/// The number under `key` of a block that may be missing.
fn opt_int(block: Option<&Node>, key: &str) -> (r: Option<i64>)
    ensures
        r == block_int(
            (match block {
                Some(n) => Some(n@),
                None => None,
            }),
            key@,
        ),
{
    match block {
        Some(n) => get_int(n, key),
        None => None,
    }
}

/// A newly read number, or the one held before.
fn newer_of(found: Option<i64>, prior: Option<i64>) -> (r: Option<i64>)
    ensures
        r == newer(found, prior),
{
    match found {
        Some(n) => Some(n),
        None => prior,
    }
}

/// The account after a response.
fn read_account(val: &Node, prior: Account) -> (r: Account)
    ensures
        r == account_of(val@, prior),
{
    let tp = find_first(val, "tp_info");
    let rp = find_first(val, "rp_info");
    let coin = find_first(val, "coin_info");
    let ci = find_first(val, "chara_info");
    let carats: Option<i64> = match coin {
        None => None,
        Some(c) => match get_int(c, "coin") {
            Some(n) => Some(n.wrapping_add(int_or_zero(c, "fcoin"))),
            None => get_int(c, "coin_num"),
        },
    };
    let gold: Option<i64> = match ci {
        None => None,
        Some(c) => {
            let ks: [&str; 3] = ["money", "current_money", "gold"];
            assert(keys_of(ks@) =~= seq!["money"@, "current_money"@, "gold"@]);
            first_int(c, ks.as_slice())
        },
    };
    Account {
        tp_cur: newer_of(opt_int(tp, "current_tp"), prior.tp_cur),
        tp_max: newer_of(opt_int(tp, "max_tp"), prior.tp_max),
        rp_cur: newer_of(opt_int(rp, "current_rp"), prior.rp_cur),
        rp_max: newer_of(opt_int(rp, "max_rp"), prior.rp_max),
        carats: newer_of(carats, prior.carats),
        skill_point: newer_of(opt_int(ci, "skill_point"), prior.skill_point),
        gold: newer_of(gold, prior.gold),
    }
}

/// The trainee's state in a `chara_info` block.
fn read_state(ci: &Node) -> (r: CareerState)
    ensures
        r == state_of(ci@),
{
    CareerState {
        turn: int_or_zero(ci, "turn"),
        speed: int_or_zero(ci, "speed"),
        stamina: int_or_zero(ci, "stamina"),
        power: int_or_zero(ci, "power"),
        guts: int_or_zero(ci, "guts"),
        wit: int_or_zero(ci, "wiz"),
        skill_point: int_or_zero(ci, "skill_point"),
        fans: int_or_zero(ci, "fans"),
        mood: int_or_zero(ci, "motivation"),
        energy: int_or_zero(ci, "vital"),
        max_energy: int_or_zero(ci, "max_vital"),
        card_id: int_or_zero(ci, "card_id"),
        active: true,
    }
}

/// One line per held item.
fn read_items(rows: &Vec<Node>, names: &Names) -> (r: Vec<String>)
    ensures
        lines(r@) == item_lines(trees(rows@), *names),
{
    let ghost all = trees(rows@);
    let mut out: Vec<String> = Vec::new();
    let mut i: usize = 0;
    let ks: [&str; 3] = ["num", "current_num", "item_num"];
    assert(keys_of(ks@) =~= seq!["num"@, "current_num"@, "item_num"@]);
    assert(lines(out@) =~= item_lines(all.take(0), *names));
    while i < rows.len()
        invariant
            i <= rows.len(),
            all == trees(rows@),
            keys_of(ks@) == seq!["num"@, "current_num"@, "item_num"@],
            lines(out@) == item_lines(all.take(i as int), *names),
        decreases rows.len() - i,
    {
        let row = &rows[i];
        assert(all.take(i as int + 1).drop_last() =~= all.take(i as int));
        assert(all.take(i as int + 1).last() == row@);
        let id: i64 = int_or_zero(row, "item_id");
        let num: i64 = match first_int(row, ks.as_slice()) {
            Some(n) => n,
            None => 0,
        };
        let ghost before = out@;
        if id > 0 && num > 0 {
            let mut line = find_name(&names.items, id);
            line.append(" x");
            line.append(show_i64(num).as_str());
            out.push(line);
            assert(lines(out@) =~= lines(before).push(line@));
        }
        i = i + 1;
    }
    assert(all.take(i as int) =~= all);
    out
}

/// One line per shop offer that can still be bought.
fn read_catalog(rows: &Vec<Node>, turn: i64, names: &Names) -> (r: Vec<String>)
    ensures
        lines(r@) == catalog_lines(trees(rows@), turn, *names),
{
    let ghost all = trees(rows@);
    let mut out: Vec<String> = Vec::new();
    let mut i: usize = 0;
    assert(lines(out@) =~= catalog_lines(all.take(0), turn, *names));
    while i < rows.len()
        invariant
            i <= rows.len(),
            all == trees(rows@),
            lines(out@) == catalog_lines(all.take(i as int), turn, *names),
        decreases rows.len() - i,
    {
        let row = &rows[i];
        assert(all.take(i as int + 1).drop_last() =~= all.take(i as int));
        assert(all.take(i as int + 1).last() == row@);
        let limit: i64 = int_or_zero(row, "limit_buy_count");
        let limit_turn: i64 = int_or_zero(row, "limit_turn");
        let sold_out = limit > 0 && int_or_zero(row, "item_buy_num") >= limit;
        let expired = limit_turn > 0 && limit_turn < turn;
        let ghost before = out@;
        if !sold_out && !expired {
            let mut line = find_name(&names.items, int_or_zero(row, "item_id"));
            line.append(" (");
            line.append(show_i64(int_or_zero(row, "coin_num")).as_str());
            line.append(")");
            out.push(line);
            assert(lines(out@) =~= lines(before).push(line@));
        }
        i = i + 1;
    }
    assert(all.take(i as int) =~= all);
    out
}

/// A bond for each row that names a card.
pub fn read_bonds(rows: &Vec<Node>) -> (r: Vec<BondRow>)
    ensures
        r@ == bond_rows(trees(rows@)),
{
    let ghost all = trees(rows@);
    let mut out: Vec<BondRow> = Vec::new();
    let ks: [&str; 3] = ["support_card_id", "card_id", "id"];
    let ls: [&str; 4] = ["evaluation", "friendship", "bond", "evaluation_point"];
    assert(keys_of(ks@) =~= seq!["support_card_id"@, "card_id"@, "id"@]);
    assert(keys_of(ls@) =~= seq!["evaluation"@, "friendship"@, "bond"@, "evaluation_point"@]);
    assert(out@ =~= bond_rows(all.take(0)));
    let mut i: usize = 0;
    while i < rows.len()
        invariant
            i <= rows.len(),
            all == trees(rows@),
            keys_of(ks@) == seq!["support_card_id"@, "card_id"@, "id"@],
            keys_of(ls@) == seq!["evaluation"@, "friendship"@, "bond"@, "evaluation_point"@],
            out@ == bond_rows(all.take(i as int)),
        decreases rows.len() - i,
    {
        let row = &rows[i];
        assert(all.take(i as int + 1).drop_last() =~= all.take(i as int));
        assert(all.take(i as int + 1).last() == row@);
        let id: i64 = match first_int(row, ks.as_slice()) {
            Some(n) => n,
            None => 0,
        };
        let bond: i64 = match first_int(row, ls.as_slice()) {
            Some(n) => n,
            None => 0,
        };
        if id > 0 {
            out.push(BondRow { id, bond, maxed: bond >= 100 });
        }
        i = i + 1;
    }
    assert(all.take(i as int) =~= all);
    out
}

/// The live bonds in a `chara_info` block.
fn read_first_bonds(ci: &Node) -> (r: Option<Vec<BondRow>>)
    ensures
        (match r {
            Some(b) => Some(b@),
            None => None,
        }) == first_bonds(ci@, bond_keys()),
{
    let ks: [&str; 3] = ["support_card_array", "support_card_list", "training_partner_array"];
    let ghost all = bond_keys();
    assert(keys_of(ks@) =~= all);
    assert(all.skip(0) =~= all);
    let mut i: usize = 0;
    while i < 3
        invariant
            i <= 3,
            keys_of(ks@) == all,
            first_bonds(ci@, bond_keys()) == first_bonds(ci@, all.skip(i as int)),
        decreases 3 - i,
    {
        assert(all.len() == 3);
        assert(all.skip(i as int)[0] == ks@[i as int]@);
        if let Some(rows) = get_list(ci, ks[i]) {
            let b = read_bonds(rows);
            if b.len() > 0 {
                return Some(b);
            }
        }
        assert(all.skip(i as int).drop_first() =~= all.skip(i as int + 1));
        i = i + 1;
    }
    None
}

/// The stat that a command trains.
fn read_stat(command: i64) -> (r: Option<Stat>)
    ensures
        r == stat_of(command),
{
    match command {
        101 | 601 => Some(Stat::Speed),
        105 | 602 => Some(Stat::Stamina),
        102 | 603 => Some(Stat::Power),
        103 | 604 => Some(Stat::Guts),
        106 | 605 => Some(Stat::Wit),
        _ => None,
    }
}

/// What a parameter's target type raises.
fn read_gain(target: i64) -> (r: Option<Gain>)
    ensures
        r == gain_of(target),
{
    match target {
        1 => Some(Gain::Spd),
        2 => Some(Gain::Sta),
        3 => Some(Gain::Pwr),
        4 => Some(Gain::Gut),
        5 => Some(Gain::Wit),
        30 => Some(Gain::Energy),
        _ => None,
    }
}

/// Add `v` to the entry for `g`, which is appended when there is none.
fn put_gain(gains: &mut Vec<(Gain, i64)>, g: Gain, v: i64)
    ensures
        final(gains)@ == add_gain(old(gains)@, g, v),
{
    let ghost all = gains@;
    let mut i: usize = 0;
    assert(all.skip(0) =~= all);
    assert(all.take(0) + add_gain(all.skip(0), g, v) =~= add_gain(all, g, v));
    while i < gains.len()
        invariant
            i <= gains.len(),
            gains@ == all,
            all == old(gains)@,
            add_gain(all, g, v) == all.take(i as int) + add_gain(all.skip(i as int), g, v),
        decreases gains.len() - i,
    {
        let ghost rest = all.skip(i as int);
        assert(rest.drop_first() =~= all.skip(i as int + 1));
        assert(rest[0] == all[i as int]);
        if gains[i].0 == g {
            let sum: i64 = gains[i].1.wrapping_add(v);
            gains.set(i, (g, sum));
            assert(gains@ =~= all.take(i as int) + add_gain(rest, g, v));
            return ;
        }
        assert(all.take(i as int) + add_gain(rest, g, v) =~= all.take(i as int + 1) + add_gain(
            all.skip(i as int + 1),
            g,
            v,
        ));
        i = i + 1;
    }
    gains.push((g, v));
    assert(gains@ =~= all.take(i as int) + add_gain(all.skip(i as int), g, v));
}

/// The gains of a tile, summed per target.
fn read_gains(params: &Vec<Node>) -> (r: Vec<(Gain, i64)>)
    ensures
        r@ == gains_of(trees(params@)),
{
    let ghost all = trees(params@);
    let mut out: Vec<(Gain, i64)> = Vec::new();
    let mut i: usize = 0;
    assert(out@ =~= gains_of(all.take(0)));
    while i < params.len()
        invariant
            i <= params.len(),
            all == trees(params@),
            out@ == gains_of(all.take(i as int)),
        decreases params.len() - i,
    {
        let p = &params[i];
        assert(all.take(i as int + 1).drop_last() =~= all.take(i as int));
        assert(all.take(i as int + 1).last() == p@);
        let v: i64 = int_or_zero(p, "value");
        if let Some(g) = read_gain(int_or_zero(p, "target_type")) {
            put_gain(&mut out, g, v);
        }
        i = i + 1;
    }
    assert(all.take(i as int) =~= all);
    out
}

/// The card in a deck position.
fn read_deck_card(cards: &Vec<Node>, pos: i64) -> (r: Option<i64>)
    ensures
        r == deck_card(trees(cards@), pos),
{
    let ghost all = trees(cards@);
    let mut i: usize = cards.len();
    assert(all.take(i as int) =~= all);
    while i > 0
        invariant
            i <= cards.len(),
            all == trees(cards@),
            deck_card(all, pos) == deck_card(all.take(i as int), pos),
        decreases i,
    {
        i = i - 1;
        let row = &cards[i];
        assert(all.take(i as int + 1).drop_last() =~= all.take(i as int));
        assert(all.take(i as int + 1).last() == row@);
        let here: bool = match get_int(row, "position") {
            Some(p) => p == pos,
            None => false,
        };
        if here {
            if let Some(id) = get_int(row, "support_card_id") {
                return Some(id);
            }
        }
    }
    None
}

/// What a training partner is called.
fn read_partner(id: i64, cards: &Vec<Node>, names: &Names) -> (r: String)
    ensures
        r@ == partner_label(id, trees(cards@), *names),
{
    if 1 <= id && id <= 6 {
        if let Some(card) = read_deck_card(cards, id) {
            let name = find_name(&names.supports, card);
            if name.as_str().is_empty() {
                let mut label: String = "Card #".to_owned();
                label.append(show_i64(card).as_str());
                return label;
            }
            return name;
        }
    } else if id >= 1000 {
        let name = find_name(&names.charas, id);
        if !name.as_str().is_empty() {
            return name;
        }
    }
    let mut label: String = "Partner #".to_owned();
    label.append(show_i64(id).as_str());
    label
}

/// The labels of a row of partners.
fn read_partners(ids: &Vec<i64>, cards: &Vec<Node>, names: &Names) -> (r: Vec<String>)
    ensures
        lines(r@) == partner_labels(ids@, trees(cards@), *names),
{
    let mut out: Vec<String> = Vec::new();
    let mut i: usize = 0;
    while i < ids.len()
        invariant
            i <= ids.len(),
            out.len() == i,
            forall|j: int|
                0 <= j < i ==> (#[trigger] out@[j])@ == partner_label(
                    ids@[j],
                    trees(cards@),
                    *names,
                ),
        decreases ids.len() - i,
    {
        out.push(read_partner(ids[i], cards, names));
        i = i + 1;
    }
    assert(lines(out@) =~= partner_labels(ids@, trees(cards@), *names));
    out
}

/// The integers of an array.
fn read_ints(rows: &Vec<Node>) -> (r: Vec<i64>)
    ensures
        r@ == ints_of(trees(rows@)),
{
    let ghost all = trees(rows@);
    let mut out: Vec<i64> = Vec::new();
    let mut i: usize = 0;
    assert(out@ =~= ints_of(all.take(0)));
    while i < rows.len()
        invariant
            i <= rows.len(),
            all == trees(rows@),
            out@ == ints_of(all.take(i as int)),
        decreases rows.len() - i,
    {
        assert(all.take(i as int + 1).drop_last() =~= all.take(i as int));
        assert(all.take(i as int + 1).last() == rows@[i as int]@);
        if let Some(n) = node_int(&rows[i]) {
            out.push(n);
        }
        i = i + 1;
    }
    assert(all.take(i as int) =~= all);
    out
}

/// The integers of the array under `key`.
fn read_slots(cmd: &Node, key: &str) -> (r: Vec<i64>)
    ensures
        r@ == slots_of(cmd@, key@),
{
    match get_list(cmd, key) {
        Some(rows) => read_ints(rows),
        None => Vec::new(),
    }
}

/// Whether the trainee already holds a hint of the group that a skill belongs to.
fn read_known(skill: &str, held: &Vec<Node>, names: &Names) -> (r: bool)
    ensures
        r == skill_known(skill@, trees(held@), *names),
{
    match find_group(&names.skill_groups, skill) {
        None => false,
        Some(g) => {
            let ghost all = trees(held@);
            let mut i: usize = 0;
            while i < held.len()
                invariant
                    i <= held.len(),
                    all == trees(held@),
                    group_of(names.skill_groups@, skill@) == Some(g),
                    forall|j: int|
                        0 <= j < i ==> (#[trigger] all[j]).get_int("group_id"@) != Some(g),
                decreases held.len() - i,
            {
                assert(all[i as int] == held@[i as int]@);
                if let Some(n) = get_int(&held[i], "group_id") {
                    if n == g {
                        return true;
                    }
                }
                i = i + 1;
            }
            false
        },
    }
}

/// Whether a skill is already listed.
fn has_hint(hints: &Vec<HintOption>, skill: &str) -> (r: bool)
    ensures
        r == listed(hint_views(hints@), skill@),
{
    let ghost all = hint_views(hints@);
    let mut i: usize = 0;
    while i < hints.len()
        invariant
            i <= hints.len(),
            all == hint_views(hints@),
            forall|j: int| 0 <= j < i ==> (#[trigger] all[j]).0 != skill@,
        decreases hints.len() - i,
    {
        assert(all[i as int].0 == hints@[i as int].name@);
        if same(hints[i].name.as_str(), skill) {
            return true;
        }
        i = i + 1;
    }
    false
}

/// Add the skills of a pool, each once.
fn put_pool(hints: &mut Vec<HintOption>, pool: &Vec<String>, held: &Vec<Node>, names: &Names)
    ensures
        hint_views(final(hints)@) == add_pool(
            hint_views(old(hints)@),
            lines(pool@),
            trees(held@),
            *names,
        ),
{
    let ghost all = lines(pool@);
    let ghost start = hint_views(hints@);
    let mut i: usize = 0;
    assert(add_pool(start, all.take(0), trees(held@), *names) == start);
    while i < pool.len()
        invariant
            i <= pool.len(),
            all == lines(pool@),
            hint_views(hints@) == add_pool(start, all.take(i as int), trees(held@), *names),
        decreases pool.len() - i,
    {
        assert(all.take(i as int + 1).drop_last() =~= all.take(i as int));
        assert(all.take(i as int + 1).last() == pool@[i as int]@);
        if !has_hint(hints, pool[i].as_str()) {
            let known: bool = read_known(pool[i].as_str(), held, names);
            let ghost before = hints@;
            hints.push(HintOption { name: pool[i].clone(), known });
            assert(hint_views(hints@) =~= hint_views(before).push((pool@[i as int]@, known)));
        }
        i = i + 1;
    }
    assert(all.take(i as int) =~= all);
}

/// Append the hints whose flag is `known`.
fn copy_known(from: &Vec<HintOption>, known: bool, to: &mut Vec<HintOption>)
    ensures
        hint_views(final(to)@) == hint_views(old(to)@) + with_known(hint_views(from@), known),
{
    let ghost all = hint_views(from@);
    let ghost start = hint_views(to@);
    let mut i: usize = 0;
    assert(hint_views(to@) =~= start + with_known(all.take(0), known));
    while i < from.len()
        invariant
            i <= from.len(),
            all == hint_views(from@),
            hint_views(to@) == start + with_known(all.take(i as int), known),
        decreases from.len() - i,
    {
        assert(all.take(i as int + 1).drop_last() =~= all.take(i as int));
        assert(all.take(i as int + 1).last() == (from@[i as int].name@, from@[i as int].known));
        if from[i].known == known {
            let ghost before = to@;
            to.push(HintOption { name: from[i].name.clone(), known });
            assert(hint_views(to@) =~= hint_views(before).push((from@[i as int].name@, known)));
            assert(hint_views(to@) =~= start + with_known(all.take(i as int + 1), known));
        }
        i = i + 1;
    }
    assert(all.take(i as int) =~= all);
}

/// The hints a tile could give.
fn read_hints(tips: &Vec<i64>, cards: &Vec<Node>, held: &Vec<Node>, names: &Names) -> (r: Vec<
    HintOption,
>)
    ensures
        hint_views(r@) == hints_of(tips@, trees(cards@), trees(held@), *names),
{
    let mut pooled: Vec<HintOption> = Vec::new();
    let mut i: usize = 0;
    assert(hint_views(pooled@) =~= pooled_hints(
        tips@.take(0),
        trees(cards@),
        trees(held@),
        *names,
    ));
    while i < tips.len()
        invariant
            i <= tips.len(),
            hint_views(pooled@) == pooled_hints(
                tips@.take(i as int),
                trees(cards@),
                trees(held@),
                *names,
            ),
        decreases tips.len() - i,
    {
        assert(tips@.take(i as int + 1).drop_last() =~= tips@.take(i as int));
        assert(tips@.take(i as int + 1).last() == tips@[i as int]);
        if let Some(card) = read_deck_card(cards, tips[i]) {
            let ghost before = hint_views(pooled@);
            match find_pool(&names.hint_pools, card) {
                Some(pool) => put_pool(&mut pooled, pool, held, names),
                None => {
                    assert(add_pool(before, Seq::empty(), trees(held@), *names) == before);
                },
            }
        }
        i = i + 1;
    }
    assert(tips@.take(i as int) =~= tips@);
    let mut out: Vec<HintOption> = Vec::new();
    copy_known(&pooled, false, &mut out);
    copy_known(&pooled, true, &mut out);
    assert(hint_views(out@) =~= hints_of(tips@, trees(cards@), trees(held@), *names));
    out
}

/// The tile for a training command.
fn read_tile(cmd: &Node, cards: &Vec<Node>, held: &Vec<Node>, names: &Names) -> (r: Option<
    TrainingOpt,
>)
    ensures
        (match r {
            Some(o) => Some(o@),
            None => None,
        }) == tile_of(cmd@, trees(cards@), trees(held@), *names),
{
    if int_or_zero(cmd, "command_type") != 1 {
        return None;
    }
    match read_stat(int_or_zero(cmd, "command_id")) {
        None => None,
        Some(stat) => {
            let gains: Vec<(Gain, i64)> = match get_list(cmd, "params_inc_dec_info_array") {
                Some(params) => read_gains(params),
                None => Vec::new(),
            };
            let tips = read_slots(cmd, "tips_event_partner_array");
            let partners = read_slots(cmd, "training_partner_array");
            Some(
                TrainingOpt {
                    stat,
                    gains,
                    fail: int_or_zero(cmd, "failure_rate"),
                    partners: read_partners(&partners, cards, names),
                    hint_partners: read_partners(&tips, cards, names),
                    hints: read_hints(&tips, cards, held, names),
                },
            )
        },
    }
}

/// The tiles of a list of commands.
fn read_tiles(rows: &Vec<Node>, cards: &Vec<Node>, held: &Vec<Node>, names: &Names) -> (r: Vec<
    TrainingOpt,
>)
    ensures
        tile_views(r@) == tiles_of(trees(rows@), trees(cards@), trees(held@), *names),
{
    let ghost all = trees(rows@);
    let mut out: Vec<TrainingOpt> = Vec::new();
    let mut i: usize = 0;
    assert(tile_views(out@) =~= tiles_of(all.take(0), trees(cards@), trees(held@), *names));
    while i < rows.len()
        invariant
            i <= rows.len(),
            all == trees(rows@),
            tile_views(out@) == tiles_of(
                all.take(i as int),
                trees(cards@),
                trees(held@),
                *names,
            ),
        decreases rows.len() - i,
    {
        assert(all.take(i as int + 1).drop_last() =~= all.take(i as int));
        assert(all.take(i as int + 1).last() == rows@[i as int]@);
        let ghost before = out@;
        if let Some(o) = read_tile(&rows[i], cards, held, names) {
            let ghost seen = o@;
            out.push(o);
            assert(tile_views(out@) =~= tile_views(before).push(seen));
        }
        i = i + 1;
    }
    assert(all.take(i as int) =~= all);
    out
}

/// The training tiles of a response.
fn read_training(val: &Node, names: &Names) -> (r: Option<Vec<TrainingOpt>>)
    ensures
        (match r {
            Some(o) => Some(tile_views(o@)),
            None => None,
        }) == training_of(val@, *names),
{
    match find_first(val, "home_info") {
        None => None,
        Some(home) => match get_list(home, "command_info_array") {
            None => None,
            Some(rows) => {
                let none: Vec<Node> = Vec::new();
                assert(trees(none@) =~= Seq::empty());
                let ci = find_first(val, "chara_info");
                let cards: &Vec<Node> = match ci {
                    Some(c) => match get_list(c, "support_card_array") {
                        Some(l) => l,
                        None => &none,
                    },
                    None => &none,
                };
                let held: &Vec<Node> = match ci {
                    Some(c) => match get_list(c, "skill_tips_array") {
                        Some(l) => l,
                        None => &none,
                    },
                    None => &none,
                };
                Some(read_tiles(rows, cards, held, names))
            },
        },
    }
}

/// Append the purchases of an array.
fn put_bought(rows: &Vec<Node>, names: &Names, out: &mut Vec<(i64, String, i64)>)
    ensures
        bought_views(final(out)@) == bought_views(old(out)@) + bought_rows(trees(rows@), *names),
{
    let ghost all = trees(rows@);
    let ghost start = bought_views(out@);
    let ks: [&str; 2] = ["skill_id", "id"];
    let ls: [&str; 4] = ["need_skill_point", "skill_point", "cost", "consume_skill_point"];
    assert(keys_of(ks@) =~= seq!["skill_id"@, "id"@]);
    assert(keys_of(ls@) =~= seq![
        "need_skill_point"@,
        "skill_point"@,
        "cost"@,
        "consume_skill_point"@,
    ]);
    assert(bought_views(out@) =~= start + bought_rows(all.take(0), *names));
    let mut i: usize = 0;
    while i < rows.len()
        invariant
            i <= rows.len(),
            all == trees(rows@),
            keys_of(ks@) == seq!["skill_id"@, "id"@],
            keys_of(ls@) == seq![
                "need_skill_point"@,
                "skill_point"@,
                "cost"@,
                "consume_skill_point"@,
            ],
            bought_views(out@) == start + bought_rows(all.take(i as int), *names),
        decreases rows.len() - i,
    {
        let row = &rows[i];
        assert(all.take(i as int + 1).drop_last() =~= all.take(i as int));
        assert(all.take(i as int + 1).last() == row@);
        let id: i64 = match first_int(row, ks.as_slice()) {
            Some(n) => n,
            None => 0,
        };
        let cost: i64 = match first_int(row, ls.as_slice()) {
            Some(n) => n,
            None => 0,
        };
        if id > 0 && cost > 0 {
            let ghost before = out@;
            let name = find_name(&names.skills, id);
            let ghost seen = (id, name@, cost);
            out.push((id, name, cost));
            assert(bought_views(out@) =~= bought_views(before).push(seen));
            assert(bought_views(out@) =~= start + bought_rows(all.take(i as int + 1), *names));
        }
        i = i + 1;
    }
    assert(all.take(i as int) =~= all);
}

/// Append the purchases of every array stored under `key`.
fn put_bought_under(val: &Node, key: &str, names: &Names, out: &mut Vec<(i64, String, i64)>)
    ensures
        bought_views(final(out)@) == bought_views(old(out)@) + bought_in(
            hits(val@, key@),
            *names,
        ),
{
    let found = find_all(val, key);
    let ghost all = trees_ref(found@);
    let ghost start = bought_views(out@);
    assert(bought_views(out@) =~= start + bought_in(all.take(0), *names));
    let mut i: usize = 0;
    while i < found.len()
        invariant
            i <= found.len(),
            all == trees_ref(found@),
            bought_views(out@) == start + bought_in(all.take(i as int), *names),
        decreases found.len() - i,
    {
        assert(all.take(i as int + 1).drop_last() =~= all.take(i as int));
        assert(all.take(i as int + 1).last() == found@[i as int]@);
        if let Some(rows) = as_arr(found[i]) {
            put_bought(rows, names, out);
            assert(bought_views(out@) =~= start + bought_in(all.take(i as int + 1), *names));
        }
        i = i + 1;
    }
    assert(all.take(i as int) =~= all);
}

/// Read a response for account resources, the trainee's state and the career panels. A part that
/// the response does not carry is reported as missing, or, for the account, as it was before.
pub fn parse_account(val: &Node, prior: Account, names: &Names) -> (r: AccountReport)
    ensures
        r.tells(val@, prior, *names),
{
    let account = read_account(val, prior);
    let ci = find_first(val, "chara_info");
    let career: Option<CareerState> = match ci {
        Some(c) => {
            let st = read_state(c);
            if st.turn > 0 {
                Some(st)
            } else {
                None
            }
        },
        None => None,
    };
    let turn: i64 = match ci {
        Some(c) => int_or_zero(c, "turn"),
        None => 0,
    };
    let free = find_first(val, "free_data_set");
    let items: Option<Vec<String>> = match free {
        Some(f) => match get_list(f, "user_item_info_array") {
            Some(rows) => Some(read_items(rows, names)),
            None => None,
        },
        None => None,
    };
    let catalog: Option<Vec<String>> = match free {
        Some(f) => match get_list(f, "pick_up_item_info_array") {
            Some(rows) => Some(read_catalog(rows, turn, names)),
            None => None,
        },
        None => None,
    };
    let bonds: Option<Vec<BondRow>> = match ci {
        Some(c) => read_first_bonds(c),
        None => None,
    };
    let training = read_training(val, names);
    let reward = find_first(val, "race_reward_info");
    let mut race_result: Option<(i64, i64)> = None;
    let mut g1_win: bool = false;
    if let Some(rr) = reward {
        let rank: i64 = int_or_zero(rr, "result_rank");
        let fans: i64 = int_or_zero(rr, "gained_fans");
        if rank > 0 || fans > 0 {
            race_result = Some((rank, fans));
        }
        if rank == 1 {
            let ks: [&str; 3] = ["grade", "race_grade", "grade_id"];
            assert(keys_of(ks@) =~= seq!["grade"@, "race_grade"@, "grade_id"@]);
            g1_win = match first_int(rr, ks.as_slice()) {
                Some(g) => g == 1,
                None => false,
            };
        }
    }
    let mut purchases: Vec<(i64, String, i64)> = Vec::new();
    put_bought_under(val, "skill_learning_info_array", names, &mut purchases);
    put_bought_under(val, "learning_skill_array", names, &mut purchases);
    put_bought_under(val, "skill_tips_array", names, &mut purchases);
    assert(bought_views(purchases@) =~= purchases_of(val@, *names));
    AccountReport {
        account,
        career_present: ci.is_some(),
        career,
        items,
        catalog,
        bonds,
        training,
        race_result,
        race_over: reward.is_some(),
        g1_win,
        purchases,
    }
}

/// A response that carries none of the blocks leaves the account and every panel as they were.
pub proof fn lemma_silent_response_keeps_everything(t: Tree, prior: Account, names: Names)
    requires
        first_hit(t, "tp_info"@) is None,
        first_hit(t, "rp_info"@) is None,
        first_hit(t, "coin_info"@) is None,
        first_hit(t, "chara_info"@) is None,
        first_hit(t, "free_data_set"@) is None,
        first_hit(t, "home_info"@) is None,
        first_hit(t, "race_reward_info"@) is None,
    ensures
        forall|r: AccountReport| #[trigger]
            r.tells(t, prior, names) ==> r.account == prior && !r.career_present && r.career is None
                && r.items is None && r.catalog is None && r.bonds is None && r.training is None
                && r.race_result is None && !r.race_over && !r.g1_win,
{
}

/// A number once known is never blanked: whatever a response carries, each known account field
/// stays known.
pub proof fn lemma_account_never_blanks(t: Tree, prior: Account)
    ensures
        prior.tp_cur is Some ==> account_of(t, prior).tp_cur is Some,
        prior.tp_max is Some ==> account_of(t, prior).tp_max is Some,
        prior.rp_cur is Some ==> account_of(t, prior).rp_cur is Some,
        prior.rp_max is Some ==> account_of(t, prior).rp_max is Some,
        prior.carats is Some ==> account_of(t, prior).carats is Some,
        prior.skill_point is Some ==> account_of(t, prior).skill_point is Some,
        prior.gold is Some ==> account_of(t, prior).gold is Some,
{
}

/// Whether no skill is listed twice.
pub open spec fn each_once(hints: Seq<(Seq<char>, bool)>) -> bool {
    forall|i: int, j: int|
        0 <= i < j < hints.len() ==> (#[trigger] hints[i]).0 != (#[trigger] hints[j]).0
}

/// The pooled hints of a tile list each skill once.
pub proof fn lemma_pooled_hints_distinct(
    tips: Seq<i64>,
    cards: Seq<Tree>,
    held: Seq<Tree>,
    names: Names,
)
    ensures
        each_once(pooled_hints(tips, cards, held, names)),
    decreases tips.len(),
{
    if tips.len() > 0 {
        lemma_pooled_hints_distinct(tips.drop_last(), cards, held, names);
        let before = pooled_hints(tips.drop_last(), cards, held, names);
        if let Some(card) = deck_card(cards, tips.last()) {
            lemma_add_pool_distinct(before, pool_of(names.hint_pools@, card), held, names);
        }
    }
}

/// Adding a pool keeps the listed skills distinct.
proof fn lemma_add_pool_distinct(
    hints: Seq<(Seq<char>, bool)>,
    pool: Seq<Seq<char>>,
    held: Seq<Tree>,
    names: Names,
)
    requires
        each_once(hints),
    ensures
        each_once(add_pool(hints, pool, held, names)),
    decreases pool.len(),
{
    if pool.len() > 0 {
        lemma_add_pool_distinct(hints, pool.drop_last(), held, names);
        let before = add_pool(hints, pool.drop_last(), held, names);
        let after = add_pool(hints, pool, held, names);
        if !listed(before, pool.last()) {
            assert forall|i: int, j: int| 0 <= i < j < after.len() implies (#[trigger] after[i]).0 != (
            #[trigger] after[j]).0 by {
                assert(before[i].0 != pool.last());
                if j < before.len() {
                    assert(before[i].0 != before[j].0);
                }
            }
        }
    }
}

/// Whether a command is one of the ten trainings.
pub open spec fn trains(cmd: Tree) -> bool {
    cmd.int_or_zero("command_type"@) == 1 && seq![
        101i64,
        102,
        103,
        105,
        106,
        601,
        602,
        603,
        604,
        605,
    ].contains(cmd.int_or_zero("command_id"@))
}

/// Whether a tile is that of a training: of the stat that the command trains, with the command's own
/// failure rate, gains and partners.
pub open spec fn tells_training(
    tile: TrainingView,
    cmd: Tree,
    cards: Seq<Tree>,
    names: Names,
) -> bool {
    let id = cmd.int_or_zero("command_id"@);
    &&& tile.stat is Speed <==> id == 101 || id == 601
    &&& tile.stat is Stamina <==> id == 105 || id == 602
    &&& tile.stat is Power <==> id == 102 || id == 603
    &&& tile.stat is Guts <==> id == 103 || id == 604
    &&& tile.stat is Wit <==> id == 106 || id == 605
    &&& tile.fail == cmd.int_or_zero("failure_rate"@)
    &&& cmd.get_list("params_inc_dec_info_array"@) matches Some(l) ==> tile.gains == gains_of(l)
    &&& cmd.get_list("params_inc_dec_info_array"@) is None ==> tile.gains.len() == 0
    &&& cmd.get_list("training_partner_array"@) matches Some(l) ==> tile.partners == partner_labels(
        ints_of(l),
        cards,
        names,
    )
    &&& cmd.get_list("training_partner_array"@) is None ==> tile.partners.len() == 0
    &&& cmd.get_list("tips_event_partner_array"@) matches Some(l) ==> tile.hint_partners
        == partner_labels(ints_of(l), cards, names)
    &&& cmd.get_list("tips_event_partner_array"@) is None ==> tile.hint_partners.len() == 0
        && tile.hints.len() == 0
}

/// A command that trains has a tile of its own stat; any other command has none.
proof fn lemma_tile(cmd: Tree, cards: Seq<Tree>, held: Seq<Tree>, names: Names)
    ensures
        tile_of(cmd, cards, held, names) is Some <==> trains(cmd),
        tile_of(cmd, cards, held, names) matches Some(tile) ==> tells_training(tile, cmd, cards, names),
{
    let ids = seq![101i64, 102, 103, 105, 106, 601, 602, 603, 604, 605];
    assert(ids[0] == 101 && ids[1] == 102 && ids[2] == 103 && ids[3] == 105 && ids[4] == 106 && ids[5]
        == 601 && ids[6] == 602 && ids[7] == 603 && ids[8] == 604 && ids[9] == 605);
    assert(pooled_hints(Seq::empty(), cards, held, names).len() == 0);
    assert(with_known(Seq::empty(), false).len() == 0);
    assert(with_known(Seq::empty(), true).len() == 0);
    assert(hints_of(Seq::empty(), cards, held, names).len() == 0);
}

proof fn lemma_tiles(rows: Seq<Tree>, cards: Seq<Tree>, held: Seq<Tree>, names: Names)
    ensures
        ({
            let tiles = tiles_of(rows, cards, held, names);
            let picked = rows.filter(|cmd: Tree| trains(cmd));
            &&& tiles.len() == picked.len()
            &&& forall|i: int|
                0 <= i < tiles.len() ==> tells_training(
                    #[trigger] tiles[i],
                    picked[i],
                    cards,
                    names,
                )
        }),
    decreases rows.len(),
{
    reveal(Seq::filter);
    if rows.len() > 0 {
        lemma_tiles(rows.drop_last(), cards, held, names);
        lemma_tile(rows.last(), cards, held, names);
        let before = tiles_of(rows.drop_last(), cards, held, names);
        let tiles = tiles_of(rows, cards, held, names);
        let first = rows.drop_last().filter(|cmd: Tree| trains(cmd));
        let picked = rows.filter(|cmd: Tree| trains(cmd));
        assert forall|i: int| 0 <= i < tiles.len() implies tells_training(
            #[trigger] tiles[i],
            picked[i],
            cards,
            names,
        ) by {
            if i < before.len() {
                assert(tiles[i] == before[i]);
                assert(picked[i] == first[i]);
            }
        }
    }
}

/// The training tiles of a response are those of its training commands, one each and in their order:
/// command 101 or 601 trains speed, 105 or 602 stamina, 102 or 603 power, 103 or 604 guts, and 106 or 605
/// wit. Any other command gives no tile.
pub proof fn lemma_training_tiles(r: AccountReport, t: Tree, prior: Account, names: Names)
    requires
        r.tells(t, prior, names),
    ensures
        r.training is Some <==> (first_hit(t, "home_info"@) matches Some(home) && home.get_list(
            "command_info_array"@,
        ) is Some),
        r.training matches Some(tiles) ==> {
            let rows = first_hit(t, "home_info"@)->0.get_list("command_info_array"@)->0;
            let picked = rows.filter(|cmd: Tree| trains(cmd));
            &&& tiles@.len() == picked.len()
            &&& forall|i: int|
                0 <= i < tiles@.len() ==> tells_training(
                    #[trigger] tiles@[i]@,
                    picked[i],
                    chara_list(t, "support_card_array"@),
                    names,
                )
        },
{
    if r.training is Some {
        let rows = first_hit(t, "home_info"@)->0.get_list("command_info_array"@)->0;
        let cards = chara_list(t, "support_card_array"@);
        lemma_tiles(rows, cards, chara_list(t, "skill_tips_array"@), names);
        let tiles = r.training->0@;
        let picked = rows.filter(|cmd: Tree| trains(cmd));
        assert(tile_views(tiles).len() == tiles.len());
        assert forall|i: int| 0 <= i < tiles.len() implies tells_training(
            #[trigger] tiles[i]@,
            picked[i],
            cards,
            names,
        ) by {
            assert(tile_views(tiles)[i] == tiles[i]@);
        }
    }
}

/// How much of a gain there is, 0 where there is none.
pub open spec fn gained(gains: Seq<(Gain, i64)>, g: Gain) -> i64
    decreases gains.len(),
{
    if gains.len() == 0 {
        0
    } else if gains[0].0 == g {
        gains[0].1
    } else {
        gained(gains.drop_first(), g)
    }
}

proof fn lemma_add_gain(gains: Seq<(Gain, i64)>, g: Gain, v: i64, other: Gain)
    ensures
        gained(add_gain(gains, g, v), g) == gained(gains, g).wrapping_add(v),
        other != g ==> gained(add_gain(gains, g, v), other) == gained(gains, other),
    decreases gains.len(),
{
    let r = add_gain(gains, g, v);
    if gains.len() == 0 {
        assert(r.drop_first() =~= Seq::empty());
        assert(gained(r.drop_first(), other) == 0);
    } else if gains[0].0 == g {
        assert(r.drop_first() =~= gains.drop_first());
    } else {
        lemma_add_gain(gains.drop_first(), g, v, other);
        assert(r.drop_first() =~= add_gain(gains.drop_first(), g, v));
    }
}

/// A parameter adds its value to what it raises, and to nothing else: target 1 is speed, 2 stamina, 3
/// power, 4 guts, 5 wit and 30 energy. Any other target raises nothing.
pub proof fn lemma_gains(params: Seq<Tree>, p: Tree, g: Gain)
    ensures
        gains_of(Seq::empty()).len() == 0,
        ({
            let target = p.int_or_zero("target_type"@);
            let value = p.int_or_zero("value"@);
            let raises = match g {
                Gain::Spd => target == 1,
                Gain::Sta => target == 2,
                Gain::Pwr => target == 3,
                Gain::Gut => target == 4,
                Gain::Wit => target == 5,
                Gain::Energy => target == 30,
            };
            let before = gained(gains_of(params), g);
            let after = gained(gains_of(params.push(p)), g);
            &&& raises && -1_000_000 <= before <= 1_000_000 && -1_000_000 <= value <= 1_000_000 ==> after
                == before + value
            &&& !raises ==> after == before
        }),
{
    assert(params.push(p).drop_last() =~= params);
    let target = p.int_or_zero("target_type"@);
    if let Some(h) = gain_of(target) {
        lemma_add_gain(gains_of(params), h, p.int_or_zero("value"@), g);
    }
}

/// No gain is listed twice.
pub proof fn lemma_gains_once(params: Seq<Tree>)
    ensures
        forall|i: int, j: int|
            0 <= i < j < gains_of(params).len() ==> (#[trigger] gains_of(params)[i]).0 != (
            #[trigger] gains_of(params)[j]).0,
    decreases params.len(),
{
    if params.len() > 0 {
        lemma_gains_once(params.drop_last());
        if let Some(g) = gain_of(params.last().int_or_zero("target_type"@)) {
            lemma_add_gain_once(
                gains_of(params.drop_last()),
                g,
                params.last().int_or_zero("value"@),
            );
        }
    }
}

proof fn lemma_add_gain_once(gains: Seq<(Gain, i64)>, g: Gain, v: i64)
    requires
        forall|i: int, j: int|
            0 <= i < j < gains.len() ==> (#[trigger] gains[i]).0 != (#[trigger] gains[j]).0,
    ensures
        forall|i: int, j: int|
            0 <= i < j < add_gain(gains, g, v).len() ==> (#[trigger] add_gain(gains, g, v)[i]).0 != (
            #[trigger] add_gain(gains, g, v)[j]).0,
        forall|i: int|
            0 <= i < add_gain(gains, g, v).len() ==> (#[trigger] add_gain(gains, g, v)[i]).0 == g
                || exists|k: int|
                0 <= k < gains.len() && (#[trigger] gains[k]).0 == add_gain(gains, g, v)[i].0,
    decreases gains.len(),
{
    let r = add_gain(gains, g, v);
    if gains.len() > 0 {
        let rest = gains.drop_first();
        assert forall|i: int| 0 < i < gains.len() implies #[trigger] gains[i] == rest[i - 1] by {}
        assert forall|i: int, j: int| 0 <= i < j < rest.len() implies (#[trigger] rest[i]).0 != (
        #[trigger] rest[j]).0 by {
            assert(gains[i + 1].0 != gains[j + 1].0);
        }
        if gains[0].0 == g {
            assert forall|i: int| 0 < i < r.len() implies #[trigger] r[i] == gains[i] by {}
            assert forall|i: int, j: int| 0 <= i < j < r.len() implies (#[trigger] r[i]).0 != (
            #[trigger] r[j]).0 by {
                assert(gains[i].0 != gains[j].0);
            }
            assert forall|i: int| 0 <= i < r.len() implies (#[trigger] r[i]).0 == g || exists|k: int|
                0 <= k < gains.len() && (#[trigger] gains[k]).0 == r[i].0 by {
                assert(gains[i].0 == r[i].0);
            }
        } else {
            lemma_add_gain_once(rest, g, v);
            let q = add_gain(rest, g, v);
            assert forall|i: int| 0 < i < r.len() implies #[trigger] r[i] == q[i - 1] by {}
            assert forall|i: int| 0 <= i < q.len() implies #[trigger] q[i].0 != gains[0].0 by {
                if q[i].0 != g {
                    let k = choose|k: int| 0 <= k < rest.len() && (#[trigger] rest[k]).0 == q[i].0;
                    assert(gains[k + 1] == rest[k]);
                    assert(gains[0].0 != gains[k + 1].0);
                }
            }
            assert forall|i: int, j: int| 0 <= i < j < r.len() implies (#[trigger] r[i]).0 != (
            #[trigger] r[j]).0 by {
                assert(r[j] == q[j - 1]);
                if i > 0 {
                    assert(r[i] == q[i - 1]);
                } else {
                    assert(q[j - 1].0 != gains[0].0);
                }
            }
            assert forall|i: int| 0 <= i < r.len() implies (#[trigger] r[i]).0 == g || exists|k: int|
                0 <= k < gains.len() && (#[trigger] gains[k]).0 == r[i].0 by {
                if i == 0 {
                    assert(gains[0].0 == r[0].0);
                } else {
                    assert(r[i] == q[i - 1]);
                    if q[i - 1].0 != g {
                        let k = choose|k: int|
                            0 <= k < rest.len() && (#[trigger] rest[k]).0 == q[i - 1].0;
                        assert(gains[k + 1].0 == r[i].0);
                    }
                }
            }
        }
    }
}

/// At a place of the deck stands the card that the last row for it names, and none where no row does.
pub proof fn lemma_deck_card(cards: Seq<Tree>, row: Tree, pos: i64)
    ensures
        deck_card(Seq::empty(), pos) is None,
        row.get_int("position"@) == Some(pos) && row.get_int("support_card_id"@) is Some ==> deck_card(
            cards.push(row),
            pos,
        ) == row.get_int("support_card_id"@),
        row.get_int("position"@) != Some(pos) || row.get_int("support_card_id"@) is None ==> deck_card(
            cards.push(row),
            pos,
        ) == deck_card(cards, pos),
{
    assert(cards.push(row).drop_last() =~= cards);
}

/// A partner from 1 to 6 goes by the card at that place of the deck, one from 1000 on by the character's
/// name, and any other by its number.
pub proof fn lemma_partner_labels(id: i64, cards: Seq<Tree>, names: Names)
    ensures
        1 <= id <= 6 ==> (deck_card(cards, id) matches Some(card) ==> {
            &&& name_of(names.supports@, card).len() > 0 ==> partner_label(id, cards, names) == name_of(
                names.supports@,
                card,
            )
            &&& name_of(names.supports@, card).len() == 0 ==> partner_label(id, cards, names)
                == "Card #"@ + dec(card as int)
        }),
        1000 <= id && name_of(names.charas@, id).len() > 0 ==> partner_label(id, cards, names) == name_of(
            names.charas@,
            id,
        ),
        1000 <= id && name_of(names.charas@, id).len() == 0 || 6 < id < 1000 || id < 1 || deck_card(
            cards,
            id,
        ) is None && id < 1000 ==> partner_label(id, cards, names) == "Partner #"@ + dec(id as int),
{
}

/// The numbers of a list are those of its elements that are numbers, in their order.
pub proof fn lemma_ints_of(rows: Seq<Tree>, x: Tree)
    ensures
        ints_of(Seq::empty()).len() == 0,
        x matches Tree::Int(n) ==> ints_of(rows.push(x)) == ints_of(rows).push(n),
        !(x is Int) ==> ints_of(rows.push(x)) == ints_of(rows),
{
    assert(rows.push(x).drop_last() =~= rows);
}

/// A hint is known where the trainee holds a skill of its group.
pub proof fn lemma_skill_known(skill: Seq<char>, held: Seq<Tree>, names: Names)
    ensures
        skill_known(skill, held, names) <==> (group_of(names.skill_groups@, skill) matches Some(g)
            && exists|i: int|
            0 <= i < held.len() && (#[trigger] held[i]).get_int("group_id"@) == Some(g)),
{
}

proof fn lemma_with_known(hints: Seq<(Seq<char>, bool)>, known: bool)
    ensures
        with_known(hints, known) == hints.filter(|h: (Seq<char>, bool)| h.1 == known),
    decreases hints.len(),
{
    reveal(Seq::filter);
    if hints.len() > 0 {
        lemma_with_known(hints.drop_last(), known);
    }
}

proof fn lemma_pool_added(
    hints: Seq<(Seq<char>, bool)>,
    pool: Seq<Seq<char>>,
    held: Seq<Tree>,
    names: Names,
)
    ensures
        hints.is_prefix_of(add_pool(hints, pool, held, names)),
        forall|i: int|
            0 <= i < pool.len() ==> listed(add_pool(hints, pool, held, names), #[trigger] pool[i]),
        forall|i: int|
            hints.len() <= i < add_pool(hints, pool, held, names).len() ==> pool.contains(
                (#[trigger] add_pool(hints, pool, held, names)[i]).0,
            ) && add_pool(hints, pool, held, names)[i].1 == skill_known(
                add_pool(hints, pool, held, names)[i].0,
                held,
                names,
            ),
    decreases pool.len(),
{
    if pool.len() > 0 {
        let rest = pool.drop_last();
        lemma_pool_added(hints, rest, held, names);
        let before = add_pool(hints, rest, held, names);
        let after = add_pool(hints, pool, held, names);
        assert(pool[pool.len() - 1] == pool.last());
        assert forall|i: int| 0 <= i < before.len() implies before[i] == #[trigger] after[i] by {}
        assert forall|i: int| 0 <= i < pool.len() implies listed(after, #[trigger] pool[i]) by {
            if i < rest.len() {
                assert(rest[i] == pool[i]);
                assert(listed(before, rest[i]));
                let k = choose|k: int| 0 <= k < before.len() && (#[trigger] before[k]).0 == pool[i];
                assert(after[k] == before[k]);
            } else if listed(before, pool.last()) {
            } else {
                assert(after[before.len() as int].0 == pool[i]);
            }
        }
        assert forall|i: int| hints.len() <= i < after.len() implies pool.contains(
            (#[trigger] after[i]).0,
        ) && after[i].1 == skill_known(after[i].0, held, names) by {
            if i < before.len() {
                assert(before[i] == after[i]);
                assert(rest.contains(before[i].0));
                let k = choose|k: int| 0 <= k < rest.len() && rest[k] == before[i].0;
                assert(pool[k] == rest[k]);
            } else {
                assert(pool[pool.len() - 1] == after[i].0);
            }
        }
    }
}

/// The hints of a tile are those that the pools of its hinting partners' cards hold, all of them, each
/// marked by whether it is known.
proof fn lemma_pooled(tips: Seq<i64>, cards: Seq<Tree>, held: Seq<Tree>, names: Names)
    ensures
        forall|i: int|
            0 <= i < pooled_hints(tips, cards, held, names).len() ==> (#[trigger] pooled_hints(
                tips,
                cards,
                held,
                names,
            )[i]).1 == skill_known(pooled_hints(tips, cards, held, names)[i].0, held, names),
        forall|n: int, k: int|
            0 <= n < tips.len() && deck_card(cards, tips[n]) is Some && 0 <= k < pool_of(
                names.hint_pools@,
                deck_card(cards, tips[n])->0,
            ).len() ==> listed(
                pooled_hints(tips, cards, held, names),
                #[trigger] pool_of(names.hint_pools@, deck_card(cards, tips[n])->0)[k],
            ),
    decreases tips.len(),
{
    if tips.len() > 0 {
        let rest = tips.drop_last();
        lemma_pooled(rest, cards, held, names);
        let before = pooled_hints(rest, cards, held, names);
        let after = pooled_hints(tips, cards, held, names);
        if let Some(card) = deck_card(cards, tips.last()) {
            lemma_pool_added(before, pool_of(names.hint_pools@, card), held, names);
            assert forall|i: int| 0 <= i < before.len() implies before[i] == #[trigger] after[i] by {}
        }
        assert forall|i: int| 0 <= i < after.len() implies (#[trigger] after[i]).1 == skill_known(
            after[i].0,
            held,
            names,
        ) by {
            if i < before.len() {
                assert(before[i] == after[i]);
            }
        }
        assert forall|n: int, k: int|
            0 <= n < tips.len() && deck_card(cards, tips[n]) is Some && 0 <= k < pool_of(
                names.hint_pools@,
                deck_card(cards, tips[n])->0,
            ).len() implies listed(
            after,
            #[trigger] pool_of(names.hint_pools@, deck_card(cards, tips[n])->0)[k],
        ) by {
            if n < rest.len() {
                assert(rest[n] == tips[n]);
                let skill = pool_of(names.hint_pools@, deck_card(cards, rest[n])->0)[k];
                assert(listed(before, skill));
                let i = choose|i: int| 0 <= i < before.len() && (#[trigger] before[i]).0 == skill;
                assert(after[i] == before[i]);
            } else {
                assert(tips[n] == tips.last());
            }
        }
    }
}

/// Of the hints of a tile those not yet known come first; every hint of a hinting partner's card is among
/// them, marked by whether the trainee holds a skill of its group.
pub proof fn lemma_hints(tips: Seq<i64>, cards: Seq<Tree>, held: Seq<Tree>, names: Names)
    ensures
        ({
            let hints = hints_of(tips, cards, held, names);
            &&& forall|i: int, j: int|
                0 <= i < j < hints.len() && (#[trigger] hints[i]).1 ==> (#[trigger] hints[j]).1
            &&& forall|i: int|
                0 <= i < hints.len() ==> (#[trigger] hints[i]).1 == skill_known(
                    hints[i].0,
                    held,
                    names,
                )
            &&& forall|n: int, k: int|
                0 <= n < tips.len() && deck_card(cards, tips[n]) is Some && 0 <= k < pool_of(
                    names.hint_pools@,
                    deck_card(cards, tips[n])->0,
                ).len() ==> listed(
                    hints,
                    #[trigger] pool_of(names.hint_pools@, deck_card(cards, tips[n])->0)[k],
                )
        }),
{
    let pooled = pooled_hints(tips, cards, held, names);
    let hints = hints_of(tips, cards, held, names);
    lemma_pooled(tips, cards, held, names);
    lemma_with_known(pooled, false);
    lemma_with_known(pooled, true);
    let a = with_known(pooled, false);
    let b = with_known(pooled, true);
    let fa = |h: (Seq<char>, bool)| h.1 == false;
    let fb = |h: (Seq<char>, bool)| h.1 == true;
    assert(a == pooled.filter(fa));
    assert(b == pooled.filter(fb));
    assert forall|i: int| 0 <= i < a.len() implies pooled.contains(#[trigger] a[i]) && !a[i].1 by {
        pooled.lemma_filter_pred(fa, i);
        assert(fa(a[i]));
        assert(pooled.filter(fa).contains(a[i]));
        pooled.lemma_filter_contains_rev(fa, a[i]);
    }
    assert forall|i: int| 0 <= i < b.len() implies pooled.contains(#[trigger] b[i]) && b[i].1 by {
        pooled.lemma_filter_pred(fb, i);
        assert(fb(b[i]));
        assert(pooled.filter(fb).contains(b[i]));
        pooled.lemma_filter_contains_rev(fb, b[i]);
    }
    assert forall|i: int| 0 <= i < hints.len() implies (#[trigger] hints[i]).1 == skill_known(
        hints[i].0,
        held,
        names,
    ) by {
        if i < a.len() {
            assert(hints[i] == a[i]);
        } else {
            assert(hints[i] == b[i - a.len()]);
        }
        let k = choose|k: int| 0 <= k < pooled.len() && pooled[k] == hints[i];
        assert(pooled[k].1 == skill_known(pooled[k].0, held, names));
    }
    assert forall|i: int, j: int| 0 <= i < j < hints.len() && (#[trigger] hints[i]).1 implies (
    #[trigger] hints[j]).1 by {
        if j < a.len() {
            assert(hints[i] == a[i]);
        } else {
            assert(hints[j] == b[j - a.len()]);
        }
    }
    assert forall|skill: Seq<char>| #[trigger] listed(pooled, skill) implies listed(hints, skill) by {
        let k = choose|k: int| 0 <= k < pooled.len() && (#[trigger] pooled[k]).0 == skill;
        if pooled[k].1 {
            assert(fb(pooled[k]));
            pooled.lemma_filter_contains(fb, k);
            let i = choose|i: int| 0 <= i < b.len() && b[i] == pooled[k];
            assert(hints[a.len() + i] == b[i]);
        } else {
            assert(fa(pooled[k]));
            pooled.lemma_filter_contains(fa, k);
            let i = choose|i: int| 0 <= i < a.len() && a[i] == pooled[k];
            assert(hints[i] == a[i]);
        }
    }
}

/// Each figure of the account is read from its own block, and stays as it was where the response does not
/// tell it; the carats are the paid and the free ones together.
pub proof fn lemma_account_figures(t: Tree, prior: Account)
    ensures
        ({
            let a = account_of(t, prior);
            &&& first_hit(t, "tp_info"@) matches Some(b) ==> {
                &&& b.get_int("current_tp"@) is Some ==> a.tp_cur == b.get_int("current_tp"@)
                &&& b.get_int("current_tp"@) is None ==> a.tp_cur == prior.tp_cur
                &&& b.get_int("max_tp"@) is Some ==> a.tp_max == b.get_int("max_tp"@)
                &&& b.get_int("max_tp"@) is None ==> a.tp_max == prior.tp_max
            }
            &&& first_hit(t, "tp_info"@) is None ==> a.tp_cur == prior.tp_cur && a.tp_max == prior.tp_max
            &&& first_hit(t, "rp_info"@) matches Some(b) ==> {
                &&& b.get_int("current_rp"@) is Some ==> a.rp_cur == b.get_int("current_rp"@)
                &&& b.get_int("current_rp"@) is None ==> a.rp_cur == prior.rp_cur
                &&& b.get_int("max_rp"@) is Some ==> a.rp_max == b.get_int("max_rp"@)
                &&& b.get_int("max_rp"@) is None ==> a.rp_max == prior.rp_max
            }
            &&& first_hit(t, "rp_info"@) is None ==> a.rp_cur == prior.rp_cur && a.rp_max == prior.rp_max
            &&& first_hit(t, "coin_info"@) matches Some(b) ==> {
                &&& b.get_int("coin"@) matches Some(n) ==> (0 <= n < 1_000_000_000 && 0
                    <= b.int_or_zero("fcoin"@) < 1_000_000_000 ==> a.carats == Some(
                    (n + b.int_or_zero("fcoin"@)) as i64,
                ))
                &&& b.get_int("coin"@) is None && b.get_int("coin_num"@) is Some ==> a.carats
                    == b.get_int("coin_num"@)
                &&& b.get_int("coin"@) is None && b.get_int("coin_num"@) is None ==> a.carats
                    == prior.carats
            }
            &&& first_hit(t, "coin_info"@) is None ==> a.carats == prior.carats
            &&& first_hit(t, "chara_info"@) matches Some(b) ==> {
                &&& b.get_int("skill_point"@) is Some ==> a.skill_point == b.get_int("skill_point"@)
                &&& b.get_int("skill_point"@) is None ==> a.skill_point == prior.skill_point
                &&& b.get_int("money"@) is Some ==> a.gold == b.get_int("money"@)
                &&& b.get_int("money"@) is None && b.get_int("current_money"@) is Some ==> a.gold
                    == b.get_int("current_money"@)
                &&& b.get_int("money"@) is None && b.get_int("current_money"@) is None && b.get_int(
                    "gold"@,
                ) is Some ==> a.gold == b.get_int("gold"@)
                &&& b.get_int("money"@) is None && b.get_int("current_money"@) is None && b.get_int(
                    "gold"@,
                ) is None ==> a.gold == prior.gold
            }
            &&& first_hit(t, "chara_info"@) is None ==> a.skill_point == prior.skill_point && a.gold
                == prior.gold
        }),
{
    if let Some(b) = first_hit(t, "chara_info"@) {
        lemma_three_keys(b, "money"@, "current_money"@, "gold"@);
    }
}

/// Of three keys the first counts under which there is a number.
proof fn lemma_three_keys(b: Tree, x: Seq<char>, y: Seq<char>, z: Seq<char>)
    ensures
        b.first_int(seq![x, y, z]) == (if b.get_int(x) is Some {
            b.get_int(x)
        } else if b.get_int(y) is Some {
            b.get_int(y)
        } else {
            b.get_int(z)
        }),
{
    let s = seq![x, y, z];
    assert(s.drop_first() =~= seq![y, z]);
    assert(seq![y, z].drop_first() =~= seq![z]);
    assert(seq![z].drop_first() =~= Seq::empty());
    assert(b.first_int(Seq::empty()) is None);
    assert(b.first_int(seq![z]) == b.get_int(z));
    assert(b.first_int(seq![y, z]) == if b.get_int(y) is Some {
        b.get_int(y)
    } else {
        b.get_int(z)
    });
}

/// The trainee's state is told from the first turn on, each figure under its own name.
pub proof fn lemma_career_figures(t: Tree)
    ensures
        career_of(t) is Some <==> (first_hit(t, "chara_info"@) matches Some(c) && c.int_or_zero("turn"@)
            > 0),
        career_of(t) matches Some(s) ==> {
            let c = first_hit(t, "chara_info"@)->0;
            &&& s.turn == c.int_or_zero("turn"@)
            &&& s.speed == c.int_or_zero("speed"@)
            &&& s.stamina == c.int_or_zero("stamina"@)
            &&& s.power == c.int_or_zero("power"@)
            &&& s.guts == c.int_or_zero("guts"@)
            &&& s.wit == c.int_or_zero("wiz"@)
            &&& s.skill_point == c.int_or_zero("skill_point"@)
            &&& s.fans == c.int_or_zero("fans"@)
            &&& s.mood == c.int_or_zero("motivation"@)
            &&& s.energy == c.int_or_zero("vital"@)
            &&& s.max_energy == c.int_or_zero("max_vital"@)
            &&& s.card_id == c.int_or_zero("card_id"@)
            &&& s.active
        },
{
}

/// An item is listed by name and count while any is held; items without a number or a count are left out.
pub proof fn lemma_item_lines(rows: Seq<Tree>, row: Tree, names: Names)
    ensures
        item_lines(Seq::empty(), names).len() == 0,
        ({
            let id = row.int_or_zero("item_id"@);
            let count = if row.get_int("num"@) is Some {
                row.get_int("num"@)
            } else if row.get_int("current_num"@) is Some {
                row.get_int("current_num"@)
            } else {
                row.get_int("item_num"@)
            };
            &&& id > 0 && count is Some && count->0 > 0 ==> item_lines(rows.push(row), names)
                == item_lines(rows, names).push(
                name_of(names.items@, id) + " x"@ + dec(count->0 as int),
            )
            &&& id <= 0 || count is None || count->0 <= 0 ==> item_lines(rows.push(row), names)
                == item_lines(rows, names)
        }),
{
    assert(rows.push(row).drop_last() =~= rows);
    lemma_three_keys(row, "num"@, "current_num"@, "item_num"@);
}

/// An offer is listed by name and price until it is sold out or its last turn has passed; a limit of 0 is
/// none.
pub proof fn lemma_catalog_lines(rows: Seq<Tree>, row: Tree, turn: i64, names: Names)
    ensures
        catalog_lines(Seq::empty(), turn, names).len() == 0,
        ({
            let limit = row.int_or_zero("limit_buy_count"@);
            let last = row.int_or_zero("limit_turn"@);
            let sold_out = limit > 0 && limit <= row.int_or_zero("item_buy_num"@);
            let past = last > 0 && turn > last;
            &&& !sold_out && !past ==> catalog_lines(rows.push(row), turn, names) == catalog_lines(
                rows,
                turn,
                names,
            ).push(
                name_of(names.items@, row.int_or_zero("item_id"@)) + " ("@ + dec(
                    row.int_or_zero("coin_num"@) as int,
                ) + ")"@,
            )
            &&& sold_out || past ==> catalog_lines(rows.push(row), turn, names) == catalog_lines(
                rows,
                turn,
                names,
            )
        }),
{
    assert(rows.push(row).drop_last() =~= rows);
}

/// A bond is listed under its card, with its value, and is full from 100 on; a row without a card is left
/// out.
pub proof fn lemma_bond_rows(rows: Seq<Tree>, row: Tree)
    ensures
        bond_rows(Seq::empty()).len() == 0,
        ({
            let card = if row.get_int("support_card_id"@) is Some {
                row.get_int("support_card_id"@)
            } else if row.get_int("card_id"@) is Some {
                row.get_int("card_id"@)
            } else {
                row.get_int("id"@)
            };
            let after = bond_rows(rows.push(row));
            &&& card is None || card->0 <= 0 ==> after == bond_rows(rows)
            &&& card is Some && card->0 > 0 ==> {
                &&& after.len() == bond_rows(rows).len() + 1
                &&& after.drop_last() == bond_rows(rows)
                &&& after.last().id == card->0
                &&& after.last().maxed <==> after.last().bond >= 100
                &&& row.get_int("evaluation"@) matches Some(n) ==> after.last().bond == n
                &&& row.get_int("evaluation"@) is None ==> (row.get_int("friendship"@) matches Some(n)
                    ==> after.last().bond == n)
            }
        }),
{
    assert(rows.push(row).drop_last() =~= rows);
    lemma_three_keys(row, "support_card_id"@, "card_id"@, "id"@);
    let keys = seq!["evaluation"@, "friendship"@, "bond"@, "evaluation_point"@];
    assert(keys.drop_first() =~= seq!["friendship"@, "bond"@, "evaluation_point"@]);
    lemma_three_keys(row, "friendship"@, "bond"@, "evaluation_point"@);
    if bond_card(row) > 0 {
        assert(bond_rows(rows.push(row)).drop_last() =~= bond_rows(rows));
    }
}

/// The bonds are those of the first of three lists that has any.
pub proof fn lemma_bonds(t: Tree, ci: Tree)
    requires
        first_hit(t, "chara_info"@) == Some(ci),
    ensures
        ci.get_list("support_card_array"@) matches Some(l) ==> (bond_rows(l).len() > 0 ==> bonds_of(t)
            == Some(bond_rows(l))),
        ci.get_list("support_card_array"@) is None ==> (ci.get_list("support_card_list"@) matches Some(l)
            ==> (bond_rows(l).len() > 0 ==> bonds_of(t) == Some(bond_rows(l)))),
        ci.get_list("support_card_array"@) is None && ci.get_list("support_card_list"@) is None ==> (
        ci.get_list("training_partner_array"@) matches Some(l) ==> (bond_rows(l).len() > 0 ==> bonds_of(
            t,
        ) == Some(bond_rows(l)))),
        bonds_of(t) matches Some(b) ==> b.len() > 0,
{
    let keys = bond_keys();
    let k1 = keys.drop_first();
    let k2 = k1.drop_first();
    assert(k1 =~= seq!["support_card_list"@, "training_partner_array"@]);
    assert(k2 =~= seq!["training_partner_array"@]);
    assert(k2.drop_first() =~= Seq::empty());
    assert(first_bonds(ci, k2.drop_first()) is None);
    assert(first_bonds(ci, k2) == match ci.get_list("training_partner_array"@) {
        Some(rows) if bond_rows(rows).len() > 0 => Some(bond_rows(rows)),
        _ => None,
    });
    assert(first_bonds(ci, k1) == match ci.get_list("support_card_list"@) {
        Some(rows) if bond_rows(rows).len() > 0 => Some(bond_rows(rows)),
        _ => first_bonds(ci, k2),
    });
}

/// A race result is the rank and the fans that its reward names; a win counts as one of the highest grade
/// where the rank and the grade are both 1.
pub proof fn lemma_race_result(t: Tree)
    ensures
        first_hit(t, "race_reward_info"@) is None ==> race_result_of(t) is None && !g1_win_of(t),
        first_hit(t, "race_reward_info"@) matches Some(rr) ==> {
            let rank = rr.int_or_zero("result_rank"@);
            let fans = rr.int_or_zero("gained_fans"@);
            &&& rank > 0 || fans > 0 ==> race_result_of(t) == Some((rank, fans))
            &&& rank <= 0 && fans <= 0 ==> race_result_of(t) is None
            &&& rank != 1 ==> !g1_win_of(t)
            &&& rr.get_int("grade"@) matches Some(g) ==> (g1_win_of(t) <==> rank == 1 && g == 1)
            &&& rr.get_int("grade"@) is None ==> (rr.get_int("race_grade"@) matches Some(g) ==> (
            g1_win_of(t) <==> rank == 1 && g == 1))
            &&& rr.get_int("grade"@) is None && rr.get_int("race_grade"@) is None ==> (g1_win_of(t)
                <==> rank == 1 && rr.get_int("grade_id"@) == Some(1i64))
        },
{
    if let Some(rr) = first_hit(t, "race_reward_info"@) {
        lemma_three_keys(rr, "grade"@, "race_grade"@, "grade_id"@);
    }
}

/// A purchase is listed under its skill with what it cost; rows without a skill or a cost are none.
pub proof fn lemma_purchases(rows: Seq<Tree>, row: Tree, names: Names)
    ensures
        bought_rows(Seq::empty(), names).len() == 0,
        ({
            let skill = match row.get_int("skill_id"@) {
                Some(n) => n,
                None => row.int_or_zero("id"@),
            };
            let after = bought_rows(rows.push(row), names);
            &&& after.len() == bought_rows(rows, names).len() || after.len() == bought_rows(
                rows,
                names,
            ).len() + 1 && after.drop_last() == bought_rows(rows, names) && after.last().0 == skill
                && after.last().1 == name_of(names.skills@, skill) && after.last().2 > 0
            &&& skill <= 0 ==> after == bought_rows(rows, names)
            &&& row.get_int("need_skill_point"@) matches Some(cost) ==> (skill > 0 && cost > 0 ==> after
                == bought_rows(rows, names).push((skill, name_of(names.skills@, skill), cost)))
        }),
{
    assert(rows.push(row).drop_last() =~= rows);
    let keys = seq!["skill_id"@, "id"@];
    assert(keys.drop_first() =~= seq!["id"@]);
    assert(seq!["id"@].drop_first() =~= Seq::empty());
    assert(row.first_int(Seq::empty()) is None);
    assert(row.first_int(seq!["id"@]) == row.get_int("id"@));
    let costs = seq!["need_skill_point"@, "skill_point"@, "cost"@, "consume_skill_point"@];
    assert(costs[0] == "need_skill_point"@);
    let after = bought_rows(rows.push(row), names);
    if after.len() != bought_rows(rows, names).len() {
        assert(after.drop_last() =~= bought_rows(rows, names));
    }
}

/// The items, the offers, the purchases and the rest of a report are each read from their own part of the
/// response; a part that is missing leaves what was shown before.
pub proof fn lemma_report_parts(r: AccountReport, t: Tree, prior: Account, names: Names)
    requires
        r.tells(t, prior, names),
    ensures
        r.career_present <==> first_hit(t, "chara_info"@) is Some,
        r.race_over <==> first_hit(t, "race_reward_info"@) is Some,
        first_hit(t, "free_data_set"@) is None ==> r.items is None && r.catalog is None,
        first_hit(t, "free_data_set"@) matches Some(f) ==> {
            &&& f.get_list("user_item_info_array"@) is None ==> r.items is None
            &&& f.get_list("user_item_info_array"@) matches Some(l) ==> (r.items matches Some(i) && lines(
                i@,
            ) == item_lines(l, names))
            &&& f.get_list("pick_up_item_info_array"@) is None ==> r.catalog is None
            &&& f.get_list("pick_up_item_info_array"@) matches Some(l) ==> (r.catalog matches Some(c) && (
            first_hit(t, "chara_info"@) matches Some(ci) ==> lines(c@) == catalog_lines(
                l,
                ci.int_or_zero("turn"@),
                names,
            )))
        },
        r.bonds matches Some(b) ==> bonds_of(t) == Some(b@),
        r.bonds is None ==> bonds_of(t) is None,
        r.account == account_of(t, prior),
        r.career == career_of(t),
        r.race_result == race_result_of(t),
        r.g1_win == g1_win_of(t),
        r.purchases@.len() == purchases_of(t, names).len(),
        forall|i: int|
            0 <= i < r.purchases@.len() ==> purchases_of(t, names)[i] == (
                (#[trigger] r.purchases@[i]).0,
                r.purchases@[i].1@,
                r.purchases@[i].2,
            ),
{
    assert(bought_views(r.purchases@).len() == r.purchases@.len());
    assert forall|i: int| 0 <= i < r.purchases@.len() implies purchases_of(t, names)[i] == (
        (#[trigger] r.purchases@[i]).0,
        r.purchases@[i].1@,
        r.purchases@[i].2,
    ) by {
        assert(bought_views(r.purchases@)[i] == (
            r.purchases@[i].0,
            r.purchases@[i].1@,
            r.purchases@[i].2,
        ));
    }
}

/// The purchases are those of three lists, one behind the other, and in each those of its rows.
pub proof fn lemma_purchase_lists(t: Tree, names: Names, found: Seq<Tree>, x: Tree)
    ensures
        purchases_of(t, names) == bought_in(hits(t, "skill_learning_info_array"@), names) + bought_in(
            hits(t, "learning_skill_array"@),
            names,
        ) + bought_in(hits(t, "skill_tips_array"@), names),
        bought_in(Seq::empty(), names).len() == 0,
        x matches Tree::List(rows) ==> bought_in(found.push(x), names) == bought_in(found, names)
            + bought_rows(rows, names),
        !(x is List) ==> bought_in(found.push(x), names) == bought_in(found, names),
{
    assert(found.push(x).drop_last() =~= found);
}

/// A bond's value and a purchase's cost are each the first of four figures that is there.
pub proof fn lemma_four_figures(row: Tree)
    ensures
        row.get_int("evaluation"@) is None && row.get_int("friendship"@) is None ==> (row.get_int(
            "bond"@,
        ) matches Some(n) ==> bond_value(row) == n),
        row.get_int("evaluation"@) is None && row.get_int("friendship"@) is None && row.get_int(
            "bond"@,
        ) is None ==> (row.get_int("evaluation_point"@) matches Some(n) ==> bond_value(row) == n),
        row.get_int("need_skill_point"@) is None ==> (row.get_int("skill_point"@) matches Some(n)
            ==> bought_cost(row) == n),
        row.get_int("need_skill_point"@) is None && row.get_int("skill_point"@) is None ==> (row.get_int(
            "cost"@,
        ) matches Some(n) ==> bought_cost(row) == n),
        row.get_int("need_skill_point"@) is None && row.get_int("skill_point"@) is None && row.get_int(
            "cost"@,
        ) is None ==> (row.get_int("consume_skill_point"@) matches Some(n) ==> bought_cost(row) == n),
{
    let a = seq!["evaluation"@, "friendship"@, "bond"@, "evaluation_point"@];
    assert(a.drop_first() =~= seq!["friendship"@, "bond"@, "evaluation_point"@]);
    lemma_three_keys(row, "friendship"@, "bond"@, "evaluation_point"@);
    let b = seq!["need_skill_point"@, "skill_point"@, "cost"@, "consume_skill_point"@];
    assert(b.drop_first() =~= seq!["skill_point"@, "cost"@, "consume_skill_point"@]);
    lemma_three_keys(row, "skill_point"@, "cost"@, "consume_skill_point"@);
}

/// The partners of a tile are called one by one, in their order.
pub proof fn lemma_partners_in_order(ids: Seq<i64>, cards: Seq<Tree>, names: Names)
    ensures
        partner_labels(ids, cards, names).len() == ids.len(),
        forall|i: int|
            0 <= i < ids.len() ==> #[trigger] partner_labels(ids, cards, names)[i] == partner_label(
                ids[i],
                cards,
                names,
            ),
{
}

/// The deck and the hints held are those of the trainee; without a trainee there are none.
pub proof fn lemma_chara_list(t: Tree, key: Seq<char>)
    ensures
        first_hit(t, "chara_info"@) is None ==> chara_list(t, key).len() == 0,
        first_hit(t, "chara_info"@) matches Some(ci) ==> {
            &&& ci.get_list(key) matches Some(l) ==> chara_list(t, key) == l
            &&& ci.get_list(key) is None ==> chara_list(t, key).len() == 0
        },
{
}

} // verus!
