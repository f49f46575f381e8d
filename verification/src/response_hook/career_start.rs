//! The race plan of a career, the spark offer at its end, and the notices in between.

use vstd::prelude::*;

use crate::career::{plan_views, PlannedView};
use crate::career::PlannedRace;
use crate::msgpack::{
    as_arr, find_all, find_first, find_int, find_list, first_int, first_list, get_list,
    int_or_zero, node_int, node_pairs, node_text, Node, Tree,
};
use crate::msgpack::{
    first_hit, first_int_of, first_list_of, hits, keys_of, lemma_three_lists, or_zero, pairs, trees,
    trees_ref,
};
use crate::names::{factor_of, lines, program_of, FactorView};
use crate::names::{find_factor, race_program, Factor, Names};
use crate::order::{insert_by_key, lemma_insert_at, lemma_sort, sort_by_key, with_key};
use crate::race_field::ground_name;
use crate::race_field::ground_spec;
use crate::response_hook::finish::factor_ids;
use crate::response_hook::finish::read_factor_ids;
use crate::text::{same, show_i64, show_u64};
use crate::text::dec;

verus! {

/// How many races a plan lists.
pub const MAX_PLAN: usize = 64;

/// How many notices are enough.
pub const MAX_BLOCKED: usize = 16;

/// How deep the spark walk goes.
pub const MAX_DEPTH: u32 = 12;

/// How many owners the spark walk collects.
pub const MAX_OWNERS: usize = 64;

/// The sparks that the end of a career offers.
pub struct SparkOffer {
    /// Most stars first.
    pub sparks: Vec<Factor>,
    pub rerolls_left: i64,
    pub rerolls_used: i64,
}

/// What a row of factors says.
pub open spec fn factor_views(s: Seq<Factor>) -> Seq<FactorView> {
    s.map_values(|f: Factor| f@)
}

/// The positive factor ids of a row of records.
pub open spec fn record_ids(rows: Seq<Tree>) -> Seq<i64>
    decreases rows.len(),
{
    if rows.len() == 0 {
        Seq::empty()
    } else if rows.last().int_or_zero("factor_id"@) > 0 {
        record_ids(rows.drop_last()).push(rows.last().int_or_zero("factor_id"@))
    } else {
        record_ids(rows.drop_last())
    }
}

/// The factor ids of every lottery group, in order.
pub open spec fn group_ids(groups: Seq<Tree>) -> Seq<i64>
    decreases groups.len(),
{
    if groups.len() == 0 {
        Seq::empty()
    } else {
        let before = group_ids(groups.drop_last());
        match groups.last().get_list("factor_info_array"@) {
            Some(rows) => before + record_ids(rows),
            None => before,
        }
    }
}

/// The ids that a response offers.
pub open spec fn offered_ids(t: Tree) -> Seq<i64> {
    match first_list_of(hits(t, "factor_select_info_array"@)) {
        Some(groups) => group_ids(groups),
        None => Seq::empty(),
    }
}

/// The order of an offer: descending stars.
pub open spec fn by_stars() -> spec_fn(FactorView) -> int {
    |f: FactorView| -(f.stars as int)
}

/// The sparks of an offer, most stars first, equal stars in the order offered.
pub open spec fn offered_sparks(ids: Seq<i64>, names: Names) -> Seq<FactorView> {
    sort_by_key(ids.map_values(|id: i64| factor_of(names.factors@, id)), by_stars())
}

/// Append the positive factor ids of a row of records.
fn put_record_ids(rows: &Vec<Node>, out: &mut Vec<i64>)
    ensures
        final(out)@ == old(out)@ + record_ids(trees(rows@)),
{
    let ghost all = trees(rows@);
    let ghost start = out@;
    let mut i: usize = 0;
    assert(out@ =~= start + record_ids(all.take(0)));
    while i < rows.len()
        invariant
            i <= rows.len(),
            all == trees(rows@),
            out@ == start + record_ids(all.take(i as int)),
        decreases rows.len() - i,
    {
        assert(all.take(i as int + 1).drop_last() =~= all.take(i as int));
        assert(all.take(i as int + 1).last() == rows@[i as int]@);
        let id: i64 = int_or_zero(&rows[i], "factor_id");
        if id > 0 {
            out.push(id);
            assert(out@ =~= start + record_ids(all.take(i as int + 1)));
        }
        i = i + 1;
    }
    assert(all.take(i as int) =~= all);
}

/// The factor ids of every lottery group.
fn read_group_ids(groups: &Vec<Node>) -> (r: Vec<i64>)
    ensures
        r@ == group_ids(trees(groups@)),
{
    let ghost all = trees(groups@);
    let mut out: Vec<i64> = Vec::new();
    let mut i: usize = 0;
    assert(out@ =~= group_ids(all.take(0)));
    while i < groups.len()
        invariant
            i <= groups.len(),
            all == trees(groups@),
            out@ == group_ids(all.take(i as int)),
        decreases groups.len() - i,
    {
        assert(all.take(i as int + 1).drop_last() =~= all.take(i as int));
        assert(all.take(i as int + 1).last() == groups@[i as int]@);
        if let Some(rows) = get_list(&groups[i], "factor_info_array") {
            put_record_ids(rows, &mut out);
        }
        i = i + 1;
    }
    assert(all.take(i as int) =~= all);
    out
}

/// Put a spark behind those with at least as many stars.
fn place_spark(out: &mut Vec<Factor>, f: Factor)
    ensures
        factor_views(final(out)@) == insert_by_key(factor_views(old(out)@), f@, by_stars()),
{
    let ghost seen = factor_views(out@);
    let ghost x = f@;
    let ghost before = out@;
    let mut k: usize = out.len();
    while k > 0 && out[k - 1].stars < f.stars
        invariant
            k <= out.len(),
            out@ == before,
            seen == factor_views(out@),
            x == f@,
            forall|i: int| k <= i < out.len() ==> by_stars()(#[trigger] seen[i]) > by_stars()(x),
        decreases k,
    {
        assert(seen[k - 1] == out@[k - 1]@);
        k = k - 1;
    }
    proof {
        if k > 0 {
            assert(seen[k - 1] == out@[k - 1]@);
        }
        lemma_insert_at(seen, x, by_stars(), k as int);
    }
    out.insert(k, f);
    assert(factor_views(out@) =~= seen.insert(k as int, x));
}

/// Name the offered sparks and order them, most stars first.
fn read_sparks(ids: &Vec<i64>, names: &Names) -> (r: Vec<Factor>)
    ensures
        factor_views(r@) == offered_sparks(ids@, *names),
{
    let ghost all = ids@.map_values(|id: i64| factor_of(names.factors@, id));
    let mut out: Vec<Factor> = Vec::new();
    let mut i: usize = 0;
    assert(factor_views(out@) =~= sort_by_key(all.take(0), by_stars()));
    while i < ids.len()
        invariant
            i <= ids.len(),
            all == ids@.map_values(|id: i64| factor_of(names.factors@, id)),
            factor_views(out@) == sort_by_key(all.take(i as int), by_stars()),
        decreases ids.len() - i,
    {
        assert(all.take(i as int + 1).drop_last() =~= all.take(i as int));
        assert(all.take(i as int + 1).last() == factor_of(names.factors@, ids@[i as int]));
        let f = find_factor(&names.factors, ids[i]);
        place_spark(&mut out, f);
        i = i + 1;
    }
    assert(all.take(i as int) =~= all);
    out
}

/// The spark offer of a response: the candidates of every lottery group, and the re-roll counters.
/// `None` where no candidate is offered.
pub fn parse_spark_offer(val: &Node, names: &Names) -> (r: Option<SparkOffer>)
    ensures
        r is Some == (offered_ids(val@).len() > 0),
        r matches Some(o) ==> {
            &&& factor_views(o.sparks@) == offered_sparks(offered_ids(val@), *names)
            &&& o.rerolls_left == or_zero(first_int_of(hits(val@, "lottery_remain_num"@)))
            &&& o.rerolls_used == or_zero(first_int_of(hits(val@, "lottery_count"@)))
        },
{
    match find_list(val, "factor_select_info_array") {
        None => None,
        Some(groups) => {
            let ids = read_group_ids(groups);
            if ids.len() == 0 {
                return None;
            }
            let rerolls_left: i64 = match find_int(val, "lottery_remain_num") {
                Some(n) => n,
                None => 0,
            };
            let rerolls_used: i64 = match find_int(val, "lottery_count") {
                Some(n) => n,
                None => 0,
            };
            Some(SparkOffer { sparks: read_sparks(&ids, names), rerolls_left, rerolls_used })
        },
    }
}

/// A race added to a plan, unless it has no program, the plan is full, or the program is listed.
pub open spec fn push_race(
    plan: Seq<PlannedView>,
    year: i64,
    program_id: i64,
    reserved: bool,
    names: Names,
) -> Seq<PlannedView> {
    if program_id <= 0 || plan.len() >= MAX_PLAN || planned(plan, program_id) {
        plan
    } else {
        let program = program_of(names.programs@, program_id);
        plan.push(
            PlannedView {
                year,
                program_id,
                name: program.name,
                distance: program.distance,
                ground: ground_spec(program.ground),
                reserved,
            },
        )
    }
}

/// Whether a plan lists a program.
pub open spec fn planned(plan: Seq<PlannedView>, program_id: i64) -> bool {
    exists|i: int| 0 <= i < plan.len() && (#[trigger] plan[i]).program_id == program_id
}

/// The races of one deck added to a plan.
pub open spec fn push_deck(plan: Seq<PlannedView>, races: Seq<Tree>, names: Names) -> Seq<
    PlannedView,
>
    decreases races.len(),
{
    if races.len() == 0 {
        plan
    } else {
        let r = races.last();
        push_race(
            push_deck(plan, races.drop_last(), names),
            r.int_or_zero("year"@),
            r.int_or_zero("program_id"@),
            true,
            names,
        )
    }
}

/// The races of a row of decks added to a plan.
pub open spec fn push_decks(plan: Seq<PlannedView>, decks: Seq<Tree>, names: Names) -> Seq<
    PlannedView,
>
    decreases decks.len(),
{
    if decks.len() == 0 {
        plan
    } else {
        let before = push_decks(plan, decks.drop_last(), names);
        match decks.last().get_list("race_array"@) {
            Some(races) => push_deck(before, races, names),
            None => before,
        }
    }
}

/// The races that the player has entered, found in a row of values.
pub open spec fn push_entered(plan: Seq<PlannedView>, found: Seq<Tree>, names: Names) -> Seq<
    PlannedView,
>
    decreases found.len(),
{
    if found.len() == 0 {
        plan
    } else {
        let before = push_entered(plan, found.drop_last(), names);
        match found.last() {
            Tree::List(decks) => push_decks(before, decks, names),
            _ => before,
        }
    }
}

/// The program of a rolled race: a record with one, or a bare id.
pub open spec fn rolled_program(r: Tree) -> i64 {
    if r.int_or_zero("program_id"@) > 0 {
        r.int_or_zero("program_id"@)
    } else {
        or_zero(r.as_int())
    }
}

/// A row of rolled races added to a plan.
pub open spec fn push_rolled_rows(plan: Seq<PlannedView>, rows: Seq<Tree>, names: Names) -> Seq<
    PlannedView,
>
    decreases rows.len(),
{
    if rows.len() == 0 {
        plan
    } else {
        let r = rows.last();
        push_race(
            push_rolled_rows(plan, rows.drop_last(), names),
            r.int_or_zero("year"@),
            rolled_program(r),
            false,
            names,
        )
    }
}

/// The races that the career rolled, found in a row of values.
pub open spec fn push_rolled(plan: Seq<PlannedView>, found: Seq<Tree>, names: Names) -> Seq<
    PlannedView,
>
    decreases found.len(),
{
    if found.len() == 0 {
        plan
    } else {
        let before = push_rolled(plan, found.drop_last(), names);
        match found.last() {
            Tree::List(rows) => push_rolled_rows(before, rows, names),
            _ => before,
        }
    }
}

/// The races of a career in the order they are found: entered ones first.
pub open spec fn plan_found(t: Tree, names: Names) -> Seq<PlannedView> {
    push_rolled(
        push_entered(Seq::empty(), hits(t, "reserved_race_array"@), names),
        hits(t, "race_random_program_array"@),
        names,
    )
}

/// The order of a plan: by year, then by program.
pub open spec fn by_date() -> spec_fn(PlannedView) -> int {
    |p: PlannedView| p.year * 0x1_0000_0000_0000_0000int + p.program_id
}

/// The plan of a career, in order.
pub open spec fn plan_of(t: Tree, names: Names) -> Seq<PlannedView> {
    sort_by_key(plan_found(t, names), by_date())
}

/// A plan under construction: the races kept in order, and the programs in the order found.
struct Draft {
    races: Vec<PlannedRace>,
    seen: Vec<i64>,
}

impl Draft {
    /// Whether this holds the races `found` so far.
    closed spec fn holds(self, found: Seq<PlannedView>) -> bool {
        &&& plan_views(self.races@) == sort_by_key(found, by_date())
        &&& self.seen@ == found.map_values(|p: PlannedView| p.program_id)
        &&& self.races@.len() == found.len()
    }
}

/// Put a race into its place by year and program.
fn place_race(out: &mut Vec<PlannedRace>, p: PlannedRace)
    ensures
        plan_views(final(out)@) == insert_by_key(plan_views(old(out)@), p@, by_date()),
        final(out)@.len() == old(out)@.len() + 1,
{
    let ghost seen = plan_views(out@);
    let ghost x = p@;
    let ghost before = out@;
    let mut k: usize = out.len();
    while k > 0 && (out[k - 1].year > p.year || (out[k - 1].year == p.year && out[k - 1].program_id
        > p.program_id))
        invariant
            k <= out.len(),
            out@ == before,
            seen == plan_views(out@),
            x == p@,
            forall|i: int| k <= i < out.len() ==> by_date()(#[trigger] seen[i]) > by_date()(x),
        decreases k,
    {
        assert(seen[k - 1] == out@[k - 1]@);
        k = k - 1;
    }
    proof {
        if k > 0 {
            assert(seen[k - 1] == out@[k - 1]@);
        }
        lemma_insert_at(seen, x, by_date(), k as int);
    }
    out.insert(k, p);
    assert(plan_views(out@) =~= seen.insert(k as int, x));
}

/// Whether a program is among those found.
fn has_id(ids: &Vec<i64>, id: i64) -> (r: bool)
    ensures
        r == ids@.contains(id),
{
    let mut i: usize = 0;
    while i < ids.len()
        invariant
            i <= ids.len(),
            forall|j: int| 0 <= j < i ==> ids@[j] != id,
        decreases ids.len() - i,
    {
        if ids[i] == id {
            return true;
        }
        i = i + 1;
    }
    false
}

impl Draft {
    /// Add a race.
    fn add_race(
        &mut self,
        year: i64,
        program_id: i64,
        reserved: bool,
        names: &Names,
        Ghost(found): Ghost<Seq<PlannedView>>,
    )
        requires
            old(self).holds(found),
        ensures
            final(self).holds(push_race(found, year, program_id, reserved, *names)),
    {
        if program_id <= 0 || self.seen.len() >= MAX_PLAN {
            return ;
        }
        let listed = has_id(&self.seen, program_id);
        assert(listed == planned(found, program_id)) by {
            let ids = found.map_values(|p: PlannedView| p.program_id);
            if listed {
                let i = choose|i: int| 0 <= i < ids.len() && ids[i] == program_id;
                assert(found[i].program_id == program_id);
            }
            if planned(found, program_id) {
                let i = choose|i: int|
                    0 <= i < found.len() && (#[trigger] found[i]).program_id == program_id;
                assert(ids[i] == program_id);
            }
        }
        if listed {
            return ;
        }
        let (name, ground, distance) = race_program(&names.programs, program_id);
        let p = PlannedRace {
            year,
            program_id,
            name,
            distance,
            ground: ground_name(ground),
            reserved,
        };
        let ghost next = found.push(p@);
        assert(next.drop_last() =~= found);
        place_race(&mut self.races, p);
        self.seen.push(program_id);
        assert(self.seen@ =~= next.map_values(|p: PlannedView| p.program_id));
    }
}

/// Add the races of one deck.
fn add_deck(
    d: &mut Draft,
    races: &Vec<Node>,
    names: &Names,
    Ghost(found): Ghost<Seq<PlannedView>>,
)
    requires
        old(d).holds(found),
    ensures
        final(d).holds(push_deck(found, trees(races@), *names)),
{
    let ghost all = trees(races@);
    let mut i: usize = 0;
    assert(push_deck(found, all.take(0), *names) == found);
    while i < races.len()
        invariant
            i <= races.len(),
            all == trees(races@),
            d.holds(push_deck(found, all.take(i as int), *names)),
        decreases races.len() - i,
    {
        assert(all.take(i as int + 1).drop_last() =~= all.take(i as int));
        assert(all.take(i as int + 1).last() == races@[i as int]@);
        let year: i64 = int_or_zero(&races[i], "year");
        let id: i64 = int_or_zero(&races[i], "program_id");
        d.add_race(year, id, true, names, Ghost(push_deck(found, all.take(i as int), *names)));
        i = i + 1;
    }
    assert(all.take(i as int) =~= all);
}

/// Add the races of a row of decks.
fn add_decks(
    d: &mut Draft,
    decks: &Vec<Node>,
    names: &Names,
    Ghost(found): Ghost<Seq<PlannedView>>,
)
    requires
        old(d).holds(found),
    ensures
        final(d).holds(push_decks(found, trees(decks@), *names)),
{
    let ghost all = trees(decks@);
    let mut i: usize = 0;
    assert(push_decks(found, all.take(0), *names) == found);
    while i < decks.len()
        invariant
            i <= decks.len(),
            all == trees(decks@),
            d.holds(push_decks(found, all.take(i as int), *names)),
        decreases decks.len() - i,
    {
        assert(all.take(i as int + 1).drop_last() =~= all.take(i as int));
        assert(all.take(i as int + 1).last() == decks@[i as int]@);
        if let Some(races) = get_list(&decks[i], "race_array") {
            add_deck(d, races, names, Ghost(push_decks(found, all.take(i as int), *names)));
        }
        i = i + 1;
    }
    assert(all.take(i as int) =~= all);
}

/// Add a row of rolled races.
fn add_rolled(
    d: &mut Draft,
    rows: &Vec<Node>,
    names: &Names,
    Ghost(found): Ghost<Seq<PlannedView>>,
)
    requires
        old(d).holds(found),
    ensures
        final(d).holds(push_rolled_rows(found, trees(rows@), *names)),
{
    let ghost all = trees(rows@);
    let mut i: usize = 0;
    assert(push_rolled_rows(found, all.take(0), *names) == found);
    while i < rows.len()
        invariant
            i <= rows.len(),
            all == trees(rows@),
            d.holds(push_rolled_rows(found, all.take(i as int), *names)),
        decreases rows.len() - i,
    {
        assert(all.take(i as int + 1).drop_last() =~= all.take(i as int));
        assert(all.take(i as int + 1).last() == rows@[i as int]@);
        let year: i64 = int_or_zero(&rows[i], "year");
        let own: i64 = int_or_zero(&rows[i], "program_id");
        let id: i64 = if own > 0 {
            own
        } else {
            match node_int(&rows[i]) {
                Some(n) => n,
                None => 0,
            }
        };
        d.add_race(
            year,
            id,
            false,
            names,
            Ghost(push_rolled_rows(found, all.take(i as int), *names)),
        );
        i = i + 1;
    }
    assert(all.take(i as int) =~= all);
}

/// The race plan of a career, from its first response: the races that the player has entered and
/// those that the career rolled, each program once, by year and program. `None` where no race is
/// found.
pub fn parse_career_plan(val: &Node, names: &Names) -> (r: Option<Vec<PlannedRace>>)
    ensures
        r is Some == (plan_found(val@, *names).len() > 0),
        r matches Some(p) ==> plan_views(p@) == plan_of(val@, *names),
{
    let mut d = Draft { races: Vec::new(), seen: Vec::new() };
    assert(plan_views(d.races@) =~= sort_by_key(Seq::<PlannedView>::empty(), by_date()));
    assert(d.seen@ =~= Seq::<PlannedView>::empty().map_values(|p: PlannedView| p.program_id));
    let entered = find_all(val, "reserved_race_array");
    let ghost all = trees_ref(entered@);
    let mut i: usize = 0;
    assert(push_entered(Seq::empty(), all.take(0), *names) == Seq::<PlannedView>::empty());
    while i < entered.len()
        invariant
            i <= entered.len(),
            all == trees_ref(entered@),
            d.holds(push_entered(Seq::empty(), all.take(i as int), *names)),
        decreases entered.len() - i,
    {
        assert(all.take(i as int + 1).drop_last() =~= all.take(i as int));
        assert(all.take(i as int + 1).last() == entered@[i as int]@);
        if let Some(decks) = as_arr(entered[i]) {
            add_decks(
                &mut d,
                decks,
                names,
                Ghost(push_entered(Seq::empty(), all.take(i as int), *names)),
            );
        }
        i = i + 1;
    }
    assert(all.take(i as int) =~= all);
    let ghost own = push_entered(Seq::empty(), all, *names);
    let rolled = find_all(val, "race_random_program_array");
    let ghost rest = trees_ref(rolled@);
    let mut j: usize = 0;
    assert(push_rolled(own, rest.take(0), *names) == own);
    while j < rolled.len()
        invariant
            j <= rolled.len(),
            rest == trees_ref(rolled@),
            d.holds(push_rolled(own, rest.take(j as int), *names)),
        decreases rolled.len() - j,
    {
        assert(rest.take(j as int + 1).drop_last() =~= rest.take(j as int));
        assert(rest.take(j as int + 1).last() == rolled@[j as int]@);
        if let Some(rows) = as_arr(rolled[j]) {
            add_rolled(&mut d, rows, names, Ghost(push_rolled(own, rest.take(j as int), *names)));
        }
        j = j + 1;
    }
    assert(rest.take(j as int) =~= rest);
    if d.races.len() > 0 {
        Some(d.races)
    } else {
        None
    }
}

/// What a stat that did not increase is called.
pub open spec fn blocked_stat(n: i64) -> Seq<char> {
    (if n == 1 {
        "Speed"@
    } else if n == 2 {
        "Stamina"@
    } else if n == 3 {
        "Power"@
    } else if n == 4 {
        "Guts"@
    } else if n == 5 {
        "Wit"@
    } else {
        "stat #"@ + dec(n as int)
    }) + " did not increase"@
}

/// A notice for each stat of a row.
pub open spec fn stat_notices(rows: Seq<Tree>) -> Seq<Seq<char>> {
    rows.map_values(|r: Tree| blocked_stat(or_zero(r.as_int())))
}

/// The notices of the pairs of a block, in order; no further pair is read once there are enough.
pub open spec fn notices(d: Seq<(Tree, Tree)>) -> Seq<Seq<char>>
    decreases d.len(),
{
    if d.len() == 0 {
        Seq::empty()
    } else {
        let before = notices(d.drop_last());
        match d.last() {
            (Tree::Text(key), Tree::List(rows)) if rows.len() > 0 && before.len() < MAX_BLOCKED =>
                if key == "status_type_array"@ {
                    before + stat_notices(rows)
                } else {
                    before.push(key + ": "@ + dec(rows.len() as int))
                },
            _ => before,
        }
    }
}

/// Once there are enough notices, no more are added.
proof fn lemma_notices_full(d: Seq<(Tree, Tree)>, i: int)
    requires
        0 <= i <= d.len(),
        notices(d.take(i)).len() >= MAX_BLOCKED,
    ensures
        notices(d) == notices(d.take(i)),
    decreases d.len() - i,
{
    if i < d.len() {
        assert(d.take(i + 1).drop_last() =~= d.take(i));
        lemma_notices_full(d, i + 1);
    } else {
        assert(d.take(i) =~= d);
    }
}

/// Append a notice for each stat of a row.
fn put_stat_notices(rows: &Vec<Node>, out: &mut Vec<String>)
    ensures
        lines(final(out)@) == lines(old(out)@) + stat_notices(trees(rows@)),
{
    let ghost all = trees(rows@);
    let ghost start = lines(out@);
    let mut i: usize = 0;
    assert(lines(out@) =~= start + stat_notices(all.take(0)));
    while i < rows.len()
        invariant
            i <= rows.len(),
            all == trees(rows@),
            lines(out@) == start + stat_notices(all.take(i as int)),
        decreases rows.len() - i,
    {
        let n: i64 = match node_int(&rows[i]) {
            Some(n) => n,
            None => 0,
        };
        let mut line: String = match n {
            1 => "Speed".to_owned(),
            2 => "Stamina".to_owned(),
            3 => "Power".to_owned(),
            4 => "Guts".to_owned(),
            5 => "Wit".to_owned(),
            _ => {
                let mut s: String = "stat #".to_owned();
                s.append(show_i64(n).as_str());
                s
            },
        };
        line.append(" did not increase");
        let ghost before = out@;
        let ghost said = line@;
        out.push(line);
        assert(said == blocked_stat(or_zero(rows@[i as int]@.as_int())));
        assert(lines(out@) =~= lines(before).push(said));
        assert(stat_notices(all.take(i as int + 1)) =~= stat_notices(all.take(i as int)).push(
            said,
        ));
        i = i + 1;
        assert(lines(out@) =~= start + stat_notices(all.take(i as int)));
    }
    assert(all.take(i as int) =~= all);
}

/// What the server says did not increase: stats by name, other arrays by their size. Nothing for
/// an array that is empty; `None` where the response has no such block.
pub fn parse_blocked(val: &Node) -> (r: Option<Vec<String>>)
    ensures
        (match r {
            Some(out) => Some(lines(out@)),
            None => None,
        }) == (match first_hit(val@, "not_up_parameter_info"@) {
            Some(Tree::Dict(d)) => Some(notices(d)),
            _ => None,
        }),
{
    let info: &Node = match find_first(val, "not_up_parameter_info") {
        None => {
            return None;
        },
        Some(n) => n,
    };
    match node_pairs(info) {
        None => None,
        Some(d) => {
            let ghost all = pairs(d@);
            let mut out: Vec<String> = Vec::new();
            let mut i: usize = 0;
            assert(lines(out@) =~= notices(all.take(0)));
            while i < d.len()
                invariant
                    i <= d.len(),
                    all == pairs(d@),
                    first_hit(val@, "not_up_parameter_info"@) == Some(Tree::Dict(all)),
                    lines(out@) == notices(all.take(i as int)),
                decreases d.len() - i,
            {
                assert(all.take(i as int + 1).drop_last() =~= all.take(i as int));
                assert(all.take(i as int + 1).last() == (d@[i as int].0@, d@[i as int].1@));
                if out.len() >= MAX_BLOCKED {
                    proof {
                        lemma_notices_full(all, i as int);
                    }
                    return Some(out);
                }
                if let Some(key) = node_text(&d[i].0) {
                    if let Some(rows) = as_arr(&d[i].1) {
                        if rows.len() > 0 {
                            if same(key.as_str(), "status_type_array") {
                                put_stat_notices(rows, &mut out);
                            } else {
                                let mut line: String = key.clone();
                                line.append(": ");
                                line.append(show_u64(rows.len() as u64).as_str());
                                let ghost before = out@;
                                let ghost said = line@;
                                out.push(line);
                                assert(lines(out@) =~= lines(before).push(said));
                            }
                        }
                    }
                }
                i = i + 1;
            }
            assert(all.take(i as int) =~= all);
            Some(out)
        },
    }
}

/// What a row of owners and their sparks says.
pub open spec fn owned(s: Seq<(i64, Vec<i64>)>) -> Seq<(i64, Seq<i64>)> {
    s.map_values(|p: (i64, Vec<i64>)| (p.0, p.1@))
}

/// The owner and sparks of a record that has both.
pub open spec fn own_sparks(v: Tree) -> Seq<(i64, Seq<i64>)> {
    let id = or_zero(v.first_int(seq!["chara_id"@, "card_id"@]));
    match v.first_list(seq!["factor_id_array"@, "factor_array"@, "succession_factor_array"@]) {
        Some(rows) if id > 0 && factor_ids(rows).len() > 0 => seq![(id, factor_ids(rows))],
        _ => Seq::empty(),
    }
}

/// The owners and sparks of a document added to those found: depth first, a record before what
/// lies below it, nothing below [`MAX_DEPTH`], and no further once there are [`MAX_OWNERS`].
pub open spec fn walk_sparks(v: Tree, depth: int, found: Seq<(i64, Seq<i64>)>) -> Seq<
    (i64, Seq<i64>),
>
    decreases v, 0nat,
{
    if depth > MAX_DEPTH || found.len() >= MAX_OWNERS {
        found
    } else {
        match v {
            Tree::Dict(d) => walk_pairs(d, d.len(), depth + 1, found + own_sparks(v)),
            Tree::List(l) => walk_list(l, l.len(), depth + 1, found),
            _ => found,
        }
    }
}

/// [`walk_sparks`] over the first `n` elements of an array.
pub open spec fn walk_list(l: Seq<Tree>, n: nat, depth: int, found: Seq<(i64, Seq<i64>)>) -> Seq<
    (i64, Seq<i64>),
>
    decreases l, n,
{
    if n == 0 || n > l.len() {
        found
    } else {
        walk_sparks(l[n - 1], depth, walk_list(l, (n - 1) as nat, depth, found))
    }
}

/// [`walk_sparks`] over the values of the first `n` pairs of a map.
pub open spec fn walk_pairs(
    d: Seq<(Tree, Tree)>,
    n: nat,
    depth: int,
    found: Seq<(i64, Seq<i64>)>,
) -> Seq<(i64, Seq<i64>)>
    decreases d, n,
{
    if n == 0 || n > d.len() {
        found
    } else {
        walk_sparks(d[n - 1].1, depth, walk_pairs(d, (n - 1) as nat, depth, found))
    }
}

/// Append the owner and sparks of a record that has both.
fn put_own_sparks(v: &Node, out: &mut Vec<(i64, Vec<i64>)>)
    ensures
        owned(final(out)@) == owned(old(out)@) + own_sparks(v@),
{
    let ghost before = out@;
    let ks: [&str; 2] = ["chara_id", "card_id"];
    assert(keys_of(ks@) =~= seq!["chara_id"@, "card_id"@]);
    let ls: [&str; 3] = ["factor_id_array", "factor_array", "succession_factor_array"];
    assert(keys_of(ls@) =~= seq!["factor_id_array"@, "factor_array"@, "succession_factor_array"@]);
    let id: i64 = match first_int(v, ks.as_slice()) {
        Some(n) => n,
        None => 0,
    };
    if id > 0 {
        if let Some(rows) = first_list(v, ls.as_slice()) {
            let ids = read_factor_ids(rows);
            if ids.len() > 0 {
                let ghost seen = (id, ids@);
                out.push((id, ids));
                assert(owned(out@) =~= owned(before).push(seen));
                assert(owned(out@) =~= owned(before) + own_sparks(v@));
                return ;
            }
        }
    }
    assert(owned(out@) =~= owned(before) + own_sparks(v@));
}

/// Walk a document for owners and sparks.
fn walk(v: &Node, out: &mut Vec<(i64, Vec<i64>)>, depth: u32)
    requires
        depth <= MAX_DEPTH + 1,
    ensures
        owned(final(out)@) == walk_sparks(v@, depth as int, owned(old(out)@)),
    decreases MAX_DEPTH + 1 - depth,
{
    if depth > MAX_DEPTH || out.len() >= MAX_OWNERS {
        return ;
    }
    let ghost start = owned(out@);
    if let Some(d) = node_pairs(v) {
        put_own_sparks(v, out);
        let ghost own = owned(out@);
        let ghost all = pairs(d@);
        let mut i: usize = 0;
        while i < d.len()
            invariant
                i <= d.len(),
                depth <= MAX_DEPTH,
                all == pairs(d@),
                owned(out@) == walk_pairs(all, i as nat, depth + 1, own),
            decreases d.len() - i,
        {
            assert(all[i as int] == (d@[i as int].0@, d@[i as int].1@));
            walk(&d[i].1, out, depth + 1);
            i = i + 1;
        }
        return ;
    }
    if let Some(l) = as_arr(v) {
        let ghost all = trees(l@);
        let mut i: usize = 0;
        while i < l.len()
            invariant
                i <= l.len(),
                depth <= MAX_DEPTH,
                all == trees(l@),
                owned(out@) == walk_list(all, i as nat, depth + 1, start),
            decreases l.len() - i,
        {
            assert(all[i as int] == l@[i as int]@);
            walk(&l[i], out, depth + 1);
            i = i + 1;
        }
    }
}

/// Every record of a response that has both an id and sparks, with its sparks. The walk goes by
/// shape alone, so that it does not matter which container the records travel in.
pub fn parse_factors(val: &Node) -> (r: Vec<(i64, Vec<i64>)>)
    ensures
        owned(r@) == walk_sparks(val@, 0, Seq::empty()),
{
    let mut out: Vec<(i64, Vec<i64>)> = Vec::new();
    assert(owned(out@) =~= Seq::empty());
    walk(val, &mut out, 0);
    out
}

/// A plan lists at most [`MAX_PLAN`] races, and no program twice.
pub open spec fn plan_ok(plan: Seq<PlannedView>) -> bool {
    &&& plan.len() <= MAX_PLAN
    &&& forall|i: int, j: int|
        0 <= i < j < plan.len() ==> (#[trigger] plan[i]).program_id != (
        #[trigger] plan[j]).program_id
    &&& forall|i: int| 0 <= i < plan.len() ==> (#[trigger] plan[i]).program_id > 0
}

/// Adding a race keeps a plan bounded and without duplicates.
proof fn lemma_push_race_ok(
    plan: Seq<PlannedView>,
    year: i64,
    program_id: i64,
    reserved: bool,
    names: Names,
)
    requires
        plan_ok(plan),
    ensures
        plan_ok(push_race(plan, year, program_id, reserved, names)),
{
    let next = push_race(plan, year, program_id, reserved, names);
    if next != plan {
        assert forall|i: int, j: int| 0 <= i < j < next.len() implies (
        #[trigger] next[i]).program_id != (#[trigger] next[j]).program_id by {
            assert(plan[i].program_id != program_id);
            if j < plan.len() {
                assert(plan[i].program_id != plan[j].program_id);
            }
        }
    }
}

/// Adding a row of rolled races keeps a plan bounded and without duplicates.
proof fn lemma_push_rolled_rows_ok(plan: Seq<PlannedView>, rows: Seq<Tree>, names: Names)
    requires
        plan_ok(plan),
    ensures
        plan_ok(push_rolled_rows(plan, rows, names)),
    decreases rows.len(),
{
    if rows.len() > 0 {
        lemma_push_rolled_rows_ok(plan, rows.drop_last(), names);
        let r = rows.last();
        lemma_push_race_ok(
            push_rolled_rows(plan, rows.drop_last(), names),
            r.int_or_zero("year"@),
            rolled_program(r),
            false,
            names,
        );
    }
}

/// Adding rolled races keeps a plan bounded and without duplicates.
proof fn lemma_push_rolled_ok(plan: Seq<PlannedView>, found: Seq<Tree>, names: Names)
    requires
        plan_ok(plan),
    ensures
        plan_ok(push_rolled(plan, found, names)),
    decreases found.len(),
{
    if found.len() > 0 {
        lemma_push_rolled_ok(plan, found.drop_last(), names);
        if let Tree::List(rows) = found.last() {
            lemma_push_rolled_rows_ok(push_rolled(plan, found.drop_last(), names), rows, names);
        }
    }
}

/// Adding a deck keeps a plan bounded and without duplicates.
proof fn lemma_push_deck_ok(plan: Seq<PlannedView>, races: Seq<Tree>, names: Names)
    requires
        plan_ok(plan),
    ensures
        plan_ok(push_deck(plan, races, names)),
    decreases races.len(),
{
    if races.len() > 0 {
        lemma_push_deck_ok(plan, races.drop_last(), names);
        let r = races.last();
        lemma_push_race_ok(
            push_deck(plan, races.drop_last(), names),
            r.int_or_zero("year"@),
            r.int_or_zero("program_id"@),
            true,
            names,
        );
    }
}

/// Adding decks keeps a plan bounded and without duplicates.
proof fn lemma_push_decks_ok(plan: Seq<PlannedView>, decks: Seq<Tree>, names: Names)
    requires
        plan_ok(plan),
    ensures
        plan_ok(push_decks(plan, decks, names)),
    decreases decks.len(),
{
    if decks.len() > 0 {
        lemma_push_decks_ok(plan, decks.drop_last(), names);
        if let Some(races) = decks.last().get_list("race_array"@) {
            lemma_push_deck_ok(push_decks(plan, decks.drop_last(), names), races, names);
        }
    }
}

/// Adding entered races keeps a plan bounded and without duplicates.
proof fn lemma_push_entered_ok(plan: Seq<PlannedView>, found: Seq<Tree>, names: Names)
    requires
        plan_ok(plan),
    ensures
        plan_ok(push_entered(plan, found, names)),
    decreases found.len(),
{
    if found.len() > 0 {
        lemma_push_entered_ok(plan, found.drop_last(), names);
        if let Tree::List(decks) = found.last() {
            lemma_push_decks_ok(push_entered(plan, found.drop_last(), names), decks, names);
        }
    }
}

/// Rolled races are added behind what a plan already lists.
proof fn lemma_rolled_keeps_prefix(plan: Seq<PlannedView>, found: Seq<Tree>, names: Names)
    ensures
        plan.len() <= push_rolled(plan, found, names).len(),
        push_rolled(plan, found, names).take(plan.len() as int) == plan,
    decreases found.len(),
{
    if found.len() == 0 {
        assert(plan.take(plan.len() as int) =~= plan);
    } else {
        lemma_rolled_keeps_prefix(plan, found.drop_last(), names);
        let mid = push_rolled(plan, found.drop_last(), names);
        if let Tree::List(rows) = found.last() {
            lemma_rolled_rows_keep_prefix(mid, rows, names);
            let end = push_rolled_rows(mid, rows, names);
            assert(end.take(plan.len() as int) =~= end.take(mid.len() as int).take(
                plan.len() as int,
            ));
        }
    }
}

/// A row of rolled races is added behind what a plan already lists.
proof fn lemma_rolled_rows_keep_prefix(plan: Seq<PlannedView>, rows: Seq<Tree>, names: Names)
    ensures
        plan.len() <= push_rolled_rows(plan, rows, names).len(),
        push_rolled_rows(plan, rows, names).take(plan.len() as int) == plan,
    decreases rows.len(),
{
    if rows.len() == 0 {
        assert(plan.take(plan.len() as int) =~= plan);
    } else {
        lemma_rolled_rows_keep_prefix(plan, rows.drop_last(), names);
        let mid = push_rolled_rows(plan, rows.drop_last(), names);
        let end = push_rolled_rows(plan, rows, names);
        assert(end.take(plan.len() as int) =~= mid.take(plan.len() as int));
    }
}

/// A plan lists at most [`MAX_PLAN`] races, each program once, in ascending order of year and
/// program; and a race that the player has entered stays listed as entered, also where the career
/// rolled the same program.
pub proof fn lemma_plan(t: Tree, names: Names)
    ensures
        plan_ok(plan_found(t, names)),
        plan_of(t, names).len() <= MAX_PLAN,
        plan_of(t, names).to_multiset() =~= plan_found(t, names).to_multiset(),
        forall|i: int, j: int|
            0 <= i <= j < plan_of(t, names).len() ==> by_date()(#[trigger] plan_of(t, names)[i])
                <= by_date()(#[trigger] plan_of(t, names)[j]),
        ({
            let own = push_entered(Seq::empty(), hits(t, "reserved_race_array"@), names);
            own.len() <= plan_found(t, names).len() && plan_found(t, names).take(own.len() as int)
                == own
        }),
{
    let own = push_entered(Seq::empty(), hits(t, "reserved_race_array"@), names);
    lemma_push_entered_ok(Seq::empty(), hits(t, "reserved_race_array"@), names);
    lemma_push_rolled_ok(own, hits(t, "race_random_program_array"@), names);
    lemma_rolled_keeps_prefix(own, hits(t, "race_random_program_array"@), names);
    lemma_sort(plan_found(t, names), by_date());
}

/// A block whose arrays are all empty gives no notice.
pub proof fn lemma_empty_arrays_are_silent(d: Seq<(Tree, Tree)>)
    requires
        forall|i: int|
            0 <= i < d.len() ==> ((#[trigger] d[i]).1 matches Tree::List(l) ==> l.len() == 0),
    ensures
        notices(d).len() == 0,
    decreases d.len(),
{
    if d.len() > 0 {
        lemma_empty_arrays_are_silent(d.drop_last());
        assert(d[d.len() - 1] == d.last());
    }
}

/// A spark offer lists every offered id once, most stars first, equal stars in the order offered.
pub proof fn lemma_offer_sorted(ids: Seq<i64>, names: Names)
    ensures
        offered_sparks(ids, names).len() == ids.len(),
        forall|i: int, j: int|
            0 <= i <= j < ids.len() ==> (#[trigger] offered_sparks(ids, names)[i]).stars >= (
            #[trigger] offered_sparks(ids, names)[j]).stars,
        ({
            let listed = ids.map_values(|id: i64| factor_of(names.factors@, id));
            &&& offered_sparks(ids, names).to_multiset() =~= listed.to_multiset()
            &&& forall|k: int| #[trigger]
                with_key(offered_sparks(ids, names), by_stars(), k) == with_key(
                    listed,
                    by_stars(),
                    k,
                )
        }),
{
    let listed = ids.map_values(|id: i64| factor_of(names.factors@, id));
    lemma_sort(listed, by_stars());
    let r = offered_sparks(ids, names);
    assert forall|i: int, j: int| 0 <= i <= j < ids.len() implies (#[trigger] r[i]).stars >= (
    #[trigger] r[j]).stars by {
        assert(by_stars()(r[i]) <= by_stars()(r[j]));
    }
}

/// Two rows of the same multiset have the same members.
proof fn lemma_same_members<T>(a: Seq<T>, b: Seq<T>, x: T)
    requires
        a.to_multiset() =~= b.to_multiset(),
    ensures
        a.contains(x) <==> b.contains(x),
{
    broadcast use vstd::seq_lib::group_to_multiset_ensures;

    assert(a.contains(x) <==> a.to_multiset().count(x) > 0);
    assert(b.contains(x) <==> b.to_multiset().count(x) > 0);
}

/// A plan goes by year, and within a year by program; no two of its races share a program.
pub proof fn lemma_plan_by_year(t: Tree, names: Names)
    ensures
        plan_of(t, names).len() <= 64,
        forall|i: int, j: int|
            0 <= i < j < plan_of(t, names).len() ==> {
                let p = #[trigger] plan_of(t, names)[i];
                let q = #[trigger] plan_of(t, names)[j];
                p.year < q.year || p.year == q.year && p.program_id < q.program_id
            },
        forall|i: int, j: int|
            0 <= i < j < plan_of(t, names).len() ==> (#[trigger] plan_of(t, names)[i]).program_id != (
            #[trigger] plan_of(t, names)[j]).program_id,
{
    lemma_plan(t, names);
    let found = plan_found(t, names);
    let plan = plan_of(t, names);
    assert forall|i: int, j: int| 0 <= i < found.len() && 0 <= j < found.len() && i != j implies found[i]
        != found[j] by {
        if i < j {
            assert(found[i].program_id != found[j].program_id);
        } else {
            assert(found[j].program_id != found[i].program_id);
        }
    }
    assert(found.no_duplicates());
    found.lemma_multiset_has_no_duplicates();
    plan.lemma_multiset_has_no_duplicates_conv();
    assert forall|i: int, j: int| 0 <= i < j < plan.len() implies (#[trigger] plan[i]).program_id != (
    #[trigger] plan[j]).program_id by {
        lemma_same_members(plan, found, plan[i]);
        lemma_same_members(plan, found, plan[j]);
        let a = choose|a: int| 0 <= a < found.len() && found[a] == plan[i];
        let b = choose|b: int| 0 <= b < found.len() && found[b] == plan[j];
        assert(plan[i] != plan[j]);
        assert(a != b);
        if a < b {
            assert(found[a].program_id != found[b].program_id);
        } else {
            assert(found[b].program_id != found[a].program_id);
        }
    }
    assert forall|i: int, j: int| 0 <= i < j < plan.len() implies ({
        let p = #[trigger] plan[i];
        let q = #[trigger] plan[j];
        p.year < q.year || p.year == q.year && p.program_id < q.program_id
    }) by {
        assert(by_date()(plan[i]) <= by_date()(plan[j]));
        assert(plan[i].program_id != plan[j].program_id);
    }
}

/// Whether races hold one of a year and a program.
pub open spec fn race_in(races: Seq<Tree>, year: i64, id: i64) -> bool {
    exists|c: int|
        0 <= c < races.len() && (#[trigger] races[c]).int_or_zero("year"@) == year
            && races[c].int_or_zero("program_id"@) == id
}

/// Whether decks hold such a race.
pub open spec fn deck_in(decks: Seq<Tree>, year: i64, id: i64) -> bool {
    exists|b: int|
        0 <= b < decks.len() && ((#[trigger] decks[b]).get_list("race_array"@) matches Some(races)
            && race_in(races, year, id))
}

/// Whether the player has entered such a race.
pub open spec fn entered_in(found: Seq<Tree>, year: i64, id: i64) -> bool {
    exists|a: int|
        0 <= a < found.len() && (#[trigger] found[a] matches Tree::List(decks) && deck_in(
            decks,
            year,
            id,
        ))
}

/// Whether rolled races hold one of a year and a program, which a row may be itself.
pub open spec fn rolled_row_in(rows: Seq<Tree>, year: i64, id: i64) -> bool {
    exists|c: int|
        0 <= c < rows.len() && (#[trigger] rows[c]).int_or_zero("year"@) == year && (
        rows[c].int_or_zero("program_id"@) == id || rows[c] == Tree::Int(id))
}

/// Whether the career has rolled such a race.
pub open spec fn rolled_in(found: Seq<Tree>, year: i64, id: i64) -> bool {
    exists|a: int|
        0 <= a < found.len() && (#[trigger] found[a] matches Tree::List(rows) && rolled_row_in(
            rows,
            year,
            id,
        ))
}

/// Whether a planned race is one that was entered, or else one that was rolled, and is described as its
/// program is.
pub open spec fn sourced(p: PlannedView, own: Seq<Tree>, rolled: Seq<Tree>, names: Names) -> bool {
    &&& p.program_id > 0
    &&& p.name == program_of(names.programs@, p.program_id).name
    &&& p.distance == program_of(names.programs@, p.program_id).distance
    &&& p.ground == if program_of(names.programs@, p.program_id).ground == 2 {
        "Dirt"@
    } else {
        "Turf"@
    }
    &&& p.reserved ==> entered_in(own, p.year, p.program_id)
    &&& !p.reserved ==> rolled_in(rolled, p.year, p.program_id)
}

pub open spec fn all_sourced(
    plan: Seq<PlannedView>,
    own: Seq<Tree>,
    rolled: Seq<Tree>,
    names: Names,
) -> bool {
    forall|i: int| 0 <= i < plan.len() ==> sourced(#[trigger] plan[i], own, rolled, names)
}

/// Whether every race of a plan was entered.
pub open spec fn all_entered(plan: Seq<PlannedView>) -> bool {
    forall|i: int| 0 <= i < plan.len() ==> (#[trigger] plan[i]).reserved
}

/// Whether a program is in a plan, unless the plan is full.
pub open spec fn listed_or_full(plan: Seq<PlannedView>, id: i64) -> bool {
    planned(plan, id) || plan.len() >= 64
}

proof fn lemma_push_race_lists(
    plan: Seq<PlannedView>,
    year: i64,
    id: i64,
    reserved: bool,
    names: Names,
)
    ensures
        id > 0 ==> listed_or_full(push_race(plan, year, id, reserved, names), id),
        forall|x: i64| #[trigger]
            listed_or_full(plan, x) ==> listed_or_full(push_race(plan, year, id, reserved, names), x),
        reserved && all_entered(plan) ==> all_entered(push_race(plan, year, id, reserved, names)),
{
    let next = push_race(plan, year, id, reserved, names);
    if next != plan {
        assert(next[plan.len() as int].program_id == id);
        assert forall|x: i64| #[trigger] listed_or_full(plan, x) implies listed_or_full(next, x) by {
            if planned(plan, x) {
                let i = choose|i: int| 0 <= i < plan.len() && (#[trigger] plan[i]).program_id == x;
                assert(next[i] == plan[i]);
            }
        }
    }
}

proof fn lemma_deck_lists(plan: Seq<PlannedView>, races: Seq<Tree>, names: Names)
    ensures
        forall|y: i64, id: i64| #[trigger]
            race_in(races, y, id) && id > 0 ==> listed_or_full(push_deck(plan, races, names), id),
        forall|x: i64| #[trigger]
            listed_or_full(plan, x) ==> listed_or_full(push_deck(plan, races, names), x),
        all_entered(plan) ==> all_entered(push_deck(plan, races, names)),
    decreases races.len(),
{
    if races.len() > 0 {
        let rest = races.drop_last();
        let r = races.last();
        lemma_deck_lists(plan, rest, names);
        let mid = push_deck(plan, rest, names);
        lemma_push_race_lists(mid, r.int_or_zero("year"@), r.int_or_zero("program_id"@), true, names);
        assert forall|y: i64, id: i64| #[trigger] race_in(races, y, id) && id > 0 implies listed_or_full(
            push_deck(plan, races, names),
            id,
        ) by {
            let c = choose|c: int|
                0 <= c < races.len() && (#[trigger] races[c]).int_or_zero("year"@) == y
                    && races[c].int_or_zero("program_id"@) == id;
            if c < rest.len() {
                assert(rest[c] == races[c]);
                assert(race_in(rest, y, id));
                assert(listed_or_full(mid, id));
            }
        }
        assert forall|x: i64| #[trigger] listed_or_full(plan, x) implies listed_or_full(
            push_deck(plan, races, names),
            x,
        ) by {
            assert(listed_or_full(mid, x));
        }
    }
}

proof fn lemma_decks_list(plan: Seq<PlannedView>, decks: Seq<Tree>, names: Names)
    ensures
        forall|y: i64, id: i64| #[trigger]
            deck_in(decks, y, id) && id > 0 ==> listed_or_full(push_decks(plan, decks, names), id),
        forall|x: i64| #[trigger]
            listed_or_full(plan, x) ==> listed_or_full(push_decks(plan, decks, names), x),
        all_entered(plan) ==> all_entered(push_decks(plan, decks, names)),
    decreases decks.len(),
{
    if decks.len() > 0 {
        let rest = decks.drop_last();
        lemma_decks_list(plan, rest, names);
        let mid = push_decks(plan, rest, names);
        let end = push_decks(plan, decks, names);
        if let Some(races) = decks.last().get_list("race_array"@) {
            lemma_deck_lists(mid, races, names);
        }
        assert forall|x: i64| #[trigger] listed_or_full(mid, x) implies listed_or_full(end, x) by {}
        assert forall|y: i64, id: i64| #[trigger] deck_in(decks, y, id) && id > 0 implies listed_or_full(
            end,
            id,
        ) by {
            let b = choose|b: int|
                0 <= b < decks.len() && ((#[trigger] decks[b]).get_list("race_array"@) matches Some(
                    races,
                ) && race_in(races, y, id));
            if b < rest.len() {
                assert(rest[b] == decks[b]);
                assert(deck_in(rest, y, id));
                assert(listed_or_full(mid, id));
            } else {
                assert(race_in(decks.last().get_list("race_array"@)->0, y, id));
            }
        }
        assert forall|x: i64| #[trigger] listed_or_full(plan, x) implies listed_or_full(end, x) by {
            assert(listed_or_full(mid, x));
        }
    }
}

proof fn lemma_entered_list(plan: Seq<PlannedView>, found: Seq<Tree>, names: Names)
    ensures
        forall|y: i64, id: i64| #[trigger]
            entered_in(found, y, id) && id > 0 ==> listed_or_full(push_entered(plan, found, names), id),
        forall|x: i64| #[trigger]
            listed_or_full(plan, x) ==> listed_or_full(push_entered(plan, found, names), x),
        all_entered(plan) ==> all_entered(push_entered(plan, found, names)),
    decreases found.len(),
{
    if found.len() > 0 {
        let rest = found.drop_last();
        lemma_entered_list(plan, rest, names);
        let mid = push_entered(plan, rest, names);
        let end = push_entered(plan, found, names);
        if let Tree::List(decks) = found.last() {
            lemma_decks_list(mid, decks, names);
        }
        assert forall|x: i64| #[trigger] listed_or_full(mid, x) implies listed_or_full(end, x) by {}
        assert forall|y: i64, id: i64| #[trigger]
            entered_in(found, y, id) && id > 0 implies listed_or_full(end, id) by {
            let a = choose|a: int|
                0 <= a < found.len() && (#[trigger] found[a] matches Tree::List(decks) && deck_in(
                    decks,
                    y,
                    id,
                ));
            if a < rest.len() {
                assert(rest[a] == found[a]);
                assert(entered_in(rest, y, id));
                assert(listed_or_full(mid, id));
            } else {
                assert(deck_in(found.last()->List_0, y, id));
            }
        }
        assert forall|x: i64| #[trigger] listed_or_full(plan, x) implies listed_or_full(end, x) by {
            assert(listed_or_full(mid, x));
        }
    }
}

proof fn lemma_rolled_rows_list(plan: Seq<PlannedView>, rows: Seq<Tree>, names: Names)
    ensures
        forall|y: i64, id: i64| #[trigger]
            rolled_row_in(rows, y, id) && id > 0 ==> listed_or_full(
                push_rolled_rows(plan, rows, names),
                id,
            ),
        forall|x: i64| #[trigger]
            listed_or_full(plan, x) ==> listed_or_full(push_rolled_rows(plan, rows, names), x),
    decreases rows.len(),
{
    if rows.len() > 0 {
        let rest = rows.drop_last();
        let r = rows.last();
        lemma_rolled_rows_list(plan, rest, names);
        let mid = push_rolled_rows(plan, rest, names);
        let end = push_rolled_rows(plan, rows, names);
        lemma_push_race_lists(mid, r.int_or_zero("year"@), rolled_program(r), false, names);
        assert forall|y: i64, id: i64| #[trigger]
            rolled_row_in(rows, y, id) && id > 0 implies listed_or_full(end, id) by {
            let c = choose|c: int|
                0 <= c < rows.len() && (#[trigger] rows[c]).int_or_zero("year"@) == y && (
                rows[c].int_or_zero("program_id"@) == id || rows[c] == Tree::Int(id));
            if c < rest.len() {
                assert(rest[c] == rows[c]);
                assert(rolled_row_in(rest, y, id));
                assert(listed_or_full(mid, id));
            } else {
                assert(rolled_program(rows[c]) == id);
            }
        }
        assert forall|x: i64| #[trigger] listed_or_full(plan, x) implies listed_or_full(end, x) by {
            assert(listed_or_full(mid, x));
        }
    }
}

proof fn lemma_push_race_sourced(
    plan: Seq<PlannedView>,
    year: i64,
    id: i64,
    reserved: bool,
    own: Seq<Tree>,
    rolled: Seq<Tree>,
    names: Names,
)
    requires
        all_sourced(plan, own, rolled, names),
        id > 0 && reserved ==> entered_in(own, year, id),
        id > 0 && !reserved ==> rolled_in(rolled, year, id),
    ensures
        all_sourced(push_race(plan, year, id, reserved, names), own, rolled, names),
{
    let next = push_race(plan, year, id, reserved, names);
    assert forall|i: int| 0 <= i < next.len() implies sourced(#[trigger] next[i], own, rolled, names) by {
        if i < plan.len() {
            assert(next[i] == plan[i]);
        }
    }
}

proof fn lemma_deck_sourced(
    plan: Seq<PlannedView>,
    races: Seq<Tree>,
    own: Seq<Tree>,
    rolled: Seq<Tree>,
    names: Names,
)
    requires
        all_sourced(plan, own, rolled, names),
        forall|c: int|
            0 <= c < races.len() ==> entered_in(
                own,
                (#[trigger] races[c]).int_or_zero("year"@),
                races[c].int_or_zero("program_id"@),
            ),
    ensures
        all_sourced(push_deck(plan, races, names), own, rolled, names),
    decreases races.len(),
{
    if races.len() > 0 {
        let rest = races.drop_last();
        let r = races.last();
        assert forall|c: int| 0 <= c < rest.len() implies entered_in(
            own,
            (#[trigger] rest[c]).int_or_zero("year"@),
            rest[c].int_or_zero("program_id"@),
        ) by {
            assert(rest[c] == races[c]);
        }
        lemma_deck_sourced(plan, rest, own, rolled, names);
        assert(races[races.len() - 1] == r);
        lemma_push_race_sourced(
            push_deck(plan, rest, names),
            r.int_or_zero("year"@),
            r.int_or_zero("program_id"@),
            true,
            own,
            rolled,
            names,
        );
    }
}

proof fn lemma_decks_sourced(
    plan: Seq<PlannedView>,
    decks: Seq<Tree>,
    own: Seq<Tree>,
    rolled: Seq<Tree>,
    names: Names,
)
    requires
        all_sourced(plan, own, rolled, names),
        forall|y: i64, id: i64| #[trigger] deck_in(decks, y, id) ==> entered_in(own, y, id),
    ensures
        all_sourced(push_decks(plan, decks, names), own, rolled, names),
    decreases decks.len(),
{
    if decks.len() > 0 {
        let rest = decks.drop_last();
        assert forall|y: i64, id: i64| #[trigger] deck_in(rest, y, id) implies entered_in(own, y, id) by {
            let b = choose|b: int|
                0 <= b < rest.len() && ((#[trigger] rest[b]).get_list("race_array"@) matches Some(races)
                    && race_in(races, y, id));
            assert(decks[b] == rest[b]);
            assert(deck_in(decks, y, id));
        }
        lemma_decks_sourced(plan, rest, own, rolled, names);
        if let Some(races) = decks.last().get_list("race_array"@) {
            assert forall|c: int| 0 <= c < races.len() implies entered_in(
                own,
                (#[trigger] races[c]).int_or_zero("year"@),
                races[c].int_or_zero("program_id"@),
            ) by {
                let y = races[c].int_or_zero("year"@);
                let id = races[c].int_or_zero("program_id"@);
                assert(race_in(races, y, id));
                assert(decks[decks.len() - 1] == decks.last());
                assert(deck_in(decks, y, id));
            }
            lemma_deck_sourced(push_decks(plan, rest, names), races, own, rolled, names);
        }
    }
}

proof fn lemma_entered_sourced(
    plan: Seq<PlannedView>,
    found: Seq<Tree>,
    own: Seq<Tree>,
    rolled: Seq<Tree>,
    names: Names,
)
    requires
        all_sourced(plan, own, rolled, names),
        forall|y: i64, id: i64| #[trigger] entered_in(found, y, id) ==> entered_in(own, y, id),
    ensures
        all_sourced(push_entered(plan, found, names), own, rolled, names),
    decreases found.len(),
{
    if found.len() > 0 {
        let rest = found.drop_last();
        assert forall|y: i64, id: i64| #[trigger] entered_in(rest, y, id) implies entered_in(
            own,
            y,
            id,
        ) by {
            let a = choose|a: int|
                0 <= a < rest.len() && (#[trigger] rest[a] matches Tree::List(decks) && deck_in(
                    decks,
                    y,
                    id,
                ));
            assert(found[a] == rest[a]);
            assert(entered_in(found, y, id));
        }
        lemma_entered_sourced(plan, rest, own, rolled, names);
        if let Tree::List(decks) = found.last() {
            assert forall|y: i64, id: i64| #[trigger] deck_in(decks, y, id) implies entered_in(
                own,
                y,
                id,
            ) by {
                assert(found[found.len() - 1] == found.last());
                assert(entered_in(found, y, id));
            }
            lemma_decks_sourced(push_entered(plan, rest, names), decks, own, rolled, names);
        }
    }
}

proof fn lemma_rolled_rows_sourced(
    plan: Seq<PlannedView>,
    rows: Seq<Tree>,
    own: Seq<Tree>,
    rolled: Seq<Tree>,
    names: Names,
)
    requires
        all_sourced(plan, own, rolled, names),
        forall|y: i64, id: i64| #[trigger] rolled_row_in(rows, y, id) ==> rolled_in(rolled, y, id),
    ensures
        all_sourced(push_rolled_rows(plan, rows, names), own, rolled, names),
    decreases rows.len(),
{
    if rows.len() > 0 {
        let rest = rows.drop_last();
        let r = rows.last();
        assert forall|y: i64, id: i64| #[trigger] rolled_row_in(rest, y, id) implies rolled_in(
            rolled,
            y,
            id,
        ) by {
            let c = choose|c: int|
                0 <= c < rest.len() && (#[trigger] rest[c]).int_or_zero("year"@) == y && (
                rest[c].int_or_zero("program_id"@) == id || rest[c] == Tree::Int(id));
            assert(rows[c] == rest[c]);
            assert(rolled_row_in(rows, y, id));
        }
        lemma_rolled_rows_sourced(plan, rest, own, rolled, names);
        let y = r.int_or_zero("year"@);
        let id = rolled_program(r);
        assert(rows[rows.len() - 1] == r);
        if id > 0 {
            assert(rolled_row_in(rows, y, id));
        }
        lemma_push_race_sourced(
            push_rolled_rows(plan, rest, names),
            y,
            id,
            false,
            own,
            rolled,
            names,
        );
    }
}

proof fn lemma_rolled_sourced(
    plan: Seq<PlannedView>,
    found: Seq<Tree>,
    own: Seq<Tree>,
    rolled: Seq<Tree>,
    names: Names,
)
    requires
        all_sourced(plan, own, rolled, names),
        forall|y: i64, id: i64| #[trigger] rolled_in(found, y, id) ==> rolled_in(rolled, y, id),
    ensures
        all_sourced(push_rolled(plan, found, names), own, rolled, names),
    decreases found.len(),
{
    if found.len() > 0 {
        let rest = found.drop_last();
        assert forall|y: i64, id: i64| #[trigger] rolled_in(rest, y, id) implies rolled_in(
            rolled,
            y,
            id,
        ) by {
            let a = choose|a: int|
                0 <= a < rest.len() && (#[trigger] rest[a] matches Tree::List(rows) && rolled_row_in(
                    rows,
                    y,
                    id,
                ));
            assert(found[a] == rest[a]);
            assert(rolled_in(found, y, id));
        }
        lemma_rolled_sourced(plan, rest, own, rolled, names);
        if let Tree::List(rows) = found.last() {
            assert forall|y: i64, id: i64| #[trigger] rolled_row_in(rows, y, id) implies rolled_in(
                rolled,
                y,
                id,
            ) by {
                assert(found[found.len() - 1] == found.last());
                assert(rolled_in(found, y, id));
            }
            lemma_rolled_rows_sourced(push_rolled(plan, rest, names), rows, own, rolled, names);
        }
    }
}

/// Every planned race is one that the player entered or that the career rolled, of the year given there
/// and described as its program is; and every race that the player entered is planned as entered, unless
/// the plan is full.
pub proof fn lemma_plan_sources(t: Tree, names: Names)
    ensures
        forall|i: int|
            0 <= i < plan_of(t, names).len() ==> sourced(
                #[trigger] plan_of(t, names)[i],
                hits(t, "reserved_race_array"@),
                hits(t, "race_random_program_array"@),
                names,
            ),
        forall|year: i64, id: i64| #[trigger]
            entered_in(hits(t, "reserved_race_array"@), year, id) && id > 0 && plan_of(t, names).len()
                < 64 ==> exists|i: int|
                0 <= i < plan_of(t, names).len() && (#[trigger] plan_of(t, names)[i]).program_id == id
                    && plan_of(t, names)[i].reserved,
{
    let own = hits(t, "reserved_race_array"@);
    let rolled = hits(t, "race_random_program_array"@);
    let first = push_entered(Seq::empty(), own, names);
    let found = plan_found(t, names);
    let plan = plan_of(t, names);
    lemma_entered_sourced(Seq::empty(), own, own, rolled, names);
    lemma_rolled_sourced(first, rolled, own, rolled, names);
    lemma_entered_list(Seq::empty(), own, names);
    lemma_rolled_keeps_prefix(first, rolled, names);
    lemma_sort(found, by_date());
    assert forall|i: int| 0 <= i < plan.len() implies sourced(#[trigger] plan[i], own, rolled, names) by {
        assert(plan.contains(plan[i]));
        lemma_same_members(plan, found, plan[i]);
        let k = choose|k: int| 0 <= k < found.len() && found[k] == plan[i];
        assert(sourced(found[k], own, rolled, names));
    }
    assert forall|year: i64, id: i64| #[trigger]
        entered_in(own, year, id) && id > 0 && plan.len() < 64 implies exists|i: int|
        0 <= i < plan.len() && (#[trigger] plan[i]).program_id == id && plan[i].reserved by {
        assert(listed_or_full(first, id));
        let k = choose|k: int| 0 <= k < first.len() && (#[trigger] first[k]).program_id == id;
        assert(found.take(first.len() as int)[k] == first[k]);
        assert(found[k] == first[k]);
        assert(first[k].reserved);
        assert(found.contains(found[k]));
        lemma_same_members(plan, found, found[k]);
        let i = choose|i: int| 0 <= i < plan.len() && plan[i] == found[k];
        assert(plan[i].program_id == id);
    }
}

/// What is said of each stat that did not rise.
pub proof fn lemma_blocked_stats(n: i64)
    ensures
        1 <= n <= 5 ==> blocked_stat(n) == seq![
            "Speed"@,
            "Stamina"@,
            "Power"@,
            "Guts"@,
            "Wit"@,
        ][n - 1] + " did not increase"@,
        n < 1 || n > 5 ==> blocked_stat(n) == "stat #"@ + dec(n as int) + " did not increase"@,
{
}

/// A list of stats gives a notice for each stat, any other list one notice with its length, an empty list
/// none; once there are sixteen notices no more are added.
pub proof fn lemma_notices(d: Seq<(Tree, Tree)>, key: Seq<char>, rows: Seq<Tree>, x: Tree)
    ensures
        ({
            let before = notices(d);
            let after = notices(d.push((Tree::Text(key), Tree::List(rows))));
            &&& rows.len() == 0 || before.len() >= 16 ==> after == before
            &&& rows.len() > 0 && before.len() < 16 && key != "status_type_array"@ ==> after
                == before.push(key + ": "@ + dec(rows.len() as int))
            &&& rows.len() > 0 && before.len() < 16 && key == "status_type_array"@ ==> {
                &&& after.len() == before.len() + rows.len()
                &&& after.take(before.len() as int) == before
                &&& forall|i: int|
                    0 <= i < rows.len() ==> after[#[trigger] (before.len() + i)] == blocked_stat(
                        match rows[i] {
                            Tree::Int(n) => n,
                            _ => 0,
                        },
                    )
            }
        }),
        !(x is List) ==> notices(d.push((Tree::Text(key), x))) == notices(d),
        notices(Seq::empty()).len() == 0,
{
    let e = d.push((Tree::Text(key), Tree::List(rows)));
    assert(e.drop_last() =~= d);
    assert(e.last() == (Tree::Text(key), Tree::List(rows)));
    assert(d.push((Tree::Text(key), x)).drop_last() =~= d);
    let before = notices(d);
    let after = notices(e);
    if rows.len() > 0 && before.len() < 16 && key == "status_type_array"@ {
        assert(after.take(before.len() as int) =~= before);
    }
}

/// The offered sparks are the numbers above zero, group after group and row after row.
pub proof fn lemma_offered_ids(groups: Seq<Tree>, g: Tree, rows: Seq<Tree>, r: Tree)
    ensures
        r.int_or_zero("factor_id"@) > 0 ==> record_ids(rows.push(r)) == record_ids(rows).push(
            r.int_or_zero("factor_id"@),
        ),
        r.int_or_zero("factor_id"@) <= 0 ==> record_ids(rows.push(r)) == record_ids(rows),
        g.get_list("factor_info_array"@) matches Some(l) ==> group_ids(groups.push(g)) == group_ids(
            groups,
        ) + record_ids(l),
        g.get_list("factor_info_array"@) is None ==> group_ids(groups.push(g)) == group_ids(groups),
        record_ids(Seq::empty()).len() == 0,
        group_ids(Seq::empty()).len() == 0,
{
    assert(rows.push(r).drop_last() =~= rows);
    assert(groups.push(g).drop_last() =~= groups);
}

/// The offer is read from the first list of groups in the response.
pub proof fn lemma_offer_read(t: Tree)
    ensures
        first_list_of(hits(t, "factor_select_info_array"@)) matches Some(l) ==> offered_ids(t)
            == group_ids(l),
        first_list_of(hits(t, "factor_select_info_array"@)) is None ==> offered_ids(t).len() == 0,
{
}

/// Whether an owner of sparks is a character with at least one spark, each of a number above zero.
pub open spec fn owns_sparks(p: (i64, Seq<i64>)) -> bool {
    p.0 > 0 && p.1.len() > 0 && forall|i: int| 0 <= i < p.1.len() ==> #[trigger] p.1[i] > 0
}

pub open spec fn all_own_sparks(s: Seq<(i64, Seq<i64>)>) -> bool {
    forall|i: int| 0 <= i < s.len() ==> owns_sparks(#[trigger] s[i])
}

proof fn lemma_factor_ids_positive(rows: Seq<Tree>)
    ensures
        forall|i: int| 0 <= i < factor_ids(rows).len() ==> #[trigger] factor_ids(rows)[i] > 0,
    decreases rows.len(),
{
    if rows.len() > 0 {
        let rest = factor_ids(rows.drop_last());
        lemma_factor_ids_positive(rows.drop_last());
        assert forall|i: int| 0 <= i < factor_ids(rows).len() implies #[trigger] factor_ids(rows)[i] > 0 by {
            if i < rest.len() {
                assert(rest[i] > 0);
            }
        }
    }
}

/// A character's own sparks go with its character, or its card where no character is named; who has no
/// sparks is no owner.
pub proof fn lemma_own_sparks(v: Tree)
    ensures
        own_sparks(v).len() <= 1,
        all_own_sparks(own_sparks(v)),
        own_sparks(v).len() == 1 ==> {
            &&& v.get_int("chara_id"@) matches Some(n) ==> own_sparks(v)[0].0 == n
            &&& v.get_int("chara_id"@) is None ==> v.get_int("card_id"@) == Some(own_sparks(v)[0].0)
            &&& v.get_list("factor_id_array"@) matches Some(l) ==> own_sparks(v)[0].1 == factor_ids(l)
        },
        v.get_int("chara_id"@) matches Some(n) ==> (v.get_list("factor_id_array"@) matches Some(l) ==> (n
            > 0 && factor_ids(l).len() > 0 ==> own_sparks(v) == seq![(n, factor_ids(l))])),
{
    let keys = seq!["chara_id"@, "card_id"@];
    let rest = keys.drop_first();
    assert(rest =~= seq!["card_id"@]);
    assert(rest.drop_first() =~= Seq::empty());
    assert(v.first_int(rest.drop_first()) is None);
    assert(v.first_int(rest) == v.get_int("card_id"@));
    let lists = seq!["factor_id_array"@, "factor_array"@, "succession_factor_array"@];
    assert(lists[0] == "factor_id_array"@);
    if let Some(rows) = v.first_list(lists) {
        lemma_factor_ids_positive(rows);
    }
}

/// The walk collects owners of sparks and nothing else, behind what was found before it.
pub proof fn lemma_walk_sparks(v: Tree, depth: int, found: Seq<(i64, Seq<i64>)>)
    requires
        all_own_sparks(found),
    ensures
        all_own_sparks(walk_sparks(v, depth, found)),
        found.is_prefix_of(walk_sparks(v, depth, found)),
        depth > 12 || found.len() >= 64 ==> walk_sparks(v, depth, found) == found,
        depth <= 12 && found.len() < 64 && v is Dict ==> (found + own_sparks(v)).is_prefix_of(
            walk_sparks(v, depth, found),
        ),
    decreases v, 0nat,
{
    lemma_own_sparks(v);
    if !(depth > MAX_DEPTH || found.len() >= MAX_OWNERS) {
        match v {
            Tree::Dict(d) => {
                let with = found + own_sparks(v);
                assert forall|i: int| 0 <= i < with.len() implies owns_sparks(#[trigger] with[i]) by {
                    if i < found.len() {
                        assert(with[i] == found[i]);
                    } else {
                        assert(with[i] == own_sparks(v)[i - found.len()]);
                    }
                }
                lemma_walk_pairs(d, d.len(), depth + 1, with);
                assert(found.is_prefix_of(with));
            },
            Tree::List(l) => {
                lemma_walk_list(l, l.len(), depth + 1, found);
            },
            _ => {},
        }
    }
}

proof fn lemma_walk_list(l: Seq<Tree>, n: nat, depth: int, found: Seq<(i64, Seq<i64>)>)
    requires
        all_own_sparks(found),
    ensures
        all_own_sparks(walk_list(l, n, depth, found)),
        found.is_prefix_of(walk_list(l, n, depth, found)),
    decreases l, n,
{
    if n > 0 && n <= l.len() {
        lemma_walk_list(l, (n - 1) as nat, depth, found);
        lemma_walk_sparks(l[n - 1], depth, walk_list(l, (n - 1) as nat, depth, found));
    }
}

proof fn lemma_walk_pairs(d: Seq<(Tree, Tree)>, n: nat, depth: int, found: Seq<(i64, Seq<i64>)>)
    requires
        all_own_sparks(found),
    ensures
        all_own_sparks(walk_pairs(d, n, depth, found)),
        found.is_prefix_of(walk_pairs(d, n, depth, found)),
    decreases d, n,
{
    if n > 0 && n <= d.len() {
        lemma_walk_pairs(d, (n - 1) as nat, depth, found);
        lemma_walk_sparks(d[n - 1].1, depth, walk_pairs(d, (n - 1) as nat, depth, found));
    }
}

/// The walk goes through a list element by element and through a dictionary pair by pair, one step deeper
/// each time.
pub proof fn lemma_walk_order(
    l: Seq<Tree>,
    d: Seq<(Tree, Tree)>,
    k: Tree,
    x: Tree,
    depth: int,
    found: Seq<(i64, Seq<i64>)>,
)
    requires
        depth <= 12,
        found.len() < 64,
    ensures
        walk_sparks(Tree::List(Seq::empty()), depth, found) == found,
        walk_sparks(Tree::List(l.push(x)), depth, found) == walk_sparks(
            x,
            depth + 1,
            walk_sparks(Tree::List(l), depth, found),
        ),
        own_sparks(Tree::Dict(d.push((k, x)))) == own_sparks(Tree::Dict(d)) ==> walk_sparks(
            Tree::Dict(d.push((k, x))),
            depth,
            found,
        ) == walk_sparks(x, depth + 1, walk_sparks(Tree::Dict(d), depth, found)),
        x is Int || x is Text || x is Other ==> walk_sparks(x, depth, found) == found,
{
    assert(walk_list(Seq::empty(), 0, depth + 1, found) == found);
    let m = l.push(x);
    lemma_walk_list_prefix(l, m, l.len(), depth + 1, found);
    assert(walk_list(m, m.len(), depth + 1, found) == walk_sparks(
        m[m.len() - 1],
        depth + 1,
        walk_list(m, l.len(), depth + 1, found),
    ));
    let e = d.push((k, x));
    let with = found + own_sparks(Tree::Dict(d));
    lemma_walk_pairs_prefix(d, e, d.len(), depth + 1, with);
    assert(walk_pairs(e, e.len(), depth + 1, with) == walk_sparks(
        e[e.len() - 1].1,
        depth + 1,
        walk_pairs(e, d.len(), depth + 1, with),
    ));
}

proof fn lemma_walk_list_prefix(
    a: Seq<Tree>,
    b: Seq<Tree>,
    n: nat,
    depth: int,
    found: Seq<(i64, Seq<i64>)>,
)
    requires
        n <= a.len(),
        n <= b.len(),
        forall|i: int| 0 <= i < n ==> a[i] == b[i],
    ensures
        walk_list(a, n, depth, found) == walk_list(b, n, depth, found),
    decreases n,
{
    if n > 0 {
        lemma_walk_list_prefix(a, b, (n - 1) as nat, depth, found);
    }
}

proof fn lemma_walk_pairs_prefix(
    a: Seq<(Tree, Tree)>,
    b: Seq<(Tree, Tree)>,
    n: nat,
    depth: int,
    found: Seq<(i64, Seq<i64>)>,
)
    requires
        n <= a.len(),
        n <= b.len(),
        forall|i: int| 0 <= i < n ==> a[i] == b[i],
    ensures
        walk_pairs(a, n, depth, found) == walk_pairs(b, n, depth, found),
    decreases n,
{
    if n > 0 {
        lemma_walk_pairs_prefix(a, b, (n - 1) as nat, depth, found);
    }
}

proof fn lemma_rolled_list(plan: Seq<PlannedView>, found: Seq<Tree>, names: Names)
    ensures
        forall|y: i64, id: i64| #[trigger]
            rolled_in(found, y, id) && id > 0 ==> listed_or_full(push_rolled(plan, found, names), id),
        forall|x: i64| #[trigger]
            listed_or_full(plan, x) ==> listed_or_full(push_rolled(plan, found, names), x),
    decreases found.len(),
{
    if found.len() > 0 {
        let rest = found.drop_last();
        lemma_rolled_list(plan, rest, names);
        let mid = push_rolled(plan, rest, names);
        let end = push_rolled(plan, found, names);
        if let Tree::List(rows) = found.last() {
            lemma_rolled_rows_list(mid, rows, names);
        }
        assert forall|x: i64| #[trigger] listed_or_full(mid, x) implies listed_or_full(end, x) by {}
        assert forall|y: i64, id: i64| #[trigger]
            rolled_in(found, y, id) && id > 0 implies listed_or_full(end, id) by {
            let a = choose|a: int|
                0 <= a < found.len() && (#[trigger] found[a] matches Tree::List(rows) && rolled_row_in(
                    rows,
                    y,
                    id,
                ));
            if a < rest.len() {
                assert(rest[a] == found[a]);
                assert(rolled_in(rest, y, id));
                assert(listed_or_full(mid, id));
            } else {
                assert(rolled_row_in(found.last()->List_0, y, id));
            }
        }
        assert forall|x: i64| #[trigger] listed_or_full(plan, x) implies listed_or_full(end, x) by {
            assert(listed_or_full(mid, x));
        }
    }
}

/// Every race that the career rolled is planned, as entered or as rolled, unless the plan is full.
pub proof fn lemma_rolled_races_planned(t: Tree, names: Names, year: i64, id: i64)
    requires
        rolled_in(hits(t, "race_random_program_array"@), year, id),
        id > 0,
        plan_of(t, names).len() < 64,
    ensures
        exists|i: int|
            0 <= i < plan_of(t, names).len() && (#[trigger] plan_of(t, names)[i]).program_id == id,
{
    let own = push_entered(Seq::empty(), hits(t, "reserved_race_array"@), names);
    let found = plan_found(t, names);
    let plan = plan_of(t, names);
    lemma_rolled_list(own, hits(t, "race_random_program_array"@), names);
    lemma_sort(found, by_date());
    assert(listed_or_full(found, id));
    let k = choose|k: int| 0 <= k < found.len() && (#[trigger] found[k]).program_id == id;
    assert(found.contains(found[k]));
    lemma_same_members(plan, found, found[k]);
    let i = choose|i: int| 0 <= i < plan.len() && plan[i] == found[k];
    assert(plan[i].program_id == id);
}

/// A character's sparks are those of the first of three lists that it has.
pub proof fn lemma_own_sparks_lists(v: Tree)
    requires
        v.get_list("factor_id_array"@) is None,
        own_sparks(v).len() == 1,
    ensures
        v.get_list("factor_array"@) matches Some(l) ==> own_sparks(v)[0].1 == factor_ids(l),
        v.get_list("factor_array"@) is None ==> (v.get_list("succession_factor_array"@) matches Some(l)
            ==> own_sparks(v)[0].1 == factor_ids(l)),
{
    lemma_three_lists(v, "factor_id_array"@, "factor_array"@, "succession_factor_array"@);
}

} // verus!
