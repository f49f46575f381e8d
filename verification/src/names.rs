//! Name tables: what the game's numeric ids are called.

use vstd::prelude::*;

use crate::text::same;

verus! {

/// One entry of the race program table.
pub struct Program {
    pub id: i64,
    pub name: String,
    /// 2 for dirt; anything else is turf.
    pub ground: i64,
    /// Metres.
    pub distance: i64,
}

/// One entry of the inheritance factor table.
pub struct Factor {
    pub id: i64,
    pub name: String,
    pub kind: String,
    pub stars: i64,
}

/// The tables that the parsers look names up in.
pub struct Names {
    pub items: Vec<(i64, String)>,
    pub skills: Vec<(i64, String)>,
    /// Support cards by card id.
    pub supports: Vec<(i64, String)>,
    /// Characters by character id.
    pub charas: Vec<(i64, String)>,
    /// Skills that a support card can hint, by card id.
    pub hint_pools: Vec<(i64, Vec<String>)>,
    /// The hint group that a skill name belongs to.
    pub skill_groups: Vec<(String, i64)>,
    pub programs: Vec<Program>,
    pub factors: Vec<Factor>,
}

/// What a row of strings spells.
pub open spec fn lines(s: Seq<String>) -> Seq<Seq<char>> {
    s.map_values(|x: String| x@)
}

/// The name listed first for `id`; empty when there is none.
pub open spec fn name_of(table: Seq<(i64, String)>, id: i64) -> Seq<char>
    decreases table.len(),
{
    if table.len() == 0 {
        Seq::empty()
    } else if table[0].0 == id {
        table[0].1@
    } else {
        name_of(table.drop_first(), id)
    }
}

/// The skills listed first for card `id`; none when the card is not listed.
pub open spec fn pool_of(table: Seq<(i64, Vec<String>)>, id: i64) -> Seq<Seq<char>>
    decreases table.len(),
{
    if table.len() == 0 {
        Seq::empty()
    } else if table[0].0 == id {
        lines(table[0].1@)
    } else {
        pool_of(table.drop_first(), id)
    }
}

/// The group listed first for a skill name.
pub open spec fn group_of(table: Seq<(String, i64)>, name: Seq<char>) -> Option<i64>
    decreases table.len(),
{
    if table.len() == 0 {
        None
    } else if table[0].0@ == name {
        Some(table[0].1)
    } else {
        group_of(table.drop_first(), name)
    }
}

/// What a race program is: its name, ground code and distance.
pub struct ProgramView {
    pub name: Seq<char>,
    pub ground: i64,
    pub distance: i64,
}

/// The program listed first for `id`; nameless and without ground and distance when there is none.
pub open spec fn program_of(table: Seq<Program>, id: i64) -> ProgramView
    decreases table.len(),
{
    if table.len() == 0 {
        ProgramView { name: Seq::empty(), ground: 0, distance: 0 }
    } else if table[0].id == id {
        ProgramView {
            name: table[0].name@,
            ground: table[0].ground,
            distance: table[0].distance,
        }
    } else {
        program_of(table.drop_first(), id)
    }
}

/// What an inheritance factor is: its id, name, kind and stars.
pub struct FactorView {
    pub id: i64,
    pub name: Seq<char>,
    pub kind: Seq<char>,
    pub stars: i64,
}

impl View for Factor {
    type V = FactorView;

    open spec fn view(&self) -> FactorView {
        FactorView { id: self.id, name: self.name@, kind: self.kind@, stars: self.stars }
    }
}

/// The factor listed first for `id`; nameless, without kind and stars, when there is none.
pub open spec fn factor_of(table: Seq<Factor>, id: i64) -> FactorView
    decreases table.len(),
{
    if table.len() == 0 {
        FactorView { id, name: Seq::empty(), kind: Seq::empty(), stars: 0 }
    } else if table[0].id == id {
        table[0]@
    } else {
        factor_of(table.drop_first(), id)
    }
}

/// Look an inheritance factor up.
pub fn find_factor(table: &Vec<Factor>, id: i64) -> (r: Factor)
    ensures
        r@ == factor_of(table@, id),
{
    let mut i: usize = 0;
    assert(table@.skip(0) =~= table@);
    while i < table.len()
        invariant
            i <= table.len(),
            factor_of(table@, id) == factor_of(table@.skip(i as int), id),
        decreases table.len() - i,
    {
        if table[i].id == id {
            return Factor {
                id,
                name: table[i].name.clone(),
                kind: table[i].kind.clone(),
                stars: table[i].stars,
            };
        }
        assert(table@.skip(i as int).drop_first() =~= table@.skip(i as int + 1));
        i = i + 1;
    }
    Factor { id, name: String::new(), kind: String::new(), stars: 0 }
}

/// Look a name up; empty when `id` is not listed.
pub fn find_name(table: &Vec<(i64, String)>, id: i64) -> (r: String)
    ensures
        r@ == name_of(table@, id),
{
    let mut i: usize = 0;
    assert(table@.skip(0) =~= table@);
    while i < table.len()
        invariant
            i <= table.len(),
            name_of(table@, id) == name_of(table@.skip(i as int), id),
        decreases table.len() - i,
    {
        if table[i].0 == id {
            return table[i].1.clone();
        }
        assert(table@.skip(i as int).drop_first() =~= table@.skip(i as int + 1));
        i = i + 1;
    }
    String::new()
}

/// The skills that card `id` can hint, when the card is listed.
pub fn find_pool(table: &Vec<(i64, Vec<String>)>, id: i64) -> (r: Option<&Vec<String>>)
    ensures
        pool_of(table@, id) == (match r {
            Some(p) => lines(p@),
            None => Seq::empty(),
        }),
{
    let mut i: usize = 0;
    assert(table@.skip(0) =~= table@);
    while i < table.len()
        invariant
            i <= table.len(),
            pool_of(table@, id) == pool_of(table@.skip(i as int), id),
        decreases table.len() - i,
    {
        if table[i].0 == id {
            return Some(&table[i].1);
        }
        assert(table@.skip(i as int).drop_first() =~= table@.skip(i as int + 1));
        i = i + 1;
    }
    None
}

/// The hint group of a skill name.
pub fn find_group(table: &Vec<(String, i64)>, name: &str) -> (r: Option<i64>)
    ensures
        r == group_of(table@, name@),
{
    let mut i: usize = 0;
    assert(table@.skip(0) =~= table@);
    while i < table.len()
        invariant
            i <= table.len(),
            group_of(table@, name@) == group_of(table@.skip(i as int), name@),
        decreases table.len() - i,
    {
        if same(table[i].0.as_str(), name) {
            return Some(table[i].1);
        }
        assert(table@.skip(i as int).drop_first() =~= table@.skip(i as int + 1));
        i = i + 1;
    }
    None
}

/// Name, ground code and distance of a race program.
pub fn race_program(table: &Vec<Program>, id: i64) -> (r: (String, i64, i64))
    ensures
        (ProgramView { name: r.0@, ground: r.1, distance: r.2 }) == program_of(table@, id),
{
    let mut i: usize = 0;
    assert(table@.skip(0) =~= table@);
    while i < table.len()
        invariant
            i <= table.len(),
            program_of(table@, id) == program_of(table@.skip(i as int), id),
        decreases table.len() - i,
    {
        if table[i].id == id {
            return (table[i].name.clone(), table[i].ground, table[i].distance);
        }
        assert(table@.skip(i as int).drop_first() =~= table@.skip(i as int + 1));
        i = i + 1;
    }
    (String::new(), 0, 0)
}

/// An id is called what its first entry says.
pub proof fn lemma_name_of(table: Seq<(i64, String)>, id: i64, i: int)
    requires
        0 <= i < table.len(),
        table[i].0 == id,
        forall|j: int| 0 <= j < i ==> !((#[trigger] table[j]).0 == id),
    ensures
        name_of(table, id) == table[i].1@,
    decreases table.len(),
{
    if i > 0 {
        let t = table.drop_first();
        assert(!(table[0].0 == id));
        assert(t[i - 1] == table[i]);
        assert forall|j: int| 0 <= j < i - 1 implies !((#[trigger] t[j]).0 == id) by {
            assert(t[j] == table[j + 1]);
        }
        lemma_name_of(t, id, i - 1);
    }
}

/// An id without an entry is called nothing.
pub proof fn lemma_no_name(table: Seq<(i64, String)>, id: i64)
    requires
        forall|j: int| 0 <= j < table.len() ==> !((#[trigger] table[j]).0 == id),
    ensures
        name_of(table, id).len() == 0,
    decreases table.len(),
{
    if table.len() > 0 {
        let t = table.drop_first();
        assert(!(table[0].0 == id));
        assert forall|j: int| 0 <= j < t.len() implies !((#[trigger] t[j]).0 == id) by {
            assert(t[j] == table[j + 1]);
        }
        lemma_no_name(t, id);
    }
}

/// A card has the hints of its first entry, in their order.
pub proof fn lemma_pool_of(table: Seq<(i64, Vec<String>)>, id: i64, i: int)
    requires
        0 <= i < table.len(),
        table[i].0 == id,
        forall|j: int| 0 <= j < i ==> !((#[trigger] table[j]).0 == id),
    ensures
        pool_of(table, id).len() == table[i].1@.len(),
        forall|k: int|
            0 <= k < table[i].1@.len() ==> #[trigger] pool_of(table, id)[k] == table[i].1@[k]@,
    decreases table.len(),
{
    if i > 0 {
        let t = table.drop_first();
        assert(!(table[0].0 == id));
        assert(t[i - 1] == table[i]);
        assert forall|j: int| 0 <= j < i - 1 implies !((#[trigger] t[j]).0 == id) by {
            assert(t[j] == table[j + 1]);
        }
        lemma_pool_of(t, id, i - 1);
    }
}

/// A card without an entry has no hints.
pub proof fn lemma_no_pool(table: Seq<(i64, Vec<String>)>, id: i64)
    requires
        forall|j: int| 0 <= j < table.len() ==> !((#[trigger] table[j]).0 == id),
    ensures
        pool_of(table, id).len() == 0,
    decreases table.len(),
{
    if table.len() > 0 {
        let t = table.drop_first();
        assert(!(table[0].0 == id));
        assert forall|j: int| 0 <= j < t.len() implies !((#[trigger] t[j]).0 == id) by {
            assert(t[j] == table[j + 1]);
        }
        lemma_no_pool(t, id);
    }
}

/// A skill is of the group that its first entry gives.
pub proof fn lemma_group_of(table: Seq<(String, i64)>, name: Seq<char>, i: int)
    requires
        0 <= i < table.len(),
        table[i].0@ == name,
        forall|j: int| 0 <= j < i ==> !((#[trigger] table[j]).0@ == name),
    ensures
        group_of(table, name) == Some(table[i].1),
    decreases table.len(),
{
    if i > 0 {
        let t = table.drop_first();
        assert(!(table[0].0@ == name));
        assert(t[i - 1] == table[i]);
        assert forall|j: int| 0 <= j < i - 1 implies !((#[trigger] t[j]).0@ == name) by {
            assert(t[j] == table[j + 1]);
        }
        lemma_group_of(t, name, i - 1);
    }
}

/// A skill without an entry is of no group.
pub proof fn lemma_no_group(table: Seq<(String, i64)>, name: Seq<char>)
    requires
        forall|j: int| 0 <= j < table.len() ==> !((#[trigger] table[j]).0@ == name),
    ensures
        group_of(table, name) is None,
    decreases table.len(),
{
    if table.len() > 0 {
        let t = table.drop_first();
        assert(!(table[0].0@ == name));
        assert forall|j: int| 0 <= j < t.len() implies !((#[trigger] t[j]).0@ == name) by {
            assert(t[j] == table[j + 1]);
        }
        lemma_no_group(t, name);
    }
}

/// A race has the name, the ground and the distance of its first entry.
pub proof fn lemma_program_of(table: Seq<Program>, id: i64, i: int)
    requires
        0 <= i < table.len(),
        table[i].id == id,
        forall|j: int| 0 <= j < i ==> !((#[trigger] table[j]).id == id),
    ensures
        program_of(table, id).name == table[i].name@,
        program_of(table, id).ground == table[i].ground,
        program_of(table, id).distance == table[i].distance,
    decreases table.len(),
{
    if i > 0 {
        let t = table.drop_first();
        assert(!(table[0].id == id));
        assert(t[i - 1] == table[i]);
        assert forall|j: int| 0 <= j < i - 1 implies !((#[trigger] t[j]).id == id) by {
            assert(t[j] == table[j + 1]);
        }
        lemma_program_of(t, id, i - 1);
    }
}

/// A race without an entry has neither name nor ground nor distance.
pub proof fn lemma_no_program(table: Seq<Program>, id: i64)
    requires
        forall|j: int| 0 <= j < table.len() ==> !((#[trigger] table[j]).id == id),
    ensures
        program_of(table, id).name.len() == 0,
        program_of(table, id).ground == 0,
        program_of(table, id).distance == 0,
    decreases table.len(),
{
    if table.len() > 0 {
        let t = table.drop_first();
        assert(!(table[0].id == id));
        assert forall|j: int| 0 <= j < t.len() implies !((#[trigger] t[j]).id == id) by {
            assert(t[j] == table[j + 1]);
        }
        lemma_no_program(t, id);
    }
}

/// A spark has the name, the kind and the stars of its first entry.
pub proof fn lemma_factor_of(table: Seq<Factor>, id: i64, i: int)
    requires
        0 <= i < table.len(),
        table[i].id == id,
        forall|j: int| 0 <= j < i ==> !((#[trigger] table[j]).id == id),
    ensures
        factor_of(table, id).id == id,
        factor_of(table, id).name == table[i].name@,
        factor_of(table, id).kind == table[i].kind@,
        factor_of(table, id).stars == table[i].stars,
    decreases table.len(),
{
    if i > 0 {
        let t = table.drop_first();
        assert(!(table[0].id == id));
        assert(t[i - 1] == table[i]);
        assert forall|j: int| 0 <= j < i - 1 implies !((#[trigger] t[j]).id == id) by {
            assert(t[j] == table[j + 1]);
        }
        lemma_factor_of(t, id, i - 1);
    }
}

/// A spark without an entry has its id alone.
pub proof fn lemma_no_factor(table: Seq<Factor>, id: i64)
    requires
        forall|j: int| 0 <= j < table.len() ==> !((#[trigger] table[j]).id == id),
    ensures
        factor_of(table, id).id == id,
        factor_of(table, id).name.len() == 0,
        factor_of(table, id).kind.len() == 0,
        factor_of(table, id).stars == 0,
    decreases table.len(),
{
    if table.len() > 0 {
        let t = table.drop_first();
        assert(!(table[0].id == id));
        assert forall|j: int| 0 <= j < t.len() implies !((#[trigger] t[j]).id == id) by {
            assert(t[j] == table[j + 1]);
        }
        lemma_no_factor(t, id);
    }
}

/// A spark is seen as it is, and a row of texts as what they say.
pub proof fn lemma_factor_view(f: Factor, s: Seq<String>)
    ensures
        f@.id == f.id && f@.name == f.name@ && f@.kind == f.kind@ && f@.stars == f.stars,
        lines(s).len() == s.len(),
        forall|i: int| 0 <= i < s.len() ==> #[trigger] lines(s)[i] == s[i]@,
{
}

} // verus!
