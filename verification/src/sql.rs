//! The game's text queries: which column of a SELECT holds the text, which values pick the row, and
//! what the language pack has for it.

use std::collections::HashMap;
use vstd::prelude::*;

use crate::template::eval;
use crate::template::{answers_of, builtin_table, filters_in, lemma_no_dollar, opt_text, rendered};
use crate::template::{Pack, Reading};
use crate::text::same;

verus! {

/// The texts of a language pack.
pub struct TextPack {
    /// By category and index.
    pub text_data: HashMap<i32, HashMap<i32, String>>,
    /// By character and voice.
    pub character_system_text: HashMap<i32, HashMap<i32, String>>,
    pub race_jikkyo_comment: HashMap<i32, String>,
    pub race_jikkyo_message: HashMap<i32, String>,
    pub disable_skill_name_translation: bool,
    /// How its texts speak of numbers.
    pub rules: Pack,
    /// What the number literals in the filter expressions of its texts read as.
    pub numbers: Vec<(String, Reading)>,
}

/// The row that a query stands on: the integer in each of its columns.
pub struct Row {
    pub ints: Vec<i32>,
}

/// The integer in column `idx`; 0 where there is none.
pub open spec fn int_at(row: Row, idx: i32) -> i32 {
    if 0 <= idx < row.ints@.len() {
        row.ints@[idx as int]
    } else {
        0
    }
}

/// A text of a table with one key.
pub open spec fn text_of(m: Map<i32, String>, id: i32) -> Option<Seq<char>> {
    if m.dom().contains(id) {
        Some(m[id]@)
    } else {
        None
    }
}

/// A text of a table with two keys.
pub open spec fn text_under(m: Map<i32, HashMap<i32, String>>, a: i32, b: i32) -> Option<
    Seq<char>,
> {
    if m.dom().contains(a) {
        text_of(m[a]@, b)
    } else {
        None
    }
}

/// What a text that may be there says.
pub open spec fn said(r: Option<&String>) -> Option<Seq<char>> {
    match r {
        Some(s) => Some(s@),
        None => None,
    }
}

/// Look a text up by one key.
fn find<'a>(m: &'a HashMap<i32, String>, id: i32) -> (r: Option<&'a String>)
    ensures
        said(r) == text_of(m@, id),
{
    broadcast use vstd::std_specs::hash::group_hash_axioms;

    m.get(&id)
}

/// Look a text up by two keys.
fn find_under<'a>(m: &'a HashMap<i32, HashMap<i32, String>>, a: i32, b: i32) -> (r: Option<
    &'a String,
>)
    ensures
        said(r) == text_under(m@, a, b),
{
    broadcast use vstd::std_specs::hash::group_hash_axioms;

    match m.get(&a) {
        Some(t) => find(t, b),
        None => None,
    }
}

/// A text of the pack on its way into the game: its filter expressions are expanded.
pub fn pack_string(s: &str, pack: &Pack, numbers: &Vec<(String, Reading)>) -> (r: String)
    ensures
        r@ == rendered(s@, answers_of(filters_in(s@), builtin_table(), *pack, numbers@)),
{
    eval(s, pack, numbers)
}

/// What goes into the game of a text that the pack may have: the text with its filter expressions
/// expanded.
pub open spec fn expanded(pack: TextPack, found: Option<Seq<char>>) -> Option<Seq<char>> {
    match found {
        Some(s) => Some(
            rendered(s, answers_of(filters_in(s), builtin_table(), pack.rules, pack.numbers@)),
        ),
        None => None,
    }
}

/// Every text that is looked up in the pack leaves through here.
fn emit(pack: &TextPack, found: Option<&String>) -> (r: Option<String>)
    ensures
        opt_text(r) == expanded(*pack, said(found)),
{
    match found {
        Some(s) => Some(pack_string(s.as_str(), &pack.rules, &pack.numbers)),
        None => None,
    }
}

/// One column of a query.
#[derive(Clone, Copy, PartialEq, Eq, Structural, Debug)]
pub struct Column {
    /// Where it stands among the selected columns.
    pub select_idx: Option<i32>,
    /// Where it stands among the parameters.
    pub param_idx: Option<i32>,
    /// What it was bound to.
    pub int_value: Option<i32>,
}

impl Column {
    /// A column that was not seen.
    pub open spec fn unseen() -> Column {
        Column { select_idx: None, param_idx: None, int_value: None }
    }

    /// The column after parameter `idx` was bound.
    pub open spec fn bound(self, idx: i32, value: i32) -> Column {
        if self.param_idx == Some(idx) {
            Column { int_value: Some(value), ..self }
        } else {
            self
        }
    }

    /// What the row holds of the column, if it is selected.
    pub open spec fn read(self, row: Row) -> Option<i32> {
        match self.select_idx {
            Some(i) => Some(int_at(row, i)),
            None => None,
        }
    }

    /// What the column was bound to, or what the row holds of it.
    pub open spec fn value(self, row: Row) -> Option<i32> {
        match self.int_value {
            Some(v) => Some(v),
            None => self.read(row),
        }
    }

    fn is_select_idx(&self, idx: i32) -> (r: bool)
        ensures
            r == (self.select_idx == Some(idx)),
    {
        match self.select_idx {
            Some(i) => i == idx,
            None => false,
        }
    }

    fn is_param_idx(&self, idx: i32) -> (r: bool)
        ensures
            r == (self.param_idx == Some(idx)),
    {
        match self.param_idx {
            Some(i) => i == idx,
            None => false,
        }
    }

    fn try_bind_int(&mut self, idx: i32, value: i32)
        ensures
            *final(self) == old(self).bound(idx, value),
    {
        if self.is_param_idx(idx) {
            self.int_value = Some(value);
        }
    }

    fn try_get_int(&self, row: &Row) -> (r: Option<i32>)
        ensures
            r == self.read(*row),
    {
        match self.select_idx {
            Some(i) => if i >= 0 && (i as usize) < row.ints.len() {
                Some(row.ints[i as usize])
            } else {
                Some(0)
            },
            None => None,
        }
    }

    fn value_or_try_get_int(&self, row: &Row) -> (r: Option<i32>)
        ensures
            r == self.value(*row),
    {
        match self.int_value {
            Some(v) => Some(v),
            None => self.try_get_int(row),
        }
    }
}

impl Default for Column {
    fn default() -> (r: Column)
        ensures
            r == Column::unseen(),
    {
        Column { select_idx: None, param_idx: None, int_value: None }
    }
}

/// A query that is understood as its parts become known.
pub trait SelectQueryState {
    /// Column `idx` of the result is `name`.
    fn add_column(&mut self, idx: i32, name: &str);

    /// Parameter `idx` is compared with column `name`.
    fn add_param(&mut self, idx: i32, name: &str);

    /// Parameter `idx` is bound to a value.
    fn bind_int(&mut self, idx: i32, value: i32);

    /// What the pack has for column `idx` of the row, expanded.
    fn get_text(&self, row: &Row, pack: &TextPack, idx: i32) -> (r: Option<String>);
}

/// The category of skill names and of skill descriptions.
pub const SKILL_NAMES: i32 = 47;

pub const SKILL_DESCS: i32 = 48;

/// A query for interface text.
#[derive(Clone, Copy, PartialEq, Eq, Structural, Debug)]
pub struct TextDataQuery {
    pub text: Column,
    pub category: Column,
    pub index: Column,
}

/// The description of an inherited skill is that of the skill itself.
pub open spec fn own_skill(index: i32) -> i32 {
    if 900000 < index < 1000000 {
        (index - 800000) as i32
    } else {
        index
    }
}

/// What the pack has for a category and an index.
pub open spec fn text_data(pack: TextPack, category: i32, index: i32) -> Option<Seq<char>> {
    if category == SKILL_NAMES && pack.disable_skill_name_translation {
        None
    } else if category == SKILL_DESCS {
        text_under(pack.text_data@, category, own_skill(index))
    } else {
        text_under(pack.text_data@, category, index)
    }
}

impl TextDataQuery {
    /// What the pack has for a skill name.
    fn get_skill_name<'a>(pack: &'a TextPack, index: i32) -> (r: Option<&'a String>)
        ensures
            said(r) == text_data(*pack, SKILL_NAMES, index),
    {
        if pack.disable_skill_name_translation {
            return None;
        }
        find_under(&pack.text_data, SKILL_NAMES, index)
    }

    /// What the pack has for a skill description.
    fn get_skill_desc<'a>(pack: &'a TextPack, index: i32) -> (r: Option<&'a String>)
        ensures
            said(r) == text_data(*pack, SKILL_DESCS, index),
    {
        let own: i32 = if index > 900000 && index < 1000000 {
            index - 800000
        } else {
            index
        };
        find_under(&pack.text_data, SKILL_DESCS, own)
    }
}

impl Default for TextDataQuery {
    fn default() -> (r: TextDataQuery)
        ensures
            r == (TextDataQuery {
                text: Column::unseen(),
                category: Column::unseen(),
                index: Column::unseen(),
            }),
    {
        TextDataQuery {
            text: Default::default(),
            category: Default::default(),
            index: Default::default(),
        }
    }
}

impl TextDataQuery {
    /// The text of the pack that column `idx` of the row stands for.
    pub open spec fn wanted(self, row: Row, pack: TextPack, idx: i32) -> Option<Seq<char>> {
        if self.text.select_idx == Some(idx) && self.category.int_value is Some
            && self.index.int_value is Some {
            text_data(pack, self.category.int_value->0, self.index.int_value->0)
        } else {
            None
        }
    }

    /// The text of the pack that column `idx` of the row stands for.
    fn find_text<'a>(&self, row: &Row, pack: &'a TextPack, idx: i32) -> (r: Option<&'a String>)
        ensures
            said(r) == self.wanted(*row, *pack, idx),
    {
        if !self.text.is_select_idx(idx) {
            return None;
        }
        match self.category.int_value {
            None => None,
            Some(category) => match self.index.int_value {
                None => None,
                Some(index) => match category {
                    47 => Self::get_skill_name(pack, index),
                    48 => Self::get_skill_desc(pack, index),
                    _ => find_under(&pack.text_data, category, index),
                },
            },
        }
    }
}

impl SelectQueryState for TextDataQuery {
    fn add_column(&mut self, idx: i32, name: &str)
        ensures
            *final(self) == (if name@ == "text"@ {
                TextDataQuery {
                    text: Column { select_idx: Some(idx), ..old(self).text },
                    ..*old(self)
                }
            } else {
                *old(self)
            }),
    {
        if same(name, "text") {
            self.text.select_idx = Some(idx);
        }
    }

    fn add_param(&mut self, idx: i32, name: &str)
        ensures
            *final(self) == (if name@ == "category"@ {
                TextDataQuery {
                    category: Column { param_idx: Some(idx), ..old(self).category },
                    ..*old(self)
                }
            } else if name@ == "index"@ {
                TextDataQuery {
                    index: Column { param_idx: Some(idx), ..old(self).index },
                    ..*old(self)
                }
            } else {
                *old(self)
            }),
    {
        if same(name, "category") {
            self.category.param_idx = Some(idx);
        } else if same(name, "index") {
            self.index.param_idx = Some(idx);
        }
    }

    fn bind_int(&mut self, idx: i32, value: i32)
        ensures
            *final(self) == (TextDataQuery {
                category: old(self).category.bound(idx, value),
                index: old(self).index.bound(idx, value),
                ..*old(self)
            }),
    {
        self.category.try_bind_int(idx, value);
        self.index.try_bind_int(idx, value);
    }

    fn get_text(&self, row: &Row, pack: &TextPack, idx: i32) -> (r: Option<String>)
        ensures
            opt_text(r) == expanded(*pack, self.wanted(*row, *pack, idx)),
    {
        emit(pack, self.find_text(row, pack, idx))
    }
}

/// A query for what characters say.
#[derive(Clone, Copy, PartialEq, Eq, Structural, Debug)]
pub struct CharacterSystemTextQuery {
    pub text: Column,
    pub character_id: Column,
    /// May be selected, compared, or both.
    pub voice_id: Column,
}

impl Default for CharacterSystemTextQuery {
    fn default() -> (r: CharacterSystemTextQuery)
        ensures
            r == (CharacterSystemTextQuery {
                text: Column::unseen(),
                character_id: Column::unseen(),
                voice_id: Column::unseen(),
            }),
    {
        CharacterSystemTextQuery {
            text: Default::default(),
            character_id: Default::default(),
            voice_id: Default::default(),
        }
    }
}

impl CharacterSystemTextQuery {
    /// The text of the pack that column `idx` of the row stands for.
    pub open spec fn wanted(self, row: Row, pack: TextPack, idx: i32) -> Option<Seq<char>> {
        if self.text.select_idx == Some(idx) && self.character_id.int_value is Some
            && self.voice_id.value(row) is Some {
            text_under(
                pack.character_system_text@,
                self.character_id.int_value->0,
                self.voice_id.value(row)->0,
            )
        } else {
            None
        }
    }

    /// The text of the pack that column `idx` of the row stands for.
    fn find_text<'a>(&self, row: &Row, pack: &'a TextPack, idx: i32) -> (r: Option<&'a String>)
        ensures
            said(r) == self.wanted(*row, *pack, idx),
    {
        if !self.text.is_select_idx(idx) {
            return None;
        }
        match self.character_id.int_value {
            None => None,
            Some(character_id) => match self.voice_id.value_or_try_get_int(row) {
                None => None,
                Some(voice_id) => find_under(&pack.character_system_text, character_id, voice_id),
            },
        }
    }
}

impl SelectQueryState for CharacterSystemTextQuery {
    fn add_column(&mut self, idx: i32, name: &str)
        ensures
            *final(self) == (if name@ == "text"@ {
                CharacterSystemTextQuery {
                    text: Column { select_idx: Some(idx), ..old(self).text },
                    ..*old(self)
                }
            } else if name@ == "voice_id"@ {
                CharacterSystemTextQuery {
                    voice_id: Column { select_idx: Some(idx), ..old(self).voice_id },
                    ..*old(self)
                }
            } else {
                *old(self)
            }),
    {
        if same(name, "text") {
            self.text.select_idx = Some(idx);
        } else if same(name, "voice_id") {
            self.voice_id.select_idx = Some(idx);
        }
    }

    fn add_param(&mut self, idx: i32, name: &str)
        ensures
            *final(self) == (if name@ == "character_id"@ {
                CharacterSystemTextQuery {
                    character_id: Column { param_idx: Some(idx), ..old(self).character_id },
                    ..*old(self)
                }
            } else if name@ == "voice_id"@ {
                CharacterSystemTextQuery {
                    voice_id: Column { param_idx: Some(idx), ..old(self).voice_id },
                    ..*old(self)
                }
            } else {
                *old(self)
            }),
    {
        if same(name, "character_id") {
            self.character_id.param_idx = Some(idx);
        } else if same(name, "voice_id") {
            self.voice_id.param_idx = Some(idx);
        }
    }

    fn bind_int(&mut self, idx: i32, value: i32)
        ensures
            *final(self) == (CharacterSystemTextQuery {
                character_id: old(self).character_id.bound(idx, value),
                voice_id: old(self).voice_id.bound(idx, value),
                ..*old(self)
            }),
    {
        self.character_id.try_bind_int(idx, value);
        self.voice_id.try_bind_int(idx, value);
    }

    fn get_text(&self, row: &Row, pack: &TextPack, idx: i32) -> (r: Option<String>)
        ensures
            opt_text(r) == expanded(*pack, self.wanted(*row, *pack, idx)),
    {
        emit(pack, self.find_text(row, pack, idx))
    }
}

/// The columns of a query for race commentary after one more is known.
pub open spec fn commentary_column(
    id: Column,
    message: Column,
    idx: i32,
    name: Seq<char>,
) -> (Column, Column) {
    if name == "id"@ {
        (Column { select_idx: Some(idx), ..id }, message)
    } else if name == "message"@ {
        (id, Column { select_idx: Some(idx), ..message })
    } else {
        (id, message)
    }
}

/// What a table of race commentary has for a query.
pub open spec fn commentary(
    id: Column,
    message: Column,
    row: Row,
    table: Map<i32, String>,
    idx: i32,
) -> Option<Seq<char>> {
    if message.select_idx == Some(idx) && id.read(row) is Some {
        text_of(table, id.read(row)->0)
    } else {
        None
    }
}

/// A query for race comments.
#[derive(Clone, Copy, PartialEq, Eq, Structural, Debug)]
pub struct RaceJikkyoCommentQuery {
    pub id: Column,
    pub message: Column,
}

impl Default for RaceJikkyoCommentQuery {
    fn default() -> (r: RaceJikkyoCommentQuery)
        ensures
            r == (RaceJikkyoCommentQuery { id: Column::unseen(), message: Column::unseen() }),
    {
        RaceJikkyoCommentQuery { id: Default::default(), message: Default::default() }
    }
}

impl RaceJikkyoCommentQuery {
    /// The text of the pack that column `idx` of the row stands for.
    pub open spec fn wanted(self, row: Row, pack: TextPack, idx: i32) -> Option<Seq<char>> {
        commentary(self.id, self.message, row, pack.race_jikkyo_comment@, idx)
    }

    /// The text of the pack that column `idx` of the row stands for.
    fn find_text<'a>(&self, row: &Row, pack: &'a TextPack, idx: i32) -> (r: Option<&'a String>)
        ensures
            said(r) == self.wanted(*row, *pack, idx),
    {
        if !self.message.is_select_idx(idx) {
            return None;
        }
        match self.id.try_get_int(row) {
            Some(id) => find(&pack.race_jikkyo_comment, id),
            None => None,
        }
    }
}

impl SelectQueryState for RaceJikkyoCommentQuery {
    fn add_column(&mut self, idx: i32, name: &str)
        ensures
            (final(self).id, final(self).message) == commentary_column(
                old(self).id,
                old(self).message,
                idx,
                name@,
            ),
    {
        if same(name, "id") {
            self.id.select_idx = Some(idx);
        } else if same(name, "message") {
            self.message.select_idx = Some(idx);
        }
    }

    fn add_param(&mut self, _idx: i32, _name: &str)
        ensures
            *final(self) == *old(self),
    {
    }

    fn bind_int(&mut self, _idx: i32, _value: i32)
        ensures
            *final(self) == *old(self),
    {
    }

    fn get_text(&self, row: &Row, pack: &TextPack, idx: i32) -> (r: Option<String>)
        ensures
            opt_text(r) == expanded(*pack, self.wanted(*row, *pack, idx)),
    {
        emit(pack, self.find_text(row, pack, idx))
    }
}

/// A query for race messages.
#[derive(Clone, Copy, PartialEq, Eq, Structural, Debug)]
pub struct RaceJikkyoMessageQuery {
    pub id: Column,
    pub message: Column,
}

impl Default for RaceJikkyoMessageQuery {
    fn default() -> (r: RaceJikkyoMessageQuery)
        ensures
            r == (RaceJikkyoMessageQuery { id: Column::unseen(), message: Column::unseen() }),
    {
        RaceJikkyoMessageQuery { id: Default::default(), message: Default::default() }
    }
}

impl RaceJikkyoMessageQuery {
    /// The text of the pack that column `idx` of the row stands for.
    pub open spec fn wanted(self, row: Row, pack: TextPack, idx: i32) -> Option<Seq<char>> {
        commentary(self.id, self.message, row, pack.race_jikkyo_message@, idx)
    }

    /// The text of the pack that column `idx` of the row stands for.
    fn find_text<'a>(&self, row: &Row, pack: &'a TextPack, idx: i32) -> (r: Option<&'a String>)
        ensures
            said(r) == self.wanted(*row, *pack, idx),
    {
        if !self.message.is_select_idx(idx) {
            return None;
        }
        match self.id.try_get_int(row) {
            Some(id) => find(&pack.race_jikkyo_message, id),
            None => None,
        }
    }
}

impl SelectQueryState for RaceJikkyoMessageQuery {
    fn add_column(&mut self, idx: i32, name: &str)
        ensures
            (final(self).id, final(self).message) == commentary_column(
                old(self).id,
                old(self).message,
                idx,
                name@,
            ),
    {
        if same(name, "id") {
            self.id.select_idx = Some(idx);
        } else if same(name, "message") {
            self.message.select_idx = Some(idx);
        }
    }

    fn add_param(&mut self, _idx: i32, _name: &str)
        ensures
            *final(self) == *old(self),
    {
    }

    fn bind_int(&mut self, _idx: i32, _value: i32)
        ensures
            *final(self) == *old(self),
    {
    }

    fn get_text(&self, row: &Row, pack: &TextPack, idx: i32) -> (r: Option<String>)
        ensures
            opt_text(r) == expanded(*pack, self.wanted(*row, *pack, idx)),
    {
        emit(pack, self.find_text(row, pack, idx))
    }
}

/// An operator between two expressions.
#[derive(Clone, Copy, PartialEq, Eq, Structural, Debug)]
pub enum BinaryOperator {
    Eq,
    And,
    Or,
    Other,
}

/// An expression, as far as a query is read.
pub enum Expr {
    Identifier(String),
    Placeholder,
    BinaryOp { left: Box<Expr>, op: BinaryOperator, right: Box<Expr> },
    Other,
}

/// One item of a projection.
pub enum SelectItem {
    UnnamedExpr(Expr),
    Other,
}

/// What is selected from.
pub enum TableFactor {
    /// The parts of the table's name.
    Table(Vec<String>),
    Other,
}

/// A SELECT.
pub struct Select {
    pub from: Vec<TableFactor>,
    pub projection: Vec<SelectItem>,
    pub selection: Option<Expr>,
}

/// What can be asked of a SELECT.
pub trait SelectExt {
    /// The first part of the name of the first table.
    fn get_first_table_name(&self) -> (r: Option<&String>);
}

impl SelectExt for Select {
    fn get_first_table_name(&self) -> (r: Option<&String>)
        ensures
            r == (if self.from@.len() > 0 && self.from@[0] is Table && (
            self.from@[0]->Table_0)@.len() > 0 {
                Some(&(self.from@[0]->Table_0)@[0])
            } else {
                None
            }),
    {
        if self.from.len() > 0 {
            if let TableFactor::Table(parts) = &self.from[0] {
                if parts.len() > 0 {
                    return Some(&parts[0]);
                }
            }
        }
        None
    }
}

/// What can be asked of an item of a projection.
pub trait SelectItemExt {
    /// The column that the item is, if it is one without a name of its own.
    fn get_unnamed_expr_ident(&self) -> (r: Option<&String>);
}

impl SelectItemExt for SelectItem {
    fn get_unnamed_expr_ident(&self) -> (r: Option<&String>)
        ensures
            r == (match *self {
                SelectItem::UnnamedExpr(Expr::Identifier(s)) => Some(&s),
                _ => None,
            }),
    {
        if let SelectItem::UnnamedExpr(e) = self {
            return e.get_ident_value();
        }
        None
    }
}

/// What can be asked of an expression.
pub trait ExprExt {
    /// The operations that the expression is made of, outermost first, left before right.
    fn binary_op_iter(&self) -> (r: BinaryOpIter<'_>);

    /// The column that the expression is, if it is one.
    fn get_ident_value(&self) -> (r: Option<&String>);

    /// Whether the expression is a parameter.
    fn is_placeholder_value(&self) -> (r: bool);
}

/// The operations that an expression is made of.
pub open spec fn ops(e: Expr) -> Seq<Expr>
    decreases e,
{
    match e {
        Expr::BinaryOp { left, op, right } => seq![e] + ops(*left) + ops(*right),
        _ => Seq::empty(),
    }
}

/// The operations that a stack of expressions is made of, its top first.
pub open spec fn pending(s: Seq<&Expr>) -> Seq<Expr>
    decreases s.len(),
{
    if s.len() == 0 {
        Seq::empty()
    } else {
        ops(*s.last()) + pending(s.drop_last())
    }
}

impl ExprExt for Expr {
    fn binary_op_iter(&self) -> (r: BinaryOpIter<'_>)
        ensures
            pending(r.stack@) == ops(*self),
    {
        let mut stack: Vec<&Expr> = Vec::new();
        stack.push(self);
        assert(stack@.drop_last() =~= Seq::empty());
        assert(pending(stack@.drop_last()) =~= Seq::empty());
        assert(pending(stack@) =~= ops(*self));
        BinaryOpIter { stack }
    }

    fn get_ident_value(&self) -> (r: Option<&String>)
        ensures
            r == (match *self {
                Expr::Identifier(s) => Some(&s),
                _ => None,
            }),
    {
        if let Expr::Identifier(s) = self {
            return Some(s);
        }
        None
    }

    fn is_placeholder_value(&self) -> (r: bool)
        ensures
            r == (*self is Placeholder),
    {
        match self {
            Expr::Placeholder => true,
            _ => false,
        }
    }
}

/// The operations of an expression that are still to be visited.
pub struct BinaryOpIter<'a> {
    pub stack: Vec<&'a Expr>,
}

/// One operation.
pub struct BinaryOpRef<'a> {
    pub left: &'a Expr,
    pub op: &'a BinaryOperator,
    pub right: &'a Expr,
}

/// The expression that an operation is.
pub open spec fn as_expr(r: BinaryOpRef<'_>) -> Expr {
    Expr::BinaryOp { left: Box::new(*r.left), op: *r.op, right: Box::new(*r.right) }
}

impl<'a> BinaryOpIter<'a> {
    /// The next operation, if there is one.
    pub fn next(&mut self) -> (r: Option<BinaryOpRef<'a>>)
        ensures
            pending(old(self).stack@).len() == 0 ==> r is None && pending(
                final(self).stack@,
            ).len() == 0,
            pending(old(self).stack@).len() > 0 ==> {
                &&& r is Some
                &&& as_expr(r->0) == pending(old(self).stack@)[0]
                &&& pending(final(self).stack@) == pending(old(self).stack@).drop_first()
            },
    {
        let ghost all = pending(self.stack@);
        while self.stack.len() > 0
            invariant
                pending(self.stack@) == all,
                all == pending(old(self).stack@),
            decreases self.stack@.len(),
        {
            let ghost before = self.stack@;
            let e: &'a Expr = self.stack[self.stack.len() - 1];
            let _ = self.stack.pop();
            assert(self.stack@ =~= before.drop_last());
            assert(all == ops(*e) + pending(self.stack@));
            if let Expr::BinaryOp { left, op, right } = e {
                let ghost rest = self.stack@;
                let l: &'a Expr = &**left;
                let r: &'a Expr = &**right;
                self.stack.push(r);
                let ghost mid = self.stack@;
                self.stack.push(l);
                assert(self.stack@.drop_last() =~= mid);
                assert(mid.drop_last() =~= rest);
                assert(pending(mid) == ops(*r) + pending(rest));
                assert(pending(self.stack@) == ops(*l) + pending(mid));
                assert(all =~= seq![*e] + (ops(*l) + (ops(*r) + pending(rest))));
                assert(all.drop_first() =~= pending(self.stack@));
                return Some(BinaryOpRef { left: l, op, right: r });
            }
            assert(pending(self.stack@) =~= all);
        }
        None
    }
}

/// Every operation of an expression is visited once: as many as it has, the expression itself first.
pub proof fn lemma_ops(left: Expr, op: BinaryOperator, right: Expr)
    ensures
        ({
            let e = Expr::BinaryOp { left: Box::new(left), op, right: Box::new(right) };
            &&& ops(e).len() == 1 + ops(left).len() + ops(right).len()
            &&& ops(e)[0] == e
        }),
{
}

/// Binding a parameter sets the column that it is compared with, and no other.
pub proof fn lemma_bind_one_key(c: Column, idx: i32, value: i32)
    ensures
        c.param_idx == Some(idx) ==> c.bound(idx, value) == (Column { int_value: Some(value), ..c }),
        c.param_idx != Some(idx) ==> c.bound(idx, value) == c,
{
}

/// The description of an inherited skill is looked up as that of the skill it comes from, and only that.
pub proof fn lemma_inherited_description(pack: TextPack, index: i32)
    requires
        900000 < index < 1000000,
    ensures
        text_data(pack, SKILL_DESCS, index) == text_data(pack, SKILL_DESCS, (index - 800000) as i32),
{
}

/// A cell of a row is the number that stands there, and 0 past its ends.
pub proof fn lemma_cells(row: Row, c: Column, idx: i32)
    ensures
        0 <= idx < row.ints@.len() ==> int_at(row, idx) == row.ints@[idx as int],
        idx < 0 || idx >= row.ints@.len() ==> int_at(row, idx) == 0,
        c.select_idx is None ==> c.read(row) is None,
        c.select_idx == Some(idx) ==> c.read(row) == Some(int_at(row, idx)),
        c.int_value matches Some(v) ==> c.value(row) == Some(v),
        c.int_value is None ==> c.value(row) == c.read(row),
        Column::unseen().select_idx is None && Column::unseen().param_idx is None
            && Column::unseen().int_value is None,
{
}

/// The text of an interface query is looked up by category and index; skill names only while they are
/// translated, and the description of an inherited skill as that of the skill itself.
pub proof fn lemma_text_data(pack: TextPack, category: i32, index: i32)
    ensures
        category == 47 && pack.disable_skill_name_translation ==> text_data(pack, category, index) is None,
        category != 48 && !(category == 47 && pack.disable_skill_name_translation) ==> text_data(
            pack,
            category,
            index,
        ) == text_under(pack.text_data@, category, index),
        category == 48 && 900001 <= index <= 999999 ==> text_data(pack, category, index) == text_under(
            pack.text_data@,
            48,
            (index - 800000) as i32,
        ),
        category == 48 && (index <= 900000 || 1000000 <= index) ==> text_data(pack, category, index)
            == text_under(pack.text_data@, 48, index),
{
}

/// A text is found under both its keys, and not where either is missing.
pub proof fn lemma_text_under(m: Map<i32, HashMap<i32, String>>, a: i32, b: i32, t: Map<i32, String>)
    ensures
        m.dom().contains(a) && m[a]@.dom().contains(b) ==> text_under(m, a, b) == Some(m[a]@[b]@),
        !m.dom().contains(a) ==> text_under(m, a, b) is None,
        m.dom().contains(a) && !m[a]@.dom().contains(b) ==> text_under(m, a, b) is None,
        t.dom().contains(b) ==> text_of(t, b) == Some(t[b]@),
        !t.dom().contains(b) ==> text_of(t, b) is None,
{
}

/// An interface query answers for its text column alone, once both its parameters are bound.
pub proof fn lemma_interface_query(q: TextDataQuery, row: Row, pack: TextPack, idx: i32)
    ensures
        q.text.select_idx != Some(idx) ==> q.wanted(row, pack, idx) is None,
        q.category.int_value is None || q.index.int_value is None ==> q.wanted(row, pack, idx) is None,
        q.text.select_idx == Some(idx) ==> (q.category.int_value matches Some(c) ==> (
        q.index.int_value matches Some(i) ==> q.wanted(row, pack, idx) == text_data(pack, c, i))),
{
}

/// A query for what characters say answers by the character that is bound and the voice that is bound or
/// read.
pub proof fn lemma_character_query(q: CharacterSystemTextQuery, row: Row, pack: TextPack, idx: i32)
    ensures
        q.text.select_idx != Some(idx) || q.character_id.int_value is None ==> q.wanted(
            row,
            pack,
            idx,
        ) is None,
        q.text.select_idx == Some(idx) ==> (q.character_id.int_value matches Some(c) ==> {
            &&& q.voice_id.int_value matches Some(v) ==> q.wanted(row, pack, idx) == text_under(
                pack.character_system_text@,
                c,
                v,
            )
            &&& q.voice_id.int_value is None ==> (q.voice_id.select_idx matches Some(k) ==> q.wanted(
                row,
                pack,
                idx,
            ) == text_under(pack.character_system_text@, c, int_at(row, k)))
            &&& q.voice_id.int_value is None && q.voice_id.select_idx is None ==> q.wanted(
                row,
                pack,
                idx,
            ) is None
        }),
{
}

/// Race comments and race messages are each looked up in their own table, by the id that is read.
pub proof fn lemma_commentary_queries(
    c: RaceJikkyoCommentQuery,
    m: RaceJikkyoMessageQuery,
    row: Row,
    pack: TextPack,
    idx: i32,
)
    ensures
        c.message.select_idx != Some(idx) ==> c.wanted(row, pack, idx) is None,
        c.message.select_idx == Some(idx) ==> (c.id.select_idx matches Some(k) ==> c.wanted(
            row,
            pack,
            idx,
        ) == text_of(pack.race_jikkyo_comment@, int_at(row, k))),
        m.message.select_idx != Some(idx) ==> m.wanted(row, pack, idx) is None,
        m.message.select_idx == Some(idx) ==> (m.id.select_idx matches Some(k) ==> m.wanted(
            row,
            pack,
            idx,
        ) == text_of(pack.race_jikkyo_message@, int_at(row, k))),
        c.id.select_idx is None ==> c.wanted(row, pack, idx) is None,
        m.id.select_idx is None ==> m.wanted(row, pack, idx) is None,
{
}

/// The columns of a commentary query go by their names; any other column is of no concern.
pub proof fn lemma_commentary_columns(id: Column, message: Column, idx: i32, name: Seq<char>)
    ensures
        commentary_column(id, message, idx, "id"@).0.select_idx == Some(idx),
        commentary_column(id, message, idx, "id"@).1 == message,
        commentary_column(id, message, idx, "message"@).1.select_idx == Some(idx),
        commentary_column(id, message, idx, "message"@).0 == id,
        name != "id"@ && name != "message"@ ==> commentary_column(id, message, idx, name) == (id, message),
{
    reveal_strlit("id");
    reveal_strlit("message");
    assert("id"@.len() == 2 && "message"@.len() == 7);
}

/// A text that is found is shown with its expressions expanded; one that is not found stays the game's.
pub proof fn lemma_expanded(pack: TextPack, s: Seq<char>)
    ensures
        expanded(pack, None) is None,
        !s.contains('$') ==> expanded(pack, Some(s)) == Some(s),
{
    if !s.contains('$') {
        lemma_no_dollar(s, answers_of(filters_in(s), builtin_table(), pack.rules, pack.numbers@));
    }
}

/// The operations of an expression are itself, then those of its left side and those of its right; a leaf
/// has none.
pub proof fn lemma_ops_in_order(left: Expr, op: BinaryOperator, right: Expr, e: Expr)
    ensures
        ops(Expr::BinaryOp { left: Box::new(left), op, right: Box::new(right) }) == seq![
            Expr::BinaryOp { left: Box::new(left), op, right: Box::new(right) },
        ] + ops(left) + ops(right),
        !(e is BinaryOp) ==> ops(e).len() == 0,
{
}

} // verus!
