//! Templates in localized text: `$(filter arg1 arg2 ...)` expressions, and what they expand to.
//!
//! The built-in filters are `$(plural n 'form0' 'form1' ...)`, which picks a form by the pack's
//! plural rule, `$(ordinal n)`, which picks an ordinal suffix, and `$(month n)`.
//!
//! Numbers are read by the caller: [`Parser::numbers`] lists the number literals of a text, and
//! evaluation takes a table of what they read as.

use fnv::FnvHashMap;
use vstd::prelude::*;

use crate::plurals::form_index;
use crate::plurals::Resolver;
use crate::text::{chars_of, same, string_of};
use crate::text::joined;

verus! {

/// A word of a filter expression.
pub enum Token {
    Identifier(String),
    /// A number, as it is spelled, without thousands separators where it has any.
    NumberLit(String),
    StringLit(String),
}

/// What a word says.
#[verifier::ext_equal]
pub enum TokenView {
    Identifier(Seq<char>),
    NumberLit(Seq<char>),
    StringLit(Seq<char>),
}

impl View for Token {
    type V = TokenView;

    open spec fn view(&self) -> TokenView {
        match self {
            Token::Identifier(s) => TokenView::Identifier(s@),
            Token::NumberLit(s) => TokenView::NumberLit(s@),
            Token::StringLit(s) => TokenView::StringLit(s@),
        }
    }
}

/// What a row of words says.
pub open spec fn token_views(s: Seq<Token>) -> Seq<TokenView> {
    s.map_values(|t: Token| t@)
}

/// A built-in filter.
#[derive(Clone, Copy, PartialEq, Eq, Structural, Debug)]
pub enum Filter {
    Plural,
    Ordinal,
    Month,
}

/// What a number literal reads as: the whole part, and how the number prints.
pub struct Reading {
    pub whole: u64,
    pub shown: String,
}

/// What the active language pack says about numbers.
pub struct Pack {
    pub plural_form: Resolver,
    pub ordinal_form: Resolver,
    pub ordinal_types: Vec<String>,
    pub months: Vec<String>,
}

/// The hasher of the `fnv` crate.
#[verifier::external_type_specification]
#[verifier::external_body]
pub struct ExFnvHasher(fnv::FnvHasher);

/// The hasher factory of std that the `fnv` crate's maps are built on.
#[verifier::external_type_specification]
#[verifier::external_body]
#[verifier::reject_recursive_types(H)]
pub struct ExBuildHasherDefault<H>(std::hash::BuildHasherDefault<H>);

/// The filters that a table of the `fnv` crate holds, by name.
pub uninterp spec fn filter_entries(m: FnvHashMap<String, Filter>) -> Map<Seq<char>, Filter>;

/// `FnvHashMap::default`: an empty table.
#[verifier::external_body]
fn empty_table() -> (r: FnvHashMap<String, Filter>)
    ensures
        filter_entries(r).dom() == Set::<Seq<char>>::empty(),
{
    FnvHashMap::default()
}

/// `FnvHashMap::insert`: the name now leads to the filter, other names to what they led to.
#[verifier::external_body]
fn table_insert(m: &mut FnvHashMap<String, Filter>, name: &str, f: Filter)
    ensures
        filter_entries(*final(m)) == filter_entries(*old(m)).insert(name@, f),
{
    m.insert(name.to_string(), f);
}

/// `FnvHashMap::get`: the filter that a name leads to, if any.
#[verifier::external_body]
fn table_get(m: &FnvHashMap<String, Filter>, name: &str) -> (r: Option<Filter>)
    ensures
        r == (if filter_entries(*m).dom().contains(name@) {
            Some(filter_entries(*m)[name@])
        } else {
            None
        }),
{
    m.get(name).copied()
}

/// A template parser with its table of filters.
pub struct Parser {
    filters: FnvHashMap<String, Filter>,
}

impl Parser {
    /// The filters by name.
    pub closed spec fn table(self) -> Map<Seq<char>, Filter> {
        filter_entries(self.filters)
    }
}

/// A text with every `\'` in it turned into `'`.
pub open spec fn unescaped(s: Seq<char>) -> Seq<char>
    decreases s.len(),
{
    if s.len() == 0 {
        s
    } else if s.len() >= 2 && s[0] == '\\' && s[1] == '\'' {
        seq!['\''] + unescaped(s.skip(2))
    } else {
        seq![s[0]] + unescaped(s.skip(1))
    }
}

/// A text with every `c` in it replaced.
pub open spec fn replaced(s: Seq<char>, c: char, with: Seq<char>) -> Seq<char>
    decreases s.len(),
{
    if s.len() == 0 {
        s
    } else {
        replaced(s.drop_last(), c, with) + if s.last() == c {
            with
        } else {
            seq![s.last()]
        }
    }
}

/// Whether a character is a decimal digit.
pub open spec fn is_digit(c: char) -> bool {
    '0' <= c <= '9'
}

/// Whether a character may stand in an identifier.
pub open spec fn is_word(c: char) -> bool {
    is_digit(c) || 'a' <= c <= 'z' || 'A' <= c <= 'Z' || c == '_'
}

/// A text behind the digits that it starts with.
pub open spec fn after_digits(s: Seq<char>) -> Seq<char>
    decreases s.len(),
{
    if s.len() > 0 && is_digit(s[0]) {
        after_digits(s.skip(1))
    } else {
        s
    }
}

/// Whether a text is empty or an exponent: `e`, a sign or none, digits.
pub open spec fn is_exponent(s: Seq<char>) -> bool {
    s.len() == 0 || (s[0] == 'e' || s[0] == 'E') && {
        let t = if s.len() > 1 && (s[1] == '+' || s[1] == '-') {
            s.skip(2)
        } else {
            s.skip(1)
        };
        t.len() > 0 && is_digit(t[0]) && after_digits(t).len() == 0
    }
}

/// Whether a text that starts with a digit is a number: digits, a point and digits or none, an
/// exponent or none.
pub open spec fn is_number(s: Seq<char>) -> bool {
    s.len() > 0 && is_digit(s[0]) && {
        let t = after_digits(s);
        if t.len() > 0 && t[0] == '.' {
            is_exponent(after_digits(t.skip(1)))
        } else {
            is_exponent(t)
        }
    }
}

/// The word that a text spells, if it spells one: a quoted string, a number, or an identifier.
pub open spec fn token_of(s: Seq<char>) -> Option<TokenView> {
    let plain = replaced(s, ',', Seq::empty());
    if s.len() >= 2 && s[0] == '\'' && s.last() == '\'' {
        Some(TokenView::StringLit(unescaped(s.subrange(1, s.len() - 1))))
    } else if s.len() > 0 && is_digit(s[0]) {
        if is_number(s) {
            Some(TokenView::NumberLit(s))
        } else if is_number(plain) {
            Some(TokenView::NumberLit(plain))
        } else {
            None
        }
    } else if forall|i: int| 0 <= i < s.len() ==> is_word(#[trigger] s[i]) {
        Some(TokenView::Identifier(s))
    } else {
        None
    }
}

/// A closed filter expression: where it starts and ends, and its words.
pub struct Span {
    pub start: usize,
    pub end: usize,
    pub tokens: Vec<Token>,
}

/// What a closed filter expression says.
#[verifier::ext_equal]
pub struct SpanView {
    pub start: int,
    pub end: int,
    pub tokens: Seq<TokenView>,
}

impl View for Span {
    type V = SpanView;

    open spec fn view(&self) -> SpanView {
        SpanView {
            start: self.start as int,
            end: self.end as int,
            tokens: token_views(self.tokens@),
        }
    }
}

/// What a row of expressions says.
pub open spec fn span_views(s: Seq<Span>) -> Seq<SpanView> {
    s.map_values(|x: Span| x@)
}

/// Where a scan is.
#[derive(Clone, Copy, PartialEq, Eq, Structural, Debug)]
pub enum Mode {
    /// In ordinary text.
    Plain,
    /// Right behind a `$`.
    Dollar,
    /// In a filter expression.
    Filter,
}

/// The state of a scan.
#[verifier::ext_equal]
pub struct ScanView {
    pub mode: Mode,
    /// Where the `$` of the expression stands.
    pub start: int,
    /// The words of the expression so far.
    pub tokens: Seq<TokenView>,
    /// Where the current word starts.
    pub word: Option<int>,
    pub in_string: bool,
    /// The next character is taken as it is.
    pub escaped: bool,
    /// The expressions closed so far.
    pub spans: Seq<SpanView>,
}

/// The state at the start of a text.
pub open spec fn scan_start() -> ScanView {
    ScanView {
        mode: Mode::Plain,
        start: 0,
        tokens: Seq::empty(),
        word: None,
        in_string: false,
        escaped: false,
        spans: Seq::empty(),
    }
}

/// The state in ordinary text.
pub open spec fn back_to_plain(st: ScanView, spans: Seq<SpanView>) -> ScanView {
    ScanView { spans, ..scan_start() }
}

/// The state behind the `)` at `i` that closes an expression.
pub open spec fn close_filter(s: Seq<char>, st: ScanView, i: int) -> ScanView {
    match st.word {
        None => back_to_plain(
            st,
            st.spans.push(SpanView { start: st.start, end: i + 1, tokens: st.tokens }),
        ),
        Some(w) => match token_of(s.subrange(w, i)) {
            Some(t) => back_to_plain(
                st,
                st.spans.push(SpanView { start: st.start, end: i + 1, tokens: st.tokens.push(t) }),
            ),
            None => back_to_plain(st, st.spans),
        },
    }
}

/// The state behind character `i` of a text. An expression with a word that is none is abandoned.
pub open spec fn scan_step(s: Seq<char>, st: ScanView, i: int) -> ScanView {
    let c = s[i];
    match st.mode {
        Mode::Plain => if c == '$' {
            ScanView { mode: Mode::Dollar, start: i, ..st }
        } else {
            st
        },
        Mode::Dollar => if c == '(' {
            ScanView { mode: Mode::Filter, ..st }
        } else {
            back_to_plain(st, st.spans)
        },
        Mode::Filter => if st.escaped {
            ScanView { escaped: false, ..st }
        } else if c == ')' {
            if st.in_string {
                st
            } else {
                close_filter(s, st, i)
            }
        } else if c == ' ' {
            match st.word {
                Some(w) if !st.in_string => match token_of(s.subrange(w, i)) {
                    Some(t) => ScanView { tokens: st.tokens.push(t), word: None, ..st },
                    None => back_to_plain(st, st.spans),
                },
                _ => st,
            }
        } else if c == '\'' {
            if st.word is None {
                ScanView { word: Some(i), in_string: true, ..st }
            } else {
                ScanView { in_string: false, ..st }
            }
        } else if c == '\\' {
            if st.in_string {
                ScanView { escaped: true, ..st }
            } else {
                st
            }
        } else if st.word is None {
            ScanView { word: Some(i), ..st }
        } else {
            st
        },
    }
}

/// The state behind the first `n` characters of a text.
pub open spec fn scanned(s: Seq<char>, n: nat) -> ScanView
    decreases n,
{
    if n == 0 {
        scan_start()
    } else {
        scan_step(s, scanned(s, (n - 1) as nat), n - 1)
    }
}

/// The closed filter expressions of a text.
pub open spec fn filters_in(s: Seq<char>) -> Seq<SpanView> {
    scanned(s, s.len()).spans
}

/// Where the text behind the first `n` expressions starts.
pub open spec fn end_of(spans: Seq<SpanView>, n: int) -> int {
    if n == 0 {
        0
    } else {
        spans[n - 1].end
    }
}

/// A text up to the end of its `n`-th expression, each expression with an answer replaced by it.
pub open spec fn rendered_upto(
    s: Seq<char>,
    spans: Seq<SpanView>,
    answers: Seq<Option<Seq<char>>>,
    n: nat,
) -> Seq<char>
    decreases n,
{
    if n == 0 {
        Seq::empty()
    } else {
        let span = spans[n - 1];
        rendered_upto(s, spans, answers, (n - 1) as nat) + s.subrange(
            end_of(spans, n - 1),
            span.start,
        ) + match answers[n - 1] {
            Some(a) => a,
            None => s.subrange(span.start, span.end),
        }
    }
}

/// A text with each of its expressions that has an answer replaced by it.
pub open spec fn rendered(s: Seq<char>, answers: Seq<Option<Seq<char>>>) -> Seq<char> {
    let spans = filters_in(s);
    rendered_upto(s, spans, answers, spans.len()) + s.skip(end_of(spans, spans.len() as int))
}

/// What a number literal reads as, in a table.
pub open spec fn reading_of(numbers: Seq<(String, Reading)>, literal: Seq<char>) -> Option<
    (u64, Seq<char>),
>
    decreases numbers.len(),
{
    if numbers.len() == 0 {
        None
    } else if numbers[0].0@ == literal {
        Some((numbers[0].1.whole, numbers[0].1.shown@))
    } else {
        reading_of(numbers.drop_first(), literal)
    }
}

/// The reading of the first word, where it is a number.
pub open spec fn first_number(args: Seq<TokenView>, numbers: Seq<(String, Reading)>) -> Option<
    (u64, Seq<char>),
> {
    if args.len() == 0 {
        None
    } else {
        match args[0] {
            TokenView::NumberLit(l) => reading_of(numbers, l),
            _ => None,
        }
    }
}

/// `$(plural n 'form0' 'form1' ...)`: the form that the pack's rule picks, its `$` replaced by `n`.
pub open spec fn plural_spec(
    args: Seq<TokenView>,
    pack: Pack,
    numbers: Seq<(String, Reading)>,
) -> Option<Seq<char>> {
    if args.len() < 2 {
        None
    } else {
        match first_number(args, numbers) {
            None => None,
            Some((whole, shown)) => match form_index(pack.plural_form, whole) {
                Some(k) if 1 + k < args.len() => match args[1 + k] {
                    TokenView::StringLit(form) => Some(replaced(form, '$', shown)),
                    _ => None,
                },
                _ => None,
            },
        }
    }
}

/// `$(ordinal n)`: the suffix that the pack's rule picks, its `$` replaced by `n`.
pub open spec fn ordinal_spec(
    args: Seq<TokenView>,
    pack: Pack,
    numbers: Seq<(String, Reading)>,
) -> Option<Seq<char>> {
    match first_number(args, numbers) {
        None => None,
        Some((whole, shown)) => match form_index(pack.ordinal_form, whole) {
            Some(k) if k < pack.ordinal_types@.len() => Some(
                replaced(pack.ordinal_types@[k]@, '$', shown),
            ),
            _ => None,
        },
    }
}

/// `$(month n)`: the name of the `n`-th month; of the first for 0.
pub open spec fn month_spec(
    args: Seq<TokenView>,
    pack: Pack,
    numbers: Seq<(String, Reading)>,
) -> Option<Seq<char>> {
    match first_number(args, numbers) {
        None => None,
        Some((whole, shown)) => {
            let i = if whole == 0 {
                0
            } else {
                whole - 1
            };
            if i < pack.months@.len() {
                Some(pack.months@[i]@)
            } else {
                None
            }
        },
    }
}

/// What a built-in filter answers.
pub open spec fn filter_spec(
    f: Filter,
    args: Seq<TokenView>,
    pack: Pack,
    numbers: Seq<(String, Reading)>,
) -> Option<Seq<char>> {
    match f {
        Filter::Plural => plural_spec(args, pack, numbers),
        Filter::Ordinal => ordinal_spec(args, pack, numbers),
        Filter::Month => month_spec(args, pack, numbers),
    }
}

/// What a table of filters answers an expression.
pub open spec fn answer_of(
    tokens: Seq<TokenView>,
    table: Map<Seq<char>, Filter>,
    pack: Pack,
    numbers: Seq<(String, Reading)>,
) -> Option<Seq<char>> {
    if tokens.len() == 0 {
        None
    } else {
        match tokens[0] {
            TokenView::Identifier(name) if table.dom().contains(name) => filter_spec(
                table[name],
                tokens.skip(1),
                pack,
                numbers,
            ),
            _ => None,
        }
    }
}

/// What a table of filters answers each expression.
pub open spec fn answers_of(
    spans: Seq<SpanView>,
    table: Map<Seq<char>, Filter>,
    pack: Pack,
    numbers: Seq<(String, Reading)>,
) -> Seq<Option<Seq<char>>> {
    spans.map_values(|x: SpanView| answer_of(x.tokens, table, pack, numbers))
}

/// Whether an expression names a filter.
pub open spec fn names_filter(tokens: Seq<TokenView>) -> bool {
    tokens.len() > 0 && tokens[0] is Identifier
}

/// The answers that erase every expression that names a filter.
pub open spec fn erasures(spans: Seq<SpanView>) -> Seq<Option<Seq<char>>> {
    spans.map_values(
        |x: SpanView|
            if names_filter(x.tokens) {
                Some(Seq::<char>::empty())
            } else {
                None
            },
    )
}

/// What an optional text says.
pub open spec fn opt_text(x: Option<String>) -> Option<Seq<char>> {
    match x {
        Some(t) => Some(t@),
        None => None,
    }
}

/// What a row of optional texts says.
pub open spec fn opt_texts(s: Seq<Option<String>>) -> Seq<Option<Seq<char>>> {
    s.map_values(|x: Option<String>| opt_text(x))
}

/// Someone who answers filter expressions before the built-in filters do.
pub trait Context: Sized {
    /// Whether this, asked for the filter `name` with the words `args`, can answer `said` and be `after`
    /// then. Unless a context says otherwise, it can answer anything.
    open spec fn answers(
        &self,
        name: Seq<char>,
        args: Seq<TokenView>,
        said: Option<Seq<char>>,
        after: Self,
    ) -> bool {
        true
    }

    /// An answer, or `None` to leave the expression to the built-in filters.
    fn on_filter_eval(&mut self, name: &str, args: &[Token]) -> (r: Option<String>)
        ensures
            old(self).answers(name@, token_views(args@), opt_text(r), *final(self)),
    ;
}

/// A context that leaves every expression to the table of filters.
pub struct EmptyContext;

impl Context for EmptyContext {
    open spec fn answers(
        &self,
        name: Seq<char>,
        args: Seq<TokenView>,
        said: Option<Seq<char>>,
        after: Self,
    ) -> bool {
        said is None
    }

    fn on_filter_eval(&mut self, _name: &str, _args: &[Token]) -> (r: Option<String>) {
        None
    }
}

/// A context that answers every expression with the empty text.
pub struct FilterRemovalContext;

impl Context for FilterRemovalContext {
    open spec fn answers(
        &self,
        name: Seq<char>,
        args: Seq<TokenView>,
        said: Option<Seq<char>>,
        after: Self,
    ) -> bool {
        said == Some(Seq::<char>::empty())
    }

    fn on_filter_eval(&mut self, _name: &str, _args: &[Token]) -> (r: Option<String>) {
        let r = String::new();
        assert(r@ =~= Seq::<char>::empty());
        Some(r)
    }
}

/// Whether a context is asked for an expression as it should be, and answers `said`: one that names a
/// filter is offered with its name and the words behind it, any other is not offered.
pub open spec fn asked<C: Context>(
    before: C,
    tokens: Seq<TokenView>,
    said: Option<Seq<char>>,
    after: C,
) -> bool {
    if names_filter(tokens) {
        before.answers(tokens[0]->Identifier_0, tokens.skip(1), said, after)
    } else {
        said is None && after == before
    }
}

/// Whether a context is asked for each expression once, in order: `seen` is what it is before, between
/// and behind the questions.
pub open spec fn conversation<C: Context>(
    spans: Seq<SpanView>,
    said: Seq<Option<Seq<char>>>,
    seen: Seq<C>,
) -> bool {
    &&& said.len() == spans.len()
    &&& seen.len() == spans.len() + 1
    &&& forall|k: int|
        0 <= k < spans.len() ==> asked(seen[k], spans[k].tokens, #[trigger] said[k], seen[k + 1])
}

/// A text with every `\'` in a range of it turned into `'`.
fn unescape(s: &Vec<char>, from: usize, to: usize) -> (r: String)
    requires
        from <= to <= s.len(),
    ensures
        r@ == unescaped(s@.subrange(from as int, to as int)),
{
    let ghost all = s@.subrange(from as int, to as int);
    let mut out = String::new();
    let mut i: usize = from;
    assert(out@ + unescaped(s@.subrange(from as int, to as int)) =~= unescaped(all));
    while i < to
        invariant
            from <= i <= to <= s.len(),
            out@ + unescaped(s@.subrange(i as int, to as int)) == unescaped(all),
        decreases to - i,
    {
        let ghost rest = s@.subrange(i as int, to as int);
        let ghost before = out@;
        if i + 1 < to && s[i] == '\\' && s[i + 1] == '\'' {
            assert(rest.skip(2) =~= s@.subrange(i as int + 2, to as int));
            out.push('\'');
            i = i + 2;
        } else {
            assert(rest.skip(1) =~= s@.subrange(i as int + 1, to as int));
            out.push(s[i]);
            i = i + 1;
        }
        assert(out@ + unescaped(s@.subrange(i as int, to as int)) =~= before + unescaped(rest));
    }
    assert(s@.subrange(i as int, to as int) =~= Seq::empty());
    assert(out@ =~= out@ + unescaped(s@.subrange(i as int, to as int)));
    out
}

/// A text with every `c` in it replaced.
fn replace_char(s: &str, c: char, with: &str) -> (r: String)
    ensures
        r@ == replaced(s@, c, with@),
{
    let chars = chars_of(s);
    let mut out = String::new();
    let mut i: usize = 0;
    assert(s@.take(0) =~= Seq::empty());
    assert(out@ =~= replaced(s@.take(0), c, with@));
    while i < chars.len()
        invariant
            i <= chars.len(),
            chars@ == s@,
            out@ == replaced(s@.take(i as int), c, with@),
        decreases chars.len() - i,
    {
        assert(s@.take(i as int + 1).drop_last() =~= s@.take(i as int));
        assert(s@.take(i as int + 1).last() == chars@[i as int]);
        let ghost before = out@;
        if chars[i] == c {
            out.append(with);
        } else {
            out.push(chars[i]);
            assert(out@ =~= before + seq![chars@[i as int]]);
        }
        i = i + 1;
    }
    assert(s@.take(i as int) =~= s@);
    out
}

/// Whether a character is a decimal digit.
fn digit_char(c: char) -> (r: bool)
    ensures
        r == is_digit(c),
{
    '0' <= c && c <= '9'
}

/// The position behind the digits that a range starts with.
fn skip_digits(s: &Vec<char>, from: usize) -> (r: usize)
    requires
        from <= s.len(),
    ensures
        from <= r <= s.len(),
        s@.skip(r as int) == after_digits(s@.skip(from as int)),
{
    let mut i: usize = from;
    while i < s.len() && digit_char(s[i])
        invariant
            from <= i <= s.len(),
            after_digits(s@.skip(from as int)) == after_digits(s@.skip(i as int)),
        decreases s.len() - i,
    {
        assert(s@.skip(i as int).skip(1) =~= s@.skip(i as int + 1));
        i = i + 1;
    }
    i
}

/// Whether what follows a position is an exponent or nothing.
fn exponent_at(s: &Vec<char>, from: usize) -> (r: bool)
    requires
        from <= s.len(),
    ensures
        r == is_exponent(s@.skip(from as int)),
{
    let ghost t = s@.skip(from as int);
    if from == s.len() {
        return true;
    }
    assert(t[0] == s@[from as int]);
    if s[from] != 'e' && s[from] != 'E' {
        return false;
    }
    let mut i: usize = from + 1;
    if i < s.len() && (s[i] == '+' || s[i] == '-') {
        assert(t[1] == s@[i as int]);
        i = i + 1;
        assert(t.skip(2) =~= s@.skip(i as int));
    } else {
        assert(from + 1 < s.len() ==> t[1] == s@[i as int]);
        assert(t.skip(1) =~= s@.skip(i as int));
    }
    let end: usize = skip_digits(s, i);
    i < s.len() && digit_char(s[i]) && end == s.len()
}

/// Whether a text is a number.
fn number_text(s: &Vec<char>) -> (r: bool)
    ensures
        r == is_number(s@),
{
    if s.len() == 0 || !digit_char(s[0]) {
        return false;
    }
    assert(s@.skip(0) =~= s@);
    let i: usize = skip_digits(s, 0);
    let ghost t = s@.skip(i as int);
    if i < s.len() && s[i] == '.' {
        assert(t[0] == '.');
        assert(t.skip(1) =~= s@.skip(i as int + 1));
        let j: usize = skip_digits(s, i + 1);
        exponent_at(s, j)
    } else {
        assert(i < s.len() ==> t[0] == s@[i as int]);
        exponent_at(s, i)
    }
}

/// Whether a character may stand in an identifier.
fn word_char(c: char) -> (r: bool)
    ensures
        r == is_word(c),
{
    ('0' <= c && c <= '9') || ('a' <= c && c <= 'z') || ('A' <= c && c <= 'Z') || c == '_'
}

/// The word that a range of a text spells.
fn parse_token(s: &Vec<char>, from: usize, to: usize) -> (r: Option<Token>)
    requires
        from <= to <= s.len(),
    ensures
        (match r {
            Some(t) => Some(t@),
            None => None,
        }) == token_of(s@.subrange(from as int, to as int)),
{
    let ghost t = s@.subrange(from as int, to as int);
    if to - from >= 2 && s[from] == '\'' && s[to - 1] == '\'' {
        assert(t.subrange(1, t.len() - 1) =~= s@.subrange(from as int + 1, to as int - 1));
        return Some(Token::StringLit(unescape(s, from + 1, to - 1)));
    }
    if from < to && digit_char(s[from]) {
        let text = string_of(s, from, to);
        let chars = chars_of(text.as_str());
        if number_text(&chars) {
            return Some(Token::NumberLit(text));
        }
        let plain = replace_char(text.as_str(), ',', "");
        proof {
            reveal_strlit("");
            assert(""@ =~= Seq::empty());
        }
        let bare = chars_of(plain.as_str());
        if number_text(&bare) {
            return Some(Token::NumberLit(plain));
        }
        return None;
    }
    let mut i: usize = from;
    while i < to
        invariant
            from <= i <= to <= s.len(),
            t == s@.subrange(from as int, to as int),
            forall|j: int| 0 <= j < i - from ==> is_word(#[trigger] t[j]),
            !(t.len() >= 2 && t[0] == '\'' && t.last() == '\''),
            !(t.len() > 0 && is_digit(t[0])),
        decreases to - i,
    {
        assert(t[i - from] == s@[i as int]);
        if !word_char(s[i]) {
            return None;
        }
        i = i + 1;
    }
    Some(Token::Identifier(string_of(s, from, to)))
}

/// The state of a scan.
struct Scan {
    mode: Mode,
    start: usize,
    tokens: Vec<Token>,
    word: Option<usize>,
    in_string: bool,
    escaped: bool,
    spans: Vec<Span>,
}

impl Scan {
    /// What the state says.
    closed spec fn state(self) -> ScanView {
        ScanView {
            mode: self.mode,
            start: self.start as int,
            tokens: token_views(self.tokens@),
            word: match self.word {
                Some(w) => Some(w as int),
                None => None,
            },
            in_string: self.in_string,
            escaped: self.escaped,
            spans: span_views(self.spans@),
        }
    }

    /// Whether the current word starts before position `n`.
    closed spec fn within(self, n: int) -> bool {
        self.word matches Some(w) ==> w < n
    }

    /// Go back to ordinary text.
    fn reset(&mut self)
        ensures
            final(self).state() == back_to_plain(old(self).state(), old(self).state().spans),
            final(self).word is None,
    {
        self.mode = Mode::Plain;
        self.start = 0;
        self.tokens = Vec::new();
        self.word = None;
        self.in_string = false;
        self.escaped = false;
        assert(token_views(self.tokens@) =~= Seq::empty());
    }

    /// Close the expression with the `)` at `i`.
    fn close(&mut self, s: &Vec<char>, i: usize)
        requires
            i < s.len(),
            old(self).within(i as int),
        ensures
            final(self).state() == close_filter(s@, old(self).state(), i as int),
            final(self).word is None,
    {
        if let Some(w) = self.word {
            match parse_token(s, w, i) {
                Some(t) => {
                    let ghost before = self.tokens@;
                    let ghost said = t@;
                    self.tokens.push(t);
                    assert(token_views(self.tokens@) =~= token_views(before).push(said));
                },
                None => {
                    self.reset();
                    return ;
                },
            }
        }
        let ghost said = token_views(self.tokens@);
        let mut words: Vec<Token> = Vec::new();
        words.append(&mut self.tokens);
        assert(token_views(words@) =~= said);
        let ghost before = self.spans@;
        let span = Span { start: self.start, end: i + 1, tokens: words };
        let ghost seen = span@;
        self.spans.push(span);
        assert(span_views(self.spans@) =~= span_views(before).push(seen));
        self.reset();
    }

    /// Take character `i`.
    fn step(&mut self, s: &Vec<char>, i: usize)
        requires
            i < s.len(),
            old(self).within(i as int),
        ensures
            final(self).state() == scan_step(s@, old(self).state(), i as int),
            final(self).within(i + 1),
    {
        let c: char = s[i];
        match self.mode {
            Mode::Plain => {
                if c == '$' {
                    self.mode = Mode::Dollar;
                    self.start = i;
                }
            },
            Mode::Dollar => {
                if c == '(' {
                    self.mode = Mode::Filter;
                } else {
                    self.reset();
                }
            },
            Mode::Filter => {
                if self.escaped {
                    self.escaped = false;
                } else if c == ')' {
                    if !self.in_string {
                        self.close(s, i);
                    }
                } else if c == ' ' {
                    if !self.in_string {
                        if let Some(w) = self.word {
                            match parse_token(s, w, i) {
                                Some(t) => {
                                    let ghost before = self.tokens@;
                                    let ghost said = t@;
                                    self.tokens.push(t);
                                    assert(token_views(self.tokens@) =~= token_views(before).push(
                                        said,
                                    ));
                                    self.word = None;
                                },
                                None => {
                                    self.reset();
                                },
                            }
                        }
                    }
                } else if c == '\'' {
                    if self.word.is_none() {
                        self.word = Some(i);
                        self.in_string = true;
                    } else {
                        self.in_string = false;
                    }
                } else if c == '\\' {
                    if self.in_string {
                        self.escaped = true;
                    }
                } else if self.word.is_none() {
                    self.word = Some(i);
                }
            },
        }
    }
}

/// The closed filter expressions of a text.
pub fn scan(s: &Vec<char>) -> (r: Vec<Span>)
    ensures
        span_views(r@) == filters_in(s@),
{
    let mut st = Scan {
        mode: Mode::Plain,
        start: 0,
        tokens: Vec::new(),
        word: None,
        in_string: false,
        escaped: false,
        spans: Vec::new(),
    };
    assert(token_views(st.tokens@) =~= Seq::empty());
    assert(span_views(st.spans@) =~= Seq::empty());
    let mut i: usize = 0;
    while i < s.len()
        invariant
            i <= s.len(),
            st.state() == scanned(s@, i as nat),
            st.within(i as int),
        decreases s.len() - i,
    {
        st.step(s, i);
        i = i + 1;
    }
    st.spans
}

/// The state of a scan keeps its expressions in order, each inside the text seen.
pub open spec fn spans_ok(spans: Seq<SpanView>, n: int) -> bool {
    &&& forall|k: int|
        0 <= k < spans.len() ==> 0 <= (#[trigger] spans[k]).start < spans[k].end <= n
    &&& forall|j: int, k: int|
        0 <= j < k < spans.len() ==> (#[trigger] spans[j]).end <= (#[trigger] spans[k]).start
}

/// Scanning keeps expressions in order and apart.
proof fn lemma_scan_ok(s: Seq<char>, n: nat)
    requires
        n <= s.len(),
    ensures
        spans_ok(scanned(s, n).spans, n as int),
        scanned(s, n).mode != Mode::Plain ==> end_of(
            scanned(s, n).spans,
            scanned(s, n).spans.len() as int,
        ) <= scanned(s, n).start < n,
        end_of(scanned(s, n).spans, scanned(s, n).spans.len() as int) <= n,
    decreases n,
{
    if n > 0 {
        lemma_scan_ok(s, (n - 1) as nat);
        let st = scanned(s, (n - 1) as nat);
        let next = scanned(s, n);
        assert(next == scan_step(s, st, n - 1));
        let len = st.spans.len() as int;
        if len > 0 {
            assert(st.spans[len - 1].end <= n - 1);
        }
        assert forall|k: int| 0 <= k < next.spans.len() implies 0 <= (
        #[trigger] next.spans[k]).start < next.spans[k].end <= n by {
            if k < len {
                assert(next.spans[k] == st.spans[k]);
            }
        }
        assert forall|j: int, k: int| 0 <= j < k < next.spans.len() implies (
        #[trigger] next.spans[j]).end <= (#[trigger] next.spans[k]).start by {
            assert(next.spans[j] == st.spans[j]);
            if k < len {
                assert(next.spans[k] == st.spans[k]);
            } else if j < len - 1 {
                assert(st.spans[j].end <= st.spans[len - 1].start);
            }
        }
    }
}

/// A text with each of its expressions that has an answer replaced by it.
pub fn render(s: &Vec<char>, spans: &Vec<Span>, answers: &Vec<Option<String>>) -> (r: String)
    requires
        span_views(spans@) == filters_in(s@),
        answers.len() == spans.len(),
    ensures
        r@ == rendered(s@, opt_texts(answers@)),
{
    let ghost all = filters_in(s@);
    let ghost said = opt_texts(answers@);
    proof {
        lemma_scan_ok(s@, s@.len());
    }
    let mut out = String::new();
    let mut at: usize = 0;
    let mut k: usize = 0;
    assert(out@ =~= rendered_upto(s@, all, said, 0));
    while k < spans.len()
        invariant
            k <= spans.len(),
            answers.len() == spans.len(),
            all == span_views(spans@),
            said == opt_texts(answers@),
            spans_ok(all, s@.len() as int),
            at == end_of(all, k as int),
            at <= s.len(),
            out@ == rendered_upto(s@, all, said, k as nat),
        decreases spans.len() - k,
    {
        assert(all[k as int] == spans@[k as int]@);
        let start: usize = spans[k].start;
        let end: usize = spans[k].end;
        assert(k > 0 ==> all[k - 1].end <= all[k as int].start);
        out.append(string_of(s, at, start).as_str());
        match &answers[k] {
            Some(a) => {
                assert(said[k as int] == Some(a@));
                out.append(a.as_str());
            },
            None => {
                assert(said[k as int] is None);
                out.append(string_of(s, start, end).as_str());
            },
        }
        at = end;
        k = k + 1;
        assert(out@ =~= rendered_upto(s@, all, said, k as nat));
    }
    out.append(string_of(s, at, s.len()).as_str());
    assert(s@.subrange(at as int, s@.len() as int) =~= s@.skip(at as int));
    out
}

/// What a number literal reads as.
fn find_reading<'a>(numbers: &'a Vec<(String, Reading)>, literal: &str) -> (r: Option<&'a Reading>)
    ensures
        (match r {
            Some(x) => Some((x.whole, x.shown@)),
            None => None,
        }) == reading_of(numbers@, literal@),
{
    let mut i: usize = 0;
    assert(numbers@.skip(0) =~= numbers@);
    while i < numbers.len()
        invariant
            i <= numbers.len(),
            reading_of(numbers@, literal@) == reading_of(numbers@.skip(i as int), literal@),
        decreases numbers.len() - i,
    {
        if same(numbers[i].0.as_str(), literal) {
            return Some(&numbers[i].1);
        }
        assert(numbers@.skip(i as int).drop_first() =~= numbers@.skip(i as int + 1));
        i = i + 1;
    }
    None
}

/// The reading of the word behind the filter's name.
fn read_first<'a>(tokens: &Vec<Token>, numbers: &'a Vec<(String, Reading)>) -> (r: Option<
    &'a Reading,
>)
    requires
        tokens.len() > 0,
    ensures
        (match r {
            Some(x) => Some((x.whole, x.shown@)),
            None => None,
        }) == first_number(token_views(tokens@).skip(1), numbers@),
{
    if tokens.len() < 2 {
        return None;
    }
    assert(token_views(tokens@).skip(1)[0] == tokens@[1]@);
    match &tokens[1] {
        Token::NumberLit(l) => find_reading(numbers, l.as_str()),
        _ => None,
    }
}

/// `$(plural n 'form0' 'form1' ...)`, its name being the first word.
pub fn plural(tokens: &Vec<Token>, pack: &Pack, numbers: &Vec<(String, Reading)>) -> (r: Option<
    String,
>)
    requires
        tokens.len() > 0,
    ensures
        (match r {
            Some(x) => Some(x@),
            None => None,
        }) == plural_spec(token_views(tokens@).skip(1), *pack, numbers@),
{
    if tokens.len() < 3 {
        return None;
    }
    match read_first(tokens, numbers) {
        None => None,
        Some(n) => match pack.plural_form.try_resolve(n.whole) {
            None => None,
            Some(k) => {
                if k >= tokens.len() - 2 {
                    return None;
                }
                assert(token_views(tokens@).skip(1)[1 + k] == tokens@[2 + k]@);
                match &tokens[2 + k] {
                    Token::StringLit(form) => Some(
                        replace_char(form.as_str(), '$', n.shown.as_str()),
                    ),
                    _ => None,
                }
            },
        },
    }
}

/// `$(ordinal n)`, its name being the first word.
pub fn ordinal(tokens: &Vec<Token>, pack: &Pack, numbers: &Vec<(String, Reading)>) -> (r: Option<
    String,
>)
    requires
        tokens.len() > 0,
    ensures
        (match r {
            Some(x) => Some(x@),
            None => None,
        }) == ordinal_spec(token_views(tokens@).skip(1), *pack, numbers@),
{
    match read_first(tokens, numbers) {
        None => None,
        Some(n) => match pack.ordinal_form.try_resolve(n.whole) {
            None => None,
            Some(k) => {
                if k >= pack.ordinal_types.len() {
                    return None;
                }
                Some(replace_char(pack.ordinal_types[k].as_str(), '$', n.shown.as_str()))
            },
        },
    }
}

/// `$(month n)`, its name being the first word.
pub fn month(tokens: &Vec<Token>, pack: &Pack, numbers: &Vec<(String, Reading)>) -> (r: Option<
    String,
>)
    requires
        tokens.len() > 0,
    ensures
        (match r {
            Some(x) => Some(x@),
            None => None,
        }) == month_spec(token_views(tokens@).skip(1), *pack, numbers@),
{
    match read_first(tokens, numbers) {
        None => None,
        Some(n) => {
            let i: u64 = if n.whole == 0 {
                0
            } else {
                n.whole - 1
            };
            if i >= pack.months.len() as u64 {
                return None;
            }
            Some(pack.months[i as usize].clone())
        },
    }
}

impl Parser {
    /// A parser with a table of filters; a later entry of a name replaces an earlier one.
    pub fn new(filters: &Vec<(&str, Filter)>) -> (r: Parser)
        ensures
            r.table() == table_of(filters@),
    {
        let mut m = empty_table();
        let mut i: usize = 0;
        assert(filter_entries(m) =~= table_of(filters@.take(0)));
        while i < filters.len()
            invariant
                i <= filters.len(),
                filter_entries(m) == table_of(filters@.take(i as int)),
            decreases filters.len() - i,
        {
            assert(filters@.take(i as int + 1).drop_last() =~= filters@.take(i as int));
            assert(filters@.take(i as int + 1).last() == filters@[i as int]);
            table_insert(&mut m, filters[i].0, filters[i].1);
            i = i + 1;
        }
        assert(filters@.take(i as int) =~= filters@);
        Parser { filters: m }
    }

    /// What the table of filters answers an expression.
    fn look_up(&self, tokens: &Vec<Token>, pack: &Pack, numbers: &Vec<(String, Reading)>) -> (r:
        Option<String>)
        ensures
            opt_text(r) == answer_of(token_views(tokens@), self.table(), *pack, numbers@),
    {
        if tokens.len() == 0 {
            return None;
        }
        assert(token_views(tokens@)[0] == tokens@[0]@);
        match &tokens[0] {
            Token::Identifier(name) => match table_get(&self.filters, name.as_str()) {
                Some(Filter::Plural) => plural(tokens, pack, numbers),
                Some(Filter::Ordinal) => ordinal(tokens, pack, numbers),
                Some(Filter::Month) => month(tokens, pack, numbers),
                None => None,
            },
            _ => None,
        }
    }

    /// What an expression is answered, given what a context said of it: its answer, or else that of the
    /// table.
    pub fn settle(
        &self,
        tokens: &Vec<Token>,
        said: Option<String>,
        pack: &Pack,
        numbers: &Vec<(String, Reading)>,
    ) -> (r: Option<String>)
        ensures
            opt_text(r) == settled(
                token_views(tokens@),
                opt_text(said),
                self.table(),
                *pack,
                numbers@,
            ),
    {
        if said.is_some() {
            said
        } else {
            self.look_up(tokens, pack, numbers)
        }
    }

    /// What an expression is answered: one that names a filter is offered to the context first.
    pub fn eval_filter<C: Context>(
        &self,
        tokens: &Vec<Token>,
        pack: &Pack,
        numbers: &Vec<(String, Reading)>,
        context: &mut C,
    ) -> (r: Option<String>)
        ensures
            exists|said: Option<Seq<char>>|
                #![trigger asked(*old(context), token_views(tokens@), said, *final(context))]
                asked(*old(context), token_views(tokens@), said, *final(context)) && opt_text(r)
                    == settled(token_views(tokens@), said, self.table(), *pack, numbers@),
    {
        let ghost words = token_views(tokens@);
        let ghost before = *context;
        let mut reply: Option<String> = None;
        if tokens.len() > 0 {
            assert(words[0] == tokens@[0]@);
            if let Token::Identifier(name) = &tokens[0] {
                let args = vstd::slice::slice_subrange(tokens.as_slice(), 1, tokens.len());
                assert(token_views(args@) =~= words.skip(1));
                reply = context.on_filter_eval(name.as_str(), args);
            }
        }
        assert(asked(before, words, opt_text(reply), *context));
        self.settle(tokens, reply, pack, numbers)
    }

    /// Expand the filter expressions of a text. Each that names a filter is offered to `context` first,
    /// once and in order, with its name and the words behind it; its answer wins, and where it has none
    /// the table of filters decides.
    pub fn eval_with_context<C: Context>(
        &self,
        input: &str,
        pack: &Pack,
        numbers: &Vec<(String, Reading)>,
        context: &mut C,
    ) -> (r: String)
        ensures
            exists|said: Seq<Option<Seq<char>>>, seen: Seq<C>|
                #![trigger conversation(filters_in(input@), said, seen)]
                conversation(filters_in(input@), said, seen) && seen[0] == *old(context)
                    && seen.last() == *final(context) && r@ == rendered(
                    input@,
                    merged(filters_in(input@), said, self.table(), *pack, numbers@),
                ),
    {
        let s = chars_of(input);
        let spans = scan(&s);
        let ghost all = filters_in(input@);
        let mut answers: Vec<Option<String>> = Vec::new();
        let ghost mut said: Seq<Option<Seq<char>>> = Seq::empty();
        let ghost mut seen: Seq<C> = seq![*context];
        let mut k: usize = 0;
        while k < spans.len()
            invariant
                k <= spans.len(),
                all == span_views(spans@),
                answers.len() == k,
                said.len() == k,
                seen.len() == k + 1,
                seen[0] == *old(context),
                seen.last() == *context,
                forall|j: int|
                    0 <= j < k ==> asked(seen[j], all[j].tokens, #[trigger] said[j], seen[j + 1]),
                forall|j: int|
                    0 <= j < k ==> opt_texts(answers@)[j] == settled(
                        all[j].tokens,
                        #[trigger] said[j],
                        self.table(),
                        *pack,
                        numbers@,
                    ),
            decreases spans.len() - k,
        {
            let ghost answered = opt_texts(answers@);
            let ghost heard = said;
            let ghost met = seen;
            let ghost before = *context;
            let ghost words = token_views(spans@[k as int].tokens@);
            assert(all[k as int].tokens == words);
            let a = self.eval_filter(&spans[k].tokens, pack, numbers, context);
            let ghost one = choose|one: Option<Seq<char>>|
                #![trigger asked(before, words, one, *context)]
                asked(before, words, one, *context) && opt_text(a) == settled(
                    words,
                    one,
                    self.table(),
                    *pack,
                    numbers@,
                );
            proof {
                said = said.push(one);
                seen = seen.push(*context);
            }
            answers.push(a);
            assert(opt_texts(answers@) =~= answered.push(opt_text(a)));
            k = k + 1;
            assert forall|j: int| 0 <= j < k implies asked(
                seen[j],
                all[j].tokens,
                #[trigger] said[j],
                seen[j + 1],
            ) && opt_texts(answers@)[j] == settled(
                all[j].tokens,
                said[j],
                self.table(),
                *pack,
                numbers@,
            ) by {
                if j < k - 1 {
                    assert(said[j] == heard[j]);
                    assert(seen[j] == met[j]);
                    assert(seen[j + 1] == met[j + 1]);
                }
            }
        }
        assert(opt_texts(answers@) =~= merged(all, said, self.table(), *pack, numbers@));
        assert(conversation(all, said, seen));
        render(&s, &spans, &answers)
    }

    /// Expand the filter expressions of a text.
    pub fn eval(&self, input: &str, pack: &Pack, numbers: &Vec<(String, Reading)>) -> (r: String)
        ensures
            r@ == rendered(
                input@,
                answers_of(filters_in(input@), self.table(), *pack, numbers@),
            ),
    {
        let ghost all = filters_in(input@);
        let mut nobody = EmptyContext;
        let r = self.eval_with_context(input, pack, numbers, &mut nobody);
        proof {
            let (said, seen) = choose|said: Seq<Option<Seq<char>>>, seen: Seq<EmptyContext>|
                #![trigger conversation(all, said, seen)]
                conversation(all, said, seen) && r@ == rendered(
                    input@,
                    merged(all, said, self.table(), *pack, numbers@),
                );
            assert forall|k: int| 0 <= k < all.len() implies (#[trigger] said[k]) is None by {
                assert(asked(seen[k], all[k].tokens, said[k], seen[k + 1]));
            }
            assert(merged(all, said, self.table(), *pack, numbers@) =~= answers_of(
                all,
                self.table(),
                *pack,
                numbers@,
            ));
        }
        r
    }

    /// Erase every filter expression that names a filter.
    pub fn remove_filters(&self, input: &str) -> (r: String)
        ensures
            r@ == rendered(input@, erasures(filters_in(input@))),
    {
        let ghost all = filters_in(input@);
        let pack = Pack {
            plural_form: Resolver::First,
            ordinal_form: Resolver::First,
            ordinal_types: Vec::new(),
            months: Vec::new(),
        };
        let numbers: Vec<(String, Reading)> = Vec::new();
        let mut eraser = FilterRemovalContext;
        let r = self.eval_with_context(input, &pack, &numbers, &mut eraser);
        proof {
            let (said, seen) = choose|said: Seq<Option<Seq<char>>>, seen: Seq<FilterRemovalContext>|
                #![trigger conversation(all, said, seen)]
                conversation(all, said, seen) && r@ == rendered(
                    input@,
                    merged(all, said, self.table(), pack, numbers@),
                );
            let answers = merged(all, said, self.table(), pack, numbers@);
            assert forall|k: int| 0 <= k < all.len() implies #[trigger] answers[k] == erasures(
                all,
            )[k] by {
                assert(asked(seen[k], all[k].tokens, said[k], seen[k + 1]));
            }
            assert(answers =~= erasures(all));
        }
        r
    }

    /// The number literals of the filter expressions of a text, in order.
    pub fn numbers(&self, input: &str) -> (r: Vec<String>)
        ensures
            crate::names::lines(r@) == literals_in(filters_in(input@)),
    {
        let s = chars_of(input);
        let spans = scan(&s);
        let ghost all = filters_in(input@);
        let mut out: Vec<String> = Vec::new();
        let mut k: usize = 0;
        assert(crate::names::lines(out@) =~= literals_in(all.take(0)));
        while k < spans.len()
            invariant
                k <= spans.len(),
                all == span_views(spans@),
                crate::names::lines(out@) == literals_in(all.take(k as int)),
            decreases spans.len() - k,
        {
            assert(all.take(k as int + 1).drop_last() =~= all.take(k as int));
            assert(all.take(k as int + 1).last() == spans@[k as int]@);
            put_literals(&spans[k].tokens, &mut out);
            k = k + 1;
        }
        assert(all.take(k as int) =~= all);
        out
    }
}

/// Append the number literals among some words.
fn put_literals(tokens: &Vec<Token>, out: &mut Vec<String>)
    ensures
        crate::names::lines(final(out)@) == crate::names::lines(old(out)@) + literals_of(
            token_views(tokens@),
        ),
{
    let ghost all = token_views(tokens@);
    let ghost start = crate::names::lines(out@);
    let mut i: usize = 0;
    assert(crate::names::lines(out@) =~= start + literals_of(all.take(0)));
    while i < tokens.len()
        invariant
            i <= tokens.len(),
            all == token_views(tokens@),
            crate::names::lines(out@) == start + literals_of(all.take(i as int)),
        decreases tokens.len() - i,
    {
        assert(all.take(i as int + 1).drop_last() =~= all.take(i as int));
        assert(all.take(i as int + 1).last() == tokens@[i as int]@);
        if let Token::NumberLit(l) = &tokens[i] {
            let ghost before = out@;
            out.push(l.clone());
            assert(crate::names::lines(out@) =~= crate::names::lines(before).push(l@));
            assert(crate::names::lines(out@) =~= start + literals_of(all.take(i as int + 1)));
        }
        i = i + 1;
    }
    assert(all.take(i as int) =~= all);
}

/// The number literals among some words.
pub open spec fn literals_of(tokens: Seq<TokenView>) -> Seq<Seq<char>>
    decreases tokens.len(),
{
    if tokens.len() == 0 {
        Seq::empty()
    } else {
        match tokens.last() {
            TokenView::NumberLit(l) => literals_of(tokens.drop_last()).push(l),
            _ => literals_of(tokens.drop_last()),
        }
    }
}

/// The number literals of some expressions.
pub open spec fn literals_in(spans: Seq<SpanView>) -> Seq<Seq<char>>
    decreases spans.len(),
{
    if spans.len() == 0 {
        Seq::empty()
    } else {
        literals_in(spans.drop_last()) + literals_of(spans.last().tokens)
    }
}

/// A table of filters from a row of entries.
pub open spec fn table_of(filters: Seq<(&str, Filter)>) -> Map<Seq<char>, Filter>
    decreases filters.len(),
{
    if filters.len() == 0 {
        Map::empty()
    } else {
        table_of(filters.drop_last()).insert(filters.last().0@, filters.last().1)
    }
}

/// What an expression is answered, given what a context said of it: what it said, or else what the
/// table answers.
pub open spec fn settled(
    tokens: Seq<TokenView>,
    said: Option<Seq<char>>,
    table: Map<Seq<char>, Filter>,
    pack: Pack,
    numbers: Seq<(String, Reading)>,
) -> Option<Seq<char>> {
    if said is Some {
        said
    } else {
        answer_of(tokens, table, pack, numbers)
    }
}

/// What each expression is answered, given what a context said of it.
pub open spec fn merged(
    spans: Seq<SpanView>,
    said: Seq<Option<Seq<char>>>,
    table: Map<Seq<char>, Filter>,
    pack: Pack,
    numbers: Seq<(String, Reading)>,
) -> Seq<Option<Seq<char>>> {
    Seq::new(spans.len(), |i: int| settled(spans[i].tokens, said[i], table, pack, numbers))
}

/// What a context answers goes before the table of filters; where it has no answer, the table decides.
pub proof fn lemma_context_goes_first(
    spans: Seq<SpanView>,
    said: Seq<Option<Seq<char>>>,
    table: Map<Seq<char>, Filter>,
    pack: Pack,
    numbers: Seq<(String, Reading)>,
    k: int,
)
    requires
        0 <= k < spans.len(),
    ensures
        said[k] is Some ==> merged(spans, said, table, pack, numbers)[k] == said[k],
        said[k] is None ==> merged(spans, said, table, pack, numbers)[k] == answer_of(
            spans[k].tokens,
            table,
            pack,
            numbers,
        ),
{
}

/// The parser with the built-in filters under their names.
pub fn builtin_parser() -> (r: Parser)
    ensures
        r.table() == builtin_table(),
{
    let filters: Vec<(&str, Filter)> = vec![
        ("plural", Filter::Plural),
        ("ordinal", Filter::Ordinal),
        ("month", Filter::Month),
    ];
    proof {
        reveal_with_fuel(table_of, 4);
        assert(filters@.drop_last() =~= seq![filters@[0], filters@[1]]);
        assert(filters@.drop_last().drop_last() =~= seq![filters@[0]]);
        assert(filters@.drop_last().drop_last().drop_last() =~= Seq::empty());
        assert(table_of(filters@) =~= builtin_table());
    }
    Parser::new(&filters)
}

/// The built-in filters under their names.
pub open spec fn builtin_table() -> Map<Seq<char>, Filter> {
    Map::empty().insert("plural"@, Filter::Plural).insert("ordinal"@, Filter::Ordinal).insert(
        "month"@,
        Filter::Month,
    )
}

/// Expand the filter expressions of a localized text with the built-in filters. A text without `$`
/// is returned as it is.
pub fn eval(input: &str, pack: &Pack, numbers: &Vec<(String, Reading)>) -> (r: String)
    ensures
        r@ == rendered(
            input@,
            answers_of(filters_in(input@), builtin_table(), *pack, numbers@),
        ),
        !input@.contains('$') ==> r@ == input@,
{
    let s = chars_of(input);
    let mut i: usize = 0;
    let mut dollar: bool = false;
    while i < s.len() && !dollar
        invariant
            i <= s.len(),
            s@ == input@,
            !dollar ==> forall|j: int| 0 <= j < i ==> s@[j] != '$',
            dollar ==> input@.contains('$'),
        decreases s.len() - i,
            (if dollar {
                0int
            } else {
                1int
            }),
    {
        if s[i] == '$' {
            assert(input@[i as int] == '$');
            dollar = true;
        } else {
            i = i + 1;
        }
    }
    if !dollar {
        proof {
            lemma_no_dollar(
                input@,
                answers_of(filters_in(input@), builtin_table(), *pack, numbers@),
            );
        }
        return input.to_owned();
    }
    builtin_parser().eval(input, pack, numbers)
}

/// A text without `$` has no filter expression and stays as it is.
pub proof fn lemma_no_dollar(s: Seq<char>, answers: Seq<Option<Seq<char>>>)
    requires
        !s.contains('$'),
    ensures
        filters_in(s).len() == 0,
        rendered(s, answers) == s,
{
    lemma_no_dollar_scan(s, s.len());
    assert(s.skip(0) =~= s);
    assert(rendered(s, answers) =~= s);
}

proof fn lemma_no_dollar_scan(s: Seq<char>, n: nat)
    requires
        n <= s.len(),
        !s.contains('$'),
    ensures
        scanned(s, n) == scan_start(),
    decreases n,
{
    if n > 0 {
        lemma_no_dollar_scan(s, (n - 1) as nat);
        assert(s[n - 1] != '$');
    }
}

/// Expressions without an answer stay as they are written: with no answer at all, a text is its own
/// expansion.
pub proof fn lemma_unanswered_is_unchanged(s: Seq<char>, answers: Seq<Option<Seq<char>>>)
    requires
        answers.len() == filters_in(s).len(),
        forall|i: int| 0 <= i < answers.len() ==> (#[trigger] answers[i]) is None,
    ensures
        rendered(s, answers) == s,
{
    let spans = filters_in(s);
    lemma_scan_ok(s, s.len());
    lemma_unanswered_upto(s, spans, answers, spans.len());
    let end = end_of(spans, spans.len() as int);
    assert(s.take(end) + s.skip(end) =~= s);
}

proof fn lemma_unanswered_upto(
    s: Seq<char>,
    spans: Seq<SpanView>,
    answers: Seq<Option<Seq<char>>>,
    n: nat,
)
    requires
        n <= spans.len(),
        answers.len() == spans.len(),
        spans_ok(spans, s.len() as int),
        forall|i: int| 0 <= i < answers.len() ==> (#[trigger] answers[i]) is None,
    ensures
        0 <= end_of(spans, n as int) <= s.len(),
        rendered_upto(s, spans, answers, n) == s.take(end_of(spans, n as int)),
    decreases n,
{
    if n > 0 {
        lemma_unanswered_upto(s, spans, answers, (n - 1) as nat);
        let span = spans[n - 1];
        let from = end_of(spans, n - 1);
        if n > 1 {
            assert(spans[n - 2].end <= spans[n - 1].start);
        }
        assert(answers[n - 1] is None);
        assert(s.take(from) + s.subrange(from, span.start) + s.subrange(span.start, span.end)
            =~= s.take(span.end));
    } else {
        assert(s.take(0) =~= Seq::empty());
    }
}

/// The filter expressions of a text lie in it in order and do not overlap.
pub proof fn lemma_filters_apart(s: Seq<char>)
    ensures
        spans_ok(filters_in(s), s.len() as int),
{
    lemma_scan_ok(s, s.len());
}

/// Whether a text is written as one bare word of an expression.
pub open spec fn bare(w: Seq<char>) -> bool {
    w.len() > 0 && forall|i: int|
        0 <= i < w.len() ==> (#[trigger] w[i]) != ' ' && w[i] != ')' && w[i] != '\'' && w[i] != '\\'
}

/// Whether a text is written in quotes, with no quote and no backslash inside.
pub open spec fn quoted(w: Seq<char>) -> bool {
    w.len() >= 2 && w[0] == '\'' && w.last() == '\'' && forall|i: int|
        0 < i < w.len() - 1 ==> (#[trigger] w[i]) != '\'' && w[i] != '\\'
}

/// Whether a text is one that an expression can be made of.
pub open spec fn piece(w: Seq<char>) -> bool {
    (bare(w) || quoted(w)) && token_of(w) is Some
}

/// The scan within an expression, between two words or at the end of one.
pub open spec fn inside(
    start: int,
    tokens: Seq<TokenView>,
    word: Option<int>,
    spans: Seq<SpanView>,
) -> ScanView {
    ScanView {
        mode: Mode::Filter,
        start,
        tokens,
        word,
        in_string: false,
        escaped: false,
        spans,
    }
}

proof fn lemma_scan_piece(
    s: Seq<char>,
    n: nat,
    w: Seq<char>,
    j: nat,
    start: int,
    tokens: Seq<TokenView>,
    spans: Seq<SpanView>,
)
    requires
        bare(w) || quoted(w),
        1 <= j <= w.len(),
        n + w.len() <= s.len(),
        forall|i: int| 0 <= i < w.len() ==> s[n + i] == #[trigger] w[i],
        scanned(s, n) == inside(start, tokens, None, spans),
    ensures
        scanned(s, n + j) == (ScanView {
            in_string: quoted(w) && j < w.len(),
            ..inside(start, tokens, Some(n as int), spans)
        }),
    decreases j,
{
    let i = j - 1;
    assert(s[n + i] == w[i]);
    assert(scanned(s, n + j) == scan_step(s, scanned(s, (n + j - 1) as nat), n + j - 1));
    if j == 1 {
        assert(w[0] == s[n as int]);
        if quoted(w) {
            assert(!bare(w)) by {
                assert(w[0] == '\'');
            }
        }
    } else {
        lemma_scan_piece(s, n, w, (j - 1) as nat, start, tokens, spans);
        if quoted(w) && j == w.len() {
            assert(w[i] == w.last());
        }
    }
}

/// The tokens that pieces are read as.
pub open spec fn tokens_of(ws: Seq<Seq<char>>) -> Seq<TokenView> {
    ws.map_values(|w: Seq<char>| token_of(w)->0)
}

proof fn lemma_scan_pieces(
    s: Seq<char>,
    n: nat,
    ws: Seq<Seq<char>>,
    start: int,
    spans: Seq<SpanView>,
)
    requires
        ws.len() > 0,
        forall|k: int| 0 <= k < ws.len() ==> piece(#[trigger] ws[k]),
        n + joined(ws, seq![' ']).len() <= s.len(),
        s.subrange(n as int, (n + joined(ws, seq![' ']).len()) as int) == joined(ws, seq![' ']),
        scanned(s, n) == inside(start, Seq::empty(), None, spans),
    ensures
        joined(ws, seq![' ']).len() >= ws.last().len(),
        scanned(s, n + joined(ws, seq![' ']).len()) == inside(
            start,
            tokens_of(ws.drop_last()),
            Some(n + joined(ws, seq![' ']).len() - ws.last().len()),
            spans,
        ),
    decreases ws.len(),
{
    let all = joined(ws, seq![' ']);
    let part = s.subrange(n as int, (n + all.len()) as int);
    let w = ws.last();
    assert(piece(ws[ws.len() - 1]));
    if ws.len() == 1 {
        assert(all == w);
        assert forall|i: int| 0 <= i < w.len() implies s[n + i] == #[trigger] w[i] by {
            assert(part[i] == s[n + i]);
        }
        lemma_scan_piece(s, n, w, w.len(), start, Seq::empty(), spans);
        assert(tokens_of(ws.drop_last()) =~= Seq::empty());
    } else {
        let front = ws.drop_last();
        let head = joined(front, seq![' ']);
        assert(all == head + seq![' '] + w);
        assert forall|k: int| 0 <= k < front.len() implies piece(#[trigger] front[k]) by {
            assert(front[k] == ws[k]);
        }
        assert(s.subrange(n as int, (n + head.len()) as int) =~= head) by {
            assert forall|i: int| 0 <= i < head.len() implies s.subrange(
                n as int,
                (n + head.len()) as int,
            )[i] == head[i] by {
                assert(part[i] == s[n + i]);
                assert(all[i] == head[i]);
            }
        }
        lemma_scan_pieces(s, n, front, start, spans);
        let m = n + head.len();
        let last = front.last();
        assert(part[head.len() as int] == s[m as int]);
        assert(all[head.len() as int] == ' ');
        assert(s[m as int] == ' ');
        assert(s.subrange((m - last.len()) as int, m as int) =~= last) by {
            lemma_joined_ends(front);
            assert forall|i: int| 0 <= i < last.len() implies s.subrange(
                (m - last.len()) as int,
                m as int,
            )[i] == last[i] by {
                let at = head.len() - last.len() + i;
                assert(part[at] == s[n + at]);
                assert(all[at] == head[at]);
                assert(head.skip(head.len() - last.len())[i] == head[at]);
            }
        }
        assert(piece(front[front.len() - 1]));
        assert(scanned(s, (m + 1) as nat) == scan_step(s, scanned(s, m), m as int));
        let tokens = tokens_of(front.drop_last()).push(token_of(last)->0);
        assert(tokens =~= tokens_of(front));
        assert(scanned(s, (m + 1) as nat) == inside(start, tokens, None, spans));
        assert forall|i: int| 0 <= i < w.len() implies s[m + 1 + i] == #[trigger] w[i] by {
            assert(part[head.len() + 1 + i] == s[m + 1 + i]);
            assert(all[head.len() + 1 + i] == w[i]);
        }
        lemma_scan_piece(s, (m + 1) as nat, w, w.len(), start, tokens, spans);
    }
}

/// A joined row ends with its last part.
proof fn lemma_joined_ends(ws: Seq<Seq<char>>)
    requires
        ws.len() > 0,
    ensures
        joined(ws, seq![' ']).len() >= ws.last().len(),
        joined(ws, seq![' ']).skip(joined(ws, seq![' ']).len() - ws.last().len()) == ws.last(),
{
    let all = joined(ws, seq![' ']);
    assert(all.skip(all.len() - ws.last().len()) =~= ws.last());
}

proof fn lemma_plain_scan(s: Seq<char>, n: nat, m: nat, spans: Seq<SpanView>)
    requires
        n <= m <= s.len(),
        forall|i: int| n <= i < m ==> (#[trigger] s[i]) != '$',
        scanned(s, n) == (ScanView { spans, ..scan_start() }),
    ensures
        scanned(s, m) == (ScanView { spans, ..scan_start() }),
    decreases m,
{
    if m > n {
        lemma_plain_scan(s, n, (m - 1) as nat, spans);
        assert(s[m - 1] != '$');
        assert(scanned(s, m) == scan_step(s, scanned(s, (m - 1) as nat), m - 1));
    }
}

/// An expression is a dollar sign and, in parentheses, words and quoted texts with blanks between them. It
/// is found where it stands, with the token of each of them in order, and its expansion takes its place;
/// the text around it stays.
pub proof fn lemma_expression(a: Seq<char>, ws: Seq<Seq<char>>, b: Seq<char>, answer: Seq<char>)
    requires
        !a.contains('$'),
        !b.contains('$'),
        ws.len() > 0,
        forall|k: int| 0 <= k < ws.len() ==> piece(#[trigger] ws[k]),
    ensures
        ({
            let s = a + seq!['$', '('] + joined(ws, seq![' ']) + seq![')'] + b;
            &&& filters_in(s) == seq![
                SpanView {
                    start: a.len() as int,
                    end: s.len() - b.len(),
                    tokens: tokens_of(ws),
                },
            ]
            &&& rendered(s, seq![Some(answer)]) == a + answer + b
            &&& rendered(s, seq![None]) == s
        }),
{
    let all = joined(ws, seq![' ']);
    let s = a + seq!['$', '('] + all + seq![')'] + b;
    let n = a.len();
    let end = n + 2 + all.len();
    assert forall|i: int| 0 <= i < n implies (#[trigger] s[i]) != '$' by {
        assert(s[i] == a[i]);
    }
    assert(scanned(s, 0) == (ScanView { spans: Seq::empty(), ..scan_start() }));
    lemma_plain_scan(s, 0, n, Seq::empty());
    assert(s[n as int] == '$');
    assert(s[n + 1int] == '(');
    assert(scanned(s, n + 1) == scan_step(s, scanned(s, n), n as int));
    assert(scanned(s, n + 2) == scan_step(s, scanned(s, n + 1), n + 1int));
    assert(scanned(s, n + 2) == inside(n as int, Seq::empty(), None, Seq::empty()));
    assert(s.subrange((n + 2) as int, end as int) =~= all);
    lemma_scan_pieces(s, n + 2, ws, n as int, Seq::empty());
    let w = ws.last();
    assert(s[end as int] == ')');
    lemma_joined_ends(ws);
    assert(s.subrange(end - w.len(), end as int) =~= w) by {
        assert forall|i: int| 0 <= i < w.len() implies s.subrange(end - w.len(), end as int)[i] == w[i] by {
            let at = all.len() - w.len() + i;
            assert(s[n + 2 + at] == all[at]);
            assert(all.skip(all.len() - w.len())[i] == all[at]);
        }
    }
    assert(piece(ws[ws.len() - 1]));
    assert(scanned(s, end + 1) == scan_step(s, scanned(s, end), end as int));
    let tokens = tokens_of(ws.drop_last()).push(token_of(w)->0);
    assert(tokens =~= tokens_of(ws));
    let span = SpanView { start: n as int, end: end + 1int, tokens };
    assert(Seq::<SpanView>::empty().push(span) =~= seq![span]);
    assert(scanned(s, end + 1) == (ScanView { spans: seq![span], ..scan_start() }));
    assert forall|i: int| end + 1 <= i < s.len() implies (#[trigger] s[i]) != '$' by {
        assert(s[i] == b[i - end - 1]);
    }
    lemma_plain_scan(s, end + 1, s.len(), seq![span]);
    let spans = filters_in(s);
    assert(spans == seq![span]);
    assert(s.subrange(0, n as int) =~= a);
    assert(s.skip(end + 1int) =~= b);
    let yes = seq![Some(answer)];
    let no = seq![None::<Seq<char>>];
    assert(rendered_upto(s, spans, yes, 0) =~= Seq::empty());
    assert(rendered_upto(s, spans, no, 0) =~= Seq::empty());
    assert(rendered_upto(s, spans, yes, 1) == Seq::<char>::empty() + s.subrange(0, n as int) + answer);
    assert(rendered_upto(s, spans, no, 1) == Seq::<char>::empty() + s.subrange(0, n as int) + s.subrange(
        n as int,
        end + 1int,
    ));
    assert(rendered(s, yes) =~= a + answer + b);
    assert(rendered(s, no) =~= s);
}

/// A quoted text is a string of what stands between its quotes; a word of letters is a name; a row of
/// digits is a number.
pub proof fn lemma_tokens(w: Seq<char>)
    requires
        w.len() > 0,
    ensures
        quoted(w) ==> token_of(w) == Some(TokenView::StringLit(w.subrange(1, w.len() - 1))),
        (forall|i: int| 0 <= i < w.len() ==> 'a' <= #[trigger] w[i] <= 'z') ==> token_of(w) == Some(
            TokenView::Identifier(w),
        ),
        (forall|i: int| 0 <= i < w.len() ==> '0' <= #[trigger] w[i] <= '9') ==> token_of(w) == Some(
            TokenView::NumberLit(w),
        ),
        (forall|i: int| 0 <= i < w.len() ==> '0' <= #[trigger] w[i] <= '9' || w[i] == ',') && '0'
            <= w[0] <= '9' && w.contains(',') ==> (token_of(w) matches Some(TokenView::NumberLit(l))
            && l.len() < w.len() && !l.contains(',')),
        w[0] == '_' && (exists|i: int| 0 <= i < w.len() && #[trigger] w[i] == '-') ==> token_of(
            w,
        ) is None,
{
    if quoted(w) {
        let t = w.subrange(1, w.len() - 1);
        assert forall|i: int| 0 <= i < t.len() implies #[trigger] t[i] != '\\' by {
            assert(t[i] == w[i + 1]);
        }
        lemma_unescaped_plain(t);
    }
    if forall|i: int| 0 <= i < w.len() ==> 'a' <= #[trigger] w[i] <= 'z' {
        assert('a' <= w[0] <= 'z');
        assert forall|i: int| 0 <= i < w.len() implies is_word(#[trigger] w[i]) by {}
    }
    if forall|i: int| 0 <= i < w.len() ==> '0' <= #[trigger] w[i] <= '9' {
        lemma_digits_number(w);
        assert('0' <= w[0] <= '9');
    }
    if (forall|i: int| 0 <= i < w.len() ==> '0' <= #[trigger] w[i] <= '9' || w[i] == ',') && '0' <= w[0]
        <= '9' && w.contains(',') {
        let plain = replaced(w, ',', Seq::empty());
        lemma_dropped(w);
        lemma_digits_number(plain);
        let k = choose|k: int| 0 <= k < w.len() && w[k] == ',';
        lemma_comma_is_no_number(w, k);
    }
    if w[0] == '_' && (exists|i: int| 0 <= i < w.len() && #[trigger] w[i] == '-') {
        let i = choose|i: int| 0 <= i < w.len() && #[trigger] w[i] == '-';
        assert(!is_word(w[i]));
    }
}

proof fn lemma_unescaped_plain(s: Seq<char>)
    requires
        forall|i: int| 0 <= i < s.len() ==> #[trigger] s[i] != '\\',
    ensures
        unescaped(s) == s,
    decreases s.len(),
{
    if s.len() > 0 {
        let t = s.skip(1);
        assert forall|i: int| 0 <= i < t.len() implies #[trigger] t[i] != '\\' by {
            assert(t[i] == s[i + 1]);
        }
        lemma_unescaped_plain(t);
        assert(s[0] != '\\');
        assert(seq![s[0]] + t =~= s);
    } else {
        assert(unescaped(s) =~= s);
    }
}

proof fn lemma_after_digits(s: Seq<char>)
    ensures
        after_digits(s).len() <= s.len(),
        (forall|i: int| 0 <= i < s.len() ==> '0' <= #[trigger] s[i] <= '9') ==> after_digits(s).len() == 0,
        after_digits(s).len() > 0 ==> !('0' <= after_digits(s)[0] <= '9'),
        forall|k: int|
            0 <= k < s.len() && !('0' <= (#[trigger] s[k]) <= '9') ==> s.len() - k <= after_digits(s).len()
                && after_digits(s)[k - s.len() + after_digits(s).len()] == s[k],
    decreases s.len(),
{
    if s.len() > 0 && is_digit(s[0]) {
        let t = s.skip(1);
        lemma_after_digits(t);
        assert forall|i: int| 0 <= i < t.len() implies #[trigger] t[i] == s[i + 1] by {}
        assert forall|k: int| 0 <= k < s.len() && !('0' <= (#[trigger] s[k]) <= '9') implies s.len() - k
            <= after_digits(s).len() && after_digits(s)[k - s.len() + after_digits(s).len()] == s[k] by {
            assert(t[k - 1] == s[k]);
        }
    }
}

proof fn lemma_digits_number(s: Seq<char>)
    requires
        s.len() > 0,
        forall|i: int| 0 <= i < s.len() ==> '0' <= #[trigger] s[i] <= '9',
    ensures
        is_number(s),
{
    lemma_after_digits(s);
    assert('0' <= s[0] <= '9');
}

proof fn lemma_comma_is_no_number(s: Seq<char>, k: int)
    requires
        0 <= k < s.len(),
        s[k] == ',',
        forall|i: int| 0 <= i < s.len() ==> '0' <= #[trigger] s[i] <= '9' || s[i] == ',',
    ensures
        !is_number(s),
{
    lemma_after_digits(s);
    let t = after_digits(s);
    lemma_after_digits_tail(s);
    assert(t[0] == ',');
}

/// What follows the leading digits is the end of the text.
proof fn lemma_after_digits_tail(s: Seq<char>)
    ensures
        after_digits(s).len() <= s.len(),
        after_digits(s) == s.skip(s.len() - after_digits(s).len()),
    decreases s.len(),
{
    if s.len() > 0 && is_digit(s[0]) {
        lemma_after_digits_tail(s.skip(1));
        assert(after_digits(s) =~= s.skip(s.len() - after_digits(s).len()));
    } else {
        assert(s.skip(0) =~= s);
    }
}

proof fn lemma_dropped(s: Seq<char>)
    ensures
        replaced(s, ',', Seq::empty()).len() <= s.len(),
        s.contains(',') ==> replaced(s, ',', Seq::empty()).len() < s.len(),
        s.len() > 0 && s[0] != ',' ==> replaced(s, ',', Seq::empty()).len() > 0,
        !replaced(s, ',', Seq::empty()).contains(','),
        (forall|i: int| 0 <= i < s.len() ==> '0' <= #[trigger] s[i] <= '9' || s[i] == ',') ==> forall|
            i: int,
        |
            0 <= i < replaced(s, ',', Seq::empty()).len() ==> '0' <= #[trigger] replaced(
                s,
                ',',
                Seq::empty(),
            )[i] <= '9',
    decreases s.len(),
{
    if s.len() > 0 {
        let t = s.drop_last();
        lemma_dropped(t);
        let r = replaced(t, ',', Seq::empty());
        let q = replaced(s, ',', Seq::empty());
        assert(s[s.len() - 1] == s.last());
        assert forall|i: int| 0 <= i < t.len() implies t[i] == #[trigger] s[i] by {}
        if s.contains(',') && s.last() != ',' {
            let k = choose|k: int| 0 <= k < s.len() && s[k] == ',';
            assert(t[k] == ',');
        }
        if s.last() == ',' {
            assert(q =~= r);
        } else {
            assert(q =~= r.push(s.last()));
            if q.contains(',') {
                let k = choose|k: int| 0 <= k < q.len() && q[k] == ',';
                assert(r[k] == ',');
                assert(r.contains(','));
            }
        }
        if s.len() > 1 {
            assert(t[0] == s[0]);
        }
        if forall|i: int| 0 <= i < s.len() ==> '0' <= #[trigger] s[i] <= '9' || s[i] == ',' {
            assert forall|i: int| 0 <= i < t.len() implies '0' <= #[trigger] t[i] <= '9' || t[i]
                == ',' by {
                assert(t[i] == s[i]);
            }
            assert forall|i: int| 0 <= i < q.len() implies '0' <= #[trigger] q[i] <= '9' by {
                if i < r.len() {
                    assert(q[i] == r[i]);
                }
            }
        }
    }
}

/// In a quoted text a backslash before a quote is dropped; every other character stays.
pub proof fn lemma_unescaped(s: Seq<char>)
    ensures
        unescaped(Seq::empty()).len() == 0,
        unescaped(seq!['\\', '\''] + s) == seq!['\''] + unescaped(s),
        forall|c: char| c != '\\' ==> #[trigger] unescaped(seq![c] + s) == seq![c] + unescaped(s),
{
    let t = seq!['\\', '\''] + s;
    assert(t[0] == '\\' && t[1] == '\'');
    assert(t.skip(2) =~= s);
    assert forall|c: char| c != '\\' implies #[trigger] unescaped(seq![c] + s) == seq![c] + unescaped(
        s,
    ) by {
        let u = seq![c] + s;
        assert(u[0] == c);
        assert(u.skip(1) =~= s);
    }
}

/// A replaced character gives way to the text wherever it stands, and nothing else changes.
pub proof fn lemma_replaced(a: Seq<char>, b: Seq<char>, c: char, with: Seq<char>)
    ensures
        replaced(a + b, c, with) == replaced(a, c, with) + replaced(b, c, with),
        replaced(seq![c], c, with) == with,
        forall|d: char| d != c ==> #[trigger] replaced(seq![d], c, with) == seq![d],
        replaced(Seq::empty(), c, with).len() == 0,
    decreases b.len(),
{
    assert(seq![c].drop_last() =~= Seq::empty());
    assert(replaced(Seq::empty(), c, with) =~= Seq::empty());
    assert(replaced(seq![c], c, with) =~= with);
    assert forall|d: char| d != c implies #[trigger] replaced(seq![d], c, with) == seq![d] by {
        assert(seq![d].drop_last() =~= Seq::empty());
        assert(replaced(seq![d], c, with) =~= seq![d]);
    }
    if b.len() == 0 {
        assert(a + b =~= a);
        assert(replaced(a + b, c, with) =~= replaced(a, c, with) + replaced(b, c, with));
    } else {
        assert((a + b).drop_last() =~= a + b.drop_last());
        lemma_replaced(a, b.drop_last(), c, with);
        assert(replaced(a + b, c, with) =~= replaced(a, c, with) + replaced(b, c, with));
    }
}

/// The built-in filters go by their names: `plural` picks the form that the number calls for and writes
/// the number in it, `ordinal` does so with the pack's own forms, and `month` is the name of the month,
/// counted from 1.
pub proof fn lemma_builtin_filters(
    number: Seq<char>,
    forms: Seq<TokenView>,
    pack: Pack,
    numbers: Seq<(String, Reading)>,
)
    ensures
        ({
            let rest = seq![TokenView::NumberLit(number)] + forms;
            let plural = answer_of(
                seq![TokenView::Identifier("plural"@)] + rest,
                builtin_table(),
                pack,
                numbers,
            );
            let ordinal = answer_of(
                seq![TokenView::Identifier("ordinal"@)] + rest,
                builtin_table(),
                pack,
                numbers,
            );
            let month = answer_of(
                seq![TokenView::Identifier("month"@)] + rest,
                builtin_table(),
                pack,
                numbers,
            );
            &&& reading_of(numbers, number) is None ==> plural is None && ordinal is None && month is None
            &&& reading_of(numbers, number) matches Some(r) ==> {
                &&& form_index(pack.plural_form, r.0) matches Some(k) ==> {
                    &&& 0 <= k < forms.len() ==> (forms[k] matches TokenView::StringLit(f) ==> plural
                        == Some(replaced(f, '$', r.1)))
                    &&& k >= forms.len() ==> plural is None
                }
                &&& form_index(pack.ordinal_form, r.0) matches Some(k) ==> {
                    &&& 0 <= k < pack.ordinal_types@.len() ==> ordinal == Some(
                        replaced(pack.ordinal_types@[k]@, '$', r.1),
                    )
                    &&& k >= pack.ordinal_types@.len() ==> ordinal is None
                }
                &&& 1 <= r.0 <= pack.months@.len() ==> month == Some(pack.months@[r.0 - 1]@)
                &&& r.0 > pack.months@.len() && r.0 > 1 ==> month is None
            }
        }),
{
    reveal_strlit("plural");
    reveal_strlit("ordinal");
    reveal_strlit("month");
    assert("plural"@.len() == 6 && "ordinal"@.len() == 7 && "month"@.len() == 5);
    let rest = seq![TokenView::NumberLit(number)] + forms;
    let p = seq![TokenView::Identifier("plural"@)] + rest;
    let o = seq![TokenView::Identifier("ordinal"@)] + rest;
    let m = seq![TokenView::Identifier("month"@)] + rest;
    assert(p[0] == TokenView::Identifier("plural"@) && p.skip(1) =~= rest);
    assert(o[0] == TokenView::Identifier("ordinal"@) && o.skip(1) =~= rest);
    assert(m[0] == TokenView::Identifier("month"@) && m.skip(1) =~= rest);
    assert(rest[0] == TokenView::NumberLit(number));
    assert(builtin_table().dom().contains("plural"@) && builtin_table()["plural"@] == Filter::Plural);
    assert(builtin_table().dom().contains("ordinal"@) && builtin_table()["ordinal"@]
        == Filter::Ordinal);
    assert(builtin_table().dom().contains("month"@) && builtin_table()["month"@] == Filter::Month);
    if let Some(r) = reading_of(numbers, number) {
        if let Some(k) = form_index(pack.plural_form, r.0) {
            if 0 <= k < forms.len() {
                assert(rest[1 + k] == forms[k]);
            }
        }
    }
}

/// A name that no filter has gives no answer, nor does an expression that begins with no name.
pub proof fn lemma_unknown_filter(
    tokens: Seq<TokenView>,
    table: Map<Seq<char>, Filter>,
    pack: Pack,
    numbers: Seq<(String, Reading)>,
)
    requires
        tokens.len() > 0 ==> (tokens[0] matches TokenView::Identifier(n) ==> !table.dom().contains(n)),
    ensures
        answer_of(tokens, table, pack, numbers) is None,
{
}

/// A literal is read as its first reading says.
pub proof fn lemma_reading_of(numbers: Seq<(String, Reading)>, l: Seq<char>, i: int)
    requires
        0 <= i < numbers.len(),
        numbers[i].0@ == l,
        forall|j: int| 0 <= j < i ==> !((#[trigger] numbers[j]).0@ == l),
    ensures
        reading_of(numbers, l) == Some((numbers[i].1.whole, numbers[i].1.shown@)),
    decreases numbers.len(),
{
    if i > 0 {
        let t = numbers.drop_first();
        assert(!(numbers[0].0@ == l));
        assert(t[i - 1] == numbers[i]);
        assert forall|j: int| 0 <= j < i - 1 implies !((#[trigger] t[j]).0@ == l) by {
            assert(t[j] == numbers[j + 1]);
        }
        lemma_reading_of(t, l, i - 1);
    }
}

/// A literal without a reading is not read.
pub proof fn lemma_no_reading(numbers: Seq<(String, Reading)>, l: Seq<char>)
    requires
        forall|j: int| 0 <= j < numbers.len() ==> !((#[trigger] numbers[j]).0@ == l),
    ensures
        reading_of(numbers, l) is None,
    decreases numbers.len(),
{
    if numbers.len() > 0 {
        let t = numbers.drop_first();
        assert(!(numbers[0].0@ == l));
        assert forall|j: int| 0 <= j < t.len() implies !((#[trigger] t[j]).0@ == l) by {
            assert(t[j] == numbers[j + 1]);
        }
        lemma_no_reading(t, l);
    }
}

/// The literals of a text are those of its expressions one after the other, in each the numbers in their
/// order.
pub proof fn lemma_literals(tokens: Seq<TokenView>, t: TokenView, spans: Seq<SpanView>, x: SpanView)
    ensures
        literals_of(Seq::empty()).len() == 0,
        t matches TokenView::NumberLit(l) ==> literals_of(tokens.push(t)) == literals_of(tokens).push(l),
        !(t is NumberLit) ==> literals_of(tokens.push(t)) == literals_of(tokens),
        literals_in(Seq::empty()).len() == 0,
        literals_in(spans.push(x)) == literals_in(spans) + literals_of(x.tokens),
{
    assert(tokens.push(t).drop_last() =~= tokens);
    assert(spans.push(x).drop_last() =~= spans);
}

/// A filter goes by the name that it was last given under.
pub proof fn lemma_table_of(filters: Seq<(&str, Filter)>, f: (&str, Filter), other: Seq<char>)
    ensures
        table_of(filters.push(f)).dom().contains(f.0@),
        table_of(filters.push(f))[f.0@] == f.1,
        other != f.0@ ==> (table_of(filters.push(f)).dom().contains(other) <==> table_of(
            filters,
        ).dom().contains(other)) && table_of(filters.push(f))[other] == table_of(filters)[other],
        !table_of(Seq::empty()).dom().contains(other),
{
    assert(filters.push(f).drop_last() =~= filters);
}

/// Erasing takes out every expression that begins with a name, and no other.
pub proof fn lemma_erasures(spans: Seq<SpanView>, k: int)
    requires
        0 <= k < spans.len(),
    ensures
        spans[k].tokens.len() > 0 && spans[k].tokens[0] is Identifier ==> (erasures(
            spans,
        )[k] matches Some(t) && t.len() == 0),
        spans[k].tokens.len() == 0 || !(spans[k].tokens[0] is Identifier) ==> erasures(spans)[k] is None,
        erasures(spans).len() == spans.len(),
{
}

/// An expression that names a filter is put to the context, with its words behind the name; any other is
/// not, and leaves the context as it is.
pub proof fn lemma_asked<C: Context>(
    before: C,
    tokens: Seq<TokenView>,
    said: Option<Seq<char>>,
    after: C,
)
    requires
        asked(before, tokens, said, after),
    ensures
        tokens.len() == 0 || !(tokens[0] is Identifier) ==> said is None && after == before,
        tokens.len() > 0 ==> (tokens[0] matches TokenView::Identifier(name) ==> before.answers(
            name,
            tokens.skip(1),
            said,
            after,
        )),
{
}

/// The words of a text are seen as they are, and so are its expressions.
pub proof fn lemma_token_views(t: Token, x: Span, s: Seq<Token>)
    ensures
        t matches Token::Identifier(n) ==> t@ == TokenView::Identifier(n@),
        t matches Token::NumberLit(n) ==> t@ == TokenView::NumberLit(n@),
        t matches Token::StringLit(n) ==> t@ == TokenView::StringLit(n@),
        x@.start == x.start && x@.end == x.end && x@.tokens == token_views(x.tokens@),
        token_views(s).len() == s.len(),
        forall|i: int| 0 <= i < s.len() ==> #[trigger] token_views(s)[i] == s[i]@,
{
}

/// A number may have a fraction and an exponent; what is none of these is no number.
pub proof fn lemma_numbers(a: Seq<char>, b: Seq<char>, c: char)
    requires
        a.len() > 0,
        b.len() > 0,
        forall|i: int| 0 <= i < a.len() ==> '0' <= #[trigger] a[i] <= '9',
        forall|i: int| 0 <= i < b.len() ==> '0' <= #[trigger] b[i] <= '9',
    ensures
        is_number(a),
        is_number(a + seq!['.'] + b),
        is_number(a + seq!['e'] + b),
        is_number(a + seq!['E'] + b),
        is_number(a + seq!['e', '-'] + b),
        !('0' <= c <= '9') && c != '.' && c != 'e' && c != 'E' ==> !is_number(a + seq![c] + b),
        !is_number(Seq::empty()),
{
    lemma_digits_number(a);
    lemma_after_run(a, seq!['.'] + b);
    lemma_after_run(a, seq!['e'] + b);
    lemma_after_run(a, seq!['E'] + b);
    lemma_after_run(a, seq!['e', '-'] + b);
    lemma_after_run(b, Seq::empty());
    assert(b + Seq::<char>::empty() =~= b);
    assert(a + seq!['.'] + b =~= a + (seq!['.'] + b));
    assert((seq!['.'] + b).skip(1) =~= b);
    assert(a + seq!['e'] + b =~= a + (seq!['e'] + b));
    assert((seq!['e'] + b).skip(1) =~= b);
    assert((seq!['e'] + b)[1] == b[0]);
    assert(a + seq!['E'] + b =~= a + (seq!['E'] + b));
    assert((seq!['E'] + b).skip(1) =~= b);
    assert((seq!['E'] + b)[1] == b[0]);
    assert(a + seq!['e', '-'] + b =~= a + (seq!['e', '-'] + b));
    assert((seq!['e', '-'] + b).skip(2) =~= b);
    assert((seq!['e', '-'] + b)[1] == '-');
    assert('0' <= a[0] <= '9');
    assert('0' <= b[0] <= '9');
    if !('0' <= c <= '9') && c != '.' && c != 'e' && c != 'E' {
        lemma_after_run(a, seq![c] + b);
        assert(a + seq![c] + b =~= a + (seq![c] + b));
        assert((seq![c] + b)[0] == c);
    }
}

proof fn lemma_after_run(a: Seq<char>, rest: Seq<char>)
    requires
        forall|i: int| 0 <= i < a.len() ==> '0' <= #[trigger] a[i] <= '9',
        rest.len() > 0 ==> !('0' <= rest[0] <= '9'),
    ensures
        after_digits(a + rest) == rest,
    decreases a.len(),
{
    let s = a + rest;
    if a.len() == 0 {
        assert(s =~= rest);
    } else {
        assert(s[0] == a[0]);
        let t = a.skip(1);
        assert(s.skip(1) =~= t + rest);
        assert forall|i: int| 0 <= i < t.len() implies '0' <= #[trigger] t[i] <= '9' by {
            assert(t[i] == a[i + 1]);
        }
        lemma_after_run(t, rest);
    }
}

/// Each expression has its own answer, in its own place.
pub proof fn lemma_answers_in_order(
    spans: Seq<SpanView>,
    table: Map<Seq<char>, Filter>,
    pack: Pack,
    numbers: Seq<(String, Reading)>,
)
    ensures
        answers_of(spans, table, pack, numbers).len() == spans.len(),
        forall|i: int|
            0 <= i < spans.len() ==> #[trigger] answers_of(spans, table, pack, numbers)[i] == answer_of(
                spans[i].tokens,
                table,
                pack,
                numbers,
            ),
        merged(spans, answers_of(spans, table, pack, numbers), table, pack, numbers) == answers_of(
            spans,
            table,
            pack,
            numbers,
        ),
{
    assert(merged(spans, answers_of(spans, table, pack, numbers), table, pack, numbers) =~= answers_of(
        spans,
        table,
        pack,
        numbers,
    ));
}

/// Between two expressions the text stays; each expression gives way to its answer, or stays where it has
/// none.
pub proof fn lemma_rendered_piecewise(
    s: Seq<char>,
    spans: Seq<SpanView>,
    answers: Seq<Option<Seq<char>>>,
    n: nat,
)
    requires
        spans_ok(spans, s.len() as int),
        answers.len() == spans.len(),
        n < spans.len(),
    ensures
        ({
            let from = if n == 0 {
                0
            } else {
                spans[n - 1].end
            };
            rendered_upto(s, spans, answers, n + 1) == rendered_upto(s, spans, answers, n) + s.subrange(
                from,
                spans[n as int].start,
            ) + if answers[n as int] is Some {
                answers[n as int]->0
            } else {
                s.subrange(spans[n as int].start, spans[n as int].end)
            }
        }),
        rendered_upto(s, spans, answers, 0).len() == 0,
{
}

} // verus!
