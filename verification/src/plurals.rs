//! Plural-forms expressions in the manner of gettext: a C-style expression in `n` whose value is
//! the index of the form to use.
//!
//! There is no operator precedence beyond the order in which operators are looked for: an
//! expression is split at the first operator, in that order, which stands outside parentheses.

use vstd::prelude::*;

use crate::text::{chars_of, string_of};

verus! {

/// A malformed plural-forms expression. Callers fall back to form 0.
pub type PErr = &'static str;

/// How the index of a plural form is found.
#[derive(Debug)]
pub enum Resolver {
    /// By the value of an expression.
    Expr(Ast),
    /// The first form, always.
    First,
}

/// An expression in `n`.
#[derive(Debug)]
pub enum Ast {
    /// `x ? a : b`
    Ternary(Box<Ast>, Box<Ast>, Box<Ast>),
    /// The variable `n`.
    N,
    Integer(u64),
    Op(Operator, Box<Ast>, Box<Ast>),
    Not(Box<Ast>),
}

/// A binary operator.
#[derive(Clone, Copy, PartialEq, Eq, Structural, Debug)]
pub enum Operator {
    Equal,
    NotEqual,
    GreaterOrEqual,
    SmallerOrEqual,
    Greater,
    Smaller,
    And,
    Or,
    Plus,
    Minus,
    Divide,
    Multiply,
    Modulo,
}

/// A number in a `usize`, where it fits.
pub open spec fn fits(v: int) -> Option<int> {
    if 0 <= v <= usize::MAX {
        Some(v)
    } else {
        None
    }
}

/// A truth value as a number.
pub open spec fn truth(b: bool) -> Option<int> {
    Some(
        if b {
            1
        } else {
            0
        },
    )
}

/// The value of a binary operation on numbers; `None` where it overflows or divides by 0.
pub open spec fn apply(op: Operator, a: int, b: int) -> Option<int> {
    match op {
        Operator::Equal => truth(a == b),
        Operator::NotEqual => truth(a != b),
        Operator::GreaterOrEqual => truth(a >= b),
        Operator::SmallerOrEqual => truth(a <= b),
        Operator::Greater => truth(a > b),
        Operator::Smaller => truth(a < b),
        Operator::And => truth(a != 0 && b != 0),
        Operator::Or => truth(a != 0 || b != 0),
        Operator::Plus => fits(a + b),
        Operator::Minus => fits(a - b),
        Operator::Divide => if b == 0 {
            None
        } else {
            Some(a / b)
        },
        Operator::Multiply => fits(a * b),
        Operator::Modulo => if b == 0 {
            None
        } else {
            Some(a % b)
        },
    }
}

/// The value of an expression at `n`; `None` where it has none. The right side of `&&` and `||`,
/// and the branches of a conditional, count only where they are needed.
pub open spec fn value(e: Ast, n: u64) -> Option<int>
    decreases e,
{
    match e {
        Ast::N => Some((n as usize) as int),
        Ast::Integer(x) => Some((x as usize) as int),
        Ast::Not(v) => match value(*v, n) {
            Some(x) => truth(x == 0),
            None => None,
        },
        Ast::Ternary(cond, yes, no) => match value(*cond, n) {
            Some(x) => if x == 0 {
                value(*no, n)
            } else {
                value(*yes, n)
            },
            None => None,
        },
        Ast::Op(op, lhs, rhs) => match value(*lhs, n) {
            None => None,
            Some(a) => if op == Operator::And && a == 0 {
                Some(0)
            } else if op == Operator::Or && a != 0 {
                Some(1)
            } else {
                match value(*rhs, n) {
                    Some(b) => apply(op, a, b),
                    None => None,
                }
            },
        },
    }
}

/// The form index at `n`, where there is one.
pub open spec fn form_index(r: Resolver, n: u64) -> Option<int> {
    match r {
        Resolver::Expr(e) => value(e, n),
        Resolver::First => Some(0),
    }
}

/// The form that is used: the one found, or else the first.
pub open spec fn or_first(found: Option<int>) -> int {
    match found {
        Some(k) => k,
        None => 0,
    }
}

/// The value of a binary operation on numbers.
fn apply_op(op: Operator, a: usize, b: usize) -> (r: Option<usize>)
    ensures
        (match r {
            Some(v) => Some(v as int),
            None => None,
        }) == apply(op, a as int, b as int),
{
    let yes: bool = match op {
        Operator::Plus => {
            return a.checked_add(b);
        },
        Operator::Minus => {
            return a.checked_sub(b);
        },
        Operator::Divide => {
            return if b == 0 {
                None
            } else {
                Some(a / b)
            };
        },
        Operator::Multiply => {
            return a.checked_mul(b);
        },
        Operator::Modulo => {
            return if b == 0 {
                None
            } else {
                Some(a % b)
            };
        },
        Operator::Equal => a == b,
        Operator::NotEqual => a != b,
        Operator::GreaterOrEqual => a >= b,
        Operator::SmallerOrEqual => a <= b,
        Operator::Greater => a > b,
        Operator::Smaller => a < b,
        Operator::And => a != 0 && b != 0,
        Operator::Or => a != 0 || b != 0,
    };
    if yes {
        Some(1)
    } else {
        Some(0)
    }
}

impl Ast {
    /// The value at `n`; `None` where the expression overflows or divides by 0 there.
    pub fn try_resolve(&self, n: u64) -> (r: Option<usize>)
        ensures
            (match r {
                Some(v) => Some(v as int),
                None => None,
            }) == value(*self, n),
        decreases self,
    {
        match self {
            Ast::N => Some(n as usize),
            Ast::Integer(x) => Some(*x as usize),
            Ast::Not(v) => match v.try_resolve(n) {
                Some(x) => if x == 0 {
                    Some(1)
                } else {
                    Some(0)
                },
                None => None,
            },
            Ast::Ternary(cond, yes, no) => match cond.try_resolve(n) {
                Some(x) => if x == 0 {
                    no.try_resolve(n)
                } else {
                    yes.try_resolve(n)
                },
                None => None,
            },
            Ast::Op(op, lhs, rhs) => match lhs.try_resolve(n) {
                None => None,
                Some(a) => {
                    if *op == Operator::And && a == 0 {
                        return Some(0);
                    }
                    if *op == Operator::Or && a != 0 {
                        return Some(1);
                    }
                    match rhs.try_resolve(n) {
                        Some(b) => apply_op(*op, a, b),
                        None => None,
                    }
                },
            },
        }
    }

    /// The value at `n`; 0 where the expression has none.
    pub fn resolve(&self, n: u64) -> (r: usize)
        ensures
            r == or_first(value(*self, n)),
    {
        match self.try_resolve(n) {
            Some(v) => v,
            None => 0,
        }
    }
}

impl Default for Resolver {
    fn default() -> (r: Self)
        ensures
            r == Resolver::First,
    {
        Resolver::First
    }
}

impl Resolver {
    /// The plural-form index for `n` objects; `None` where the expression has no value there.
    pub fn try_resolve(&self, n: u64) -> (r: Option<usize>)
        ensures
            (match r {
                Some(v) => Some(v as int),
                None => None,
            }) == form_index(*self, n),
    {
        match self {
            Resolver::Expr(e) => e.try_resolve(n),
            Resolver::First => Some(0),
        }
    }

    /// The plural-form index for `n` objects; the first form where the expression has no value there.
    pub fn resolve(&self, n: u64) -> (r: usize)
        ensures
            r == or_first(form_index(*self, n)),
    {
        match self {
            Resolver::Expr(e) => e.resolve(n),
            Resolver::First => 0,
        }
    }
}

/// Whether a character is white space: one with the Unicode property of that name.
pub open spec fn is_white(c: char) -> bool {
    let u = c as u32;
    0x09 <= u <= 0x0d || u == 0x20 || u == 0x85 || u == 0xa0 || u == 0x1680 || 0x2000 <= u <= 0x200a
        || u == 0x2028 || u == 0x2029 || u == 0x202f || u == 0x205f || u == 0x3000
}

/// A text without the white space at its start.
pub open spec fn trim_start(s: Seq<char>) -> Seq<char>
    decreases s.len(),
{
    if s.len() > 0 && is_white(s[0]) {
        trim_start(s.drop_first())
    } else {
        s
    }
}

/// A text without the white space at its end.
pub open spec fn trim_end(s: Seq<char>) -> Seq<char>
    decreases s.len(),
{
    if s.len() > 0 && is_white(s.last()) {
        trim_end(s.drop_last())
    } else {
        s
    }
}

/// A text without the white space around it.
pub open spec fn trimmed(s: Seq<char>) -> Seq<char> {
    trim_end(trim_start(s))
}

/// The parenthesis level behind a character.
pub open spec fn level_after(c: char, level: int) -> int {
    if c == '(' {
        level + 1
    } else if c == ')' {
        level - 1
    } else {
        level
    }
}

/// How many parentheses are open behind the first `i` characters.
pub open spec fn depth(s: Seq<char>, i: int) -> int
    decreases i,
{
    if i <= 0 {
        0
    } else {
        level_after(s[i - 1], depth(s, i - 1))
    }
}

/// Whether `pat` stands at `k`, outside parentheses.
pub open spec fn stands(s: Seq<char>, pat: Seq<char>, k: int) -> bool {
    0 <= k && k + pat.len() <= s.len() && s.subrange(k, k + pat.len()) == pat && depth(s, k) == 0
}

/// Whether `k` is the first place outside parentheses where `pat` stands.
pub open spec fn first_at(s: Seq<char>, pat: Seq<char>, k: int) -> bool {
    stands(s, pat, k) && forall|j: int| 0 <= j < k ==> !#[trigger] stands(s, pat, j)
}

/// The first place outside parentheses where `pat` stands, if it stands at any.
pub open spec fn found_at(s: Seq<char>, pat: Seq<char>) -> Option<int> {
    if exists|k: int| #[trigger] first_at(s, pat, k) {
        Some(choose|k: int| #[trigger] first_at(s, pat, k))
    } else {
        None
    }
}

/// What is found is the first place where the pattern stands outside parentheses, and nothing is found
/// exactly where there is no such place.
pub proof fn lemma_found(s: Seq<char>, pat: Seq<char>)
    ensures
        found_at(s, pat) matches Some(k) ==> first_at(s, pat, k) && 0 <= k && k + pat.len()
            <= s.len(),
        found_at(s, pat) is None <==> forall|j: int| !#[trigger] stands(s, pat, j),
        forall|k: int| #[trigger] first_at(s, pat, k) ==> found_at(s, pat) == Some(k),
{
    if exists|j: int| #[trigger] stands(s, pat, j) {
        let j = choose|j: int| #[trigger] stands(s, pat, j);
        lemma_first_exists(s, pat, j);
    }
    assert forall|k: int| #[trigger] first_at(s, pat, k) implies found_at(s, pat) == Some(k) by {
        let c = choose|c: int| #[trigger] first_at(s, pat, c);
        assert(first_at(s, pat, c));
        if c < k {
            assert(!stands(s, pat, c));
        }
        if k < c {
            assert(!stands(s, pat, k));
        }
    }
}

/// Where a pattern stands at all, it stands somewhere first.
proof fn lemma_first_exists(s: Seq<char>, pat: Seq<char>, j: int)
    requires
        stands(s, pat, j),
    ensures
        exists|k: int| #[trigger] first_at(s, pat, k),
    decreases j,
{
    if !first_at(s, pat, j) {
        let i = choose|i: int| 0 <= i < j && #[trigger] stands(s, pat, i);
        lemma_first_exists(s, pat, i);
    }
}

/// Whether a text stands in parentheses: the parenthesis that opens it is closed by its last character.
pub open spec fn enclosed(t: Seq<char>) -> bool {
    t.len() >= 2 && t[0] == '(' && t.last() == ')' && forall|i: int|
        0 < i < t.len() ==> #[trigger] depth(t, i) >= 1
}

/// How many operators are looked for, in order.
pub const SPLITS: usize = 14;

/// Which place among them the conditional has.
pub const TERNARY: usize = 2;

/// The `k`-th operator that is looked for.
pub open spec fn symbol(k: int) -> Seq<char> {
    if k == 0 {
        seq!['&', '&']
    } else if k == 1 {
        seq!['|', '|']
    } else if k == TERNARY {
        seq!['?']
    } else if k == 3 {
        seq!['>', '=']
    } else if k == 4 {
        seq!['>']
    } else if k == 5 {
        seq!['<', '=']
    } else if k == 6 {
        seq!['<']
    } else if k == 7 {
        seq!['=', '=']
    } else if k == 8 {
        seq!['!', '=']
    } else if k == 9 {
        seq!['+']
    } else if k == 10 {
        seq!['-']
    } else if k == 11 {
        seq!['/']
    } else if k == 12 {
        seq!['*']
    } else {
        seq!['%']
    }
}

/// What the `k`-th operator means.
pub open spec fn meaning(k: int) -> Operator {
    if k == 0 {
        Operator::And
    } else if k == 1 {
        Operator::Or
    } else if k == 3 {
        Operator::GreaterOrEqual
    } else if k == 4 {
        Operator::Greater
    } else if k == 5 {
        Operator::SmallerOrEqual
    } else if k == 6 {
        Operator::Smaller
    } else if k == 7 {
        Operator::Equal
    } else if k == 8 {
        Operator::NotEqual
    } else if k == 9 {
        Operator::Plus
    } else if k == 10 {
        Operator::Minus
    } else if k == 11 {
        Operator::Divide
    } else if k == 12 {
        Operator::Multiply
    } else {
        Operator::Modulo
    }
}

/// Whether a text is a row of decimal digits.
pub open spec fn all_digits(s: Seq<char>) -> bool {
    s.len() > 0 && forall|i: int| 0 <= i < s.len() ==> '0' <= #[trigger] s[i] <= '9'
}

/// The number that a row of digits spells.
pub open spec fn number(s: Seq<char>) -> nat
    decreases s.len(),
{
    if s.len() == 0 {
        0
    } else {
        number(s.drop_last()) * 10 + ((s.last() as u32) - ('0' as u32)) as nat
    }
}

/// An operand: a number, or the variable.
pub open spec fn operand(s: Seq<char>) -> Option<Ast> {
    if all_digits(s) && number(s) <= u64::MAX {
        Some(Ast::Integer(number(s) as u64))
    } else if s =~= seq!['n'] {
        Some(Ast::N)
    } else {
        None
    }
}

/// The expression that a text spells, if it spells one.
pub open spec fn parsed(s: Seq<char>) -> Option<Ast>
    decreases s.len(), SPLITS + 2,
{
    let t = trimmed(s);
    proof {
        lemma_trim_len(s);
    }
    if enclosed(t) {
        parsed(t.subrange(1, t.len() - 1))
    } else {
        split_from(t, 0)
    }
}

/// The expression that a text spells, looked at for the `k`-th operator and those behind it.
pub open spec fn split_from(t: Seq<char>, k: nat) -> Option<Ast>
    decreases t.len(), SPLITS + 1 - k,
{
    if k > SPLITS {
        None
    } else if k == SPLITS {
        if found_at(t, seq!['!']) == Some(0int) && t.len() > 0 {
            match parsed(t.skip(1)) {
                Some(e) => Some(Ast::Not(Box::new(e))),
                None => None,
            }
        } else {
            operand(t)
        }
    } else {
        match found_at(t, symbol(k as int)) {
            None => split_from(t, k + 1),
            Some(i) => {
                let w = symbol(k as int).len() as int;
                proof {
                    lemma_found(t, symbol(k as int));
                    lemma_found(t, seq![':']);
                }
                if k == TERNARY {
                    match found_at(t, seq![':']) {
                        Some(l) if i < l => match (
                            parsed(t.take(i)),
                            parsed(t.subrange(i + 1, l)),
                            parsed(t.skip(l + 1)),
                        ) {
                            (Some(c), Some(y), Some(n)) => Some(
                                Ast::Ternary(Box::new(c), Box::new(y), Box::new(n)),
                            ),
                            _ => None,
                        },
                        _ => None,
                    }
                } else {
                    match (parsed(t.take(i)), parsed(t.skip(i + w))) {
                        (Some(a), Some(b)) => Some(
                            Ast::Op(meaning(k as int), Box::new(a), Box::new(b)),
                        ),
                        _ => None,
                    }
                }
            },
        }
    }
}

/// Trimming does not lengthen a text.
pub proof fn lemma_trim_len(s: Seq<char>)
    ensures
        trimmed(s).len() <= s.len(),
{
    lemma_trim_start_len(s);
    lemma_trim_end_len(trim_start(s));
}

proof fn lemma_trim_start_len(s: Seq<char>)
    ensures
        trim_start(s).len() <= s.len(),
        trim_start(s).len() > 0 ==> !is_white(trim_start(s)[0]),
    decreases s.len(),
{
    if s.len() > 0 && is_white(s[0]) {
        lemma_trim_start_len(s.drop_first());
    }
}

proof fn lemma_trim_end_len(s: Seq<char>)
    ensures
        trim_end(s).len() <= s.len(),
        trim_end(s).len() > 0 ==> !is_white(trim_end(s).last()) && trim_end(s)[0] == s[0],
    decreases s.len(),
{
    if s.len() > 0 && is_white(s.last()) {
        lemma_trim_end_len(s.drop_last());
    }
}

/// Whether a character is white space.
fn white(c: char) -> (r: bool)
    ensures
        r == is_white(c),
{
    let u: u32 = c as u32;
    (0x09 <= u && u <= 0x0d) || u == 0x20 || u == 0x85 || u == 0xa0 || u == 0x1680 || (0x2000 <= u
        && u <= 0x200a) || u == 0x2028 || u == 0x2029 || u == 0x202f || u == 0x205f || u == 0x3000
}

/// A text without the white space around it.
pub fn trim(s: &str) -> (r: String)
    ensures
        r@ == trimmed(s@),
{
    let cs: Vec<char> = chars_of(s);
    let n: usize = cs.len();
    let b: (usize, usize) = trim_range(&cs, 0, n);
    assert(cs@.subrange(0, n as int) =~= cs@);
    string_of(&cs, b.0, b.1)
}

/// The bounds of a range without the white space around it.
pub(crate) fn trim_range(src: &Vec<char>, from: usize, to: usize) -> (r: (usize, usize))
    requires
        from <= to <= src.len(),
    ensures
        from <= r.0 <= r.1 <= to,
        src@.subrange(r.0 as int, r.1 as int) == trimmed(src@.subrange(from as int, to as int)),
{
    let ghost whole = src@.subrange(from as int, to as int);
    let mut a: usize = from;
    while a < to && white(src[a])
        invariant
            from <= a <= to <= src.len(),
            whole == src@.subrange(from as int, to as int),
            trim_start(whole) == trim_start(src@.subrange(a as int, to as int)),
        decreases to - a,
    {
        assert(src@.subrange(a as int, to as int).drop_first() =~= src@.subrange(
            a as int + 1,
            to as int,
        ));
        a = a + 1;
    }
    assert(trim_start(whole) == src@.subrange(a as int, to as int));
    let mut b: usize = to;
    while b > a && white(src[b - 1])
        invariant
            from <= a <= b <= to <= src.len(),
            trim_end(trim_start(whole)) == trim_end(src@.subrange(a as int, b as int)),
        decreases b,
    {
        assert(src@.subrange(a as int, b as int).drop_last() =~= src@.subrange(
            a as int,
            b as int - 1,
        ));
        b = b - 1;
    }
    (a, b)
}

/// Whether a symbol of one or two characters stands at a place.
fn stands_at(src: &Vec<char>, at: usize, to: usize, pat: &Vec<char>) -> (r: bool)
    requires
        at < to <= src.len(),
        1 <= pat.len() <= 2,
    ensures
        r == (at + pat.len() <= to && src@.subrange(at as int, at + pat.len()) == pat@),
{
    if pat.len() > to - at {
        return false;
    }
    let ghost part = src@.subrange(at as int, at + pat.len());
    assert(part[0] == src@[at as int]);
    if src[at] != pat[0] {
        return false;
    }
    if pat.len() == 2 {
        assert(part[1] == src@[at + 1]);
        if src[at + 1] != pat[1] {
            return false;
        }
    }
    assert(part =~= pat@);
    true
}

/// The first place outside parentheses where a symbol of one or two characters stands, counted from
/// `from`.
fn index_of(src: &Vec<char>, from: usize, to: usize, pat: &Vec<char>) -> (r: Option<usize>)
    requires
        from <= to <= src.len(),
        1 <= pat.len() <= 2,
    ensures
        ({
            let s = src@.subrange(from as int, to as int);
            match r {
                Some(k) => first_at(s, pat@, k as int),
                None => forall|j: int| !#[trigger] stands(s, pat@, j),
            }
        }),
        (match r {
            Some(k) => Some(k as int),
            None => None,
        }) == found_at(src@.subrange(from as int, to as int), pat@),
{
    let ghost s = src@.subrange(from as int, to as int);
    proof {
        lemma_found(s, pat@);
    }
    let mut i: usize = 0;
    let mut level: i128 = 0;
    while i < to - from
        invariant
            from <= to <= src.len(),
            s == src@.subrange(from as int, to as int),
            i <= to - from,
            1 <= pat.len() <= 2,
            -(i as int) <= level <= i,
            level == depth(s, i as int),
            forall|j: int| 0 <= j < i ==> !#[trigger] stands(s, pat@, j),
            forall|k: int| #[trigger] first_at(s, pat@, k) ==> found_at(s, pat@) == Some(k),
        decreases to - from - i,
    {
        let here: bool = stands_at(src, from + i, to, pat);
        proof {
            if i + pat.len() <= s.len() {
                assert(s.subrange(i as int, i + pat.len()) =~= src@.subrange(
                    from + i,
                    from + i + pat.len(),
                ));
            }
        }
        if level == 0 && here {
            assert(stands(s, pat@, i as int));
            assert(first_at(s, pat@, i as int));
            return Some(i);
        }
        assert(!stands(s, pat@, i as int));
        let c: char = src[from + i];
        assert(s[i as int] == c);
        if c == '(' {
            level = level + 1;
        } else if c == ')' {
            level = level - 1;
        }
        i = i + 1;
    }
    None
}

/// Whether a range stands in parentheses.
fn is_enclosed(src: &Vec<char>, from: usize, to: usize) -> (r: bool)
    requires
        from <= to <= src.len(),
    ensures
        r == enclosed(src@.subrange(from as int, to as int)),
{
    let ghost t = src@.subrange(from as int, to as int);
    if to - from < 2 {
        return false;
    }
    assert(t[0] == src@[from as int]);
    assert(t.last() == src@[to - 1]);
    if src[from] != '(' || src[to - 1] != ')' {
        return false;
    }
    let mut level: i128 = 0;
    let mut i: usize = 0;
    while i < to - from - 1
        invariant
            from + 2 <= to <= src.len(),
            t == src@.subrange(from as int, to as int),
            i <= to - from - 1,
            -(i as int) <= level <= i,
            level == depth(t, i as int),
            forall|j: int| 0 < j <= i ==> #[trigger] depth(t, j) >= 1,
        decreases to - from - i,
    {
        let c: char = src[from + i];
        assert(t[i as int] == c);
        if c == '(' {
            level = level + 1;
        } else if c == ')' {
            level = level - 1;
        }
        i = i + 1;
        assert(level == depth(t, i as int));
        if level < 1 {
            return false;
        }
    }
    true
}

/// The `k`-th operator that is looked for.
fn symbol_of(k: usize) -> (r: Vec<char>)
    requires
        k < SPLITS,
    ensures
        r@ == symbol(k as int),
        1 <= r.len() <= 2,
{
    let r: Vec<char> = match k {
        0 => vec!['&', '&'],
        1 => vec!['|', '|'],
        2 => vec!['?'],
        3 => vec!['>', '='],
        4 => vec!['>'],
        5 => vec!['<', '='],
        6 => vec!['<'],
        7 => vec!['=', '='],
        8 => vec!['!', '='],
        9 => vec!['+'],
        10 => vec!['-'],
        11 => vec!['/'],
        12 => vec!['*'],
        _ => vec!['%'],
    };
    assert(r@ =~= symbol(k as int));
    r
}

/// What the `k`-th operator means.
fn meaning_of(k: usize) -> (r: Operator)
    requires
        k < SPLITS,
    ensures
        r == meaning(k as int),
{
    match k {
        0 => Operator::And,
        1 => Operator::Or,
        3 => Operator::GreaterOrEqual,
        4 => Operator::Greater,
        5 => Operator::SmallerOrEqual,
        6 => Operator::Smaller,
        7 => Operator::Equal,
        8 => Operator::NotEqual,
        9 => Operator::Plus,
        10 => Operator::Minus,
        11 => Operator::Divide,
        12 => Operator::Multiply,
        _ => Operator::Modulo,
    }
}

/// More digits do not make a smaller number.
proof fn lemma_number_grows(s: Seq<char>, i: int)
    requires
        0 <= i <= s.len(),
        all_digits(s),
    ensures
        number(s.take(i)) <= number(s),
    decreases s.len() - i,
{
    if i < s.len() {
        assert(s.take(i + 1).drop_last() =~= s.take(i));
        lemma_number_grows(s, i + 1);
    } else {
        assert(s.take(i) =~= s);
    }
}

/// The number that a range spells, where it is one and fits.
fn read_number(src: &Vec<char>, from: usize, to: usize) -> (r: Option<u64>)
    requires
        from <= to <= src.len(),
    ensures
        ({
            let s = src@.subrange(from as int, to as int);
            match r {
                Some(v) => all_digits(s) && number(s) == v,
                None => !(all_digits(s) && number(s) <= u64::MAX),
            }
        }),
{
    let ghost s = src@.subrange(from as int, to as int);
    if from == to {
        return None;
    }
    let mut v: u64 = 0;
    let mut i: usize = 0;
    assert(s.take(0) =~= Seq::empty());
    while i < to - from
        invariant
            from < to <= src.len(),
            s == src@.subrange(from as int, to as int),
            i <= to - from,
            forall|j: int| 0 <= j < i ==> '0' <= #[trigger] s[j] <= '9',
            v == number(s.take(i as int)),
        decreases to - from - i,
    {
        let c: char = src[from + i];
        assert(s[i as int] == c);
        if c < '0' || c > '9' {
            return None;
        }
        let d: u64 = (c as u32 - '0' as u32) as u64;
        assert(s.take(i as int + 1).drop_last() =~= s.take(i as int));
        assert(s.take(i as int + 1).last() == c);
        if v > (0xffff_ffff_ffff_ffffu64 - d) / 10 {
            proof {
                if all_digits(s) {
                    assert(number(s.take(i as int + 1)) > u64::MAX);
                    lemma_number_grows(s, i as int + 1);
                }
            }
            return None;
        }
        v = v * 10 + d;
        i = i + 1;
    }
    assert(s.take(i as int) =~= s);
    Some(v)
}

/// Parse a range.
fn parse_range(src: &Vec<char>, from: usize, to: usize) -> (r: Option<Ast>)
    requires
        from <= to <= src.len(),
    ensures
        r == parsed(src@.subrange(from as int, to as int)),
    decreases to - from, SPLITS + 2,
{
    let (a, b) = trim_range(src, from, to);
    let ghost t = src@.subrange(a as int, b as int);
    if is_enclosed(src, a, b) {
        assert(src@.subrange(a as int + 1, b as int - 1) =~= t.subrange(1, t.len() - 1));
        return parse_range(src, a + 1, b - 1);
    }
    parse_split(src, a, b, 0)
}

/// Parse a range, looked at for the `k`-th operator and those behind it.
fn parse_split(src: &Vec<char>, a: usize, b: usize, k: usize) -> (r: Option<Ast>)
    requires
        a <= b <= src.len(),
        k <= SPLITS,
    ensures
        r == split_from(src@.subrange(a as int, b as int), k as nat),
    decreases b - a, SPLITS + 1 - k,
{
    let ghost t = src@.subrange(a as int, b as int);
    if k == SPLITS {
        let bang: Vec<char> = vec!['!'];
        assert(bang@ =~= seq!['!']);
        if a < b && index_of(src, a, b, &bang) == Some(0usize) {
            assert(t.skip(1) =~= src@.subrange(a as int + 1, b as int));
            return match parse_range(src, a + 1, b) {
                Some(e) => Some(Ast::Not(Box::new(e))),
                None => None,
            };
        }
        if let Some(v) = read_number(src, a, b) {
            return Some(Ast::Integer(v));
        }
        if b - a == 1 && src[a] == 'n' {
            assert(t =~= seq!['n']);
            return Some(Ast::N);
        }
        return None;
    }
    let pat = symbol_of(k);
    match index_of(src, a, b, &pat) {
        None => parse_split(src, a, b, k + 1),
        Some(i) => {
            assert(t.take(i as int) =~= src@.subrange(a as int, a + i));
            if k == TERNARY {
                let colon: Vec<char> = vec![':'];
                assert(colon@ =~= seq![':']);
                match index_of(src, a, b, &colon) {
                    None => None,
                    Some(l) => {
                        if l <= i {
                            return None;
                        }
                        assert(t.subrange(i as int + 1, l as int) =~= src@.subrange(
                            a + i + 1,
                            a + l,
                        ));
                        assert(t.skip(l as int + 1) =~= src@.subrange(a + l + 1, b as int));
                        let c = parse_range(src, a, a + i);
                        let y = parse_range(src, a + i + 1, a + l);
                        let n = parse_range(src, a + l + 1, b);
                        match (c, y, n) {
                            (Some(c), Some(y), Some(n)) => Some(
                                Ast::Ternary(Box::new(c), Box::new(y), Box::new(n)),
                            ),
                            _ => None,
                        }
                    },
                }
            } else {
                let w: usize = pat.len();
                assert(t.skip(i + w) =~= src@.subrange(a + i + w, b as int));
                let x = parse_range(src, a, a + i);
                let y = parse_range(src, a + i + w, b);
                match (x, y) {
                    (Some(x), Some(y)) => Some(
                        Ast::Op(meaning_of(k), Box::new(x), Box::new(y)),
                    ),
                    _ => None,
                }
            }
        },
    }
}

impl Ast {
    /// Parse an expression. Anything malformed is an error.
    pub fn parse(src: &str) -> (r: Result<Ast, PErr>)
        ensures
            (match r {
                Ok(e) => parsed(src@) == Some(e),
                Err(m) => parsed(src@) is None && m@ == "plural parse error"@,
            }),
    {
        let chars = chars_of(src);
        assert(chars@.subrange(0, chars@.len() as int) =~= src@);
        match parse_range(&chars, 0, chars.len()) {
            Some(e) => Ok(e),
            None => Err("plural parse error"),
        }
    }
}

/// Trimming twice is trimming once.
pub proof fn lemma_trim_idempotent(s: Seq<char>)
    ensures
        trimmed(trimmed(s)) == trimmed(s),
{
    lemma_trim_start_len(s);
    lemma_trim_end_len(trim_start(s));
    let t = trimmed(s);
    assert(trim_start(t) == t);
    lemma_trim_end_stays(trim_start(s));
}

proof fn lemma_trim_end_stays(s: Seq<char>)
    ensures
        trim_end(trim_end(s)) == trim_end(s),
    decreases s.len(),
{
    lemma_trim_end_len(s);
}

/// White space around an expression does not matter.
pub proof fn lemma_parse_ignores_white_space(s: Seq<char>)
    ensures
        parsed(trimmed(s)) == parsed(s),
{
    lemma_trim_idempotent(s);
}

/// Parentheses around an expression that closes no parenthesis which it did not open do not change its
/// meaning.
pub proof fn lemma_parse_ignores_parentheses(e: Seq<char>)
    requires
        forall|i: int| 0 <= i <= e.len() ==> #[trigger] depth(e, i) >= 0,
    ensures
        parsed(seq!['('] + e + seq![')']) == parsed(e),
{
    let s = seq!['('] + e + seq![')'];
    assert(trim_start(s) == s);
    assert(trim_end(s) == s);
    assert forall|i: int| 0 < i < s.len() implies #[trigger] depth(s, i) >= 1 by {
        lemma_depth_inside(e, i - 1);
    }
    assert(s.subrange(1, s.len() - 1) =~= e);
}

/// Behind an opening parenthesis one more is open.
proof fn lemma_depth_inside(e: Seq<char>, i: int)
    requires
        0 <= i <= e.len(),
    ensures
        depth(seq!['('] + e + seq![')'], i + 1) == depth(e, i) + 1,
    decreases i,
{
    let s = seq!['('] + e + seq![')'];
    if i == 0 {
        assert(s[0] == '(');
        assert(depth(s, 0) == 0);
    } else {
        lemma_depth_inside(e, i - 1);
        assert(s[i] == e[i - 1]);
    }
}

/// A comparison, a conjunction, a disjunction and a negation have no value but 0 and 1.
pub proof fn lemma_truth_values(op: Operator, lhs: Ast, rhs: Ast, n: u64)
    requires
        !(op is Plus || op is Minus || op is Divide || op is Multiply || op is Modulo),
    ensures
        value(Ast::Op(op, Box::new(lhs), Box::new(rhs)), n) matches Some(v) ==> v == 0 || v == 1,
        value(Ast::Not(Box::new(lhs)), n) matches Some(v) ==> v == 0 || v == 1,
{
}

/// Without an expression every number takes form 0.
pub proof fn lemma_default_is_first_form(n: u64)
    ensures
        form_index(Resolver::First, n) == Some(0int),
{
}

/// Whether a symbol of one or two characters stands at `k`, parentheses aside.
spec fn symbol_at(s: Seq<char>, pat: Seq<char>, k: int) -> bool {
    k + pat.len() <= s.len() && s[k] == pat[0] && (pat.len() == 2 ==> s[k + 1] == pat[1])
}

/// The first place from `k` on, `level` parentheses being open there, where a symbol stands outside
/// parentheses.
spec fn scan(s: Seq<char>, pat: Seq<char>, k: int, level: int) -> Option<int>
    decreases s.len() - k,
{
    if k < 0 || k >= s.len() {
        None
    } else if level == 0 && symbol_at(s, pat, k) {
        Some(k)
    } else {
        scan(s, pat, k + 1, level_after(s[k], level))
    }
}

/// Walking a text finds the first place where a symbol stands.
proof fn lemma_scan(s: Seq<char>, pat: Seq<char>, k: int)
    requires
        1 <= pat.len() <= 2,
        0 <= k <= s.len(),
        forall|j: int| 0 <= j < k ==> !#[trigger] stands(s, pat, j),
    ensures
        found_at(s, pat) == scan(s, pat, k, depth(s, k)),
    decreases s.len() - k,
{
    lemma_found(s, pat);
    if k < s.len() {
        if k + pat.len() <= s.len() {
            let part = s.subrange(k, k + pat.len());
            assert(part[0] == s[k]);
            if pat.len() == 2 {
                assert(part[1] == s[k + 1]);
            }
            if symbol_at(s, pat, k) {
                assert(part =~= pat);
            }
        }
        if stands(s, pat, k) {
            assert(first_at(s, pat, k));
        } else {
            lemma_scan(s, pat, k + 1);
        }
    }
}

/// The parentheses that are open behind the characters from `i` up to `n`, `level` being open at `i`:
/// whether some always are.
spec fn stays_open(t: Seq<char>, i: int, n: int, level: int) -> bool
    decreases n - i,
{
    i >= n || level_after(t[i], level) >= 1 && stays_open(t, i + 1, n, level_after(t[i], level))
}

/// Walking a text tells whether it stands in parentheses.
proof fn lemma_stays_open(t: Seq<char>, i: int, n: int)
    requires
        0 <= i <= n,
    ensures
        stays_open(t, i, n, depth(t, i)) <==> forall|j: int| i < j <= n ==> #[trigger] depth(t, j) >= 1,
    decreases n - i,
{
    if i < n {
        assert(depth(t, i + 1) == level_after(t[i], depth(t, i)));
        lemma_stays_open(t, i + 1, n);
    }
}

/// A text is in parentheses where walking it says so.
proof fn lemma_enclosed(t: Seq<char>)
    ensures
        enclosed(t) == (t.len() >= 2 && t[0] == '(' && t.last() == ')' && stays_open(
            t,
            0,
            t.len() - 1,
            0,
        )),
{
    if t.len() >= 2 {
        lemma_stays_open(t, 0, t.len() - 1);
    }
}

/// Digits and the variable hold no operator.
proof fn lemma_plain(t: Seq<char>, k: nat)
    requires
        k <= SPLITS,
        forall|i: int| 0 <= i < t.len() ==> ('0' <= #[trigger] t[i] <= '9' || t[i] == 'n'),
    ensures
        split_from(t, k) == operand(t),
    decreases SPLITS - k,
{
    let pat = if k == SPLITS {
        seq!['!']
    } else {
        symbol(k as int)
    };
    lemma_found(t, pat);
    assert forall|j: int| !#[trigger] stands(t, pat, j) by {
        if stands(t, pat, j) {
            assert(t.subrange(j, j + pat.len())[0] == t[j]);
        }
    }
    if k < SPLITS {
        lemma_plain(t, k + 1);
    }
}

/// An operator that is not found is passed over.
proof fn lemma_passed(t: Seq<char>, from: nat, to: nat)
    requires
        from <= to <= SPLITS,
        forall|k: int| from <= k < to ==> #[trigger] found_at(t, symbol(k)) is None,
    ensures
        split_from(t, from) == split_from(t, to),
    decreases to - from,
{
    if from < to {
        assert(found_at(t, symbol(from as int)) is None);
        lemma_passed(t, from + 1, to);
    }
}

/// Digits, or the variable, spell an operand.
proof fn lemma_plain_spells(t: Seq<char>)
    requires
        t.len() > 0,
        forall|i: int| 0 <= i < t.len() ==> ('0' <= #[trigger] t[i] <= '9' || t[i] == 'n'),
    ensures
        parsed(t) == operand(t),
{
    assert(!is_white(t[0]) && !is_white(t.last()));
    assert(trimmed(t) == t);
    assert(t[0] != '(');
    lemma_plain(t, 0);
}

/// The tree of `(n + a) % m`.
spec fn rest(a: u64, m: u64) -> Ast {
    Ast::Op(
        Operator::Modulo,
        Box::new(Ast::Op(Operator::Plus, Box::new(Ast::N), Box::new(Ast::Integer(a)))),
        Box::new(Ast::Integer(m)),
    )
}

/// What `(n+9)%10` spells.
proof fn lemma_spells_tens()
    ensures
        split_from(seq!['(', 'n', '+', '9', ')', '%', '1', '0'], 0) == Some(rest(9, 10)),
        parsed(seq!['(', '(', 'n', '+', '9', ')', '%', '1', '0', ')']) == Some(rest(9, 10)),
{
    let t = seq!['(', 'n', '+', '9', ')', '%', '1', '0'];
    let l = seq!['(', 'n', '+', '9', ')'];
    let sum = seq!['n', '+', '9'];
    let by = seq!['1', '0'];
    let add = seq!['9'];
    reveal_with_fuel(scan, 9);
    reveal_with_fuel(stays_open, 12);
    reveal_with_fuel(number, 3);
    assert forall|k: int| 0 <= k < 13 implies #[trigger] found_at(t, symbol(k)) is None by {
        lemma_scan(t, symbol(k), 0);
    }
    lemma_passed(t, 0, 13);
    lemma_scan(t, symbol(13), 0);
    assert(found_at(t, symbol(13)) == Some(5int));
    assert(t.take(5) =~= l);
    assert(t.skip(6) =~= by);
    assert forall|k: int| 0 <= k < 9 implies #[trigger] found_at(sum, symbol(k)) is None by {
        lemma_scan(sum, symbol(k), 0);
    }
    lemma_passed(sum, 0, 9);
    lemma_scan(sum, symbol(9), 0);
    assert(sum.take(1) =~= seq!['n']);
    assert(sum.skip(2) =~= add);
    assert(found_at(sum, symbol(9)) == Some(1int));
    lemma_plain_spells(seq!['n']);
    lemma_plain_spells(add);
    lemma_plain_spells(by);
    assert(operand(seq!['n']) == Some(Ast::N));
    assert(all_digits(add) && number(add) == 9) by {
        assert(add.drop_last() =~= Seq::<char>::empty());
    }
    assert(operand(add) == Some(Ast::Integer(9)));
    assert(all_digits(by) && number(by) == 10) by {
        assert(by.drop_last() =~= seq!['1']);
        assert(by.drop_last().drop_last() =~= Seq::<char>::empty());
    }
    assert(operand(by) == Some(Ast::Integer(10)));
    assert(split_from(sum, 9) == Some(
        Ast::Op(Operator::Plus, Box::new(Ast::N), Box::new(Ast::Integer(9))),
    ));
    lemma_enclosed(sum);
    lemma_enclosed(l);
    assert(trimmed(l) == l);
    assert(trimmed(sum) == sum);
    lemma_enclosed(t);
    assert(l.subrange(1, l.len() - 1) =~= sum);
    let w = seq!['(', '(', 'n', '+', '9', ')', '%', '1', '0', ')'];
    lemma_enclosed(w);
    assert(w.subrange(1, w.len() - 1) =~= t);
    assert(parsed(l) == parsed(sum));
    assert(parsed(by) == Some(Ast::Integer(10)));
    assert(split_from(t, 13) == Some(rest(9, 10)));
    assert(trimmed(t) == t);
    assert(trimmed(w) == w);
    assert(!enclosed(t));
    assert(parsed(t) == split_from(t, 0));
    assert(enclosed(w));
    assert(parsed(w) == parsed(t));
}

/// What `(n+90)%100` spells.
proof fn lemma_spells_hundreds()
    ensures
        split_from(seq![
            '(', 'n', '+', '9', '0', ')', '%', '1', '0', '0',
        ], 0) == Some(rest(90, 100)),
        parsed(seq![
            '(', '(', 'n', '+', '9', '0', ')', '%', '1', '0', '0', ')',
        ]) == Some(rest(90, 100)),
{
    let t = seq!['(', 'n', '+', '9', '0', ')', '%', '1', '0', '0'];
    let l = seq!['(', 'n', '+', '9', '0', ')'];
    let sum = seq!['n', '+', '9', '0'];
    let by = seq!['1', '0', '0'];
    let add = seq!['9', '0'];
    reveal_with_fuel(scan, 11);
    reveal_with_fuel(stays_open, 14);
    reveal_with_fuel(number, 4);
    assert forall|k: int| 0 <= k < 13 implies #[trigger] found_at(t, symbol(k)) is None by {
        lemma_scan(t, symbol(k), 0);
    }
    lemma_passed(t, 0, 13);
    lemma_scan(t, symbol(13), 0);
    assert(found_at(t, symbol(13)) == Some(6int));
    assert(t.take(6) =~= l);
    assert(t.skip(7) =~= by);
    assert forall|k: int| 0 <= k < 9 implies #[trigger] found_at(sum, symbol(k)) is None by {
        lemma_scan(sum, symbol(k), 0);
    }
    lemma_passed(sum, 0, 9);
    lemma_scan(sum, symbol(9), 0);
    assert(sum.take(1) =~= seq!['n']);
    assert(sum.skip(2) =~= add);
    assert(found_at(sum, symbol(9)) == Some(1int));
    lemma_plain_spells(seq!['n']);
    lemma_plain_spells(add);
    lemma_plain_spells(by);
    assert(operand(seq!['n']) == Some(Ast::N));
    assert(all_digits(add) && number(add) == 90) by {
        assert(add.drop_last() =~= seq!['9']);
        assert(add.drop_last().drop_last() =~= Seq::<char>::empty());
    }
    assert(operand(add) == Some(Ast::Integer(90)));
    assert(all_digits(by) && number(by) == 100) by {
        assert(by.drop_last() =~= seq!['1', '0']);
        assert(by.drop_last().drop_last() =~= seq!['1']);
        assert(by.drop_last().drop_last().drop_last() =~= Seq::<char>::empty());
    }
    assert(operand(by) == Some(Ast::Integer(100)));
    assert(split_from(sum, 9) == Some(
        Ast::Op(Operator::Plus, Box::new(Ast::N), Box::new(Ast::Integer(90))),
    ));
    lemma_enclosed(sum);
    lemma_enclosed(l);
    assert(trimmed(l) == l);
    assert(trimmed(sum) == sum);
    lemma_enclosed(t);
    assert(l.subrange(1, l.len() - 1) =~= sum);
    let w = seq!['(', '(', 'n', '+', '9', '0', ')', '%', '1', '0', '0', ')'];
    lemma_enclosed(w);
    assert(w.subrange(1, w.len() - 1) =~= t);
    assert(parsed(l) == parsed(sum));
    assert(parsed(by) == Some(Ast::Integer(100)));
    assert(split_from(t, 13) == Some(rest(90, 100)));
    assert(trimmed(t) == t);
    assert(trimmed(w) == w);
    assert(!enclosed(t));
    assert(parsed(t) == split_from(t, 0));
    assert(enclosed(w));
    assert(parsed(w) == parsed(t));
}

/// What `((n+9)%10)<3` spells.
proof fn lemma_spells_first()
    ensures
        parsed(seq!['(', '(', 'n', '+', '9', ')', '%', '1', '0', ')', '<', '3']) == Some(
            Ast::Op(Operator::Smaller, Box::new(rest(9, 10)), Box::new(Ast::Integer(3))),
        ),
{
    let t = seq!['(', '(', 'n', '+', '9', ')', '%', '1', '0', ')', '<', '3'];
    let l = seq!['(', '(', 'n', '+', '9', ')', '%', '1', '0', ')'];
    let by = seq!['3'];
    reveal_with_fuel(scan, 13);
    reveal_with_fuel(number, 2);
    lemma_spells_tens();
    assert forall|k: int| 0 <= k < 6 implies #[trigger] found_at(t, symbol(k)) is None by {
        lemma_scan(t, symbol(k), 0);
    }
    lemma_passed(t, 0, 6);
    lemma_scan(t, symbol(6), 0);
    assert(found_at(t, symbol(6)) == Some(10int));
    assert(t.take(10) =~= l);
    assert(t.skip(11) =~= by);
    lemma_plain_spells(by);
    assert(all_digits(by) && number(by) == 3) by {
        assert(by.drop_last() =~= Seq::<char>::empty());
    }
    assert(operand(by) == Some(Ast::Integer(3)));
    assert(trimmed(t) == t);
    assert(!enclosed(t));
    assert(parsed(t) == split_from(t, 0));
}

/// What `((n+90)%100)>10` spells.
proof fn lemma_spells_second()
    ensures
        parsed(seq![
            '(', '(', 'n', '+', '9', '0', ')', '%', '1', '0', '0', ')', '>', '1', '0',
        ]) == Some(
            Ast::Op(Operator::Greater, Box::new(rest(90, 100)), Box::new(Ast::Integer(10))),
        ),
{
    let t = seq!['(', '(', 'n', '+', '9', '0', ')', '%', '1', '0', '0', ')', '>', '1', '0'];
    let l = seq!['(', '(', 'n', '+', '9', '0', ')', '%', '1', '0', '0', ')'];
    let by = seq!['1', '0'];
    reveal_with_fuel(scan, 16);
    reveal_with_fuel(number, 3);
    lemma_spells_hundreds();
    assert forall|k: int| 0 <= k < 4 implies #[trigger] found_at(t, symbol(k)) is None by {
        lemma_scan(t, symbol(k), 0);
    }
    lemma_passed(t, 0, 4);
    lemma_scan(t, symbol(4), 0);
    assert(found_at(t, symbol(4)) == Some(12int));
    assert(t.take(12) =~= l);
    assert(t.skip(13) =~= by);
    lemma_plain_spells(by);
    assert(all_digits(by) && number(by) == 10) by {
        assert(by.drop_last() =~= seq!['1']);
        assert(by.drop_last().drop_last() =~= Seq::<char>::empty());
    }
    assert(operand(by) == Some(Ast::Integer(10)));
    assert(trimmed(t) == t);
    assert(!enclosed(t));
    assert(parsed(t) == split_from(t, 0));
}

/// The tree of the English rule.
spec fn ordinal_tree() -> Ast {
    Ast::Ternary(
        Box::new(
            Ast::Op(
                Operator::And,
                Box::new(Ast::Op(Operator::Smaller, Box::new(rest(9, 10)), Box::new(Ast::Integer(3)))),
                Box::new(
                    Ast::Op(Operator::Greater, Box::new(rest(90, 100)), Box::new(Ast::Integer(10))),
                ),
            ),
        ),
        Box::new(rest(9, 10)),
        Box::new(Ast::Integer(3)),
    )
}

/// What the condition of the English rule spells.
proof fn lemma_spells_condition()
    ensures
        parsed(seq![
            '(', '(', '(', 'n', '+', '9', ')', '%', '1', '0', ')', '<', '3', ' ', '&', '&', ' ',
            '(', '(', 'n', '+', '9', '0', ')', '%', '1', '0', '0', ')', '>', '1', '0', ')', ' ',
        ]) == Some(
            *(ordinal_tree()->Ternary_0),
        ),
{
    let t = seq![
        '(', '(', 'n', '+', '9', ')', '%', '1', '0', ')', '<', '3', ' ', '&', '&', ' ', '(', '(',
        'n', '+', '9', '0', ')', '%', '1', '0', '0', ')', '>', '1', '0',
    ];
    let l = seq!['(', '(', 'n', '+', '9', ')', '%', '1', '0', ')', '<', '3', ' '];
    let r = seq![' ', '(', '(', 'n', '+', '9', '0', ')', '%', '1', '0', '0', ')', '>', '1', '0'];
    let w = seq![
        '(', '(', '(', 'n', '+', '9', ')', '%', '1', '0', ')', '<', '3', ' ', '&', '&', ' ', '(',
        '(', 'n', '+', '9', '0', ')', '%', '1', '0', '0', ')', '>', '1', '0', ')',
    ];
    let x = seq![
        '(', '(', '(', 'n', '+', '9', ')', '%', '1', '0', ')', '<', '3', ' ', '&', '&', ' ', '(',
        '(', 'n', '+', '9', '0', ')', '%', '1', '0', '0', ')', '>', '1', '0', ')', ' ',
    ];
    reveal_with_fuel(scan, 32);
    reveal_with_fuel(stays_open, 34);
    lemma_spells_first();
    lemma_spells_second();
    lemma_scan(t, symbol(0), 0);
    assert(found_at(t, symbol(0)) == Some(13int));
    assert(t.take(13) =~= l);
    assert(t.skip(15) =~= r);
    assert(l.drop_last() =~= seq!['(', '(', 'n', '+', '9', ')', '%', '1', '0', ')', '<', '3']);
    assert(trim_start(l) == l);
    assert(trim_end(l) == trim_end(l.drop_last()));
    assert(trimmed(l) == l.drop_last());
    assert(r.drop_first() =~= seq![
        '(', '(', 'n', '+', '9', '0', ')', '%', '1', '0', '0', ')', '>', '1', '0',
    ]);
    assert(trim_start(r) == trim_start(r.drop_first()));
    assert(trimmed(r) == r.drop_first());
    lemma_parse_ignores_white_space(l);
    lemma_parse_ignores_white_space(r);
    assert(trimmed(t) == t);
    assert(!enclosed(t));
    assert(parsed(t) == split_from(t, 0));
    lemma_enclosed(w);
    assert(w.subrange(1, w.len() - 1) =~= t);
    assert(trimmed(w) == w);
    assert(parsed(w) == parsed(t));
    assert(x.drop_last() =~= w);
    assert(trim_start(x) == x);
    assert(trim_end(x) == trim_end(w));
    assert(trimmed(x) == w);
    lemma_parse_ignores_white_space(x);
}

/// What the English rule for ordinals spells.
proof fn lemma_spells_ordinal()
    ensures
        parsed("(((n+9)%10)<3 && ((n+90)%100)>10) ? ((n+9)%10) : 3"@) == Some(ordinal_tree()),
{
    reveal_strlit("(((n+9)%10)<3 && ((n+90)%100)>10) ? ((n+9)%10) : 3");
    let t = "(((n+9)%10)<3 && ((n+90)%100)>10) ? ((n+9)%10) : 3"@;
    let c = seq![
        '(', '(', '(', 'n', '+', '9', ')', '%', '1', '0', ')', '<', '3', ' ', '&', '&', ' ', '(',
        '(', 'n', '+', '9', '0', ')', '%', '1', '0', '0', ')', '>', '1', '0', ')', ' ',
    ];
    let y = seq![' ', '(', '(', 'n', '+', '9', ')', '%', '1', '0', ')', ' '];
    let n = seq![' ', '3'];
    reveal_with_fuel(scan, 51);
    reveal_with_fuel(number, 2);
    lemma_spells_condition();
    lemma_spells_tens();
    assert(t.len() == 50);
    assert forall|k: int| 0 <= k < 2 implies #[trigger] found_at(t, symbol(k)) is None by {
        lemma_scan(t, symbol(k), 0);
    }
    lemma_passed(t, 0, 2);
    lemma_scan(t, symbol(2), 0);
    lemma_scan(t, seq![':'], 0);
    assert(found_at(t, symbol(2)) == Some(34int));
    assert(found_at(t, seq![':']) == Some(47int));
    assert(t.take(34) =~= c);
    assert(t.subrange(35, 47) =~= y);
    assert(t.skip(48) =~= n);
    let yy = seq!['(', '(', 'n', '+', '9', ')', '%', '1', '0', ')'];
    assert(y.drop_first().drop_last() =~= yy);
    assert(trim_start(y.drop_first()) == y.drop_first());
    assert(trim_start(y) == y.drop_first());
    assert(trim_end(y.drop_first()) == trim_end(yy));
    assert(trimmed(y) == yy);
    lemma_parse_ignores_white_space(y);
    assert(n.drop_first() =~= seq!['3']);
    assert(trim_start(seq!['3']) == seq!['3']);
    assert(trim_start(n) == seq!['3']);
    assert(trimmed(n) == seq!['3']);
    lemma_parse_ignores_white_space(n);
    lemma_plain_spells(seq!['3']);
    assert(seq!['3'].drop_last() =~= Seq::<char>::empty());
    assert(operand(seq!['3']) == Some(Ast::Integer(3)));
    assert(trimmed(t) == t);
    assert(!enclosed(t));
    assert(parsed(t) == split_from(t, 0));
}

/// The value of `(n + a) % m`.
proof fn lemma_rest_value(a: u64, m: u64, n: u64)
    requires
        a <= 90,
        0 < m <= 100,
        n <= usize::MAX - 90,
    ensures
        value(rest(a, m), n) == Some((n + a) % (m as int)),
{
    let sum = Ast::Op(Operator::Plus, Box::new(Ast::N), Box::new(Ast::Integer(a)));
    assert(value(Ast::N, n) == Some(n as int));
    assert(value(Ast::Integer(a), n) == Some(a as int));
    assert(value(sum, n) == Some(n + a));
    assert(value(Ast::Integer(m), n) == Some(m as int));
}

/// The form of the English ordinal of a number, 0 for `st`, 1 for `nd`, 2 for `rd` and 3 for `th`.
pub open spec fn ordinal_form(n: u64) -> int {
    if 11 <= n % 100 <= 13 {
        3
    } else if 1 <= n % 10 <= 3 {
        n % 10 - 1
    } else {
        3
    }
}

/// The English rule for ordinals picks `st`, `nd` and `rd` for the numbers that end in 1, 2 and 3 but
/// not in 11, 12 and 13, and `th` for all others.
pub proof fn lemma_english_ordinal(n: u64)
    requires
        n <= usize::MAX - 90,
    ensures
        parsed("(((n+9)%10)<3 && ((n+90)%100)>10) ? ((n+9)%10) : 3"@) matches Some(e)
            && form_index(Resolver::Expr(e), n) == Some(ordinal_form(n)),
{
    lemma_spells_ordinal();
    lemma_rest_value(9, 10, n);
    lemma_rest_value(90, 100, n);
    let tens = rest(9, 10);
    let hundreds = rest(90, 100);
    let first = Ast::Op(Operator::Smaller, Box::new(tens), Box::new(Ast::Integer(3)));
    let second = Ast::Op(Operator::Greater, Box::new(hundreds), Box::new(Ast::Integer(10)));
    let both = Ast::Op(Operator::And, Box::new(first), Box::new(second));
    assert(value(Ast::Integer(3), n) == Some(3int));
    assert(value(Ast::Integer(10), n) == Some(10int));
    assert(value(first, n) == truth((n + 9) % 10 < 3));
    assert(value(second, n) == truth((n + 90) % 100 > 10));
    assert(value(both, n) == truth((n + 9) % 10 < 3 && (n + 90) % 100 > 10));
    assert(ordinal_tree() == Ast::Ternary(Box::new(both), Box::new(tens), Box::new(Ast::Integer(3))));
    assert(value(ordinal_tree(), n) == Some(
        if (n + 9) % 10 < 3 && (n + 90) % 100 > 10 {
            (n + 9) % 10
        } else {
            3
        },
    ));
}

/// A disjunction is true exactly where a side is, a conjunction exactly where both are, whichever side
/// comes first; and a left side that decides is enough.
pub proof fn lemma_logic(a: Ast, b: Ast, n: u64)
    ensures
        value(a, n) matches Some(x) && x != 0 ==> value(
            Ast::Op(Operator::Or, Box::new(a), Box::new(b)),
            n,
        ) == Some(1int),
        value(a, n) == Some(0int) ==> value(
            Ast::Op(Operator::And, Box::new(a), Box::new(b)),
            n,
        ) == Some(0int),
        value(a, n) matches Some(x) ==> (value(b, n) matches Some(y) ==> {
            let or = value(Ast::Op(Operator::Or, Box::new(a), Box::new(b)), n);
            let and = value(Ast::Op(Operator::And, Box::new(a), Box::new(b)), n);
            &&& or == Some(1int) <==> x != 0 || y != 0
            &&& or == Some(0int) <==> x == 0 && y == 0
            &&& and == Some(1int) <==> x != 0 && y != 0
            &&& and == Some(0int) <==> x == 0 || y == 0
            &&& or == value(Ast::Op(Operator::Or, Box::new(b), Box::new(a)), n)
            &&& and == value(Ast::Op(Operator::And, Box::new(b), Box::new(a)), n)
        }),
        value(a, n) is None ==> value(Ast::Op(Operator::Or, Box::new(a), Box::new(b)), n) is None
            && value(Ast::Op(Operator::And, Box::new(a), Box::new(b)), n) is None,
{
}

/// A negation is true exactly where what it negates is 0.
pub proof fn lemma_negation(a: Ast, n: u64)
    ensures
        value(a, n) == Some(0int) ==> value(Ast::Not(Box::new(a)), n) == Some(1int),
        value(a, n) matches Some(x) && x != 0 ==> value(Ast::Not(Box::new(a)), n) == Some(0int),
        value(a, n) is None ==> value(Ast::Not(Box::new(a)), n) is None,
{
}

/// A comparison of two numbers is 1 where it holds and 0 where it does not.
pub proof fn lemma_comparisons(a: Ast, b: Ast, n: u64, x: int, y: int)
    requires
        value(a, n) == Some(x),
        value(b, n) == Some(y),
    ensures
        value(Ast::Op(Operator::Smaller, Box::new(a), Box::new(b)), n) == Some(
            if x < y { 1int } else { 0int },
        ),
        value(Ast::Op(Operator::Greater, Box::new(a), Box::new(b)), n) == value(
            Ast::Op(Operator::Smaller, Box::new(b), Box::new(a)),
            n,
        ),
        value(Ast::Op(Operator::SmallerOrEqual, Box::new(a), Box::new(b)), n) == Some(
            if x > y { 0int } else { 1int },
        ),
        value(Ast::Op(Operator::GreaterOrEqual, Box::new(a), Box::new(b)), n) == value(
            Ast::Op(Operator::SmallerOrEqual, Box::new(b), Box::new(a)),
            n,
        ),
        value(Ast::Op(Operator::Equal, Box::new(a), Box::new(b)), n) == Some(
            if x < y || y < x { 0int } else { 1int },
        ),
        value(Ast::Op(Operator::NotEqual, Box::new(a), Box::new(b)), n) == Some(
            if x < y || y < x { 1int } else { 0int },
        ),
{
}

/// Sums, differences, products, quotients and remainders are those of the numbers, and there is none
/// exactly where it would not fit or divides by 0: subtracting undoes adding, dividing undoes
/// multiplying, and quotient and remainder make up the dividend.
pub proof fn lemma_arithmetic(a: Ast, b: Ast, n: u64, x: int, y: int)
    requires
        value(a, n) == Some(x),
        value(b, n) == Some(y),
    ensures
        0 <= x <= usize::MAX,
        value(Ast::Op(Operator::Plus, Box::new(a), Box::new(b)), n) is Some <==> x + y <= usize::MAX,
        value(Ast::Op(Operator::Plus, Box::new(a), Box::new(b)), n) matches Some(s) ==> s - y == x,
        value(Ast::Op(Operator::Minus, Box::new(a), Box::new(b)), n) is Some <==> y <= x,
        value(Ast::Op(Operator::Minus, Box::new(a), Box::new(b)), n) matches Some(d) ==> d + y == x,
        value(Ast::Op(Operator::Multiply, Box::new(a), Box::new(b)), n) is Some <==> x * y
            <= usize::MAX,
        value(Ast::Op(Operator::Multiply, Box::new(a), Box::new(b)), n) matches Some(p) ==> p == y * x,
        value(Ast::Op(Operator::Divide, Box::new(a), Box::new(b)), n) is None <==> y == 0,
        value(Ast::Op(Operator::Modulo, Box::new(a), Box::new(b)), n) is None <==> y == 0,
        value(Ast::Op(Operator::Divide, Box::new(a), Box::new(b)), n) matches Some(q) ==> (value(
            Ast::Op(Operator::Modulo, Box::new(a), Box::new(b)),
            n,
        ) matches Some(m) ==> q * y + m == x && 0 <= m < y),
{
    lemma_value_fits(a, n);
    lemma_value_fits(b, n);
    assert(x * y == y * x) by (nonlinear_arith);
    assert(0 <= x * y) by (nonlinear_arith)
        requires
            0 <= x,
            0 <= y,
    ;
    if y != 0 {
        vstd::arithmetic::div_mod::lemma_fundamental_div_mod(x, y);
        assert(y * (x / y) == (x / y) * y) by (nonlinear_arith);
        vstd::arithmetic::div_mod::lemma_mod_bound(x, y);
    }
}

/// A value is a number that fits.
proof fn lemma_value_fits(e: Ast, n: u64)
    ensures
        value(e, n) matches Some(v) ==> 0 <= v <= usize::MAX,
    decreases e,
{
    match e {
        Ast::N => {},
        Ast::Integer(_) => {},
        Ast::Not(v) => {
            lemma_value_fits(*v, n);
        },
        Ast::Ternary(c, y, z) => {
            lemma_value_fits(*c, n);
            lemma_value_fits(*y, n);
            lemma_value_fits(*z, n);
        },
        Ast::Op(op, l, r) => {
            lemma_value_fits(*l, n);
            lemma_value_fits(*r, n);
            if let (Some(a), Some(b)) = (value(*l, n), value(*r, n)) {
                if b != 0 {
                    vstd::arithmetic::div_mod::lemma_div_pos_is_pos(a, b);
                    vstd::arithmetic::div_mod::lemma_div_is_ordered_by_denominator(a, 1, b);
                    vstd::arithmetic::div_mod::lemma_mod_bound(a, b);
                }
            }
        },
    }
}

/// A conditional has the value of the branch that its condition picks, and no value where the condition
/// has none.
pub proof fn lemma_conditional(c: Ast, yes: Ast, no: Ast, n: u64)
    ensures
        value(c, n) matches Some(x) && x != 0 ==> value(
            Ast::Ternary(Box::new(c), Box::new(yes), Box::new(no)),
            n,
        ) == value(yes, n),
        value(c, n) == Some(0int) ==> value(
            Ast::Ternary(Box::new(c), Box::new(yes), Box::new(no)),
            n,
        ) == value(no, n),
        value(c, n) is None ==> value(
            Ast::Ternary(Box::new(c), Box::new(yes), Box::new(no)),
            n,
        ) is None,
{
}

/// The variable stands for the number asked about, a literal for itself, and the form picked is that
/// number; the first form where there is none.
pub proof fn lemma_operands(e: Ast, n: u64, x: u64)
    requires
        n <= usize::MAX,
        x <= usize::MAX,
    ensures
        value(Ast::N, n) == Some(n as int),
        value(Ast::Integer(x), n) == Some(x as int),
        form_index(Resolver::Expr(e), n) == value(e, n),
        or_first(form_index(Resolver::First, n)) == 0,
        value(e, n) matches Some(k) ==> or_first(value(e, n)) == k,
        value(e, n) is None ==> or_first(value(e, n)) == 0,
{
}

/// Whether a text is made of digits, or of the variable.
pub open spec fn plain(t: Seq<char>) -> bool {
    t.len() > 0 && forall|i: int| 0 <= i < t.len() ==> ('0' <= #[trigger] t[i] <= '9' || t[i] == 'n')
}

/// An operator stands between two operands, and none that is looked for before it.
proof fn lemma_between(l: Seq<char>, r: Seq<char>, k: int, j: int)
    requires
        plain(l),
        plain(r),
        0 <= j <= k < SPLITS,
    ensures
        j < k ==> found_at(l + symbol(k) + r, symbol(j)) is None,
        j == k ==> found_at(l + symbol(k) + r, symbol(j)) == Some(l.len() as int),
{
    let t = l + symbol(k) + r;
    let w = symbol(k).len() as int;
    let pat = symbol(j);
    lemma_found(t, pat);
    assert forall|p: int| 0 <= p < l.len() implies #[trigger] t[p] == l[p] by {}
    assert(t[l.len() as int] == symbol(k)[0]);
    assert(w == 2 ==> t[l.len() + 1int] == symbol(k)[1]);
    assert forall|p: int| l.len() + w <= p < t.len() implies #[trigger] t[p] == r[p - l.len() - w] by {}
    assert forall|p: int| #[trigger] stands(t, pat, p) implies j == k && p == l.len() by {
        let part = t.subrange(p, p + pat.len());
        assert(part[0] == t[p]);
        if pat.len() == 2 {
            assert(part[1] == t[p + 1]);
        }
        if p >= l.len() + w {
            assert(t[p] == r[p - l.len() - w]);
        }
        if p == l.len() + 1 && w == 2 {
            assert(t[p + 1] == r[0]);
        }
        if p == l.len() && w == 1 {
            assert(t[p + 1] == r[0]);
        }
    }
    if j == k {
        lemma_depth_plain(t, l.len() as int);
        assert(t.subrange(l.len() as int, (l.len() + pat.len()) as int) =~= pat);
        assert(stands(t, pat, l.len() as int));
        assert(first_at(t, pat, l.len() as int));
    }
}

/// Without parentheses none is open.
proof fn lemma_depth_plain(t: Seq<char>, n: int)
    requires
        0 <= n <= t.len(),
        forall|i: int| 0 <= i < n ==> (#[trigger] t[i]) != '(' && t[i] != ')',
    ensures
        depth(t, n) == 0,
    decreases n,
{
    if n > 0 {
        lemma_depth_plain(t, n - 1);
    }
}

/// What an operation on two operands is parsed to.
pub open spec fn on_operands(op: Operator, l: Seq<char>, r: Seq<char>) -> Option<Ast> {
    match (operand(l), operand(r)) {
        (Some(a), Some(b)) => Some(Ast::Op(op, Box::new(a), Box::new(b))),
        _ => None,
    }
}

/// An operator between two operands is parsed to it.
proof fn lemma_parse_between(l: Seq<char>, r: Seq<char>, k: int)
    requires
        plain(l),
        plain(r),
        0 <= k < SPLITS,
        k != TERNARY,
    ensures
        parsed(l + symbol(k) + r) == on_operands(meaning(k), l, r),
{
    let t = l + symbol(k) + r;
    let w = symbol(k).len() as int;
    assert(t[0] == l[0]);
    assert(t.last() == r.last());
    assert(trimmed(t) == t);
    assert(!enclosed(t));
    assert forall|j: int| 0 <= j < k implies #[trigger] found_at(t, symbol(j)) is None by {
        lemma_between(l, r, k, j);
    }
    lemma_passed(t, 0, k as nat);
    lemma_between(l, r, k, k);
    assert(t.take(l.len() as int) =~= l);
    assert(t.skip(l.len() + w) =~= r);
    lemma_plain_spells(l);
    lemma_plain_spells(r);
    assert(split_from(t, k as nat) == on_operands(meaning(k), l, r));
}

/// Every operator is parsed to what it is written for.
pub proof fn lemma_parse_operators(l: Seq<char>, r: Seq<char>)
    requires
        plain(l),
        plain(r),
    ensures
        parsed(l + seq!['&', '&'] + r) == on_operands(Operator::And, l, r),
        parsed(l + seq!['|', '|'] + r) == on_operands(Operator::Or, l, r),
        parsed(l + seq!['>', '='] + r) == on_operands(Operator::GreaterOrEqual, l, r),
        parsed(l + seq!['>'] + r) == on_operands(Operator::Greater, l, r),
        parsed(l + seq!['<', '='] + r) == on_operands(Operator::SmallerOrEqual, l, r),
        parsed(l + seq!['<'] + r) == on_operands(Operator::Smaller, l, r),
        parsed(l + seq!['=', '='] + r) == on_operands(Operator::Equal, l, r),
        parsed(l + seq!['!', '='] + r) == on_operands(Operator::NotEqual, l, r),
        parsed(l + seq!['+'] + r) == on_operands(Operator::Plus, l, r),
        parsed(l + seq!['-'] + r) == on_operands(Operator::Minus, l, r),
        parsed(l + seq!['/'] + r) == on_operands(Operator::Divide, l, r),
        parsed(l + seq!['*'] + r) == on_operands(Operator::Multiply, l, r),
        parsed(l + seq!['%'] + r) == on_operands(Operator::Modulo, l, r),
{
    lemma_parse_between(l, r, 0);
    lemma_parse_between(l, r, 1);
    lemma_parse_between(l, r, 3);
    lemma_parse_between(l, r, 4);
    lemma_parse_between(l, r, 5);
    lemma_parse_between(l, r, 6);
    lemma_parse_between(l, r, 7);
    lemma_parse_between(l, r, 8);
    lemma_parse_between(l, r, 9);
    lemma_parse_between(l, r, 10);
    lemma_parse_between(l, r, 11);
    lemma_parse_between(l, r, 12);
    lemma_parse_between(l, r, 13);
}

/// A row of digits is the number that it spells, to the left the tens and to the right the ones; the
/// variable is itself; anything else is no operand.
pub proof fn lemma_parse_operands(s: Seq<char>, c: char)
    requires
        '0' <= c <= '9',
    ensures
        parsed(seq!['n']) == Some(Ast::N),
        parsed(seq![c]) == Some(Ast::Integer(((c as u32) - ('0' as u32)) as u64)),
        parsed(s) matches Some(Ast::Integer(v)) ==> (plain(s) && v < 1_000_000_000_000_000_000
            ==> parsed(s.push(c)) == Some(
            Ast::Integer((v * 10 + ((c as u32) - ('0' as u32))) as u64),
        )),
{
    lemma_plain_spells(seq!['n']);
    assert(seq!['n'][0] == 'n');
    assert(!all_digits(seq!['n']));
    let one = seq![c];
    lemma_plain_spells(one);
    assert(one.drop_last() =~= Seq::<char>::empty());
    assert(number(one.drop_last()) == 0);
    assert(one.last() == c);
    assert(number(one) == ((c as u32) - ('0' as u32)) as nat);
    assert(all_digits(one));
    if plain(s) {
        lemma_plain_spells(s);
        let more = s.push(c);
        lemma_plain_spells(more);
        assert(more.drop_last() =~= s);
        assert(more.last() == c);
        if all_digits(s) {
            assert(all_digits(more));
        }
    }
}

/// Where a symbol stands in a row of three operands and two operators.
proof fn lemma_stands_in_row(a: Seq<char>, b: Seq<char>, c: Seq<char>, p: int, q: int, i: int, at: int)
    requires
        plain(a),
        plain(b),
        plain(c),
        0 <= p < SPLITS,
        0 <= q < SPLITS,
        0 <= i < SPLITS,
        i <= p,
        i <= q,
        stands(a + symbol(p) + b + symbol(q) + c, symbol(i), at),
    ensures
        i == p && at == a.len() || i == q && at == a.len() + symbol(p).len() + b.len(),
{
    let t = a + symbol(p) + b + symbol(q) + c;
    let x = a.len() as int;
    let y = x + symbol(p).len();
    let z = y + b.len();
    let u = z + symbol(q).len();
    let part = t.subrange(at, at + symbol(i).len());
    assert(part[0] == t[at]);
    if symbol(i).len() == 2 {
        assert(part[1] == t[at + 1]);
    }
    if at < x {
        assert(t[at] == a[at]);
    } else if at < y {
        assert(t[at] == symbol(p)[at - x]);
        if at + 1 < y {
            assert(t[at + 1] == symbol(p)[at + 1 - x]);
        } else {
            assert(t[at + 1] == b[0]);
        }
    } else if at < z {
        assert(t[at] == b[at - y]);
    } else if at < u {
        assert(t[at] == symbol(q)[at - z]);
        if at + 1 < u {
            assert(t[at + 1] == symbol(q)[at + 1 - z]);
        } else {
            assert(t[at + 1] == c[0]);
        }
    } else {
        assert(t[at] == c[at - u]);
    }
}

/// In such a row the operator that is looked for first is found, and none before it; of two alike, the
/// left one.
proof fn lemma_row_found(a: Seq<char>, b: Seq<char>, c: Seq<char>, p: int, q: int, k: int, at: int)
    requires
        plain(a),
        plain(b),
        plain(c),
        0 <= p < SPLITS,
        0 <= q < SPLITS,
        q < p ==> k == q && at == a.len() + symbol(p).len() + b.len(),
        p <= q ==> k == p && at == a.len(),
    ensures
        found_at(a + symbol(p) + b + symbol(q) + c, symbol(k)) == Some(at),
        forall|i: int|
            0 <= i < k ==> #[trigger] found_at(a + symbol(p) + b + symbol(q) + c, symbol(i)) is None,
{
    let t = a + symbol(p) + b + symbol(q) + c;
    let x = a.len() as int;
    let y = x + symbol(p).len();
    let z = y + b.len();
    let u = z + symbol(q).len();
    assert forall|i: int| 0 <= i < t.len() implies (#[trigger] t[i]) != '(' && t[i] != ')' by {
        if i < x {
            assert(t[i] == a[i]);
        } else if i < y {
            assert(t[i] == symbol(p)[i - x]);
        } else if i < z {
            assert(t[i] == b[i - y]);
        } else if i < u {
            assert(t[i] == symbol(q)[i - z]);
        } else {
            assert(t[i] == c[i - u]);
        }
    }
    assert forall|i: int| 0 <= i < k implies #[trigger] found_at(t, symbol(i)) is None by {
        lemma_found(t, symbol(i));
        assert forall|j: int| !#[trigger] stands(t, symbol(i), j) by {
            if stands(t, symbol(i), j) {
                lemma_stands_in_row(a, b, c, p, q, i, j);
            }
        }
    }
    lemma_found(t, symbol(k));
    lemma_depth_plain(t, at);
    assert(t.subrange(at, at + symbol(k).len()) =~= symbol(k));
    assert(stands(t, symbol(k), at));
    assert forall|j: int| 0 <= j < at implies !#[trigger] stands(t, symbol(k), j) by {
        if stands(t, symbol(k), j) {
            lemma_stands_in_row(a, b, c, p, q, k, j);
        }
    }
    assert(first_at(t, symbol(k), at));
}

/// Of two operators in a row, the one that is looked for first splits the expression; of two alike, the
/// left one.
#[verifier::rlimit(60)]
proof fn lemma_row(a: Seq<char>, b: Seq<char>, c: Seq<char>, p: int, q: int)
    requires
        plain(a),
        plain(b),
        plain(c),
        0 <= p < SPLITS,
        0 <= q < SPLITS,
        p != TERNARY,
        q != TERNARY,
    ensures
        q < p ==> parsed(a + symbol(p) + b + symbol(q) + c) == joined_by(
            meaning(q),
            on_operands(meaning(p), a, b),
            operand(c),
        ),
        p <= q ==> parsed(a + symbol(p) + b + symbol(q) + c) == joined_by(
            meaning(p),
            operand(a),
            on_operands(meaning(q), b, c),
        ),
{
    let t = a + symbol(p) + b + symbol(q) + c;
    assert(t[0] == a[0]);
    assert(t.last() == c.last());
    assert(trimmed(t) == t);
    assert(!enclosed(t));
    if q < p {
        let at = a.len() + symbol(p).len() + b.len();
        lemma_row_found(a, b, c, p, q, q, at as int);
        lemma_passed(t, 0, q as nat);
        assert(t.take(at as int) =~= a + symbol(p) + b);
        assert(t.skip((at + symbol(q).len()) as int) =~= c);
        lemma_parse_between(a, b, p);
        lemma_plain_spells(c);
    } else {
        let at = a.len() as int;
        lemma_row_found(a, b, c, p, q, p, at);
        lemma_passed(t, 0, p as nat);
        assert(t.take(at) =~= a);
        assert(t.skip(at + symbol(p).len()) =~= b + symbol(q) + c);
        lemma_parse_between(b, c, q);
        lemma_plain_spells(a);
    }
}

/// An operation on what two texts are parsed to.
pub open spec fn joined_by(op: Operator, l: Option<Ast>, r: Option<Ast>) -> Option<Ast> {
    match (l, r) {
        (Some(a), Some(b)) => Some(Ast::Op(op, Box::new(a), Box::new(b))),
        _ => None,
    }
}

/// The order in which operators split an expression, from `&&`, which splits first, to `%`, which splits
/// last, wherever they stand.
pub proof fn lemma_split_order(a: Seq<char>, b: Seq<char>, c: Seq<char>)
    requires
        plain(a),
        plain(b),
        plain(c),
    ensures
        parsed(a + seq!['|', '|'] + b + seq!['&', '&'] + c) == joined_by(
            Operator::And,
            on_operands(Operator::Or, a, b),
            operand(c),
        ),
        parsed(a + seq!['&', '&'] + b + seq!['|', '|'] + c) == joined_by(
            Operator::And,
            operand(a),
            on_operands(Operator::Or, b, c),
        ),
        parsed(a + seq!['>', '='] + b + seq!['|', '|'] + c) == joined_by(
            Operator::Or,
            on_operands(Operator::GreaterOrEqual, a, b),
            operand(c),
        ),
        parsed(a + seq!['>'] + b + seq!['>', '='] + c) == joined_by(
            Operator::GreaterOrEqual,
            on_operands(Operator::Greater, a, b),
            operand(c),
        ),
        parsed(a + seq!['<', '='] + b + seq!['>'] + c) == joined_by(
            Operator::Greater,
            on_operands(Operator::SmallerOrEqual, a, b),
            operand(c),
        ),
        parsed(a + seq!['<'] + b + seq!['<', '='] + c) == joined_by(
            Operator::SmallerOrEqual,
            on_operands(Operator::Smaller, a, b),
            operand(c),
        ),
        parsed(a + seq!['=', '='] + b + seq!['<'] + c) == joined_by(
            Operator::Smaller,
            on_operands(Operator::Equal, a, b),
            operand(c),
        ),
        parsed(a + seq!['!', '='] + b + seq!['=', '='] + c) == joined_by(
            Operator::Equal,
            on_operands(Operator::NotEqual, a, b),
            operand(c),
        ),
        parsed(a + seq!['+'] + b + seq!['!', '='] + c) == joined_by(
            Operator::NotEqual,
            on_operands(Operator::Plus, a, b),
            operand(c),
        ),
        parsed(a + seq!['-'] + b + seq!['+'] + c) == joined_by(
            Operator::Plus,
            on_operands(Operator::Minus, a, b),
            operand(c),
        ),
        parsed(a + seq!['/'] + b + seq!['-'] + c) == joined_by(
            Operator::Minus,
            on_operands(Operator::Divide, a, b),
            operand(c),
        ),
        parsed(a + seq!['*'] + b + seq!['/'] + c) == joined_by(
            Operator::Divide,
            on_operands(Operator::Multiply, a, b),
            operand(c),
        ),
        parsed(a + seq!['%'] + b + seq!['*'] + c) == joined_by(
            Operator::Multiply,
            on_operands(Operator::Modulo, a, b),
            operand(c),
        ),
        parsed(a + seq!['-'] + b + seq!['-'] + c) == joined_by(
            Operator::Minus,
            operand(a),
            on_operands(Operator::Minus, b, c),
        ),
        parsed(a + seq!['%'] + b + seq!['=', '='] + c) == joined_by(
            Operator::Equal,
            on_operands(Operator::Modulo, a, b),
            operand(c),
        ),
{
    lemma_row(a, b, c, 1, 0);
    lemma_row(a, b, c, 0, 1);
    lemma_row(a, b, c, 3, 1);
    lemma_row(a, b, c, 4, 3);
    lemma_row(a, b, c, 5, 4);
    lemma_row(a, b, c, 6, 5);
    lemma_row(a, b, c, 7, 6);
    lemma_row(a, b, c, 8, 7);
    lemma_row(a, b, c, 9, 8);
    lemma_row(a, b, c, 10, 9);
    lemma_row(a, b, c, 11, 10);
    lemma_row(a, b, c, 12, 11);
    lemma_row(a, b, c, 13, 12);
    lemma_row(a, b, c, 10, 10);
    lemma_row(a, b, c, 13, 7);
}

/// Whether a text without parentheses holds none of the operators that are looked for before a
/// comparison.
pub open spec fn simple(t: Seq<char>) -> bool {
    t.len() > 0 && !is_white(t[0]) && !is_white(t.last()) && forall|i: int|
        0 <= i < t.len() ==> (#[trigger] t[i]) != '(' && t[i] != ')' && t[i] != '&' && t[i] != '|'
            && t[i] != '?' && t[i] != ':'
}

/// A conditional is parsed to its condition, what holds where it is true, and what holds where it is
/// not, in this order.
pub proof fn lemma_parse_conditional(c: Seq<char>, yes: Seq<char>, no: Seq<char>)
    requires
        simple(c),
        simple(yes),
        simple(no),
    ensures
        parsed(c + seq!['?'] + yes + seq![':'] + no) == (match (
            parsed(c),
            parsed(yes),
            parsed(no),
        ) {
            (Some(x), Some(y), Some(z)) => Some(
                Ast::Ternary(Box::new(x), Box::new(y), Box::new(z)),
            ),
            _ => None,
        }),
{
    let t = c + seq!['?'] + yes + seq![':'] + no;
    let x = c.len() as int;
    let z = x + 1 + yes.len();
    assert(t[0] == c[0]);
    assert(t.last() == no.last());
    assert(trimmed(t) == t);
    assert(!enclosed(t));
    assert(t[x] == '?');
    assert(t[z] == ':');
    assert forall|i: int| 0 <= i < t.len() implies (#[trigger] t[i]) != '(' && t[i] != ')' && t[i]
        != '&' && t[i] != '|' && (t[i] == '?' ==> i == x) && (t[i] == ':' ==> i == z) by {
        if i < x {
            assert(t[i] == c[i]);
        } else if i > z {
            assert(t[i] == no[i - z - 1]);
        } else if x < i < z {
            assert(t[i] == yes[i - x - 1]);
        }
    }
    lemma_absent(t, symbol(0));
    lemma_absent(t, symbol(1));
    lemma_passed(t, 0, 2);
    lemma_only(t, symbol(2), x);
    lemma_only(t, seq![':'], z);
    assert(t.take(x) =~= c);
    assert(t.subrange(x + 1, z) =~= yes);
    assert(t.skip(z + 1) =~= no);
    assert(symbol(2) =~= seq!['?']);
}

/// A symbol whose first character a text does not hold is not found.
proof fn lemma_absent(t: Seq<char>, pat: Seq<char>)
    requires
        pat.len() > 0,
        forall|i: int| 0 <= i < t.len() ==> (#[trigger] t[i]) != pat[0],
    ensures
        found_at(t, pat) is None,
{
    lemma_found(t, pat);
    assert forall|j: int| !#[trigger] stands(t, pat, j) by {
        if stands(t, pat, j) {
            assert(t.subrange(j, j + pat.len())[0] == t[j]);
        }
    }
}

/// A symbol of one character that a text without parentheses holds in one place is found there.
proof fn lemma_only(t: Seq<char>, pat: Seq<char>, at: int)
    requires
        pat.len() == 1,
        0 <= at < t.len(),
        forall|i: int| 0 <= i < t.len() ==> (#[trigger] t[i]) != '(' && t[i] != ')',
        forall|i: int| 0 <= i < t.len() ==> ((#[trigger] t[i]) == pat[0] <==> i == at),
    ensures
        found_at(t, pat) == Some(at),
{
    lemma_found(t, pat);
    lemma_depth_plain(t, at);
    assert(t.subrange(at, at + 1) =~= pat);
    assert(stands(t, pat, at));
    assert forall|j: int| 0 <= j < at implies !#[trigger] stands(t, pat, j) by {
        if stands(t, pat, j) {
            assert(t.subrange(j, j + 1)[0] == t[j]);
        }
    }
    assert(first_at(t, pat, at));
}

/// An exclamation mark before an operand negates it.
pub proof fn lemma_parse_negation(r: Seq<char>)
    requires
        plain(r),
    ensures
        parsed(seq!['!'] + r) == (match operand(r) {
            Some(e) => Some(Ast::Not(Box::new(e))),
            None => None,
        }),
{
    let t = seq!['!'] + r;
    assert(t[0] == '!');
    assert(t.last() == r.last());
    assert(trimmed(t) == t);
    assert(!enclosed(t));
    assert forall|i: int| 0 < i < t.len() implies #[trigger] t[i] == r[i - 1] by {}
    assert forall|k: int| 0 <= k < SPLITS implies #[trigger] found_at(t, symbol(k)) is None by {
        lemma_found(t, symbol(k));
        assert forall|j: int| !#[trigger] stands(t, symbol(k), j) by {
            if stands(t, symbol(k), j) {
                let part = t.subrange(j, j + symbol(k).len());
                assert(part[0] == t[j]);
                if symbol(k).len() == 2 {
                    assert(part[1] == t[j + 1]);
                }
            }
        }
    }
    lemma_passed(t, 0, SPLITS as nat);
    lemma_only(t, seq!['!'], 0);
    assert(t.skip(1) =~= r);
    lemma_plain_spells(r);
}

/// Blanks around an expression do not count: what is left begins and ends with none, and only blanks were
/// taken.
pub proof fn lemma_trimmed(s: Seq<char>)
    ensures
        trimmed(s).len() > 0 ==> !is_white(trimmed(s)[0]) && !is_white(trimmed(s).last()),
        exists|a: int, b: int|
            0 <= a <= b <= s.len() && trimmed(s) == #[trigger] s.subrange(a, b) && (forall|i: int|
                0 <= i < a ==> is_white(#[trigger] s[i])) && forall|i: int|
                b <= i < s.len() ==> is_white(#[trigger] s[i]),
        is_white(' ') && is_white('\t') && is_white('\n') && is_white('\r'),
        forall|c: char| '!' <= c <= '~' ==> !#[trigger] is_white(c),
{
    let t = trim_start(s);
    lemma_trim_start_of(s);
    lemma_trim_end_of(t);
    let a = s.len() - t.len();
    let b = a + trimmed(s).len();
    assert(trimmed(s) =~= s.subrange(a, b));
    assert forall|i: int| b <= i < s.len() implies is_white(#[trigger] s[i]) by {
        assert(t[i - a] == s[i]);
    }
    if trimmed(s).len() > 0 {
        assert(trimmed(s)[0] == t[0]);
    }
}

proof fn lemma_trim_start_of(s: Seq<char>)
    ensures
        trim_start(s).len() <= s.len(),
        trim_start(s) == s.skip(s.len() - trim_start(s).len()),
        forall|i: int| 0 <= i < s.len() - trim_start(s).len() ==> is_white(#[trigger] s[i]),
        trim_start(s).len() > 0 ==> !is_white(trim_start(s)[0]),
    decreases s.len(),
{
    if s.len() > 0 && is_white(s[0]) {
        let t = s.drop_first();
        lemma_trim_start_of(t);
        assert(trim_start(s) =~= s.skip(s.len() - trim_start(s).len()));
        assert forall|i: int| 0 <= i < s.len() - trim_start(s).len() implies is_white(#[trigger] s[i]) by {
            if i > 0 {
                assert(t[i - 1] == s[i]);
            }
        }
    } else {
        assert(s.skip(0) =~= s);
    }
}

proof fn lemma_trim_end_of(s: Seq<char>)
    ensures
        trim_end(s).len() <= s.len(),
        trim_end(s) == s.take(trim_end(s).len() as int),
        forall|i: int| trim_end(s).len() <= i < s.len() ==> is_white(#[trigger] s[i]),
        trim_end(s).len() > 0 ==> !is_white(trim_end(s).last()),
    decreases s.len(),
{
    if s.len() > 0 && is_white(s.last()) {
        let t = s.drop_last();
        lemma_trim_end_of(t);
        assert(trim_end(s) =~= s.take(trim_end(s).len() as int));
        assert forall|i: int| trim_end(s).len() <= i < s.len() implies is_white(#[trigger] s[i]) by {
            if i < t.len() {
                assert(t[i] == s[i]);
            }
        }
    } else {
        assert(s.take(s.len() as int) =~= s);
    }
}

/// Parentheses around a whole expression do not count.
pub proof fn lemma_parse_enclosed(s: Seq<char>)
    requires
        forall|i: int| 0 <= i < s.len() ==> (#[trigger] s[i]) != '(' && s[i] != ')',
    ensures
        parsed(seq!['('] + s + seq![')']) == parsed(s),
{
    let t = seq!['('] + s + seq![')'];
    assert(t[0] == '(');
    assert(t.last() == ')');
    assert(!is_white('(') && !is_white(')'));
    assert(trimmed(t) == t);
    assert forall|i: int| 0 < i < t.len() implies #[trigger] depth(t, i) >= 1 by {
        lemma_depth_enclosed(s, i);
    }
    assert(enclosed(t));
    assert(t.subrange(1, t.len() - 1) =~= s);
}

proof fn lemma_depth_enclosed(s: Seq<char>, i: int)
    requires
        forall|j: int| 0 <= j < s.len() ==> (#[trigger] s[j]) != '(' && s[j] != ')',
        0 < i <= s.len() + 1,
    ensures
        depth(seq!['('] + s + seq![')'], i) == 1,
    decreases i,
{
    let t = seq!['('] + s + seq![')'];
    if i == 1 {
        assert(t[0] == '(');
        assert(depth(t, 0) == 0);
    } else {
        lemma_depth_enclosed(s, i - 1);
        assert(t[i - 1] == s[i - 2]);
    }
}

/// A rule without an expression always gives the first form, and so does a number for which the
/// expression has no value.
pub proof fn lemma_first_form(n: u64, e: Ast)
    ensures
        form_index(Resolver::First, n) == Some(0int),
        form_index(Resolver::Expr(e), n) == value(e, n),
        or_first(None) == 0,
        value(e, n) matches Some(k) ==> or_first(form_index(Resolver::Expr(e), n)) == k,
{
}

} // verus!
