//! The inspiration event: which view is up, and what of the game is traced.

use vstd::prelude::*;

use crate::names::lines;
use crate::text::{add_note, chars_of, same, string_of};
use crate::text::part;

verus! {

/// How many methods are traced at most.
pub const MAX_TRACES: usize = 12;

/// How many entries of one traced method are logged.
pub const TRACE_LOG_CAP: u32 = 60;

/// The inspiration view. Targets are 0 for none.
#[derive(Clone, Copy, PartialEq, Eq, Structural, Debug)]
pub struct Inspire {
    pub ctrl: usize,
    /// The view that was told of.
    pub pressed_for: usize,
    pub captured_ms: u64,
}

/// What an entry of a traced method logs.
#[derive(Clone, Copy, PartialEq, Eq, Structural, Debug)]
pub enum TraceLine {
    Entered,
    /// Entered, and no more entries follow.
    Last,
    Silent,
}

/// What becomes of a method that should be traced.
#[derive(Clone, Copy, PartialEq, Eq, Structural, Debug)]
pub enum Arming {
    /// The class has no such method.
    Miss,
    /// Only a base class has it.
    BaseOnly,
    /// It takes too many arguments to be passed on.
    TooWide,
    /// Every slot is taken.
    NoSlot,
    /// It is traced in this slot.
    Slot(usize),
}

/// No view yet.
pub fn new_inspire() -> (r: Inspire)
    ensures
        r == (Inspire { ctrl: 0, pressed_for: 0, captured_ms: 0 }),
{
    Inspire { ctrl: 0, pressed_for: 0, captured_ms: 0 }
}

/// The view sets its button up; another view may be told of.
pub fn on_setup_button(i: &mut Inspire, ctrl: usize, now: u64)
    ensures
        *final(i) == (if ctrl == 0 {
            *old(i)
        } else if old(i).pressed_for != ctrl {
            Inspire { ctrl, pressed_for: 0, captured_ms: now }
        } else {
            Inspire { ctrl, ..*old(i) }
        }),
{
    if ctrl != 0 {
        i.ctrl = ctrl;
        if i.pressed_for != ctrl {
            i.pressed_for = 0;
            i.captured_ms = now;
        }
    }
}

/// Whether the view is looked at: the feature acts under no dialog, the button's function was found,
/// and the view was not told of yet.
pub open spec fn looks_at(i: Inspire, acting: bool, dialog: bool, resolved: bool) -> bool {
    acting && !dialog && resolved && i.ctrl != 0 && i.pressed_for != i.ctrl
}

/// The view is up: whether the player is told, once, to press its button. It is never pressed for them.
pub fn drive(i: &mut Inspire, acting: bool, dialog: bool, resolved: bool, destroyed: bool) -> (r: bool)
    ensures
        r == (looks_at(*old(i), acting, dialog, resolved) && !destroyed),
        *final(i) == (if r {
            Inspire { pressed_for: old(i).ctrl, ..*old(i) }
        } else if looks_at(*old(i), acting, dialog, resolved) && destroyed {
            Inspire { ctrl: 0, ..*old(i) }
        } else {
            *old(i)
        }),
{
    if !acting || dialog || !resolved || i.ctrl == 0 || i.pressed_for == i.ctrl {
        return false;
    }
    if destroyed {
        i.ctrl = 0;
        return false;
    }
    i.pressed_for = i.ctrl;
    true
}

/// The view is over.
pub fn clear(i: &mut Inspire)
    ensures
        *final(i) == (Inspire { ctrl: 0, pressed_for: 0, captured_ms: 0 }),
{
    i.ctrl = 0;
    i.pressed_for = 0;
    i.captured_ms = 0;
}

/// What entry `n` of a traced method logs, counted from 0.
pub open spec fn line_of(n: u32) -> TraceLine {
    if n >= TRACE_LOG_CAP {
        TraceLine::Silent
    } else if n + 1 == TRACE_LOG_CAP {
        TraceLine::Last
    } else {
        TraceLine::Entered
    }
}

/// A traced method was entered.
pub fn trace_entered(count: &mut u32) -> (r: TraceLine)
    ensures
        r == line_of(*old(count)),
        *final(count) == old(count).wrapping_add(1),
{
    let n: u32 = *count;
    *count = n.wrapping_add(1);
    if n >= TRACE_LOG_CAP {
        TraceLine::Silent
    } else if n + 1 == TRACE_LOG_CAP {
        TraceLine::Last
    } else {
        TraceLine::Entered
    }
}

/// Whether a character is a digit.
pub open spec fn is_digit(c: char) -> bool {
    '0' <= c <= '9'
}

/// The number that a row of digits is.
pub open spec fn digits_value(s: Seq<char>) -> int
    decreases s.len(),
{
    if s.len() == 0 {
        0
    } else {
        digits_value(s.drop_last()) * 10 + (s.last() as int - '0' as int)
    }
}

/// Whether a row of characters is digits only.
pub open spec fn all_digits(s: Seq<char>) -> bool {
    forall|i: int| 0 <= i < s.len() ==> is_digit(#[trigger] s[i])
}

/// What a text is without a sign before it.
pub open spec fn unsigned(s: Seq<char>) -> Seq<char> {
    if s.len() > 0 && (s[0] == '-' || s[0] == '+') {
        s.drop_first()
    } else {
        s
    }
}

/// The number that a text is, with a sign before it or not; `None` where it is none, or does not fit.
pub open spec fn number(s: Seq<char>) -> Option<i32> {
    let d = unsigned(s);
    let v = if s.len() > 0 && s[0] == '-' {
        -digits_value(d)
    } else {
        digits_value(d)
    };
    if d.len() > 0 && all_digits(d) && i32::MIN <= v <= i32::MAX {
        Some(v as i32)
    } else {
        None
    }
}

/// More digits make a larger number.
proof fn lemma_digits_grow(s: Seq<char>, k: int)
    requires
        0 <= k <= s.len(),
        all_digits(s),
    ensures
        0 <= digits_value(s.take(k)) <= digits_value(s),
    decreases s.len() - k, s.len(),
{
    if k == s.len() {
        assert(s.take(k) =~= s);
        if s.len() > 0 {
            assert(all_digits(s.drop_last()));
            lemma_digits_grow(s.drop_last(), s.len() - 1);
            assert(s.drop_last().take(s.len() - 1) =~= s.drop_last());
            assert(is_digit(s[s.len() - 1]));
        }
    } else {
        lemma_digits_grow(s, k + 1);
        assert(s.take(k + 1).drop_last() =~= s.take(k));
        assert(is_digit(s[k]));
        assert(s.take(k + 1).last() == s[k]);
        assert(digits_value(s.take(k + 1)) == digits_value(s.take(k)) * 10 + (s[k] as int
            - '0' as int));
        let t = s.take(k);
        assert(all_digits(t));
        lemma_digits_positive(t);
    }
}

/// A row of digits is no negative number.
proof fn lemma_digits_positive(s: Seq<char>)
    requires
        all_digits(s),
    ensures
        digits_value(s) >= 0,
    decreases s.len(),
{
    if s.len() > 0 {
        assert(all_digits(s.drop_last()));
        lemma_digits_positive(s.drop_last());
        assert(is_digit(s[s.len() - 1]));
    }
}

/// The number that the characters from `from` on are.
fn parse_number(cs: &Vec<char>, from: usize) -> (r: Option<i32>)
    requires
        from <= cs.len(),
    ensures
        r == number(cs@.skip(from as int)),
{
    let ghost text = cs@.skip(from as int);
    let n: usize = cs.len();
    let negative: bool = from < n && cs[from] == '-';
    let signed: bool = from < n && (cs[from] == '-' || cs[from] == '+');
    let start: usize = if signed {
        from + 1
    } else {
        from
    };
    let ghost d = unsigned(text);
    assert(d =~= cs@.skip(start as int));
    if start >= n {
        return None;
    }
    let mut i: usize = start;
    let mut v: i64 = 0;
    assert(d.take(0) =~= Seq::<char>::empty());
    while i < n
        invariant
            start <= i <= n,
            n == cs@.len(),
            text == cs@.skip(from as int),
            d == cs@.skip(start as int),
            d.len() == n - start,
            d == unsigned(text),
            text.len() > 0 || d.len() == 0,
            negative == (text.len() > 0 && text[0] == '-'),
            forall|k: int| 0 <= k < i - start ==> is_digit(#[trigger] d[k]),
            v == digits_value(d.take(i - start)),
            0 <= v <= 2147483648,
        decreases n - i,
    {
        let c: char = cs[i];
        assert(d[i - start] == c);
        if !('0' <= c && c <= '9') {
            assert(!is_digit(d[i - start]));
            return None;
        }
        let digit: i64 = (c as u32 - '0' as u32) as i64;
        assert(d.take(i - start + 1).drop_last() =~= d.take(i - start));
        assert(d.take(i - start + 1).last() == c);
        v = v * 10 + digit;
        if v > 2147483648 {
            proof {
                assert(v == digits_value(d.take(i - start + 1)));
                if all_digits(d) {
                    lemma_digits_grow(d, i - start + 1);
                }
            }
            return None;
        }
        i = i + 1;
    }
    assert(d.take(n - start) =~= d);
    assert(all_digits(d));
    if negative {
        Some((0 - v) as i32)
    } else if v <= 2147483647 {
        Some(v as i32)
    } else {
        None
    }
}

/// Where the last `/` of a text is, if there is one.
pub open spec fn last_slash(s: Seq<char>) -> int
    decreases s.len(),
{
    if s.len() == 0 {
        -1
    } else if s.last() == '/' {
        s.len() - 1
    } else {
        last_slash(s.drop_last())
    }
}

/// Whether an entry, `name/count`, is of a method.
pub open spec fn entry_is(e: Seq<char>, name: Seq<char>) -> bool {
    last_slash(e) >= 0 && e.take(last_slash(e)) == name
}

/// How many arguments the first entry of a method tells; `None` where there is none, or it tells no
/// number.
pub open spec fn argc_of(entries: Seq<String>, name: Seq<char>) -> Option<i32>
    decreases entries.len(),
{
    if entries.len() == 0 {
        None
    } else if entry_is(entries[0]@, name) {
        number(entries[0]@.skip(last_slash(entries[0]@) + 1))
    } else {
        argc_of(entries.drop_first(), name)
    }
}

/// Where the last `/` is; past the end where there is none.
fn find_slash(cs: &Vec<char>) -> (r: Option<usize>)
    ensures
        (match r {
            Some(k) => k < cs@.len() && last_slash(cs@) == k,
            None => last_slash(cs@) == -1,
        }),
{
    let mut k: usize = cs.len();
    assert(cs@.take(k as int) =~= cs@);
    while k > 0
        invariant
            k <= cs@.len(),
            last_slash(cs@) == last_slash(cs@.take(k as int)),
        decreases k,
    {
        assert(cs@.take(k as int).last() == cs@[k - 1]);
        if cs[k - 1] == '/' {
            return Some(k - 1);
        }
        assert(cs@.take(k as int).drop_last() =~= cs@.take(k - 1));
        k = k - 1;
    }
    None
}

/// How many arguments a class's own method takes. `entries` are the class's methods, as `name/count`.
pub fn own_method_argc(entries: &Vec<String>, name: &str) -> (r: Option<i32>)
    ensures
        r == argc_of(entries@, name@),
{
    let ghost all = entries@;
    let mut i: usize = 0;
    assert(all.skip(0) =~= all);
    while i < entries.len()
        invariant
            i <= entries@.len(),
            all == entries@,
            argc_of(all, name@) == argc_of(all.skip(i as int), name@),
        decreases entries@.len() - i,
    {
        assert(all.skip(i as int)[0] == all[i as int]);
        let cs: Vec<char> = chars_of(entries[i].as_str());
        if let Some(k) = find_slash(&cs) {
            let own: String = string_of(&cs, 0, k);
            assert(cs@.subrange(0, k as int) =~= cs@.take(k as int));
            if same(own.as_str(), name) {
                return parse_number(&cs, k + 1);
            }
        }
        assert(all.skip(i as int).drop_first() =~= all.skip(i as int + 1));
        i = i + 1;
    }
    None
}

/// What becomes of a method that should be traced, with `used` slots taken. `inherited` says whether a
/// base class has it.
pub fn arm_trace(argc: Option<i32>, inherited: bool, used: usize) -> (r: Arming)
    ensures
        r == (match argc {
            None => if inherited {
                Arming::BaseOnly
            } else {
                Arming::Miss
            },
            Some(n) => if n > 2 {
                Arming::TooWide
            } else if used >= MAX_TRACES {
                Arming::NoSlot
            } else {
                Arming::Slot(used)
            },
        }),
{
    match argc {
        None => if inherited {
            Arming::BaseOnly
        } else {
            Arming::Miss
        },
        Some(n) => if n > 2 {
            Arming::TooWide
        } else if used >= MAX_TRACES {
            Arming::NoSlot
        } else {
            Arming::Slot(used)
        },
    }
}

/// The player is told of a view once: after that it is not looked at again, whatever is on screen, until
/// another one comes up.
pub proof fn lemma_told_once(i: Inspire, acting: bool, dialog: bool, resolved: bool)
    requires
        looks_at(i, acting, dialog, resolved),
    ensures
        forall|on: bool, under: bool, found: bool|
            !#[trigger] looks_at(Inspire { pressed_for: i.ctrl, ..i }, on, under, found),
{
}

/// The classes of the inspiration event.
#[derive(Clone, Copy, PartialEq, Eq, Structural, Debug)]
pub enum Owner {
    /// The view of the event.
    Event,
    /// The manager that changes views.
    Manager,
    /// The helper that plays its scenes.
    Helper,
}

/// Which of the classes were found.
#[derive(Clone, Copy, PartialEq, Eq, Structural, Debug)]
pub struct Classes {
    pub event: bool,
    pub manager: bool,
    pub helper: bool,
}

/// What stands before the first slash.
pub open spec fn head(s: Seq<char>) -> Seq<char>
    decreases s.len(),
{
    if s.len() == 0 || s[0] == '/' {
        Seq::empty()
    } else {
        seq![s[0]] + head(s.drop_first())
    }
}

/// A text without a slash before `k`, and with one there or ending there, has its first `k`
/// characters before its first slash.
proof fn lemma_head(s: Seq<char>, k: int)
    requires
        0 <= k <= s.len(),
        forall|j: int| 0 <= j < k ==> s[j] != '/',
        k < s.len() ==> s[k] == '/',
    ensures
        head(s) == s.take(k),
    decreases k,
{
    if k == 0 {
        assert(s.take(0) =~= Seq::<char>::empty());
    } else {
        let t = s.drop_first();
        assert forall|j: int| 0 <= j < k - 1 implies t[j] != '/' by {
            assert(t[j] == s[j + 1]);
        }
        assert(k < s.len() ==> t[k - 1] == s[k]);
        lemma_head(t, k - 1);
        assert(s.take(k) =~= seq![s[0]] + t.take(k - 1));
    }
}

/// Whether a text begins with `Play`.
pub open spec fn plays(s: Seq<char>) -> bool {
    s.len() >= 4 && s.take(4) == "Play"@
}

/// The names of the methods that play something, each once, in order.
pub open spec fn play_names(entries: Seq<Seq<char>>) -> Seq<Seq<char>>
    decreases entries.len(),
{
    if entries.len() == 0 {
        Seq::empty()
    } else {
        let found = play_names(entries.drop_last());
        let name = head(entries.last());
        if plays(name) && !found.contains(name) {
            found.push(name)
        } else {
            found
        }
    }
}

/// What a row of methods to trace says.
pub open spec fn traced(s: Seq<(Owner, String)>) -> Seq<(Owner, Seq<char>)> {
    s.map_values(|t: (Owner, String)| (t.0, t.1@))
}

/// A method of a class.
pub open spec fn of(owner: Owner, name: Seq<char>) -> (Owner, Seq<char>) {
    (owner, name)
}

/// The methods to trace: none, unless the log is verbose.
pub open spec fn wanted_traces(
    c: Classes,
    verbose: bool,
    entries: Seq<Seq<char>>,
) -> Seq<(Owner, Seq<char>)> {
    Seq::<(Owner, Seq<char>)>::empty() + (if verbose && c.event {
        seq![
            of(Owner::Event, "SetupSuccessionButton"@),
            of(Owner::Event, "OnClickSuccessionButton"@),
        ]
    } else {
        Seq::empty()
    }) + (if verbose && c.manager {
        seq![
            of(Owner::Manager, "ChangeViewSuccessionCutAndStory"@),
            of(Owner::Manager, "ChangeSuccessionEventView"@),
        ]
    } else {
        Seq::empty()
    }) + (if verbose && c.helper {
        seq![
            of(Owner::Helper, "OnStartCutIn"@),
            of(Owner::Helper, "OnPlayCutIn"@),
            of(Owner::Helper, "OnPlayMainCutIn"@),
        ] + play_names(entries).map_values(|n: Seq<char>| of(Owner::Helper, n))
    } else {
        Seq::empty()
    })
}

/// What is noted of the classes.
pub open spec fn class_notes(c: Classes) -> Seq<char> {
    ""@ + part(!c.event, "inspire evc miss; "@) + part(!c.manager, "inspire cvm miss; "@) + part(
        !c.helper,
        "inspire helper miss; "@,
    )
}

/// What stands before the first slash.
fn head_of(s: &str) -> (r: String)
    ensures
        r@ == head(s@),
{
    let cs: Vec<char> = chars_of(s);
    let mut i: usize = 0;
    while i < cs.len() && cs[i] != '/'
        invariant
            i <= cs.len(),
            forall|j: int| 0 <= j < i ==> cs@[j] != '/',
        decreases cs.len() - i,
    {
        i = i + 1;
    }
    proof {
        lemma_head(cs@, i as int);
    }
    assert(cs@.subrange(0, i as int) =~= cs@.take(i as int));
    string_of(&cs, 0, i)
}

/// Whether a text begins with `Play`.
fn is_play(s: &str) -> (r: bool)
    ensures
        r == plays(s@),
{
    let cs: Vec<char> = chars_of(s);
    if cs.len() < 4 {
        return false;
    }
    let start: String = string_of(&cs, 0, 4);
    assert(cs@.subrange(0, 4) =~= cs@.take(4));
    same(start.as_str(), "Play")
}

/// Whether a text is among a row of texts.
fn listed(found: &Vec<String>, name: &str) -> (r: bool)
    ensures
        r == lines(found@).contains(name@),
{
    let mut i: usize = 0;
    while i < found.len()
        invariant
            i <= found.len(),
            forall|j: int| 0 <= j < i ==> lines(found@)[j] != name@,
        decreases found.len() - i,
    {
        assert(lines(found@)[i as int] == found@[i as int]@);
        if same(found[i].as_str(), name) {
            return true;
        }
        i = i + 1;
    }
    false
}

/// The names of the methods that play something, each once, in order.
pub fn play_methods(entries: &Vec<String>) -> (r: Vec<String>)
    ensures
        lines(r@) == play_names(lines(entries@)),
{
    let ghost all = lines(entries@);
    let mut found: Vec<String> = Vec::new();
    let mut i: usize = 0;
    assert(lines(found@) =~= play_names(all.take(0)));
    while i < entries.len()
        invariant
            i <= entries.len(),
            all == lines(entries@),
            lines(found@) == play_names(all.take(i as int)),
        decreases entries.len() - i,
    {
        let ghost before = found@;
        assert(all.take(i as int + 1).drop_last() =~= all.take(i as int));
        assert(all.take(i as int + 1).last() == entries@[i as int]@);
        let name: String = head_of(entries[i].as_str());
        if is_play(name.as_str()) && !listed(&found, name.as_str()) {
            found.push(name);
            assert(lines(found@) =~= lines(before).push(name@));
        }
        i = i + 1;
    }
    assert(all.take(i as int) =~= all);
    found
}

/// Add a method to trace.
fn want(out: &mut Vec<(Owner, String)>, owner: Owner, name: &str)
    ensures
        traced(final(out)@) == traced(old(out)@).push(of(owner, name@)),
{
    let ghost before = out@;
    out.push((owner, name.to_owned()));
    assert(traced(out@) =~= traced(before).push(of(owner, name@)));
}

/// What is traced of the inspiration event, and notes on what was not found. `entries` are the
/// helper's own methods, each with its number of parameters behind a slash.
pub fn install(c: &Classes, verbose: bool, entries: &Vec<String>) -> (r: (Vec<(Owner, String)>, String))
    ensures
        traced(r.0@) == wanted_traces(*c, verbose, lines(entries@)),
        r.1@ == class_notes(*c),
{
    let mut notes: String = "".to_owned();
    add_note(&mut notes, !c.event, "inspire evc miss; ");
    add_note(&mut notes, !c.manager, "inspire cvm miss; ");
    add_note(&mut notes, !c.helper, "inspire helper miss; ");
    let mut out: Vec<(Owner, String)> = Vec::new();
    assert(traced(out@) =~= Seq::empty());
    if verbose && c.event {
        want(&mut out, Owner::Event, "SetupSuccessionButton");
        want(&mut out, Owner::Event, "OnClickSuccessionButton");
    }
    if verbose && c.manager {
        want(&mut out, Owner::Manager, "ChangeViewSuccessionCutAndStory");
        want(&mut out, Owner::Manager, "ChangeSuccessionEventView");
    }
    if verbose && c.helper {
        want(&mut out, Owner::Helper, "OnStartCutIn");
        want(&mut out, Owner::Helper, "OnPlayCutIn");
        want(&mut out, Owner::Helper, "OnPlayMainCutIn");
        let found: Vec<String> = play_methods(entries);
        let ghost fixed = traced(out@);
        let ghost all = lines(found@).map_values(|n: Seq<char>| of(Owner::Helper, n));
        let mut i: usize = 0;
        assert(fixed =~= fixed + all.take(0));
        while i < found.len()
            invariant
                i <= found.len(),
                all == lines(found@).map_values(|n: Seq<char>| of(Owner::Helper, n)),
                traced(out@) == fixed + all.take(i as int),
            decreases found.len() - i,
        {
            assert(all[i as int] == of(Owner::Helper, found@[i as int]@));
            assert(all.take(i as int + 1) =~= all.take(i as int).push(all[i as int]));
            want(&mut out, Owner::Helper, found[i].as_str());
            assert(traced(out@) =~= fixed + all.take(i as int + 1));
            i = i + 1;
        }
        assert(all.take(i as int) =~= all);
    }
    assert(traced(out@) =~= wanted_traces(*c, verbose, lines(entries@)));
    (out, notes)
}

/// What was found of the event's button.
#[derive(Clone, Copy, PartialEq, Eq, Structural, Debug)]
pub struct Button {
    pub class: bool,
    /// The number of parameters of the class's own click and setup methods.
    pub click_argc: Option<i32>,
    pub setup_argc: Option<i32>,
    /// The click method can be called.
    pub callable: bool,
    /// The setup method is watched.
    pub hooked: bool,
}

/// Report on the event's button: whether its click can be called, and what is noted.
pub fn install_phase1(b: &Button) -> (r: (bool, &'static str))
    ensures
        r.0 == (b.class && b.click_argc == Some(0i32) && b.callable),
        r.1@ == (if !b.class {
            ""@
        } else if b.click_argc != Some(0i32) {
            "inspire: OnClickSuccessionButton not own/0-arg; "@
        } else if !b.callable {
            "inspire: OnClickSuccessionButton ptr miss; "@
        } else if b.setup_argc != Some(0i32) {
            "inspire: SetupSuccessionButton not own/0-arg; "@
        } else if !b.hooked {
            "inspire: SetupSuccessionButton capture miss; "@
        } else {
            ""@
        }),
{
    let click: bool = match b.click_argc {
        Some(n) => n == 0,
        None => false,
    };
    let setup: bool = match b.setup_argc {
        Some(n) => n == 0,
        None => false,
    };
    let note: &'static str = if !b.class {
        ""
    } else if !click {
        "inspire: OnClickSuccessionButton not own/0-arg; "
    } else if !b.callable {
        "inspire: OnClickSuccessionButton ptr miss; "
    } else if !setup {
        "inspire: SetupSuccessionButton not own/0-arg; "
    } else if !b.hooked {
        "inspire: SetupSuccessionButton capture miss; "
    } else {
        ""
    };
    (b.class && click && b.callable, note)
}

/// The event is looked at while acting, under no dialog, where it is known and not yet passed.
pub proof fn lemma_looks_at(i: Inspire, acting: bool, dialog: bool, resolved: bool)
    ensures
        looks_at(i, acting, dialog, resolved) <==> acting && resolved && !dialog && i.ctrl != 0
            && i.pressed_for != i.ctrl,
{
}

/// The first 59 entries of a trace are written, the 60th as the last, and no more.
pub proof fn lemma_trace_lines(n: u32)
    ensures
        n < 59 ==> line_of(n) is Entered,
        n == 59 ==> line_of(n) is Last,
        n >= 60 ==> line_of(n) is Silent,
{
}

/// A number is digits, perhaps behind a sign, that fit in 32 bits.
pub proof fn lemma_number(s: Seq<char>, c: char)
    requires
        '0' <= c <= '9',
    ensures
        number(Seq::empty()) is None,
        number(seq![c]) == Some((c as int - '0' as int) as i32),
        number(seq!['-', c]) == Some(('0' as int - c as int) as i32),
        number(seq!['+', c]) == number(seq![c]),
        s.len() > 0 && all_digits(s) ==> (number(s) matches Some(v) ==> (v < 200_000_000 ==> number(
            s.push(c),
        ) == Some((v * 10 + (c as int - '0' as int)) as i32))),
        (exists|i: int| 0 < i < s.len() && !is_digit(#[trigger] s[i])) ==> number(s) is None,
{
    assert(unsigned(Seq::<char>::empty()).len() == 0);
    let one = seq![c];
    assert(one.drop_last() =~= Seq::empty());
    assert(digits_value(Seq::<char>::empty()) == 0);
    assert(one[0] == c);
    assert(unsigned(one) == one);
    assert(digits_value(one) == c as int - '0' as int);
    assert(all_digits(one));
    assert(seq!['-', c].drop_first() =~= one);
    assert(seq!['+', c].drop_first() =~= one);
    assert(seq!['-', c][0] == '-');
    assert(seq!['+', c][0] == '+');
    if s.len() > 0 && all_digits(s) {
        assert(is_digit(s[0]));
        let more = s.push(c);
        assert(more.drop_last() =~= s);
        assert(more.last() == c);
        assert(more[0] == s[0]);
        assert forall|i: int| 0 <= i < more.len() implies is_digit(#[trigger] more[i]) by {
            if i < s.len() {
                assert(more[i] == s[i]);
            }
        }
        lemma_digits_positive(s);
    }
    if exists|i: int| 0 < i < s.len() && !is_digit(#[trigger] s[i]) {
        let i = choose|i: int| 0 < i < s.len() && !is_digit(#[trigger] s[i]);
        let d = unsigned(s);
        if d == s {
            assert(!is_digit(d[i]));
        } else {
            assert(d[i - 1] == s[i]);
            assert(!is_digit(d[i - 1]));
        }
    }
}

/// The last slash of a text is a slash with none behind it.
proof fn lemma_last_slash(s: Seq<char>)
    ensures
        -1 <= last_slash(s) < s.len(),
        last_slash(s) >= 0 ==> s[last_slash(s)] == '/',
        forall|i: int| last_slash(s) < i < s.len() ==> #[trigger] s[i] != '/',
    decreases s.len(),
{
    if s.len() > 0 && s.last() != '/' {
        let t = s.drop_last();
        lemma_last_slash(t);
        assert forall|i: int| last_slash(s) < i < s.len() implies #[trigger] s[i] != '/' by {
            if i < t.len() {
                assert(t[i] == s[i]);
            }
        }
    }
}

/// How many arguments a method takes is what its entry says behind the last slash: `name/argc`.
pub proof fn lemma_argc(name: Seq<char>, argc: Seq<char>, entries: Seq<String>)
    requires
        entries.len() > 0,
        !argc.contains('/'),
    ensures
        entries[0]@ == name + seq!['/'] + argc ==> argc_of(entries, name) == number(argc),
        !entry_is(entries[0]@, name) ==> argc_of(entries, name) == argc_of(entries.drop_first(), name),
{
    let e = name + seq!['/'] + argc;
    lemma_last_slash(e);
    let k = last_slash(e);
    assert(e[name.len() as int] == '/');
    if k > name.len() {
        assert(e[k] == argc[k - name.len() - 1]);
        assert(argc.contains('/'));
    }
    assert(k == name.len());
    assert(e.take(k) =~= name);
    assert(e.skip(k + 1) =~= argc);
}

/// A method's name is what stands before the first slash.
proof fn lemma_head_of(name: Seq<char>, rest: Seq<char>)
    requires
        !name.contains('/'),
    ensures
        head(name + seq!['/'] + rest) == name,
{
    let s = name + seq!['/'] + rest;
    let k = name.len() as int;
    assert forall|j: int| 0 <= j < k implies s[j] != '/' by {
        assert(s[j] == name[j]);
        if name[j] == '/' {
            assert(name.contains('/'));
        }
    }
    assert(s[k] == '/');
    lemma_head(s, k);
    assert(s.take(k) =~= name);
}

/// The methods that play something are those whose name begins with `Play`, each listed once, in the
/// order of their first entry.
pub proof fn lemma_play_names(entries: Seq<Seq<char>>, name: Seq<char>, rest: Seq<char>)
    requires
        !name.contains('/'),
    ensures
        ({
            let before = play_names(entries);
            let after = play_names(entries.push(name + seq!['/'] + rest));
            let plays = name.len() >= 4 && name[0] == 'P' && name[1] == 'l' && name[2] == 'a' && name[3]
                == 'y';
            &&& plays && !before.contains(name) ==> after == before.push(name)
            &&& !plays || before.contains(name) ==> after == before
        }),
        play_names(Seq::empty()).len() == 0,
        forall|i: int, j: int|
            0 <= i < j < play_names(entries).len() ==> #[trigger] play_names(entries)[i]
                != #[trigger] play_names(entries)[j],
{
    let e = name + seq!['/'] + rest;
    assert(entries.push(e).drop_last() =~= entries);
    assert(entries.push(e).last() == e);
    lemma_head_of(name, rest);
    reveal_strlit("Play");
    if name.len() >= 4 {
        let t = name.take(4);
        assert(t[0] == name[0] && t[1] == name[1] && t[2] == name[2] && t[3] == name[3]);
        if name[0] == 'P' && name[1] == 'l' && name[2] == 'a' && name[3] == 'y' {
            assert(t =~= "Play"@);
        } else {
            assert("Play"@[0] == 'P' && "Play"@[1] == 'l' && "Play"@[2] == 'a' && "Play"@[3] == 'y');
        }
    }
    lemma_play_names_once(entries);
}

proof fn lemma_play_names_once(entries: Seq<Seq<char>>)
    ensures
        forall|i: int, j: int|
            0 <= i < j < play_names(entries).len() ==> #[trigger] play_names(entries)[i]
                != #[trigger] play_names(entries)[j],
    decreases entries.len(),
{
    if entries.len() > 0 {
        lemma_play_names_once(entries.drop_last());
        let found = play_names(entries.drop_last());
        let r = play_names(entries);
        assert forall|i: int, j: int| 0 <= i < j < r.len() implies #[trigger] r[i] != #[trigger] r[j] by {
            if j < found.len() {
                assert(found[i] != found[j]);
            } else {
                assert(found[i] == r[i]);
                if r[i] == r[j] {
                    assert(found.contains(r[j]));
                }
            }
        }
    }
}

/// Traces are wanted only in a verbose log, and of the classes that were found: two of the event, two of
/// the manager, and of the helper three and all that it plays.
pub proof fn lemma_wanted_traces(c: Classes, verbose: bool, entries: Seq<Seq<char>>)
    ensures
        !verbose ==> wanted_traces(c, verbose, entries).len() == 0,
        verbose ==> {
            let w = wanted_traces(c, verbose, entries);
            &&& w.len() == (if c.event {
                2int
            } else {
                0
            }) + (if c.manager {
                2int
            } else {
                0
            }) + (if c.helper {
                3 + play_names(entries).len()
            } else {
                0
            })
            &&& c.event ==> w[0] == (Owner::Event, "SetupSuccessionButton"@) && w[1] == (
                Owner::Event,
                "OnClickSuccessionButton"@,
            )
            &&& c.event && c.manager ==> w[2] == (Owner::Manager, "ChangeViewSuccessionCutAndStory"@)
                && w[3] == (Owner::Manager, "ChangeSuccessionEventView"@)
            &&& c.event && c.manager && c.helper ==> w[4] == (Owner::Helper, "OnStartCutIn"@) && w[5] == (
                Owner::Helper,
                "OnPlayCutIn"@,
            ) && w[6] == (Owner::Helper, "OnPlayMainCutIn"@) && forall|k: int|
                0 <= k < play_names(entries).len() ==> w[7 + k] == (
                    Owner::Helper,
                    #[trigger] play_names(entries)[k],
                )
        },
        c.event && c.manager && c.helper ==> class_notes(c).len() == 0,
        !c.event && c.manager && c.helper ==> class_notes(c) == "inspire evc miss; "@,
        c.event && !c.manager && c.helper ==> class_notes(c) == "inspire cvm miss; "@,
        c.event && c.manager && !c.helper ==> class_notes(c) == "inspire helper miss; "@,
{
    reveal_strlit("");
    assert(!c.event && c.manager && c.helper ==> class_notes(c) =~= "inspire evc miss; "@);
    assert(c.event && !c.manager && c.helper ==> class_notes(c) =~= "inspire cvm miss; "@);
    assert(c.event && c.manager && !c.helper ==> class_notes(c) =~= "inspire helper miss; "@);
}

} // verus!
