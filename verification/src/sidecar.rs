//! The advisor process: when it is started again, and how it is told apart from a stale one.

use vstd::prelude::*;

use crate::text::digit;

verus! {

/// An exit within this many seconds of the start counts as a crash on startup.
pub const FAST_SECS: u64 = 5;

/// How many crashes on startup in a row are borne.
pub const MAX_FAST_EXITS: u32 = 5;

/// The multiplier that spreads a process number over a token.
pub const SPREAD: u128 = 0x9E37_79B9_7F4A_7C15;

/// The advisor.
#[derive(Clone, Copy, PartialEq, Eq, Structural, Debug)]
pub struct Sidecar {
    pub started: bool,
    /// The bridge serves it.
    pub active: bool,
    /// Crashes on startup in a row.
    pub fast_exits: u32,
}

/// What follows an exit.
#[derive(Clone, Copy, PartialEq, Eq, Structural, Debug)]
pub enum Next {
    /// It ended by itself.
    Stop,
    /// It keeps crashing.
    GiveUp,
    Restart,
}

/// Not started, and allowed to run.
pub fn new_sidecar() -> (r: Sidecar)
    ensures
        r == (Sidecar { started: false, active: true, fast_exits: 0 }),
{
    Sidecar { started: false, active: true, fast_exits: 0 }
}

/// Suspend or resume the bridge. Returns whether that was a change.
pub fn set_active(s: &mut Sidecar, on: bool) -> (r: bool)
    ensures
        r == (old(s).active != on),
        *final(s) == (Sidecar { active: on, ..*old(s) }),
{
    let changed: bool = s.active != on;
    s.active = on;
    changed
}

/// Whether the bridge serves the advisor.
pub fn active(s: &Sidecar) -> (r: bool)
    ensures
        r == s.active,
{
    s.active
}

/// Start the advisor: whether this is the first time.
pub fn spawn(s: &mut Sidecar) -> (r: bool)
    ensures
        r == !old(s).started,
        *final(s) == (Sidecar { started: true, ..*old(s) }),
{
    let first: bool = !s.started;
    s.started = true;
    first
}

/// The crashes on startup in a row, after one more exit.
pub open spec fn fast_after(n: u32, ran_secs: u64) -> int {
    if ran_secs < FAST_SECS {
        n + 1
    } else {
        0
    }
}

/// The advisor exited with a code after so many seconds. A clean exit ends it; a crash starts it
/// again, unless it keeps crashing on startup.
pub fn on_exit(s: &mut Sidecar, code: Option<i32>, ran_secs: u64) -> (r: Next)
    requires
        old(s).fast_exits <= MAX_FAST_EXITS,
    ensures
        code == Some(0i32) ==> r == Next::Stop && *final(s) == *old(s),
        code != Some(0i32) ==> {
            let n = fast_after(old(s).fast_exits, ran_secs);
            &&& *final(s) == (Sidecar { fast_exits: n as u32, ..*old(s) })
            &&& r == (if n > MAX_FAST_EXITS {
                Next::GiveUp
            } else {
                Next::Restart
            })
        },
        r == Next::Restart ==> final(s).fast_exits <= MAX_FAST_EXITS,
{
    if let Some(c) = code {
        if c == 0 {
            return Next::Stop;
        }
    }
    if ran_secs < FAST_SECS {
        s.fast_exits = s.fast_exits + 1;
    } else {
        s.fast_exits = 0;
    }
    if s.fast_exits > MAX_FAST_EXITS {
        Next::GiveUp
    } else {
        Next::Restart
    }
}

/// The interpreter: the bundled one, or else the first of the usual names that works.
pub open spec fn interpreter(bundled: Option<Seq<char>>, works: Seq<bool>) -> Option<Seq<char>> {
    match bundled {
        Some(s) => Some(s),
        None => if works.len() > 0 && works[0] {
            Some("python"@)
        } else if works.len() > 1 && works[1] {
            Some("python3"@)
        } else if works.len() > 2 && works[2] {
            Some("py"@)
        } else {
            None
        },
    }
}

/// The interpreter to use. `works` says of `python`, `python3` and `py` whether they run.
pub fn resolve_python(bundled: Option<String>, works: &Vec<bool>) -> (r: Option<String>)
    ensures
        (match r {
            Some(s) => interpreter(
                match bundled {
                    Some(b) => Some(b@),
                    None => None,
                },
                works@,
            ) == Some(s@),
            None => interpreter(
                match bundled {
                    Some(b) => Some(b@),
                    None => None,
                },
                works@,
            ) is None,
        }),
{
    if let Some(b) = bundled {
        return Some(b);
    }
    if works.len() > 0 && works[0] {
        Some("python".to_owned())
    } else if works.len() > 1 && works[1] {
        Some("python3".to_owned())
    } else if works.len() > 2 && works[2] {
        Some("py".to_owned())
    } else {
        None
    }
}

/// A hexadecimal digit.
pub open spec fn hex_digit(d: int) -> char {
    if d == 10 {
        'a'
    } else if d == 11 {
        'b'
    } else if d == 12 {
        'c'
    } else if d == 13 {
        'd'
    } else if d == 14 {
        'e'
    } else if d == 15 {
        'f'
    } else {
        digit(d)
    }
}

/// The last `n` hexadecimal digits of a number.
pub open spec fn hex(v: int, n: nat) -> Seq<char>
    decreases n,
{
    if n == 0 {
        Seq::empty()
    } else {
        hex(v / 16, (n - 1) as nat).push(hex_digit(v % 16))
    }
}

/// A hexadecimal digit.
fn to_hex(d: u8) -> (r: char)
    requires
        d < 16,
    ensures
        r == hex_digit(d as int),
{
    match d {
        0 => '0',
        1 => '1',
        2 => '2',
        3 => '3',
        4 => '4',
        5 => '5',
        6 => '6',
        7 => '7',
        8 => '8',
        9 => '9',
        10 => 'a',
        11 => 'b',
        12 => 'c',
        13 => 'd',
        14 => 'e',
        _ => 'f',
    }
}

/// The last `n` hexadecimal digits of a number.
fn push_hex(out: &mut String, v: u128, n: usize)
    ensures
        final(out)@ == old(out)@ + hex(v as int, n as nat),
    decreases n,
{
    let ghost before = out@;
    if n > 0 {
        push_hex(out, v / 16, n - 1);
        let c: char = to_hex((v % 16) as u8);
        out.push(c);
        assert(out@ =~= before + hex(v as int, n as nat));
    } else {
        assert(before + hex(v as int, 0) =~= before);
    }
}

/// A token that tells this run from another: the time in nanoseconds and the process number, mixed, in
/// 32 hexadecimal digits.
pub fn gen_token(nanos: u128, pid: u32) -> (r: String)
    ensures
        r@ == hex((nanos ^ (pid as u128).wrapping_mul(SPREAD)) as int, 32),
        r@.len() == 32,
{
    let mut out: String = "".to_owned();
    proof {
        reveal_strlit("");
    }
    push_hex(&mut out, nanos ^ (pid as u128).wrapping_mul(SPREAD), 32);
    assert(out@ =~= hex((nanos ^ (pid as u128).wrapping_mul(SPREAD)) as int, 32));
    proof {
        lemma_token_length((nanos ^ (pid as u128).wrapping_mul(SPREAD)) as int, 32);
    }
    out
}

/// A number is spelled with as many hexadecimal digits as asked for, so every token is of one length.
pub proof fn lemma_token_length(v: int, n: nat)
    ensures
        hex(v, n).len() == n,
    decreases n,
{
    if n > 0 {
        lemma_token_length(v / 16, (n - 1) as nat);
    }
}

/// A run that lasts forgives the crashes before it, and only more crashes on startup in a row than are
/// borne end the attempts.
pub proof fn lemma_long_run_forgives(n: u32, ran_secs: u64)
    requires
        n <= MAX_FAST_EXITS,
    ensures
        ran_secs >= FAST_SECS ==> fast_after(n, ran_secs) == 0,
        fast_after(n, ran_secs) > MAX_FAST_EXITS <==> ran_secs < FAST_SECS && n == MAX_FAST_EXITS,
{
}

/// A run shorter than five seconds is one crash more; a longer one starts the count anew.
pub proof fn lemma_fast_after(n: u32, ran_secs: u64)
    ensures
        ran_secs < 5 ==> fast_after(n, ran_secs) == n + 1,
        ran_secs >= 5 ==> fast_after(n, ran_secs) == 0,
{
}

/// The interpreter is the one that came along, or else the first that works of `python`, `python3` and
/// `py`.
pub proof fn lemma_interpreter(bundled: Option<Seq<char>>, works: Seq<bool>)
    requires
        works.len() == 3,
    ensures
        bundled is Some ==> interpreter(bundled, works) == bundled,
        bundled is None && works[0] ==> interpreter(bundled, works) == Some("python"@),
        bundled is None && !works[0] && works[1] ==> interpreter(bundled, works) == Some("python3"@),
        bundled is None && !works[0] && !works[1] && works[2] ==> interpreter(bundled, works) == Some(
            "py"@,
        ),
        bundled is None && !works[0] && !works[1] && !works[2] ==> interpreter(bundled, works) is None,
{
}

/// The number that a row of hexadecimal digits spells.
pub open spec fn hex_value(s: Seq<char>) -> int
    decreases s.len(),
{
    if s.len() == 0 {
        0
    } else {
        hex_value(s.drop_last()) * 16 + (if '0' <= s.last() <= '9' {
            s.last() as int - '0' as int
        } else {
            s.last() as int - 'a' as int + 10
        })
    }
}

/// A token is written in small hexadecimal digits that spell its number.
pub proof fn lemma_hex(v: int, n: nat)
    requires
        0 <= v,
    ensures
        forall|i: int|
            0 <= i < hex(v, n).len() ==> '0' <= #[trigger] hex(v, n)[i] <= '9' || 'a' <= hex(v, n)[i] <= 'f',
        v < pow16(n) ==> hex_value(hex(v, n)) == v,
    decreases n,
{
    if n > 0 {
        let m = (n - 1) as nat;
        lemma_hex(v / 16, m);
        let r = hex(v, n);
        assert(r.drop_last() =~= hex(v / 16, m));
        assert(r.last() == hex_digit(v % 16));
        assert forall|i: int| 0 <= i < r.len() implies '0' <= #[trigger] r[i] <= '9' || 'a' <= r[i] <= 'f' by {
            if i < r.len() - 1 {
                assert(r[i] == hex(v / 16, m)[i]);
            }
        }
        if v < pow16(n) {
            assert(v / 16 < pow16(m));
        }
    }
}

/// Sixteen to a power.
pub open spec fn pow16(n: nat) -> int
    decreases n,
{
    if n == 0 {
        1
    } else {
        16 * pow16((n - 1) as nat)
    }
}

} // verus!
