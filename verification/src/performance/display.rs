//! The window: what is asked of it, and what the game's own requests are turned into.

use vstd::prelude::*;

use crate::bits::clamp;
use crate::bits::{clamped, ONE};

verus! {

/// The bits of 0.5 and 2, the bounds of the render scale.
pub const MIN_RENDER_SCALE: u32 = 0x3f00_0000;

pub const MAX_RENDER_SCALE: u32 = 0x4000_0000;

/// The bits of 0.7 and 1.5, the bounds of the UI scale.
pub const MIN_UI_SCALE: u32 = 0x3f33_3333;

pub const MAX_UI_SCALE: u32 = 0x3fc0_0000;

/// The hook code of a window that is minimized or maximized.
pub const CODE_MINMAX: i32 = 1;

/// The show command that restores a window.
pub const SHOW_RESTORE: i32 = 9;

/// What is asked of the window. Scales are single-precision bits.
#[derive(Clone, Copy, PartialEq, Eq, Structural, Debug)]
pub struct Display {
    pub always_on_top: bool,
    pub block_minimize: bool,
    /// 0 off, 1 borderless, 2 exclusive, 3 windowed.
    pub display_mode: i32,
    pub render_scale: u32,
    pub ui_scale: u32,
    /// The game's window, once found; 0 before.
    pub hwnd: usize,
}

/// Nothing is asked of the window.
pub fn new_display() -> (r: Display)
    ensures
        r == (Display {
            always_on_top: false,
            block_minimize: false,
            display_mode: 0,
            render_scale: ONE,
            ui_scale: ONE,
            hwnd: 0,
        }),
{
    Display {
        always_on_top: false,
        block_minimize: false,
        display_mode: 0,
        render_scale: ONE,
        ui_scale: ONE,
        hwnd: 0,
    }
}

/// Whether the window stays on top.
pub fn always_on_top(d: &Display) -> (r: bool)
    ensures
        r == d.always_on_top,
{
    d.always_on_top
}

/// Keep the window on top, or not.
pub fn set_always_on_top(d: &mut Display, on: bool)
    ensures
        *final(d) == (Display { always_on_top: on, ..*old(d) }),
{
    d.always_on_top = on;
}

/// Whether the window is not minimized.
pub fn block_minimize(d: &Display) -> (r: bool)
    ensures
        r == d.block_minimize,
{
    d.block_minimize
}

/// Keep the window from being minimized, or not.
pub fn set_block_minimize(d: &mut Display, on: bool)
    ensures
        *final(d) == (Display { block_minimize: on, ..*old(d) }),
{
    d.block_minimize = on;
}

/// The display mode asked for.
pub fn display_mode(d: &Display) -> (r: i32)
    ensures
        r == d.display_mode,
{
    d.display_mode
}

/// Ask for a display mode.
pub fn set_display_mode(d: &mut Display, m: i32)
    ensures
        *final(d) == (Display { display_mode: m, ..*old(d) }),
{
    d.display_mode = m;
}

/// The render scale.
pub fn render_scale(d: &Display) -> (r: u32)
    ensures
        r == d.render_scale,
{
    d.render_scale
}

/// Store a render scale, 0.5 to 2. Nothing applies it.
pub fn set_render_scale(d: &mut Display, s: u32)
    ensures
        *final(d) == (Display {
            render_scale: clamped(s, MIN_RENDER_SCALE, MAX_RENDER_SCALE),
            ..*old(d)
        }),
{
    d.render_scale = clamp(s, MIN_RENDER_SCALE, MAX_RENDER_SCALE);
}

/// The UI scale.
pub fn ui_scale(d: &Display) -> (r: u32)
    ensures
        r == d.ui_scale,
{
    d.ui_scale
}

/// Store a UI scale, 0.7 to 1.5.
pub fn set_ui_scale(d: &mut Display, s: u32)
    ensures
        *final(d) == (Display {
            ui_scale: clamped(s, MIN_UI_SCALE, MAX_UI_SCALE),
            ..*old(d)
        }),
{
    d.ui_scale = clamp(s, MIN_UI_SCALE, MAX_UI_SCALE);
}

/// The game's window: the one found before, or else the first of those `found` now that is one; 0
/// where there is none.
pub open spec fn window_of(d: Display, found: Seq<usize>) -> usize
    decreases found.len(),
{
    if d.hwnd != 0 {
        d.hwnd
    } else if found.len() == 0 {
        0
    } else if found[0] != 0 {
        found[0]
    } else {
        window_of(d, found.drop_first())
    }
}

/// The game's window, remembered once it is found. `found` is what a search for each of the
/// window's titles gives.
pub fn game_hwnd(d: &mut Display, found: &Vec<usize>) -> (r: usize)
    ensures
        r == window_of(*old(d), found@),
        *final(d) == (Display { hwnd: r, ..*old(d) }),
{
    if d.hwnd != 0 {
        return d.hwnd;
    }
    let ghost before = *d;
    let mut i: usize = 0;
    assert(found@.skip(0) =~= found@);
    while i < found.len()
        invariant
            i <= found.len(),
            d.hwnd == 0,
            *d == before,
            window_of(before, found@) == window_of(before, found@.skip(i as int)),
            before == *old(d),
        decreases found.len() - i,
    {
        assert(found@.skip(i as int)[0] == found@[i as int]);
        if found[i] != 0 {
            d.hwnd = found[i];
            return found[i];
        }
        assert(found@.skip(i as int).drop_first() =~= found@.skip(i as int + 1));
        i = i + 1;
    }
    0
}

/// The full-screen mode that a request of the game is turned into: the user's, or the game's own.
pub open spec fn screen_mode(d: Display, requested: i32) -> i32 {
    if d.display_mode == 1 {
        1
    } else if d.display_mode == 2 {
        0
    } else if d.display_mode == 3 {
        3
    } else {
        requested
    }
}

/// The game asks for a resolution: the full-screen mode that it is given. The size is passed on.
pub fn on_set_resolution(d: &Display, requested: i32) -> (r: i32)
    ensures
        r == screen_mode(*d, requested),
{
    match d.display_mode {
        1 => 1,
        2 => 0,
        3 => 3,
        _ => requested,
    }
}

/// Whether a window operation is swallowed: a minimize or maximize that is no restore, while
/// minimizing is blocked.
pub fn swallows(d: &Display, code: i32, show: i32) -> (r: bool)
    ensures
        r == (code == CODE_MINMAX && show != SHOW_RESTORE && d.block_minimize),
{
    code == CODE_MINMAX && show != SHOW_RESTORE && d.block_minimize
}

/// With no display mode asked for, the game's requests pass through unchanged.
pub proof fn lemma_off_passes_through(d: Display, requested: i32)
    requires
        d.display_mode == 0,
    ensures
        screen_mode(d, requested) == requested,
{
}

/// Report on the installation. `found` says whether the game's resolution request is known, `detoured`
/// whether someone else watches it, `hooked` whether it could be watched.
pub fn install(found: bool, detoured: bool, hooked: bool) -> (r: Result<&'static str, &'static str>)
    ensures
        (match r {
            Ok(t) => found && !detoured && hooked && t@ == "[display] hooks: fullscreen"@,
            Err(e) => !(found && !detoured && hooked) && e@ == "no display hooks installed"@,
        }),
{
    if found && !detoured && hooked {
        Ok("[display] hooks: fullscreen")
    } else {
        Err("no display hooks installed")
    }
}

/// The window is the one already known, or else the first that is found at all.
pub proof fn lemma_window_of(d: Display, found: Seq<usize>, i: int)
    requires
        0 <= i < found.len(),
        found[i] != 0,
        forall|j: int| 0 <= j < i ==> #[trigger] found[j] == 0,
    ensures
        d.hwnd != 0 ==> window_of(d, found) == d.hwnd,
        d.hwnd == 0 ==> window_of(d, found) == found[i],
    decreases found.len(),
{
    if d.hwnd == 0 && i > 0 {
        let t = found.drop_first();
        assert(found[0] == 0);
        assert(t[i - 1] == found[i]);
        assert forall|j: int| 0 <= j < i - 1 implies #[trigger] t[j] == 0 by {
            assert(t[j] == found[j + 1]);
        }
        lemma_window_of(d, t, i - 1);
    }
}

/// Where no window is found, none is made up.
pub proof fn lemma_no_window(d: Display, found: Seq<usize>)
    requires
        forall|j: int| 0 <= j < found.len() ==> #[trigger] found[j] == 0,
    ensures
        window_of(d, found) == d.hwnd,
    decreases found.len(),
{
    if d.hwnd == 0 && found.len() > 0 {
        let t = found.drop_first();
        assert(found[0] == 0);
        assert forall|j: int| 0 <= j < t.len() implies #[trigger] t[j] == 0 by {
            assert(t[j] == found[j + 1]);
        }
        lemma_no_window(d, t);
    }
}

/// The chosen mode is asked for in the engine's own numbers: borderless 1, exclusive 0, windowed 3; with
/// no choice the game's own request stands.
pub proof fn lemma_screen_mode(d: Display, requested: i32)
    ensures
        d.display_mode == 1 ==> screen_mode(d, requested) == 1,
        d.display_mode == 2 ==> screen_mode(d, requested) == 0,
        d.display_mode == 3 ==> screen_mode(d, requested) == 3,
        d.display_mode < 1 || d.display_mode > 3 ==> screen_mode(d, requested) == requested,
{
}

} // verus!
