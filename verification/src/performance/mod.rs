//! Performance and graphics.

use vstd::prelude::*;

use crate::bits::clamped;
use crate::performance::display::{
    Display, MAX_RENDER_SCALE, MAX_UI_SCALE, MIN_RENDER_SCALE, MIN_UI_SCALE,
};
use crate::performance::graphics::tier;
use crate::performance::graphics::Graphics;
use crate::settings::Settings;

pub mod display;
pub mod graphics;

verus! {

/// The performance domain.
#[derive(Clone, Copy, PartialEq, Eq, Structural, Debug)]
pub struct Performance {
    pub graphics: Graphics,
    pub display: Display,
    /// The frame-rate limit; 0 for none.
    pub fps_cap: i32,
    /// The cloth physics rate is uncapped.
    pub cloth_uncapped: bool,
    /// The cloth physics runs at the low-resources rate.
    pub cloth_low: bool,
}

/// Switch low-resources mode, for graphics and cloth physics alike.
pub fn set_low_spec(p: &mut Performance, on: bool)
    ensures
        *final(p) == (Performance {
            graphics: Graphics { low_spec: on, dirty: true, ..old(p).graphics },
            cloth_low: on,
            ..*old(p)
        }),
{
    graphics::set_low_spec(&mut p.graphics, on);
    p.cloth_low = on;
}

/// Set the low-resources tier, 1 to 3.
pub fn set_low_level(p: &mut Performance, v: i32)
    ensures
        *final(p) == (Performance {
            graphics: Graphics { low_level: tier(v), dirty: true, ..old(p).graphics },
            ..*old(p)
        }),
{
    graphics::set_low_level(&mut p.graphics, v);
}

/// The low-resources tier.
pub fn low_level(p: &Performance) -> (r: i32)
    ensures
        r == p.graphics.low_level,
{
    graphics::low_level(&p.graphics)
}

/// The performance domain as the settings ask for it.
pub open spec fn as_set(p: Performance, s: Settings) -> Performance {
    Performance {
        fps_cap: s.skip.fps,
        cloth_uncapped: s.gfx.cyspring_uncap,
        cloth_low: s.gfx.low_spec,
        graphics: Graphics {
            quality_on: s.gfx.gfx_quality,
            aa: s.gfx.gfx_aa,
            shadows: s.gfx.gfx_shadows,
            shadow_dist: s.gfx.gfx_shadow_dist,
            low_level: tier(s.gfx.low_level),
            low_spec: s.gfx.low_spec,
            dirty: true,
            ..p.graphics
        },
        display: Display {
            block_minimize: s.display.block_minimize,
            display_mode: s.display.display_mode,
            render_scale: clamped(s.display.render_scale, MIN_RENDER_SCALE, MAX_RENDER_SCALE),
            ui_scale: clamped(s.display.ui_scale, MIN_UI_SCALE, MAX_UI_SCALE),
            always_on_top: s.display.always_on_top,
            ..p.display
        },
    }
}

/// Apply the settings to the whole domain at startup.
pub fn apply(p: &mut Performance, s: &Settings)
    ensures
        *final(p) == as_set(*old(p), *s),
{
    p.fps_cap = s.skip.fps;
    p.cloth_uncapped = s.gfx.cyspring_uncap;
    let mut g = p.graphics;
    graphics::set_quality_unlocked(&mut g, s.gfx.gfx_quality);
    graphics::set_aa(&mut g, s.gfx.gfx_aa);
    graphics::set_shadows(&mut g, s.gfx.gfx_shadows);
    graphics::set_shadow_distance(&mut g, s.gfx.gfx_shadow_dist);
    let mut d = p.display;
    display::set_block_minimize(&mut d, s.display.block_minimize);
    display::set_display_mode(&mut d, s.display.display_mode);
    display::set_render_scale(&mut d, s.display.render_scale);
    display::set_ui_scale(&mut d, s.display.ui_scale);
    display::set_always_on_top(&mut d, s.display.always_on_top);
    graphics::set_low_level(&mut g, s.gfx.low_level);
    p.graphics = g;
    p.display = d;
    set_low_spec(p, s.gfx.low_spec);
}

/// Every part of the domain follows its own setting; the scales are kept within their bounds.
pub proof fn lemma_as_set(p: Performance, s: Settings)
    ensures
        ({
            let r = as_set(p, s);
            &&& r.fps_cap == s.skip.fps
            &&& r.cloth_uncapped == s.gfx.cyspring_uncap
            &&& r.cloth_low == s.gfx.low_spec
            &&& r.graphics.low_spec == s.gfx.low_spec
            &&& r.graphics.quality_on == s.gfx.gfx_quality
            &&& r.graphics.aa == s.gfx.gfx_aa
            &&& r.graphics.shadows == s.gfx.gfx_shadows
            &&& r.graphics.shadow_dist == s.gfx.gfx_shadow_dist
            &&& 1 <= s.gfx.low_level <= 3 ==> r.graphics.low_level == s.gfx.low_level
            &&& r.graphics.dirty
            &&& r.graphics.orig_taken == p.graphics.orig_taken && r.graphics.orig_aa == p.graphics.orig_aa
            &&& r.display.block_minimize == s.display.block_minimize
            &&& r.display.always_on_top == s.display.always_on_top
            &&& r.display.display_mode == s.display.display_mode
            &&& 0x3f00_0000 <= s.display.render_scale <= 0x4000_0000 ==> r.display.render_scale
                == s.display.render_scale
            &&& s.display.render_scale < 0x3f00_0000 ==> r.display.render_scale == 0x3f00_0000
            &&& 0x4000_0000 < s.display.render_scale <= 0x7f80_0000 ==> r.display.render_scale == 0x4000_0000
            &&& 0x3f33_3333 <= s.display.ui_scale <= 0x3fc0_0000 ==> r.display.ui_scale
                == s.display.ui_scale
            &&& s.display.ui_scale < 0x3f33_3333 ==> r.display.ui_scale == 0x3f33_3333
            &&& 0x3fc0_0000 < s.display.ui_scale <= 0x7f80_0000 ==> r.display.ui_scale == 0x3fc0_0000
            &&& r.display.hwnd == p.display.hwnd
        }),
{
}

} // verus!
