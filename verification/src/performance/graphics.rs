//! Model quality and the graphics knobs: what is asked for, when it is pushed to the engine, and what
//! is given back when nothing is asked for any more.

use vstd::prelude::*;

use crate::bits::{at_least, MINUS_ONE, ZERO};
use crate::bits::reaches;
use crate::text::{has_text, lower};
use crate::text::{lowered, occurs};

verus! {

/// The quality tier of full-quality models.
pub const QUALITY_FULL: i32 = 3;

/// How long, in milliseconds, a pass is good for.
pub const REAPPLY_MS: u64 = 2000;

/// The bits of 20, the shadow distance of the mildest low-resources tier.
pub const LOW_SHADOW_DIST: u32 = 0x41a0_0000;

/// The knobs, and what is known of the engine's own values. Distances are single-precision bits.
#[derive(Clone, Copy, PartialEq, Eq, Structural, Debug)]
pub struct Graphics {
    pub quality_on: bool,
    pub low_spec: bool,
    /// 1 to 3.
    pub low_level: i32,
    /// Anti-aliasing samples; negative leaves the game's.
    pub aa: i32,
    /// 0 switches shadows off; negative leaves the game's.
    pub shadows: i32,
    /// 0 switches shadows off; negative leaves the game's.
    pub shadow_dist: u32,
    /// A knob changed since the last pass.
    pub dirty: bool,
    pub last_apply_ms: u64,
    /// A value of ours is still in the engine.
    pub touched: bool,
    /// The engine's own values were read.
    pub orig_taken: bool,
    pub orig_aa: i32,
    pub orig_shadow_dist: u32,
    /// The quality tier we last asked for; negative for none.
    pub applied_q: i32,
    /// The game's own quality tier; negative while unknown.
    pub orig_q: i32,
    /// How often the game applied its quality tier.
    pub apply_count: u32,
    /// What the engine last reported; negative for never.
    pub seen_aa: i32,
    pub seen_shadow_dist: u32,
    /// When the game's settings object was last searched for.
    pub last_find_ms: u64,
}

/// What a pass writes to the engine; `None` leaves a value alone.
#[derive(Clone, Copy, PartialEq, Eq, Structural, Debug)]
pub struct Writes {
    pub aa: Option<i32>,
    pub pixel_lights: Option<i32>,
    pub lod_cross_fade: Option<bool>,
    pub shadow_dist: Option<u32>,
    /// The quality tier asked for; negative for the game's own.
    pub quality: i32,
}

/// Whether a distance is at least 0.
pub open spec fn known(d: u32) -> bool {
    at_least(d, ZERO)
}

/// Whether any knob is set.
pub open spec fn overridden(g: Graphics) -> bool {
    g.low_spec || g.aa >= 0 || g.shadows >= 0 || known(g.shadow_dist)
}

/// A tier from 1 to 3.
pub open spec fn tier(v: i32) -> i32 {
    if v < 1 {
        1
    } else if v > 3 {
        3
    } else {
        v
    }
}

/// Whether a pass is due: something is set or still in the engine, and either a knob changed or the
/// last pass is too long ago.
pub open spec fn pass_due(g: Graphics, now: u64) -> bool {
    (overridden(g) || g.touched) && (g.dirty || now - g.last_apply_ms >= REAPPLY_MS)
}

/// The state with the engine's own values noted, if they had not been.
pub open spec fn with_originals(g: Graphics, aa: Option<i32>, dist: Option<u32>) -> Graphics {
    if g.orig_taken {
        g
    } else {
        Graphics {
            orig_taken: true,
            orig_aa: match aa {
                Some(v) => v,
                None => g.orig_aa,
            },
            orig_shadow_dist: match dist {
                Some(v) => v,
                None => g.orig_shadow_dist,
            },
            ..g
        }
    }
}

/// What a pass writes, once the engine's own values are noted.
pub open spec fn writes_of(g: Graphics) -> Writes {
    if g.low_spec {
        Writes {
            aa: Some(0),
            pixel_lights: Some(0),
            lod_cross_fade: Some(false),
            shadow_dist: Some(
                if g.low_level >= 2 {
                    ZERO
                } else {
                    LOW_SHADOW_DIST
                },
            ),
            quality: if g.low_level >= 3 {
                0
            } else {
                (-1) as i32
            },
        }
    } else {
        Writes {
            aa: if g.aa >= 0 {
                Some(g.aa)
            } else if g.orig_taken && g.orig_aa >= 0 {
                Some(g.orig_aa)
            } else {
                None
            },
            pixel_lights: None,
            lod_cross_fade: None,
            shadow_dist: if g.shadows == 0 {
                Some(ZERO)
            } else if known(g.shadow_dist) {
                Some(g.shadow_dist)
            } else if g.orig_taken && known(g.orig_shadow_dist) {
                Some(g.orig_shadow_dist)
            } else {
                None
            },
            quality: (-1) as i32,
        }
    }
}

/// The state at startup: no knob set.
pub fn new_graphics() -> (r: Graphics)
    ensures
        r == (Graphics {
            quality_on: false,
            low_spec: false,
            low_level: 1,
            aa: (-1) as i32,
            shadows: (-1) as i32,
            shadow_dist: MINUS_ONE,
            dirty: true,
            last_apply_ms: 0,
            touched: false,
            orig_taken: false,
            orig_aa: (-1) as i32,
            orig_shadow_dist: MINUS_ONE,
            applied_q: (-1) as i32,
            orig_q: (-1) as i32,
            apply_count: 0,
            seen_aa: (-1) as i32,
            seen_shadow_dist: MINUS_ONE,
            last_find_ms: 0,
        }),
        !overridden(r),
{
    Graphics {
        quality_on: false,
        low_spec: false,
        low_level: 1,
        aa: -1,
        shadows: -1,
        shadow_dist: MINUS_ONE,
        dirty: true,
        last_apply_ms: 0,
        touched: false,
        orig_taken: false,
        orig_aa: -1,
        orig_shadow_dist: MINUS_ONE,
        applied_q: -1,
        orig_q: -1,
        apply_count: 0,
        seen_aa: -1,
        seen_shadow_dist: MINUS_ONE,
        last_find_ms: 0,
    }
}

/// The shadow distance asked for.
pub fn shadow_distance(g: &Graphics) -> (r: u32)
    ensures
        r == g.shadow_dist,
{
    g.shadow_dist
}

/// Ask for a shadow distance.
pub fn set_shadow_distance(g: &mut Graphics, v: u32)
    ensures
        *final(g) == (Graphics { shadow_dist: v, dirty: true, ..*old(g) }),
{
    g.shadow_dist = v;
    g.dirty = true;
}

/// Force full-quality models.
pub fn set_quality_unlocked(g: &mut Graphics, on: bool)
    ensures
        *final(g) == (Graphics { quality_on: on, dirty: true, ..*old(g) }),
{
    g.quality_on = on;
    g.dirty = true;
}

/// Whether low-resources mode is on.
pub fn low_spec(g: &Graphics) -> (r: bool)
    ensures
        r == g.low_spec,
{
    g.low_spec
}

/// Switch low-resources mode.
pub fn set_low_spec(g: &mut Graphics, on: bool)
    ensures
        *final(g) == (Graphics { low_spec: on, dirty: true, ..*old(g) }),
{
    g.low_spec = on;
    g.dirty = true;
}

/// The low-resources tier.
pub fn low_level(g: &Graphics) -> (r: i32)
    ensures
        r == g.low_level,
{
    g.low_level
}

/// Set the low-resources tier, 1 to 3.
pub fn set_low_level(g: &mut Graphics, v: i32)
    ensures
        *final(g) == (Graphics { low_level: tier(v), dirty: true, ..*old(g) }),
        1 <= final(g).low_level <= 3,
{
    g.low_level = if v < 1 {
        1
    } else if v > 3 {
        3
    } else {
        v
    };
    g.dirty = true;
}

/// The anti-aliasing asked for.
pub fn aa(g: &Graphics) -> (r: i32)
    ensures
        r == g.aa,
{
    g.aa
}

/// Ask for anti-aliasing.
pub fn set_aa(g: &mut Graphics, v: i32)
    ensures
        *final(g) == (Graphics { aa: v, dirty: true, ..*old(g) }),
{
    g.aa = v;
    g.dirty = true;
}

/// The shadow mode asked for.
pub fn shadows(g: &Graphics) -> (r: i32)
    ensures
        r == g.shadows,
{
    g.shadows
}

/// Ask for a shadow mode.
pub fn set_shadows(g: &mut Graphics, v: i32)
    ensures
        *final(g) == (Graphics { shadows: v, dirty: true, ..*old(g) }),
{
    g.shadows = v;
    g.dirty = true;
}

/// How often the game applied its quality tier.
pub fn apply_count(g: &Graphics) -> (r: u32)
    ensures
        r == g.apply_count,
{
    g.apply_count
}

/// Whether any knob is set.
fn has_overrides(g: &Graphics) -> (r: bool)
    ensures
        r == overridden(*g),
{
    g.low_spec || g.aa >= 0 || g.shadows >= 0 || reaches(g.shadow_dist, ZERO)
}

/// The main-thread tick: whether a pass is to be made now. With nothing set, and nothing of ours in
/// the engine, never.
pub fn pump(g: &mut Graphics, now: u64) -> (r: bool)
    ensures
        r == pass_due(*old(g), now),
        *final(g) == (if r {
            Graphics { dirty: false, last_apply_ms: now, ..*old(g) }
        } else {
            *old(g)
        }),
{
    if !has_overrides(g) && !g.touched {
        return false;
    }
    let recent: bool = now < g.last_apply_ms || now - g.last_apply_ms < REAPPLY_MS;
    if !g.dirty && recent {
        return false;
    }
    g.dirty = false;
    g.last_apply_ms = now;
    true
}

/// A pass: note the engine's own values, if this is the first one, and say what to write. `aa` and
/// `dist` are what the engine reads back, where it does.
pub fn apply_now(g: &mut Graphics, aa: Option<i32>, dist: Option<u32>) -> (r: Writes)
    ensures
        *final(g) == (Graphics {
            touched: overridden(*old(g)),
            ..with_originals(*old(g), aa, dist)
        }),
        r == writes_of(with_originals(*old(g), aa, dist)),
{
    if !g.orig_taken {
        g.orig_taken = true;
        if let Some(v) = aa {
            g.orig_aa = v;
        }
        if let Some(v) = dist {
            g.orig_shadow_dist = v;
        }
    }
    g.touched = has_overrides(g);
    if g.low_spec {
        return Writes {
            aa: Some(0),
            pixel_lights: Some(0),
            lod_cross_fade: Some(false),
            shadow_dist: Some(
                if g.low_level >= 2 {
                    ZERO
                } else {
                    LOW_SHADOW_DIST
                },
            ),
            quality: if g.low_level >= 3 {
                0
            } else {
                -1
            },
        };
    }
    let new_aa: Option<i32> = if g.aa >= 0 {
        Some(g.aa)
    } else if g.orig_aa >= 0 {
        Some(g.orig_aa)
    } else {
        None
    };
    let new_dist: Option<u32> = if g.shadows == 0 {
        Some(ZERO)
    } else if reaches(g.shadow_dist, ZERO) {
        Some(g.shadow_dist)
    } else if reaches(g.orig_shadow_dist, ZERO) {
        Some(g.orig_shadow_dist)
    } else {
        None
    };
    Writes {
        aa: new_aa,
        pixel_lights: None,
        lod_cross_fade: None,
        shadow_dist: new_dist,
        quality: -1,
    }
}

/// The game's own tier, once it has been looked at.
pub open spec fn own_tier(g: Graphics, own: Option<i32>) -> i32 {
    if g.orig_q < 0 {
        match own {
            Some(v) => v,
            None => g.orig_q,
        }
    } else {
        g.orig_q
    }
}

/// The tier to apply when `want` is asked for: `want` itself, or the game's own for a negative one.
pub open spec fn tier_wanted(g: Graphics, want: i32, own: Option<i32>) -> i32 {
    if want >= 0 {
        want
    } else {
        own_tier(g, own)
    }
}

/// Ask for a quality tier of the game. Only a change is applied. `found` says whether the game's
/// settings object is there, `callable` whether its method is; `own` is the tier it reports.
/// Returns the tier to apply, if any.
pub fn apply_game_quality(
    g: &mut Graphics,
    want: i32,
    found: bool,
    callable: bool,
    own: Option<i32>,
) -> (r: Option<i32>)
    ensures
        want == old(g).applied_q || !found ==> r is None && *final(g) == *old(g),
        want != old(g).applied_q && found ==> {
            let t = tier_wanted(*old(g), want, own);
            &&& r == (if t >= 0 && callable {
                Some(t)
            } else {
                None
            })
            &&& *final(g) == (Graphics {
                orig_q: own_tier(*old(g), own),
                applied_q: if t >= 0 && callable {
                    want
                } else {
                    old(g).applied_q
                },
                ..*old(g)
            })
        },
{
    if want == g.applied_q || !found {
        return None;
    }
    if g.orig_q < 0 {
        if let Some(v) = own {
            g.orig_q = v;
        }
    }
    let target: i32 = if want >= 0 {
        want
    } else {
        g.orig_q
    };
    if target < 0 || !callable {
        return None;
    }
    g.applied_q = want;
    Some(target)
}

/// How long, in milliseconds, a search for the game's settings object is not repeated.
pub const FIND_MS: u64 = 3000;

/// Whether the game's settings object is searched for now; a search walks every live object.
pub fn search_due(g: &mut Graphics, now: u64) -> (r: bool)
    ensures
        r == (now - old(g).last_find_ms >= FIND_MS),
        *final(g) == (if r {
            Graphics { last_find_ms: now, ..*old(g) }
        } else {
            *old(g)
        }),
{
    if now < g.last_find_ms || now - g.last_find_ms < FIND_MS {
        return false;
    }
    g.last_find_ms = now;
    true
}

/// What the engine last reported: anti-aliasing and shadow distance.
pub fn readback(g: &Graphics) -> (r: (i32, u32))
    ensures
        r == (g.seen_aa, g.seen_shadow_dist),
{
    (g.seen_aa, g.seen_shadow_dist)
}

/// Note what the engine reports after a pass, where it does.
pub fn note_readback(g: &mut Graphics, aa: Option<i32>, dist: Option<u32>)
    ensures
        *final(g) == (Graphics {
            seen_aa: match aa {
                Some(v) => v,
                None => old(g).seen_aa,
            },
            seen_shadow_dist: match dist {
                Some(v) => v,
                None => old(g).seen_shadow_dist,
            },
            ..*old(g)
        }),
{
    if let Some(v) = aa {
        g.seen_aa = v;
    }
    if let Some(v) = dist {
        g.seen_shadow_dist = v;
    }
}

/// How the resolution of an engine function is reported.
pub fn ok_miss(slot: usize) -> (r: &'static str)
    ensures
        r@ == (if slot == 0 {
            "MISS"@
        } else {
            "ok"@
        }),
{
    if slot == 0 {
        "MISS"
    } else {
        "ok"
    }
}

/// The game applies a quality tier: which one it is given, and whether by force.
pub fn on_apply_quality(g: &mut Graphics, quality: i32, force: bool) -> (r: (i32, bool))
    ensures
        *final(g) == (Graphics { apply_count: old(g).apply_count.wrapping_add(1), ..*old(g) }),
        r == (if old(g).low_spec {
            (0i32, true)
        } else if old(g).quality_on {
            (QUALITY_FULL, true)
        } else {
            (quality, force)
        }),
{
    g.apply_count = g.apply_count.wrapping_add(1);
    if g.low_spec {
        (0, true)
    } else if g.quality_on {
        (QUALITY_FULL, true)
    } else {
        (quality, force)
    }
}

/// With no knob set and nothing of ours in the engine, no pass is ever made.
pub proof fn lemma_untouched_stays_untouched(g: Graphics, now: u64)
    requires
        !overridden(g),
        !g.touched,
    ensures
        !pass_due(g, now),
{
}

/// Clearing the last knob owes the engine one pass, which gives its own values back; then no pass is
/// made any more.
pub proof fn lemma_clearing_restores_once(g: Graphics, now: u64)
    requires
        !overridden(g),
        g.touched,
        g.dirty,
        g.orig_taken,
        g.orig_aa >= 0,
        known(g.orig_shadow_dist),
    ensures
        pass_due(g, now),
        writes_of(g).aa == Some(g.orig_aa),
        writes_of(g).shadow_dist == Some(g.orig_shadow_dist),
        forall|later: u64| #[trigger]
            pass_due(Graphics { touched: overridden(g), dirty: false, ..g }, later) == false,
{
}

/// A change of a knob is pushed at the next tick.
pub proof fn lemma_change_is_pushed(g: Graphics, now: u64)
    requires
        overridden(g),
        g.dirty,
    ensures
        pass_due(g, now),
{
}

/// A shadow distance of 0 is a choice: it is pushed, and switches shadows off.
pub proof fn lemma_no_distance_is_no_shadows(g: Graphics)
    requires
        g.shadow_dist == ZERO,
    ensures
        overridden(g),
        !g.low_spec ==> writes_of(g).shadow_dist == Some(ZERO),
{
}

/// What was found of the engine at startup; 0 for what was not.
#[derive(Clone, Copy, PartialEq, Eq, Structural, Debug)]
pub struct Slots {
    pub apply_quality: usize,
    pub get_quality: usize,
    pub find_object: usize,
    pub class_object: usize,
    /// The engine's quality settings were found at all.
    pub engine: bool,
    pub set_aa: usize,
    pub set_pixel_lights: usize,
    pub set_shadow_distance: usize,
    pub set_lod_fade: usize,
    pub get_aa: usize,
    pub get_shadow_distance: usize,
}

/// How a slot is reported.
pub open spec fn slot_word(slot: usize) -> Seq<char> {
    if slot == 0 {
        "MISS"@
    } else {
        "ok"@
    }
}

/// Whether a method's name tells that it has to do with quality.
pub open spec fn telling(name: Seq<char>) -> bool {
    occurs(lowered(name), "quality"@) || occurs(lowered(name), "instance"@) || occurs(
        lowered(name),
        "setting"@,
    )
}

/// The places of the telling names among the first `n`.
pub open spec fn telling_places(names: Seq<String>, n: nat) -> Seq<usize>
    decreases n,
{
    if n == 0 {
        Seq::empty()
    } else {
        let rest = telling_places(names, (n - 1) as nat);
        if telling(names[n - 1]@) {
            rest.push((n - 1) as usize)
        } else {
            rest
        }
    }
}

/// The places of the telling names.
pub fn candidates(names: &Vec<String>) -> (r: Vec<usize>)
    ensures
        r@ == telling_places(names@, names@.len()),
{
    let mut out: Vec<usize> = Vec::new();
    let mut i: usize = 0;
    while i < names.len()
        invariant
            i <= names.len(),
            out@ == telling_places(names@, i as nat),
        decreases names.len() - i,
    {
        let l: String = lower(names[i].as_str());
        if has_text(l.as_str(), "quality") || has_text(l.as_str(), "instance") || has_text(
            l.as_str(),
            "setting",
        ) {
            out.push(i);
        }
        i = i + 1;
    }
    out
}

/// The report on the quality driver.
pub open spec fn driver_line(s: Slots) -> Seq<char> {
    "[graphics] game-quality driver: ApplyGraphicsQuality="@ + slot_word(s.apply_quality)
        + " GetQuality="@ + slot_word(s.get_quality) + " FindObjectOfType="@ + slot_word(
        s.find_object,
    ) + " typeof="@ + slot_word(s.class_object)
}

/// The report on the setters.
pub open spec fn setters_line(s: Slots) -> Seq<char> {
    if !s.engine {
        "[graphics] QualitySettings class NOT FOUND \u{2014} every graphics knob is a no-op!"@
    } else {
        "[graphics] QualitySettings setters: aa="@ + slot_word(s.set_aa) + " pixellights="@
            + slot_word(s.set_pixel_lights) + " shadowdist="@ + slot_word(s.set_shadow_distance)
            + " lodcrossfade="@ + slot_word(s.set_lod_fade)
    }
}

/// The report on the getters, where there is one.
pub open spec fn getters_line(s: Slots) -> Option<Seq<char>> {
    if !s.engine {
        None
    } else {
        Some(
            "[graphics] QualitySettings getters: aa="@ + slot_word(s.get_aa) + " shadowdist="@
                + slot_word(s.get_shadow_distance),
        )
    }
}

/// Report on the installation: on the driver, the setters and the getters. `class` says whether the
/// game's settings were found, `hooked` whether their application is watched.
pub fn install(class: bool, hooked: &Result<(), String>, s: &Slots) -> (r: Result<
    (String, String, Option<String>),
    String,
>)
    ensures
        (match r {
            Ok(l) => class && hooked is Ok && l.0@ == driver_line(*s) && l.1@ == setters_line(*s)
                && (match l.2 {
                Some(g) => getters_line(*s) == Some(g@),
                None => getters_line(*s) is None,
            }),
            Err(e) => if !class {
                e@ == "GraphicSettings not found"@
            } else {
                hooked is Err && e@ == (hooked->Err_0)@
            },
        }),
{
    if !class {
        return Err("GraphicSettings not found".to_owned());
    }
    if let Err(e) = hooked {
        return Err(e.as_str().to_owned());
    }
    let mut driver: String = "[graphics] game-quality driver: ApplyGraphicsQuality=".to_owned();
    driver.append(ok_miss(s.apply_quality));
    driver.append(" GetQuality=");
    driver.append(ok_miss(s.get_quality));
    driver.append(" FindObjectOfType=");
    driver.append(ok_miss(s.find_object));
    driver.append(" typeof=");
    driver.append(ok_miss(s.class_object));
    if !s.engine {
        let none: String =
            "[graphics] QualitySettings class NOT FOUND \u{2014} every graphics knob is a no-op!".to_owned();
        return Ok((driver, none, None));
    }
    let mut setters: String = "[graphics] QualitySettings setters: aa=".to_owned();
    setters.append(ok_miss(s.set_aa));
    setters.append(" pixellights=");
    setters.append(ok_miss(s.set_pixel_lights));
    setters.append(" shadowdist=");
    setters.append(ok_miss(s.set_shadow_distance));
    setters.append(" lodcrossfade=");
    setters.append(ok_miss(s.set_lod_fade));
    let mut getters: String = "[graphics] QualitySettings getters: aa=".to_owned();
    getters.append(ok_miss(s.get_aa));
    getters.append(" shadowdist=");
    getters.append(ok_miss(s.get_shadow_distance));
    Ok((driver, setters, Some(getters)))
}

/// What is written to the engine in low-spec mode: no smoothing, no lights, no fading, and shadows up to
/// 20 m at level 1 and none above; at level 3 the lowest quality too.
pub proof fn lemma_low_spec(g: Graphics)
    requires
        g.low_spec,
    ensures
        overridden(g),
        writes_of(g).aa == Some(0i32),
        writes_of(g).pixel_lights == Some(0i32),
        writes_of(g).lod_cross_fade == Some(false),
        g.low_level < 2 ==> writes_of(g).shadow_dist == Some(0x41a0_0000u32),
        g.low_level >= 2 ==> writes_of(g).shadow_dist == Some(0u32),
        g.low_level >= 3 ==> writes_of(g).quality == 0,
        g.low_level < 3 ==> writes_of(g).quality == -1,
{
}

/// Otherwise a knob is written as it is set, else as the engine had it, else not at all.
pub proof fn lemma_knobs(g: Graphics)
    requires
        !g.low_spec,
    ensures
        overridden(g) <==> g.aa >= 0 || g.shadows >= 0 || g.shadow_dist <= 0x7f80_0000 || g.shadow_dist
            == 0x8000_0000,
        g.aa >= 0 ==> writes_of(g).aa == Some(g.aa),
        g.aa < 0 && g.orig_taken && g.orig_aa >= 0 ==> writes_of(g).aa == Some(g.orig_aa),
        g.aa < 0 && !(g.orig_taken && g.orig_aa >= 0) ==> writes_of(g).aa is None,
        g.shadows == 0 ==> writes_of(g).shadow_dist == Some(0u32),
        g.shadows != 0 && g.shadow_dist <= 0x7f80_0000 ==> writes_of(g).shadow_dist == Some(
            g.shadow_dist,
        ),
        g.shadows != 0 && !known(g.shadow_dist) && g.orig_taken && g.orig_shadow_dist <= 0x7f80_0000
            ==> writes_of(g).shadow_dist == Some(g.orig_shadow_dist),
        g.shadows != 0 && !known(g.shadow_dist) && !g.orig_taken ==> writes_of(g).shadow_dist is None,
        writes_of(g).pixel_lights is None && writes_of(g).lod_cross_fade is None,
        writes_of(g).quality == -1,
{
}

/// A level is from 1 to 3; a pass is made again every two seconds while anything is overridden.
pub proof fn lemma_passes(g: Graphics, v: i32, now: u64)
    ensures
        1 <= tier(v) <= 3,
        1 <= v <= 3 ==> tier(v) == v,
        v <= 1 ==> tier(v) == 1,
        v >= 3 ==> tier(v) == 3,
        pass_due(g, now) <==> (overridden(g) || g.touched) && (g.dirty || g.last_apply_ms + 2000 <= now),
{
}

/// The engine's own values are taken once, each as it was read.
pub proof fn lemma_originals(g: Graphics, aa: Option<i32>, dist: Option<u32>)
    ensures
        g.orig_taken ==> with_originals(g, aa, dist) == g,
        !g.orig_taken ==> {
            let h = with_originals(g, aa, dist);
            &&& h.orig_taken
            &&& aa matches Some(v) ==> h.orig_aa == v
            &&& aa is None ==> h.orig_aa == g.orig_aa
            &&& dist matches Some(v) ==> h.orig_shadow_dist == v
            &&& dist is None ==> h.orig_shadow_dist == g.orig_shadow_dist
            &&& h.aa == g.aa && h.shadows == g.shadows && h.shadow_dist == g.shadow_dist && h.low_spec
                == g.low_spec && h.dirty == g.dirty && h.touched == g.touched
        },
{
}

/// The quality that is wanted goes first, else the one that the game had before, else the one it has.
pub proof fn lemma_tier_wanted(g: Graphics, want: i32, own: Option<i32>)
    ensures
        want >= 0 ==> tier_wanted(g, want, own) == want,
        want < 0 && g.orig_q >= 0 ==> tier_wanted(g, want, own) == g.orig_q,
        want < 0 && g.orig_q < 0 ==> (own matches Some(v) ==> tier_wanted(g, want, own) == v),
        want < 0 && g.orig_q < 0 && own is None ==> tier_wanted(g, want, own) == g.orig_q,
{
}

/// The names that tell are those that speak of quality, an instance or a setting, in any letter case; all
/// of them are listed, in their order.
pub proof fn lemma_telling(names: Seq<String>, n: nat)
    requires
        n <= names.len(),
        n <= usize::MAX,
    ensures
        forall|i: int|
            0 <= i < n ==> (telling_places(names, n).contains(i as usize) <==> occurs(
                lowered((#[trigger] names[i])@),
                "quality"@,
            ) || occurs(lowered(names[i]@), "instance"@) || occurs(lowered(names[i]@), "setting"@)),
        forall|k: int| 0 <= k < telling_places(names, n).len() ==> #[trigger] telling_places(names, n)[k] < n,
        forall|j: int, k: int|
            0 <= j < k < telling_places(names, n).len() ==> #[trigger] telling_places(names, n)[j]
                < #[trigger] telling_places(names, n)[k],
    decreases n,
{
    if n > 0 {
        let m = (n - 1) as nat;
        lemma_telling(names, m);
        let rest = telling_places(names, m);
        let all = telling_places(names, n);
        assert forall|k: int| 0 <= k < rest.len() implies rest[k] == #[trigger] all[k] by {}
        assert forall|i: int| 0 <= i < n implies (all.contains(i as usize) <==> occurs(
            lowered((#[trigger] names[i])@),
            "quality"@,
        ) || occurs(lowered(names[i]@), "instance"@) || occurs(lowered(names[i]@), "setting"@)) by {
            if i < m {
                if rest.contains(i as usize) {
                    let k = choose|k: int| 0 <= k < rest.len() && rest[k] == i as usize;
                    assert(all[k] == i as usize);
                }
                if all.contains(i as usize) {
                    let k = choose|k: int| 0 <= k < all.len() && all[k] == i as usize;
                    if k < rest.len() {
                        assert(rest[k] == i as usize);
                    }
                }
            } else {
                if telling(names[i]@) {
                    assert(all[all.len() - 1] == i as usize);
                } else if all.contains(i as usize) {
                    let k = choose|k: int| 0 <= k < all.len() && all[k] == i as usize;
                    assert(rest[k] < m);
                }
            }
        }
        assert forall|j: int, k: int| 0 <= j < k < all.len() implies #[trigger] all[j]
            < #[trigger] all[k] by {
            if k < rest.len() {
                assert(rest[j] < rest[k]);
            } else {
                assert(rest[j] < m);
            }
        }
    }
}

/// A slot that was found reads `ok`, one that was not `MISS`.
pub proof fn lemma_slots(s: Slots, slot: usize)
    ensures
        slot == 0 ==> slot_word(slot) == "MISS"@,
        slot != 0 ==> slot_word(slot) == "ok"@,
        driver_line(s) == "[graphics] game-quality driver: ApplyGraphicsQuality="@ + slot_word(
            s.apply_quality,
        ) + " GetQuality="@ + slot_word(s.get_quality) + " FindObjectOfType="@ + slot_word(s.find_object)
            + " typeof="@ + slot_word(s.class_object),
        s.engine ==> setters_line(s) == "[graphics] QualitySettings setters: aa="@ + slot_word(s.set_aa)
            + " pixellights="@ + slot_word(s.set_pixel_lights) + " shadowdist="@ + slot_word(
            s.set_shadow_distance,
        ) + " lodcrossfade="@ + slot_word(s.set_lod_fade),
        s.engine ==> getters_line(s) == Some(
            "[graphics] QualitySettings getters: aa="@ + slot_word(s.get_aa) + " shadowdist="@ + slot_word(
                s.get_shadow_distance,
            ),
        ),
        !s.engine ==> getters_line(s) is None && setters_line(s)
            == "[graphics] QualitySettings class NOT FOUND \u{2014} every graphics knob is a no-op!"@,
{
}

} // verus!
