//! Skipping training scenes, except in the photo studio.

use vstd::prelude::*;

verus! {

/// The training scenes. Targets are 0 for none.
#[derive(Clone, Copy, PartialEq, Eq, Structural, Debug)]
pub struct Train {
    /// The photo studio plays a scene.
    pub photo_active: bool,
    /// The scene that was skipped last, until the game moves on.
    pub last_scene: usize,
    pub skips: u64,
}

/// Nothing skipped yet.
pub fn new_train() -> (r: Train)
    ensures
        r == (Train { photo_active: false, last_scene: 0, skips: 0 }),
{
    Train { photo_active: false, last_scene: 0, skips: 0 }
}

/// Whether a scene is skipped: the feature is on and was not told to keep still, no call of ours runs,
/// the game can be told, and the photo studio does not play it.
pub open spec fn skips_scene(
    t: Train,
    on: bool,
    stood_down: bool,
    ours: bool,
    resolved: bool,
    scene: usize,
) -> bool {
    on && !stood_down && !ours && scene != 0 && !t.photo_active && resolved
}

/// A scene begins: whether it is skipped.
pub fn do_training_skip(
    t: &mut Train,
    on: bool,
    stood_down: bool,
    ours: bool,
    resolved: bool,
    scene: usize,
) -> (r: bool)
    ensures
        r == skips_scene(*old(t), on, stood_down, ours, resolved, scene),
        *final(t) == (if r {
            Train { last_scene: scene, skips: old(t).skips.wrapping_add(1), ..*old(t) }
        } else {
            *old(t)
        }),
{
    if !on || stood_down || ours || scene == 0 || t.photo_active || !resolved {
        return false;
    }
    t.skips = t.skips.wrapping_add(1);
    t.last_scene = scene;
    true
}

/// The game moved on.
pub fn note_progressed(t: &mut Train)
    ensures
        *final(t) == (Train { last_scene: 0, ..*old(t) }),
{
    t.last_scene = 0;
}

/// The photo studio plays a scene.
pub fn on_photo_play_cut(t: &mut Train)
    ensures
        *final(t) == (Train { photo_active: true, ..*old(t) }),
{
    t.photo_active = true;
}

/// The photo studio's scene is over.
pub fn on_photo_end_cut(t: &mut Train)
    ensures
        *final(t) == (Train { photo_active: false, ..*old(t) }),
{
    t.photo_active = false;
}

/// A scene that the photo studio plays is never skipped.
pub proof fn lemma_photo_plays(t: Train, on: bool, stood_down: bool, ours: bool, resolved: bool, scene: usize)
    requires
        t.photo_active,
    ensures
        !skips_scene(t, on, stood_down, ours, resolved, scene),
{
}

/// A training scene is skipped exactly where skipping is on, not stood down, not already under way, and
/// there is a scene that can be skipped and that is no photo.
pub proof fn lemma_skips_scene(t: Train, on: bool, stood_down: bool, ours: bool, resolved: bool, scene: usize)
    ensures
        skips_scene(t, on, stood_down, ours, resolved, scene) <==> on && resolved && scene != 0 && !stood_down
            && !ours && !t.photo_active,
{
}

} // verus!
