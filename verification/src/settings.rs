//! Persistent settings: what is stored, what the live parts are told, and when it is written.
//!
//! Single-precision numbers are held as their bits. A setter changes the stored settings at once and
//! leaves behind, in order, what the caller still has to do: tell a live part, write the file.

use std::collections::HashMap;
use vstd::prelude::*;

use crate::bits::clamp;
use crate::bits::{clamped, MINUS_ONE, ONE, ZERO};
use crate::names::lines;
use crate::runtime::{apply as apply_power, FanOut, Power};
use crate::runtime::{
    set_keep_analysis as power_keep_analysis, set_keep_export as power_keep_export,
    set_keep_monitoring as power_keep_monitoring, set_keep_overlay as power_keep_overlay,
    set_keep_translation as power_keep_translation, set_keep_webhook as power_keep_webhook,
    set_overseer_enabled, set_translation_enabled as power_translation,
};
use crate::runtime::{fan_out_of, flipped, power_of};
use crate::text::same;

verus! {

/// The bits of 60.
pub const SIXTY: u32 = 0x4270_0000;

/// The bits of 0.85.
pub const CVD_STRENGTH: u32 = 0x3f59_999a;

/// The bits of 0.6.
pub const MIN_TELE_SCALE: u32 = 0x3f19_999a;

/// The bits of 2.
pub const MAX_TELE_SCALE: u32 = 0x4000_0000;

/// How many camera presets a circuit can have.
pub const MAX_PRESETS: usize = 4;

/// The longest idle time before the translation model is released, in seconds.
pub const MAX_IDLE_S: u64 = 86_400;

/// A named camera pose; its numbers as single-precision bits.
pub struct CamPreset {
    pub name: String,
    pub dist: u32,
    pub yaw: u32,
    pub pitch: u32,
    pub eyeh: u32,
}

/// What a preset says.
#[verifier::ext_equal]
pub struct PresetView {
    pub name: Seq<char>,
    pub dist: u32,
    pub yaw: u32,
    pub pitch: u32,
    pub eyeh: u32,
}

impl View for CamPreset {
    type V = PresetView;

    open spec fn view(&self) -> PresetView {
        PresetView {
            name: self.name@,
            dist: self.dist,
            yaw: self.yaw,
            pitch: self.pitch,
            eyeh: self.eyeh,
        }
    }
}

/// The camera presets of a circuit, and which of them is the default.
pub struct TrackCams {
    pub presets: Vec<CamPreset>,
    pub default_idx: u32,
}

/// What a row of presets says.
pub open spec fn preset_views(s: Seq<CamPreset>) -> Seq<PresetView> {
    s.map_values(|p: CamPreset| p@)
}

/// The switches.
#[derive(Clone, Copy, PartialEq, Eq, Structural, Debug)]
pub struct PowerPrefs {
    /// Overseer is on.
    pub bot_enabled: bool,
    /// Live translation is on.
    pub translation_enabled: bool,
    /// Translation keeps running while Overseer is off.
    pub keep_translation_when_disabled: bool,
    /// The analysis keeps running while Overseer is off.
    pub keep_analysis_when_disabled: bool,
    /// The monitoring keeps running while Overseer is off.
    pub keep_monitoring_when_disabled: bool,
    /// The exporters keep running while Overseer is off.
    pub keep_export_when_disabled: bool,
    /// The webhooks keep running while Overseer is off.
    pub keep_webhook_when_disabled: bool,
    /// The overlay keeps running while Overseer is off.
    pub keep_overlay_when_disabled: bool,
}

/// What is skipped, and how fast the game runs.
#[derive(Clone, Copy, PartialEq, Eq, Structural, Debug)]
pub struct SkipPrefs {
    /// Training scenes are skipped.
    pub skip_training: bool,
    /// Events are skipped.
    pub skip_events: bool,
    /// The shop is skipped.
    pub skip_shop: bool,
    /// Rival scenes are skipped.
    pub skip_rival: bool,
    /// Cut scenes are skipped.
    pub skip_scene_cutt: bool,
    /// Race results are skipped.
    pub race_result: bool,
    /// The in-race skip button is pressed.
    pub hyper_skip: bool,
    /// Advisory warnings are confirmed.
    pub skip_warnings: bool,
    /// The inspiration event is advanced.
    pub skip_inspiration: bool,
    /// Skill learning is confirmed.
    pub skip_skill_learn: bool,
    /// The top option of every event choice is picked.
    pub event_auto_choice: bool,
    /// Race fast-forward is engaged.
    pub race_ff: bool,
    /// Frame rate limit; 0 leaves the game's.
    pub fps: i32,
    /// UI tempo, as single-precision bits.
    pub ui_tempo: u32,
}

/// The menu and the panels.
#[derive(Clone, Copy, PartialEq, Eq, Structural, Debug)]
pub struct MenuPrefs {
    /// The rail is docked to the right edge.
    pub rail_right: bool,
    /// Position of the info chip, as single-precision bits.
    pub energy_x: u32,
    /// Position of the info chip, as single-precision bits.
    pub energy_y: u32,
    /// The info panel shows bonds only.
    pub bonds_only: bool,
    /// The career panel is shown.
    pub show_career: bool,
    /// The race panel is shown.
    pub show_race: bool,
    /// The info chip is shown.
    pub show_energy: bool,
    /// The menu is a centered window.
    pub menu_centered: bool,
    /// Which key opens the menu.
    pub toggle_key: u32,
    /// The first-launch hint was seen.
    pub seen_hint: bool,
    /// The classic menu is used.
    pub classic_menu: bool,
}

/// Translation.
pub struct TextPrefs {
    /// Seconds of idleness before the translation model is released; 0 keeps it.
    pub mtl_idle_unload_s: u64,
    /// The glossary language, if any.
    pub tl_lang: Option<String>,
    /// Machine translation is on.
    pub mtl_enabled: bool,
    /// The larger translation model is used.
    pub mtl_hq: bool,
    /// Names that are kept in the original language.
    pub protected_names: Vec<String>,
}

/// Graphics.
#[derive(Clone, Copy, PartialEq, Eq, Structural, Debug)]
pub struct GfxPrefs {
    /// The cloth physics rate is uncapped.
    pub cyspring_uncap: bool,
    /// The highest model quality is forced.
    pub gfx_quality: bool,
    /// Anti-aliasing samples; -1 leaves the game's.
    pub gfx_aa: i32,
    /// Shadow mode; -1 leaves the game's.
    pub gfx_shadows: i32,
    /// Shadow distance, as single-precision bits; -1 leaves the game's.
    pub gfx_shadow_dist: u32,
    /// Colour-vision filter: 0 off, 1 to 3.
    pub cvd_mode: i32,
    /// Colour-vision filter strength, as single-precision bits.
    pub cvd_strength: u32,
    /// Low-resources mode.
    pub low_spec: bool,
    /// Low-resources tier, 1 to 3.
    pub low_level: i32,
    /// Kept for older files, as single-precision bits.
    pub low_render_scale: u32,
}

/// The window.
#[derive(Clone, Copy, PartialEq, Eq, Structural, Debug)]
pub struct DisplayPrefs {
    /// The window stays on top.
    pub always_on_top: bool,
    /// The window is not minimized.
    pub block_minimize: bool,
    /// 0 off, 1 borderless, 2 exclusive, 3 windowed.
    pub display_mode: i32,
    /// Render scale, as single-precision bits.
    pub render_scale: u32,
    /// UI scale, as single-precision bits.
    pub ui_scale: u32,
}

/// The telemetry display.
#[derive(Clone, Copy, PartialEq, Eq, Structural, Debug)]
pub struct TelePrefs {
    /// The telemetry display.
    pub telemetry: bool,
    /// Telemetry: grade.
    pub tele_grade: bool,
    /// Telemetry: portrait.
    pub tele_portrait: bool,
    /// Telemetry: rival.
    pub tele_rival: bool,
    /// Telemetry: skill feed.
    pub tele_skills: bool,
    /// Telemetry: timing tower.
    pub tele_tower: bool,
    /// Telemetry: win probability.
    pub tele_winprob: bool,
    /// Telemetry: pace trace.
    pub tele_pace: bool,
    /// Telemetry: battle callout.
    pub tele_battle: bool,
    /// Telemetry: head marker.
    pub tele_marker: bool,
    /// Telemetry scale, as single-precision bits.
    pub tele_scale: u32,
}

/// Everything else.
pub struct MiscPrefs {
    /// The webhook configuration, in the form in which it is stored.
    pub webhook: String,
    /// Inheritance factors feed the spark inventory.
    pub legacy_capture: bool,
    /// Verbose logging.
    pub verbose_log: bool,
    /// The load profiler samples.
    pub profiler: bool,
    /// Team Trials capture.
    pub tt_capture: bool,
    /// The release that the user does not want to be asked about.
    pub update_skip: String,
    /// The changelog last shown.
    pub update_seen_changelog: String,
    /// Reserved.
    pub oracle: bool,
    /// The free camera.
    pub freecam: bool,
    /// Races are exported.
    pub race_export: bool,
    /// Veterans are exported.
    pub umas_export: bool,
    /// The companion feed.
    pub companion_bridge: bool,
}

/// Camera presets, window geometry and key binds.
pub struct CamPrefs {
    /// Camera presets per circuit.
    pub cam_tracks: HashMap<i32, TrackCams>,
    /// Saved window geometry by key, each coordinate as single-precision bits.
    pub win: Vec<(String, [u32; 4])>,
    /// Race key binds.
    pub rd_keys: Vec<i32>,
}

/// Everything that is stored.
pub struct Settings {
    pub power: PowerPrefs,
    pub skip: SkipPrefs,
    pub menu: MenuPrefs,
    pub text: TextPrefs,
    pub gfx: GfxPrefs,
    pub display: DisplayPrefs,
    pub tele: TelePrefs,
    pub misc: MiscPrefs,
    pub cams: CamPrefs,
}

/// The default race key binds: orbit left and right, zoom in and out, height up and down, previous and
/// next horse, cycle preset, save preset, first person.
pub open spec fn default_keys() -> Seq<i32> {
    seq![0x25, 0x27, 0x26, 0x28, 0x49, 0x4b, 0xdb, 0xdd, 0x4f, 0x50, 0x56]
}

impl PowerPrefs {
    /// Whether these are the choices of a first run.
    pub open spec fn is_default(self) -> bool {
        &&& self.bot_enabled
        &&& self.translation_enabled
        &&& !self.keep_translation_when_disabled
        &&& !self.keep_analysis_when_disabled
        &&& !self.keep_monitoring_when_disabled
        &&& !self.keep_export_when_disabled
        &&& !self.keep_webhook_when_disabled
        &&& !self.keep_overlay_when_disabled
    }
}

impl SkipPrefs {
    /// Whether these are the choices of a first run.
    pub open spec fn is_default(self) -> bool {
        &&& self.skip_training
        &&& self.skip_events
        &&& self.skip_shop
        &&& self.skip_rival
        &&& self.skip_scene_cutt
        &&& !self.race_result
        &&& !self.hyper_skip
        &&& !self.skip_warnings
        &&& !self.skip_inspiration
        &&& !self.skip_skill_learn
        &&& !self.event_auto_choice
        &&& !self.race_ff
        &&& self.fps == 0
        &&& self.ui_tempo == ONE
    }
}

impl MenuPrefs {
    /// Whether these are the choices of a first run.
    pub open spec fn is_default(self) -> bool {
        &&& self.rail_right
        &&& self.energy_x == SIXTY
        &&& self.energy_y == SIXTY
        &&& !self.bonds_only
        &&& !self.show_career
        &&& !self.show_race
        &&& !self.show_energy
        &&& self.menu_centered
        &&& self.toggle_key == 0
        &&& !self.seen_hint
        &&& !self.classic_menu
    }
}

impl TextPrefs {
    /// Whether these are the choices of a first run.
    pub open spec fn is_default(self) -> bool {
        &&& self.mtl_idle_unload_s == 300
        &&& self.tl_lang is None
        &&& !self.mtl_enabled
        &&& !self.mtl_hq
        &&& self.protected_names@.len() == 0
    }
}

impl GfxPrefs {
    /// Whether these are the choices of a first run.
    pub open spec fn is_default(self) -> bool {
        &&& !self.cyspring_uncap
        &&& !self.gfx_quality
        &&& self.gfx_aa == -1
        &&& self.gfx_shadows == -1
        &&& self.gfx_shadow_dist == MINUS_ONE
        &&& self.cvd_mode == 0
        &&& self.cvd_strength == CVD_STRENGTH
        &&& !self.low_spec
        &&& self.low_level == 1
        &&& self.low_render_scale == ZERO
    }
}

impl DisplayPrefs {
    /// Whether these are the choices of a first run.
    pub open spec fn is_default(self) -> bool {
        &&& !self.always_on_top
        &&& !self.block_minimize
        &&& self.display_mode == 0
        &&& self.render_scale == ONE
        &&& self.ui_scale == ONE
    }
}

impl TelePrefs {
    /// Whether these are the choices of a first run.
    pub open spec fn is_default(self) -> bool {
        &&& self.telemetry
        &&& self.tele_grade
        &&& self.tele_portrait
        &&& self.tele_rival
        &&& self.tele_skills
        &&& self.tele_tower
        &&& self.tele_winprob
        &&& self.tele_pace
        &&& self.tele_battle
        &&& self.tele_marker
        &&& self.tele_scale == ONE
    }
}

impl MiscPrefs {
    /// Whether these are the choices of a first run.
    pub open spec fn is_default(self) -> bool {
        &&& self.webhook@.len() == 0
        &&& self.legacy_capture
        &&& !self.verbose_log
        &&& !self.profiler
        &&& !self.tt_capture
        &&& self.update_skip@.len() == 0
        &&& self.update_seen_changelog@.len() == 0
        &&& !self.oracle
        &&& !self.freecam
        &&& !self.race_export
        &&& !self.umas_export
        &&& self.companion_bridge
    }
}

impl CamPrefs {
    /// Whether these are the choices of a first run.
    pub open spec fn is_default(self) -> bool {
        &&& self.cam_tracks@ == Map::<i32, TrackCams>::empty()
        &&& self.win@.len() == 0
        &&& self.rd_keys@ == default_keys()
    }
}

impl Settings {
    /// Whether these are the settings of a first run.
    pub open spec fn is_default(self) -> bool {
        &&& self.power.is_default()
        &&& self.skip.is_default()
        &&& self.menu.is_default()
        &&& self.text.is_default()
        &&& self.gfx.is_default()
        &&& self.display.is_default()
        &&& self.tele.is_default()
        &&& self.misc.is_default()
        &&& self.cams.is_default()
    }
}

/// The default race key binds.
pub fn default_rd_keys() -> (r: Vec<i32>)
    ensures
        r@ == default_keys(),
{
    let r: Vec<i32> = vec![0x25, 0x27, 0x26, 0x28, 0x49, 0x4b, 0xdb, 0xdd, 0x4f, 0x50, 0x56];
    assert(r@ =~= default_keys());
    r
}

impl Default for PowerPrefs {
    fn default() -> (r: Self)
        ensures
            r.is_default(),
    {
        PowerPrefs {
            bot_enabled: true,
            translation_enabled: true,
            keep_translation_when_disabled: false,
            keep_analysis_when_disabled: false,
            keep_monitoring_when_disabled: false,
            keep_export_when_disabled: false,
            keep_webhook_when_disabled: false,
            keep_overlay_when_disabled: false,
        }
    }
}

impl Default for SkipPrefs {
    fn default() -> (r: Self)
        ensures
            r.is_default(),
    {
        SkipPrefs {
            skip_training: true,
            skip_events: true,
            skip_shop: true,
            skip_rival: true,
            skip_scene_cutt: true,
            race_result: false,
            hyper_skip: false,
            skip_warnings: false,
            skip_inspiration: false,
            skip_skill_learn: false,
            event_auto_choice: false,
            race_ff: false,
            fps: 0,
            ui_tempo: ONE,
        }
    }
}

impl Default for MenuPrefs {
    fn default() -> (r: Self)
        ensures
            r.is_default(),
    {
        MenuPrefs {
            rail_right: true,
            energy_x: SIXTY,
            energy_y: SIXTY,
            bonds_only: false,
            show_career: false,
            show_race: false,
            show_energy: false,
            menu_centered: true,
            toggle_key: 0,
            seen_hint: false,
            classic_menu: false,
        }
    }
}

impl Default for TextPrefs {
    fn default() -> (r: Self)
        ensures
            r.is_default(),
    {
        TextPrefs {
            mtl_idle_unload_s: 300,
            tl_lang: None,
            mtl_enabled: false,
            mtl_hq: false,
            protected_names: Vec::new(),
        }
    }
}

impl Default for GfxPrefs {
    fn default() -> (r: Self)
        ensures
            r.is_default(),
    {
        GfxPrefs {
            cyspring_uncap: false,
            gfx_quality: false,
            gfx_aa: -1,
            gfx_shadows: -1,
            gfx_shadow_dist: MINUS_ONE,
            cvd_mode: 0,
            cvd_strength: CVD_STRENGTH,
            low_spec: false,
            low_level: 1,
            low_render_scale: ZERO,
        }
    }
}

impl Default for DisplayPrefs {
    fn default() -> (r: Self)
        ensures
            r.is_default(),
    {
        DisplayPrefs {
            always_on_top: false,
            block_minimize: false,
            display_mode: 0,
            render_scale: ONE,
            ui_scale: ONE,
        }
    }
}

impl Default for TelePrefs {
    fn default() -> (r: Self)
        ensures
            r.is_default(),
    {
        TelePrefs {
            telemetry: true,
            tele_grade: true,
            tele_portrait: true,
            tele_rival: true,
            tele_skills: true,
            tele_tower: true,
            tele_winprob: true,
            tele_pace: true,
            tele_battle: true,
            tele_marker: true,
            tele_scale: ONE,
        }
    }
}

impl Default for MiscPrefs {
    fn default() -> (r: Self)
        ensures
            r.is_default(),
    {
        MiscPrefs {
            webhook: String::new(),
            legacy_capture: true,
            verbose_log: false,
            profiler: false,
            tt_capture: false,
            update_skip: String::new(),
            update_seen_changelog: String::new(),
            oracle: false,
            freecam: false,
            race_export: false,
            umas_export: false,
            companion_bridge: true,
        }
    }
}

impl Default for CamPrefs {
    fn default() -> (r: Self)
        ensures
            r.is_default(),
    {
        broadcast use vstd::std_specs::hash::group_hash_axioms;

        CamPrefs {
            cam_tracks: HashMap::new(),
            win: Vec::new(),
            rd_keys: default_rd_keys(),
        }
    }
}

impl Default for Settings {
    fn default() -> (r: Self)
        ensures
            r.is_default(),
    {
        Settings {
            power: PowerPrefs::default(),
            skip: SkipPrefs::default(),
            menu: MenuPrefs::default(),
            text: TextPrefs::default(),
            gfx: GfxPrefs::default(),
            display: DisplayPrefs::default(),
            tele: TelePrefs::default(),
            misc: MiscPrefs::default(),
            cams: CamPrefs::default(),
        }
    }
}

/// A part of the program that takes its configuration from the settings at startup.
#[derive(Clone, Copy, PartialEq, Eq, Structural, Debug)]
pub enum Part {
    Skip,
    Performance,
    Tempo,
    TeamTrials,
    Freecam,
    RaceExport,
    Companion,
    Umas,
    Webhook,
}

/// What a change of the settings asks the caller to do.
#[derive(Clone, Copy, PartialEq, Eq, Structural, Debug)]
pub enum Effect {
    /// Write the settings to disk.
    Write,
    /// Hand the settings to a part.
    Apply(Part),
    /// Hand the protected names to the translation.
    UserNames,
    /// Forget what was found out about each text on screen.
    ForgetText,
    /// Push the switches into the subsystems.
    FanOut(FanOut),
    TeamTrials(bool),
    Trace(bool),
    Profiler(bool),
    Cyspring(bool),
    Quality(bool),
    Aa(i32),
    Shadows(i32),
    ShadowDistance(u32),
    AlwaysOnTop(bool),
    BlockMinimize(bool),
    DisplayMode(i32),
    RenderScale(u32),
    UiScale(u32),
    CvdMode(u8),
    CvdStrength(u32),
    LowSpec(bool),
    LowLevel(i32),
    Freecam(bool),
    RaceExport(bool),
    UmasExport(bool),
}

/// The settings in use: what is stored, the copies that are read without waiting, the switches, and
/// what is still to be done.
pub struct Store {
    pub saved: Settings,
    /// The persisted state has been applied.
    pub applied: bool,
    pub lang: Option<String>,
    pub lang_set: bool,
    pub mtl_on: bool,
    pub bot_on: bool,
    pub power: Power,
    pub pending: Vec<Effect>,
}

/// Whether a language is selected.
pub open spec fn names_language(lang: Option<String>) -> bool {
    lang matches Some(l) && l@.len() > 0
}

/// What an optional text says.
pub open spec fn said(x: Option<String>) -> Option<Seq<char>> {
    match x {
        Some(t) => Some(t@),
        None => None,
    }
}

/// The language that is selected: an empty name selects none.
pub open spec fn selected(lang: Option<String>) -> Option<Seq<char>> {
    if names_language(lang) {
        said(lang)
    } else {
        None
    }
}

/// The language that is selected.
fn select(lang: &Option<String>) -> (r: Option<String>)
    ensures
        said(r) == selected(*lang),
{
    match lang {
        Some(l) => if l.as_str().is_empty() {
            None
        } else {
            Some(l.clone())
        },
        None => None,
    }
}

impl Store {
    /// Whether the copies and the switches agree with what is stored.
    pub open spec fn agrees(self) -> bool {
        &&& said(self.lang) == selected(self.saved.text.tl_lang)
        &&& self.lang_set == (self.lang is Some)
        &&& self.mtl_on == self.saved.text.mtl_enabled
        &&& self.bot_on == self.saved.power.bot_enabled
        &&& self.power.overseer_on == self.saved.power.bot_enabled
        &&& self.power.translation_on == self.saved.power.translation_enabled
        &&& self.power.keep_translation == self.saved.power.keep_translation_when_disabled
        &&& self.power.keep_analysis == self.saved.power.keep_analysis_when_disabled
        &&& self.power.keep_monitoring == self.saved.power.keep_monitoring_when_disabled
        &&& self.power.keep_export == self.saved.power.keep_export_when_disabled
        &&& self.power.keep_webhook == self.saved.power.keep_webhook_when_disabled
        &&& self.power.keep_overlay == self.saved.power.keep_overlay_when_disabled
    }

    /// Whether this is `before` but for what is stored, with `todo` added to what is to be done.
    pub open spec fn only_saved(self, before: Store, todo: Seq<Effect>) -> bool {
        &&& self.applied == before.applied
        &&& self.lang == before.lang
        &&& self.lang_set == before.lang_set
        &&& self.mtl_on == before.mtl_on
        &&& self.bot_on == before.bot_on
        &&& self.power == before.power
        &&& self.pending@ =~= before.pending@ + todo
    }

    /// Whether no circuit has too many presets.
    pub open spec fn presets_bounded(self) -> bool {
        forall|t: i32| #[trigger]
            self.saved.cams.cam_tracks@.dom().contains(t) ==> self.saved.cams.cam_tracks@[t].presets@.len()
                <= MAX_PRESETS
    }
}

/// The settings as they were loaded, before they are applied.
pub fn open_store(saved: Settings, power: Power) -> (r: Store)
    ensures
        r.saved == saved,
        !r.applied,
        said(r.lang) == selected(saved.text.tl_lang),
        r.lang_set == (r.lang is Some),
        r.mtl_on == saved.text.mtl_enabled,
        r.bot_on == saved.power.bot_enabled,
        r.power == power,
        r.pending@.len() == 0,
{
    let lang: Option<String> = select(&saved.text.tl_lang);
    let lang_set: bool = lang.is_some();
    let mtl_on: bool = saved.text.mtl_enabled;
    let bot_on: bool = saved.power.bot_enabled;
    Store { saved, applied: false, lang, lang_set, mtl_on, bot_on, power, pending: Vec::new() }
}

/// The settings that are applied at startup: what was loaded, with the removed features off.
pub open spec fn boot_settings(s: Settings) -> Settings {
    Settings {
        misc: MiscPrefs { freecam: false, tt_capture: false, ..s.misc },
        gfx: GfxPrefs { cyspring_uncap: false, ..s.gfx },
        ..s
    }
}

/// What is done at startup, in order.
pub open spec fn boot_effects(s: Settings, power: Power) -> Seq<Effect> {
    seq![
        Effect::Trace(s.misc.verbose_log),
        Effect::Profiler(s.misc.profiler),
        Effect::Apply(Part::Skip),
        Effect::Apply(Part::Performance),
        Effect::CvdMode(s.gfx.cvd_mode as u8),
        Effect::CvdStrength(s.gfx.cvd_strength),
        Effect::Apply(Part::Tempo),
        Effect::Apply(Part::TeamTrials),
        Effect::Apply(Part::Freecam),
        Effect::Apply(Part::RaceExport),
        Effect::Apply(Part::Companion),
        Effect::Apply(Part::Umas),
        Effect::UserNames,
        Effect::Apply(Part::Webhook),
        Effect::FanOut(fan_out_of(power, s.misc.profiler)),
    ]
}

/// Apply loaded settings at startup. Removed features stay off whatever the file says; the switches
/// come last, when every part already holds its configuration.
pub fn apply_on_boot(st: &mut Store, loaded: Settings, now: u64)
    ensures
        final(st).saved == boot_settings(loaded),
        final(st).applied,
        final(st).power == power_of(old(st).power, loaded, now),
        said(final(st).lang) == selected(loaded.text.tl_lang),
        final(st).lang_set == (final(st).lang is Some),
        final(st).mtl_on == old(st).mtl_on,
        final(st).bot_on == old(st).bot_on,
        final(st).pending@ == old(st).pending@ + boot_effects(
            boot_settings(loaded),
            final(st).power,
        ),
        old(st).bot_on == loaded.power.bot_enabled && old(st).mtl_on == loaded.text.mtl_enabled
            ==> final(st).agrees(),
{
    let mut s = loaded;
    s.misc.freecam = false;
    s.misc.tt_capture = false;
    s.gfx.cyspring_uncap = false;
    let ghost before = st.pending@;
    st.pending.push(Effect::Trace(s.misc.verbose_log));
    st.pending.push(Effect::Profiler(s.misc.profiler));
    st.pending.push(Effect::Apply(Part::Skip));
    st.pending.push(Effect::Apply(Part::Performance));
    st.pending.push(Effect::CvdMode(s.gfx.cvd_mode as u8));
    st.pending.push(Effect::CvdStrength(s.gfx.cvd_strength));
    st.pending.push(Effect::Apply(Part::Tempo));
    st.pending.push(Effect::Apply(Part::TeamTrials));
    st.pending.push(Effect::Apply(Part::Freecam));
    st.pending.push(Effect::Apply(Part::RaceExport));
    st.pending.push(Effect::Apply(Part::Companion));
    st.pending.push(Effect::Apply(Part::Umas));
    st.pending.push(Effect::UserNames);
    st.pending.push(Effect::Apply(Part::Webhook));
    let fan = apply_power(&mut st.power, &s, now, s.misc.profiler);
    st.pending.push(Effect::FanOut(fan));
    st.lang = select(&s.text.tl_lang);
    st.lang_set = st.lang.is_some();
    assert(st.pending@ =~= before + boot_effects(s, st.power));
    st.saved = s;
    st.applied = true;
}

/// The choices that the live parts hold.
#[derive(Clone, Copy, PartialEq, Eq, Structural, Debug)]
pub struct Live {
    pub train: bool,
    pub event: bool,
    pub shop: bool,
    pub rival: bool,
    pub race_result: bool,
    pub race_ff: bool,
    pub hyper: bool,
    pub skill_learn: bool,
    pub warnings: bool,
    pub inspiration: bool,
    pub event_choice: bool,
    pub fps: i32,
    /// As single-precision bits.
    pub tempo: u32,
}

/// Store what the live parts hold. Before the persisted state has been applied this does nothing:
/// the live parts would still hold their defaults.
pub fn save_current(st: &mut Store, live: Live)
    ensures
        old(st).applied ==> final(st).saved == (Settings {
            skip: SkipPrefs {
            skip_training: live.train,
            skip_events: live.event,
            skip_shop: live.shop,
            skip_rival: live.rival,
            race_result: live.race_result,
            race_ff: live.race_ff,
            hyper_skip: live.hyper,
            skip_skill_learn: live.skill_learn,
            skip_warnings: live.warnings,
            skip_inspiration: live.inspiration,
            event_auto_choice: live.event_choice,
            fps: live.fps,
            ui_tempo: live.tempo,
            ..old(st).saved.skip
            },
            ..old(st).saved
        }),
        old(st).applied ==> final(st).only_saved(*old(st), seq![Effect::Write]),
        !old(st).applied ==> *final(st) == *old(st),
        old(st).agrees() ==> final(st).agrees(),
{
    if !st.applied {
        return ;
    }
    st.saved.skip = SkipPrefs {
        skip_training: live.train,
        skip_events: live.event,
        skip_shop: live.shop,
        skip_rival: live.rival,
        skip_scene_cutt: st.saved.skip.skip_scene_cutt,
        race_result: live.race_result,
        hyper_skip: live.hyper,
        skip_warnings: live.warnings,
        skip_inspiration: live.inspiration,
        skip_skill_learn: live.skill_learn,
        event_auto_choice: live.event_choice,
        race_ff: live.race_ff,
        fps: live.fps,
        ui_tempo: live.tempo,
    };
    st.pending.push(Effect::Write);
}

/// Whether Team Trials are captured.
pub fn tt_capture(st: &Store) -> (r: bool)
    ensures
        r == st.saved.misc.tt_capture,
{
    st.saved.misc.tt_capture
}

/// Set whether Team Trials are captured.
pub fn set_tt_capture(st: &mut Store, on: bool)
    ensures
        final(st).saved == (Settings {
            misc: MiscPrefs { tt_capture: on, ..old(st).saved.misc },
            ..old(st).saved
        }),
        final(st).only_saved(*old(st), seq![Effect::TeamTrials(on), Effect::Write]),
        old(st).agrees() ==> final(st).agrees(),
{
    let ghost before = st.pending@;
    st.pending.push(Effect::TeamTrials(on));
    st.saved.misc.tt_capture = on;
    st.pending.push(Effect::Write);
    assert(st.pending@ =~= before + seq![Effect::TeamTrials(on), Effect::Write]);
}

/// Whether logging is verbose.
pub fn verbose_log(st: &Store) -> (r: bool)
    ensures
        r == st.saved.misc.verbose_log,
{
    st.saved.misc.verbose_log
}

/// Set whether logging is verbose.
pub fn set_verbose_log(st: &mut Store, on: bool)
    ensures
        final(st).saved == (Settings {
            misc: MiscPrefs { verbose_log: on, ..old(st).saved.misc },
            ..old(st).saved
        }),
        final(st).only_saved(*old(st), seq![Effect::Trace(on), Effect::Write]),
        old(st).agrees() ==> final(st).agrees(),
{
    let ghost before = st.pending@;
    st.pending.push(Effect::Trace(on));
    st.saved.misc.verbose_log = on;
    st.pending.push(Effect::Write);
    assert(st.pending@ =~= before + seq![Effect::Trace(on), Effect::Write]);
}

/// Whether the load profiler samples.
pub fn profiler(st: &Store) -> (r: bool)
    ensures
        r == st.saved.misc.profiler,
{
    st.saved.misc.profiler
}

/// Set whether the load profiler samples.
pub fn set_profiler(st: &mut Store, on: bool)
    ensures
        final(st).saved == (Settings {
            misc: MiscPrefs { profiler: on, ..old(st).saved.misc },
            ..old(st).saved
        }),
        final(st).only_saved(*old(st), seq![Effect::Profiler(on), Effect::Write]),
        old(st).agrees() ==> final(st).agrees(),
{
    let ghost before = st.pending@;
    st.pending.push(Effect::Profiler(on));
    st.saved.misc.profiler = on;
    st.pending.push(Effect::Write);
    assert(st.pending@ =~= before + seq![Effect::Profiler(on), Effect::Write]);
}

/// Whether inheritance factors feed the spark inventory.
pub fn legacy_capture(st: &Store) -> (r: bool)
    ensures
        r == st.saved.misc.legacy_capture,
{
    st.saved.misc.legacy_capture
}

/// Set whether inheritance factors feed the spark inventory.
pub fn set_legacy_capture(st: &mut Store, on: bool)
    ensures
        final(st).saved == (Settings {
            misc: MiscPrefs { legacy_capture: on, ..old(st).saved.misc },
            ..old(st).saved
        }),
        final(st).only_saved(*old(st), seq![Effect::Write]),
        old(st).agrees() ==> final(st).agrees(),
{
    st.saved.misc.legacy_capture = on;
    st.pending.push(Effect::Write);
}

/// Whether the larger translation model is used.
pub fn mtl_hq(st: &Store) -> (r: bool)
    ensures
        r == st.saved.text.mtl_hq,
{
    st.saved.text.mtl_hq
}

/// Set whether the larger translation model is used.
pub fn set_mtl_hq(st: &mut Store, on: bool)
    ensures
        final(st).saved == (Settings {
            text: TextPrefs { mtl_hq: on, ..old(st).saved.text },
            ..old(st).saved
        }),
        final(st).only_saved(*old(st), seq![Effect::Write]),
        old(st).agrees() ==> final(st).agrees(),
{
    st.saved.text.mtl_hq = on;
    st.pending.push(Effect::Write);
}

/// Whether the rail is docked to the right edge.
pub fn rail_right(st: &Store) -> (r: bool)
    ensures
        r == st.saved.menu.rail_right,
{
    st.saved.menu.rail_right
}

/// Set whether the rail is docked to the right edge.
pub fn set_rail_right(st: &mut Store, right: bool)
    ensures
        final(st).saved == (Settings {
            menu: MenuPrefs { rail_right: right, ..old(st).saved.menu },
            ..old(st).saved
        }),
        final(st).only_saved(*old(st), seq![Effect::Write]),
        old(st).agrees() ==> final(st).agrees(),
{
    st.saved.menu.rail_right = right;
    st.pending.push(Effect::Write);
}

/// Whether the menu is a centered window.
pub fn menu_centered(st: &Store) -> (r: bool)
    ensures
        r == st.saved.menu.menu_centered,
{
    st.saved.menu.menu_centered
}

/// Set whether the menu is a centered window.
pub fn set_menu_centered(st: &mut Store, on: bool)
    ensures
        final(st).saved == (Settings {
            menu: MenuPrefs { menu_centered: on, ..old(st).saved.menu },
            ..old(st).saved
        }),
        final(st).only_saved(*old(st), seq![Effect::Write]),
        old(st).agrees() ==> final(st).agrees(),
{
    st.saved.menu.menu_centered = on;
    st.pending.push(Effect::Write);
}

/// Which key opens the menu.
pub fn toggle_key(st: &Store) -> (r: u32)
    ensures
        r == st.saved.menu.toggle_key,
{
    st.saved.menu.toggle_key
}

/// Set which key opens the menu.
pub fn set_toggle_key(st: &mut Store, idx: u32)
    ensures
        final(st).saved == (Settings {
            menu: MenuPrefs { toggle_key: idx, ..old(st).saved.menu },
            ..old(st).saved
        }),
        final(st).only_saved(*old(st), seq![Effect::Write]),
        old(st).agrees() ==> final(st).agrees(),
{
    st.saved.menu.toggle_key = idx;
    st.pending.push(Effect::Write);
}

/// Whether the first-launch hint was seen.
pub fn seen_hint(st: &Store) -> (r: bool)
    ensures
        r == st.saved.menu.seen_hint,
{
    st.saved.menu.seen_hint
}

/// Set whether the first-launch hint was seen.
pub fn set_seen_hint(st: &mut Store, on: bool)
    ensures
        final(st).saved == (Settings {
            menu: MenuPrefs { seen_hint: on, ..old(st).saved.menu },
            ..old(st).saved
        }),
        final(st).only_saved(*old(st), seq![Effect::Write]),
        old(st).agrees() ==> final(st).agrees(),
{
    st.saved.menu.seen_hint = on;
    st.pending.push(Effect::Write);
}

/// Whether the cloth physics rate is uncapped.
pub fn cyspring_uncap(st: &Store) -> (r: bool)
    ensures
        r == st.saved.gfx.cyspring_uncap,
{
    st.saved.gfx.cyspring_uncap
}

/// Set whether the cloth physics rate is uncapped.
pub fn set_cyspring_uncap(st: &mut Store, on: bool)
    ensures
        final(st).saved == (Settings {
            gfx: GfxPrefs { cyspring_uncap: on, ..old(st).saved.gfx },
            ..old(st).saved
        }),
        final(st).only_saved(*old(st), seq![Effect::Cyspring(on), Effect::Write]),
        old(st).agrees() ==> final(st).agrees(),
{
    let ghost before = st.pending@;
    st.pending.push(Effect::Cyspring(on));
    st.saved.gfx.cyspring_uncap = on;
    st.pending.push(Effect::Write);
    assert(st.pending@ =~= before + seq![Effect::Cyspring(on), Effect::Write]);
}

/// Whether the highest model quality is forced.
pub fn gfx_quality(st: &Store) -> (r: bool)
    ensures
        r == st.saved.gfx.gfx_quality,
{
    st.saved.gfx.gfx_quality
}

/// Set whether the highest model quality is forced.
pub fn set_gfx_quality(st: &mut Store, on: bool)
    ensures
        final(st).saved == (Settings {
            gfx: GfxPrefs { gfx_quality: on, ..old(st).saved.gfx },
            ..old(st).saved
        }),
        final(st).only_saved(*old(st), seq![Effect::Quality(on), Effect::Write]),
        old(st).agrees() ==> final(st).agrees(),
{
    let ghost before = st.pending@;
    st.pending.push(Effect::Quality(on));
    st.saved.gfx.gfx_quality = on;
    st.pending.push(Effect::Write);
    assert(st.pending@ =~= before + seq![Effect::Quality(on), Effect::Write]);
}

/// Anti-aliasing samples.
pub fn gfx_aa(st: &Store) -> (r: i32)
    ensures
        r == st.saved.gfx.gfx_aa,
{
    st.saved.gfx.gfx_aa
}

/// Set anti-aliasing samples.
pub fn set_gfx_aa(st: &mut Store, v: i32)
    ensures
        final(st).saved == (Settings {
            gfx: GfxPrefs { gfx_aa: v, ..old(st).saved.gfx },
            ..old(st).saved
        }),
        final(st).only_saved(*old(st), seq![Effect::Aa(v), Effect::Write]),
        old(st).agrees() ==> final(st).agrees(),
{
    let ghost before = st.pending@;
    st.pending.push(Effect::Aa(v));
    st.saved.gfx.gfx_aa = v;
    st.pending.push(Effect::Write);
    assert(st.pending@ =~= before + seq![Effect::Aa(v), Effect::Write]);
}

/// The shadow mode.
pub fn gfx_shadows(st: &Store) -> (r: i32)
    ensures
        r == st.saved.gfx.gfx_shadows,
{
    st.saved.gfx.gfx_shadows
}

/// Set the shadow mode.
pub fn set_gfx_shadows(st: &mut Store, v: i32)
    ensures
        final(st).saved == (Settings {
            gfx: GfxPrefs { gfx_shadows: v, ..old(st).saved.gfx },
            ..old(st).saved
        }),
        final(st).only_saved(*old(st), seq![Effect::Shadows(v), Effect::Write]),
        old(st).agrees() ==> final(st).agrees(),
{
    let ghost before = st.pending@;
    st.pending.push(Effect::Shadows(v));
    st.saved.gfx.gfx_shadows = v;
    st.pending.push(Effect::Write);
    assert(st.pending@ =~= before + seq![Effect::Shadows(v), Effect::Write]);
}

/// The shadow distance.
pub fn gfx_shadow_dist(st: &Store) -> (r: u32)
    ensures
        r == st.saved.gfx.gfx_shadow_dist,
{
    st.saved.gfx.gfx_shadow_dist
}

/// Set the shadow distance.
pub fn set_gfx_shadow_dist(st: &mut Store, v: u32)
    ensures
        final(st).saved == (Settings {
            gfx: GfxPrefs { gfx_shadow_dist: v, ..old(st).saved.gfx },
            ..old(st).saved
        }),
        final(st).only_saved(*old(st), seq![Effect::ShadowDistance(v), Effect::Write]),
        old(st).agrees() ==> final(st).agrees(),
{
    let ghost before = st.pending@;
    st.pending.push(Effect::ShadowDistance(v));
    st.saved.gfx.gfx_shadow_dist = v;
    st.pending.push(Effect::Write);
    assert(st.pending@ =~= before + seq![Effect::ShadowDistance(v), Effect::Write]);
}

/// Whether the window stays on top.
pub fn always_on_top(st: &Store) -> (r: bool)
    ensures
        r == st.saved.display.always_on_top,
{
    st.saved.display.always_on_top
}

/// Set whether the window stays on top.
pub fn set_always_on_top(st: &mut Store, on: bool)
    ensures
        final(st).saved == (Settings {
            display: DisplayPrefs { always_on_top: on, ..old(st).saved.display },
            ..old(st).saved
        }),
        final(st).only_saved(*old(st), seq![Effect::AlwaysOnTop(on), Effect::Write]),
        old(st).agrees() ==> final(st).agrees(),
{
    let ghost before = st.pending@;
    st.pending.push(Effect::AlwaysOnTop(on));
    st.saved.display.always_on_top = on;
    st.pending.push(Effect::Write);
    assert(st.pending@ =~= before + seq![Effect::AlwaysOnTop(on), Effect::Write]);
}

/// Whether the window is not minimized.
pub fn block_minimize(st: &Store) -> (r: bool)
    ensures
        r == st.saved.display.block_minimize,
{
    st.saved.display.block_minimize
}

/// Set whether the window is not minimized.
pub fn set_block_minimize(st: &mut Store, on: bool)
    ensures
        final(st).saved == (Settings {
            display: DisplayPrefs { block_minimize: on, ..old(st).saved.display },
            ..old(st).saved
        }),
        final(st).only_saved(*old(st), seq![Effect::BlockMinimize(on), Effect::Write]),
        old(st).agrees() ==> final(st).agrees(),
{
    let ghost before = st.pending@;
    st.pending.push(Effect::BlockMinimize(on));
    st.saved.display.block_minimize = on;
    st.pending.push(Effect::Write);
    assert(st.pending@ =~= before + seq![Effect::BlockMinimize(on), Effect::Write]);
}

/// The display mode.
pub fn display_mode(st: &Store) -> (r: i32)
    ensures
        r == st.saved.display.display_mode,
{
    st.saved.display.display_mode
}

/// Set the display mode.
pub fn set_display_mode(st: &mut Store, m: i32)
    ensures
        final(st).saved == (Settings {
            display: DisplayPrefs { display_mode: m, ..old(st).saved.display },
            ..old(st).saved
        }),
        final(st).only_saved(*old(st), seq![Effect::DisplayMode(m), Effect::Write]),
        old(st).agrees() ==> final(st).agrees(),
{
    let ghost before = st.pending@;
    st.pending.push(Effect::DisplayMode(m));
    st.saved.display.display_mode = m;
    st.pending.push(Effect::Write);
    assert(st.pending@ =~= before + seq![Effect::DisplayMode(m), Effect::Write]);
}

/// The render scale.
pub fn render_scale(st: &Store) -> (r: u32)
    ensures
        r == st.saved.display.render_scale,
{
    st.saved.display.render_scale
}

/// Set the render scale.
pub fn set_render_scale(st: &mut Store, s: u32)
    ensures
        final(st).saved == (Settings {
            display: DisplayPrefs { render_scale: s, ..old(st).saved.display },
            ..old(st).saved
        }),
        final(st).only_saved(*old(st), seq![Effect::RenderScale(s), Effect::Write]),
        old(st).agrees() ==> final(st).agrees(),
{
    let ghost before = st.pending@;
    st.pending.push(Effect::RenderScale(s));
    st.saved.display.render_scale = s;
    st.pending.push(Effect::Write);
    assert(st.pending@ =~= before + seq![Effect::RenderScale(s), Effect::Write]);
}

/// The UI scale.
pub fn ui_scale(st: &Store) -> (r: u32)
    ensures
        r == st.saved.display.ui_scale,
{
    st.saved.display.ui_scale
}

/// Set the UI scale.
pub fn set_ui_scale(st: &mut Store, s: u32)
    ensures
        final(st).saved == (Settings {
            display: DisplayPrefs { ui_scale: s, ..old(st).saved.display },
            ..old(st).saved
        }),
        final(st).only_saved(*old(st), seq![Effect::UiScale(s), Effect::Write]),
        old(st).agrees() ==> final(st).agrees(),
{
    let ghost before = st.pending@;
    st.pending.push(Effect::UiScale(s));
    st.saved.display.ui_scale = s;
    st.pending.push(Effect::Write);
    assert(st.pending@ =~= before + seq![Effect::UiScale(s), Effect::Write]);
}

/// Whether low-resources mode is on.
pub fn low_spec(st: &Store) -> (r: bool)
    ensures
        r == st.saved.gfx.low_spec,
{
    st.saved.gfx.low_spec
}

/// Set whether low-resources mode is on.
pub fn set_low_spec(st: &mut Store, on: bool)
    ensures
        final(st).saved == (Settings {
            gfx: GfxPrefs { low_spec: on, ..old(st).saved.gfx },
            ..old(st).saved
        }),
        final(st).only_saved(*old(st), seq![Effect::LowSpec(on), Effect::Write]),
        old(st).agrees() ==> final(st).agrees(),
{
    let ghost before = st.pending@;
    st.pending.push(Effect::LowSpec(on));
    st.saved.gfx.low_spec = on;
    st.pending.push(Effect::Write);
    assert(st.pending@ =~= before + seq![Effect::LowSpec(on), Effect::Write]);
}

/// Whether the classic menu is used.
pub fn classic_menu(st: &Store) -> (r: bool)
    ensures
        r == st.saved.menu.classic_menu,
{
    st.saved.menu.classic_menu
}

/// Set whether the classic menu is used.
pub fn set_classic_menu(st: &mut Store, on: bool)
    ensures
        final(st).saved == (Settings {
            menu: MenuPrefs { classic_menu: on, ..old(st).saved.menu },
            ..old(st).saved
        }),
        final(st).only_saved(*old(st), seq![Effect::Write]),
        old(st).agrees() ==> final(st).agrees(),
{
    st.saved.menu.classic_menu = on;
    st.pending.push(Effect::Write);
}

/// Whether the info panel shows bonds only.
pub fn bonds_only(st: &Store) -> (r: bool)
    ensures
        r == st.saved.menu.bonds_only,
{
    st.saved.menu.bonds_only
}

/// Set whether the info panel shows bonds only.
pub fn set_bonds_only(st: &mut Store, on: bool)
    ensures
        final(st).saved == (Settings {
            menu: MenuPrefs { bonds_only: on, ..old(st).saved.menu },
            ..old(st).saved
        }),
        final(st).only_saved(*old(st), seq![Effect::Write]),
        old(st).agrees() ==> final(st).agrees(),
{
    st.saved.menu.bonds_only = on;
    st.pending.push(Effect::Write);
}

/// Whether the career panel is shown.
pub fn show_career(st: &Store) -> (r: bool)
    ensures
        r == st.saved.menu.show_career,
{
    st.saved.menu.show_career
}

/// Set whether the career panel is shown.
pub fn set_show_career(st: &mut Store, on: bool)
    ensures
        final(st).saved == (Settings {
            menu: MenuPrefs { show_career: on, ..old(st).saved.menu },
            ..old(st).saved
        }),
        final(st).only_saved(*old(st), seq![Effect::Write]),
        old(st).agrees() ==> final(st).agrees(),
{
    st.saved.menu.show_career = on;
    st.pending.push(Effect::Write);
}

/// Whether the race panel is shown.
pub fn show_race(st: &Store) -> (r: bool)
    ensures
        r == st.saved.menu.show_race,
{
    st.saved.menu.show_race
}

/// Set whether the race panel is shown.
pub fn set_show_race(st: &mut Store, on: bool)
    ensures
        final(st).saved == (Settings {
            menu: MenuPrefs { show_race: on, ..old(st).saved.menu },
            ..old(st).saved
        }),
        final(st).only_saved(*old(st), seq![Effect::Write]),
        old(st).agrees() ==> final(st).agrees(),
{
    st.saved.menu.show_race = on;
    st.pending.push(Effect::Write);
}

/// Whether the info chip is shown.
pub fn show_energy(st: &Store) -> (r: bool)
    ensures
        r == st.saved.menu.show_energy,
{
    st.saved.menu.show_energy
}

/// Set whether the info chip is shown.
pub fn set_show_energy(st: &mut Store, on: bool)
    ensures
        final(st).saved == (Settings {
            menu: MenuPrefs { show_energy: on, ..old(st).saved.menu },
            ..old(st).saved
        }),
        final(st).only_saved(*old(st), seq![Effect::Write]),
        old(st).agrees() ==> final(st).agrees(),
{
    st.saved.menu.show_energy = on;
    st.pending.push(Effect::Write);
}

/// Whether the reserved feature is on.
pub fn oracle(st: &Store) -> (r: bool)
    ensures
        r == st.saved.misc.oracle,
{
    st.saved.misc.oracle
}

/// Set whether the reserved feature is on.
pub fn set_oracle(st: &mut Store, on: bool)
    ensures
        final(st).saved == (Settings {
            misc: MiscPrefs { oracle: on, ..old(st).saved.misc },
            ..old(st).saved
        }),
        final(st).only_saved(*old(st), seq![Effect::Write]),
        old(st).agrees() ==> final(st).agrees(),
{
    st.saved.misc.oracle = on;
    st.pending.push(Effect::Write);
}

/// Whether the telemetry display is on.
pub fn telemetry(st: &Store) -> (r: bool)
    ensures
        r == st.saved.tele.telemetry,
{
    st.saved.tele.telemetry
}

/// Set whether the telemetry display is on.
pub fn set_telemetry(st: &mut Store, on: bool)
    ensures
        final(st).saved == (Settings {
            tele: TelePrefs { telemetry: on, ..old(st).saved.tele },
            ..old(st).saved
        }),
        final(st).only_saved(*old(st), seq![Effect::Write]),
        old(st).agrees() ==> final(st).agrees(),
{
    st.saved.tele.telemetry = on;
    st.pending.push(Effect::Write);
}

/// Whether telemetry shows the grade.
pub fn tele_grade(st: &Store) -> (r: bool)
    ensures
        r == st.saved.tele.tele_grade,
{
    st.saved.tele.tele_grade
}

/// Set whether telemetry shows the grade.
pub fn set_tele_grade(st: &mut Store, v: bool)
    ensures
        final(st).saved == (Settings {
            tele: TelePrefs { tele_grade: v, ..old(st).saved.tele },
            ..old(st).saved
        }),
        final(st).only_saved(*old(st), seq![Effect::Write]),
        old(st).agrees() ==> final(st).agrees(),
{
    st.saved.tele.tele_grade = v;
    st.pending.push(Effect::Write);
}

/// Whether telemetry shows the portrait.
pub fn tele_portrait(st: &Store) -> (r: bool)
    ensures
        r == st.saved.tele.tele_portrait,
{
    st.saved.tele.tele_portrait
}

/// Set whether telemetry shows the portrait.
pub fn set_tele_portrait(st: &mut Store, v: bool)
    ensures
        final(st).saved == (Settings {
            tele: TelePrefs { tele_portrait: v, ..old(st).saved.tele },
            ..old(st).saved
        }),
        final(st).only_saved(*old(st), seq![Effect::Write]),
        old(st).agrees() ==> final(st).agrees(),
{
    st.saved.tele.tele_portrait = v;
    st.pending.push(Effect::Write);
}

/// Whether telemetry shows the rival panel.
pub fn tele_rival(st: &Store) -> (r: bool)
    ensures
        r == st.saved.tele.tele_rival,
{
    st.saved.tele.tele_rival
}

/// Set whether telemetry shows the rival panel.
pub fn set_tele_rival(st: &mut Store, v: bool)
    ensures
        final(st).saved == (Settings {
            tele: TelePrefs { tele_rival: v, ..old(st).saved.tele },
            ..old(st).saved
        }),
        final(st).only_saved(*old(st), seq![Effect::Write]),
        old(st).agrees() ==> final(st).agrees(),
{
    st.saved.tele.tele_rival = v;
    st.pending.push(Effect::Write);
}

/// Whether telemetry shows the skill feed.
pub fn tele_skills(st: &Store) -> (r: bool)
    ensures
        r == st.saved.tele.tele_skills,
{
    st.saved.tele.tele_skills
}

/// Set whether telemetry shows the skill feed.
pub fn set_tele_skills(st: &mut Store, v: bool)
    ensures
        final(st).saved == (Settings {
            tele: TelePrefs { tele_skills: v, ..old(st).saved.tele },
            ..old(st).saved
        }),
        final(st).only_saved(*old(st), seq![Effect::Write]),
        old(st).agrees() ==> final(st).agrees(),
{
    st.saved.tele.tele_skills = v;
    st.pending.push(Effect::Write);
}

/// Whether telemetry shows the timing tower.
pub fn tele_tower(st: &Store) -> (r: bool)
    ensures
        r == st.saved.tele.tele_tower,
{
    st.saved.tele.tele_tower
}

/// Set whether telemetry shows the timing tower.
pub fn set_tele_tower(st: &mut Store, v: bool)
    ensures
        final(st).saved == (Settings {
            tele: TelePrefs { tele_tower: v, ..old(st).saved.tele },
            ..old(st).saved
        }),
        final(st).only_saved(*old(st), seq![Effect::Write]),
        old(st).agrees() ==> final(st).agrees(),
{
    st.saved.tele.tele_tower = v;
    st.pending.push(Effect::Write);
}

/// Whether telemetry shows the win probability.
pub fn tele_winprob(st: &Store) -> (r: bool)
    ensures
        r == st.saved.tele.tele_winprob,
{
    st.saved.tele.tele_winprob
}

/// Set whether telemetry shows the win probability.
pub fn set_tele_winprob(st: &mut Store, v: bool)
    ensures
        final(st).saved == (Settings {
            tele: TelePrefs { tele_winprob: v, ..old(st).saved.tele },
            ..old(st).saved
        }),
        final(st).only_saved(*old(st), seq![Effect::Write]),
        old(st).agrees() ==> final(st).agrees(),
{
    st.saved.tele.tele_winprob = v;
    st.pending.push(Effect::Write);
}

/// Whether telemetry shows the pace trace.
pub fn tele_pace(st: &Store) -> (r: bool)
    ensures
        r == st.saved.tele.tele_pace,
{
    st.saved.tele.tele_pace
}

/// Set whether telemetry shows the pace trace.
pub fn set_tele_pace(st: &mut Store, v: bool)
    ensures
        final(st).saved == (Settings {
            tele: TelePrefs { tele_pace: v, ..old(st).saved.tele },
            ..old(st).saved
        }),
        final(st).only_saved(*old(st), seq![Effect::Write]),
        old(st).agrees() ==> final(st).agrees(),
{
    st.saved.tele.tele_pace = v;
    st.pending.push(Effect::Write);
}

/// Whether telemetry shows the battle callout.
pub fn tele_battle(st: &Store) -> (r: bool)
    ensures
        r == st.saved.tele.tele_battle,
{
    st.saved.tele.tele_battle
}

/// Set whether telemetry shows the battle callout.
pub fn set_tele_battle(st: &mut Store, v: bool)
    ensures
        final(st).saved == (Settings {
            tele: TelePrefs { tele_battle: v, ..old(st).saved.tele },
            ..old(st).saved
        }),
        final(st).only_saved(*old(st), seq![Effect::Write]),
        old(st).agrees() ==> final(st).agrees(),
{
    st.saved.tele.tele_battle = v;
    st.pending.push(Effect::Write);
}

/// Whether telemetry shows the head marker.
pub fn tele_marker(st: &Store) -> (r: bool)
    ensures
        r == st.saved.tele.tele_marker,
{
    st.saved.tele.tele_marker
}

/// Set whether telemetry shows the head marker.
pub fn set_tele_marker(st: &mut Store, v: bool)
    ensures
        final(st).saved == (Settings {
            tele: TelePrefs { tele_marker: v, ..old(st).saved.tele },
            ..old(st).saved
        }),
        final(st).only_saved(*old(st), seq![Effect::Write]),
        old(st).agrees() ==> final(st).agrees(),
{
    st.saved.tele.tele_marker = v;
    st.pending.push(Effect::Write);
}

/// Whether races are exported.
pub fn race_export(st: &Store) -> (r: bool)
    ensures
        r == st.saved.misc.race_export,
{
    st.saved.misc.race_export
}

/// Set whether races are exported.
pub fn set_race_export(st: &mut Store, on: bool)
    ensures
        final(st).saved == (Settings {
            misc: MiscPrefs { race_export: on, ..old(st).saved.misc },
            ..old(st).saved
        }),
        final(st).only_saved(*old(st), seq![Effect::RaceExport(on), Effect::Write]),
        old(st).agrees() ==> final(st).agrees(),
{
    let ghost before = st.pending@;
    st.pending.push(Effect::RaceExport(on));
    st.saved.misc.race_export = on;
    st.pending.push(Effect::Write);
    assert(st.pending@ =~= before + seq![Effect::RaceExport(on), Effect::Write]);
}

/// Whether veterans are exported.
pub fn umas_export(st: &Store) -> (r: bool)
    ensures
        r == st.saved.misc.umas_export,
{
    st.saved.misc.umas_export
}

/// Set whether veterans are exported.
pub fn set_umas_export(st: &mut Store, on: bool)
    ensures
        final(st).saved == (Settings {
            misc: MiscPrefs { umas_export: on, ..old(st).saved.misc },
            ..old(st).saved
        }),
        final(st).only_saved(*old(st), seq![Effect::UmasExport(on), Effect::Write]),
        old(st).agrees() ==> final(st).agrees(),
{
    let ghost before = st.pending@;
    st.pending.push(Effect::UmasExport(on));
    st.saved.misc.umas_export = on;
    st.pending.push(Effect::Write);
    assert(st.pending@ =~= before + seq![Effect::UmasExport(on), Effect::Write]);
}

/// Seconds of idleness before the translation model is released; 0 keeps it.
pub fn mtl_idle_unload_s(st: &Store) -> (r: u64)
    ensures
        r == st.saved.text.mtl_idle_unload_s,
{
    st.saved.text.mtl_idle_unload_s
}

/// Set the idle time before the translation model is released, at most a day.
pub fn set_mtl_idle_unload_s(st: &mut Store, v: u64)
    ensures
        final(st).saved == (Settings {
            text: TextPrefs {
                mtl_idle_unload_s: if v > MAX_IDLE_S {
                    MAX_IDLE_S
                } else {
                    v
                },
                ..old(st).saved.text
            },
            ..old(st).saved
        }),
        final(st).only_saved(*old(st), seq![Effect::Write]),
        old(st).agrees() ==> final(st).agrees(),
{
    st.saved.text.mtl_idle_unload_s = if v > MAX_IDLE_S {
        MAX_IDLE_S
    } else {
        v
    };
    st.pending.push(Effect::Write);
}

/// A number kept between two bounds.
pub open spec fn within(v: i32, lo: i32, hi: i32) -> i32 {
    if v < lo {
        lo
    } else if v > hi {
        hi
    } else {
        v
    }
}

/// A number kept between two bounds.
pub fn keep_within(v: i32, lo: i32, hi: i32) -> (r: i32)
    requires
        lo <= hi,
    ensures
        r == within(v, lo, hi),
        lo <= r <= hi,
{
    if v < lo {
        lo
    } else if v > hi {
        hi
    } else {
        v
    }
}

/// The colour-vision filter.
pub fn cvd_mode(st: &Store) -> (r: i32)
    ensures
        r == st.saved.gfx.cvd_mode,
{
    st.saved.gfx.cvd_mode
}

/// Set the colour-vision filter, 0 to 3.
pub fn set_cvd_mode(st: &mut Store, v: i32)
    ensures
        final(st).saved == (Settings { gfx: GfxPrefs { cvd_mode: within(v, 0, 3), ..old(st).saved.gfx }, ..old(st).saved }),
        final(st).only_saved(
            *old(st),
            seq![Effect::CvdMode(within(v, 0, 3) as u8), Effect::Write],
        ),
        old(st).agrees() ==> final(st).agrees(),
{
    let ghost before = st.pending@;
    let m: i32 = keep_within(v, 0, 3);
    st.pending.push(Effect::CvdMode(m as u8));
    st.saved.gfx.cvd_mode = m;
    st.pending.push(Effect::Write);
    assert(st.pending@ =~= before + seq![Effect::CvdMode(m as u8), Effect::Write]);
}

/// The colour-vision filter's strength.
pub fn cvd_strength(st: &Store) -> (r: u32)
    ensures
        r == st.saved.gfx.cvd_strength,
{
    st.saved.gfx.cvd_strength
}

/// Set the colour-vision filter's strength, 0 to 1.
pub fn set_cvd_strength(st: &mut Store, v: u32)
    ensures
        final(st).saved == (Settings { gfx: GfxPrefs { cvd_strength: clamped(v, ZERO, ONE), ..old(st).saved.gfx }, ..old(st).saved }),
        final(st).only_saved(
            *old(st),
            seq![Effect::CvdStrength(clamped(v, ZERO, ONE)), Effect::Write],
        ),
        old(st).agrees() ==> final(st).agrees(),
{
    let ghost before = st.pending@;
    let x: u32 = clamp(v, ZERO, ONE);
    st.pending.push(Effect::CvdStrength(x));
    st.saved.gfx.cvd_strength = x;
    st.pending.push(Effect::Write);
    assert(st.pending@ =~= before + seq![Effect::CvdStrength(x), Effect::Write]);
}

/// The low-resources tier, 1 to 3, also where the file holds another number.
pub fn low_level(st: &Store) -> (r: i32)
    ensures
        r == within(st.saved.gfx.low_level, 1, 3),
        1 <= r <= 3,
{
    keep_within(st.saved.gfx.low_level, 1, 3)
}

/// Set the low-resources tier, 1 to 3.
pub fn set_low_level(st: &mut Store, v: i32)
    ensures
        final(st).saved == (Settings { gfx: GfxPrefs { low_level: within(v, 1, 3), ..old(st).saved.gfx }, ..old(st).saved }),
        final(st).only_saved(*old(st), seq![Effect::LowLevel(within(v, 1, 3)), Effect::Write]),
        old(st).agrees() ==> final(st).agrees(),
{
    let ghost before = st.pending@;
    let x: i32 = keep_within(v, 1, 3);
    st.pending.push(Effect::LowLevel(x));
    st.saved.gfx.low_level = x;
    st.pending.push(Effect::Write);
    assert(st.pending@ =~= before + seq![Effect::LowLevel(x), Effect::Write]);
}

/// The telemetry scale.
pub fn tele_scale(st: &Store) -> (r: u32)
    ensures
        r == st.saved.tele.tele_scale,
{
    st.saved.tele.tele_scale
}

/// Set the telemetry scale, 0.6 to 2.
pub fn set_tele_scale(st: &mut Store, v: u32)
    ensures
        final(st).saved == (Settings {
            tele: TelePrefs {
                tele_scale: clamped(v, MIN_TELE_SCALE, MAX_TELE_SCALE),
                ..old(st).saved.tele
            },
            ..old(st).saved
        }),
        final(st).only_saved(*old(st), seq![Effect::Write]),
        old(st).agrees() ==> final(st).agrees(),
{
    st.saved.tele.tele_scale = clamp(v, MIN_TELE_SCALE, MAX_TELE_SCALE);
    st.pending.push(Effect::Write);
}

/// The settings with the sections of the telemetry display chosen.
pub open spec fn with_sections(s: Settings, rival: bool, skills: bool) -> Settings {
    Settings {
        tele: TelePrefs {
            telemetry: true,
            tele_grade: true,
            tele_portrait: true,
            tele_rival: rival,
            tele_skills: skills,
            tele_tower: true,
            tele_winprob: true,
            tele_pace: true,
            tele_battle: true,
            tele_marker: true,
            tele_scale: s.tele.tele_scale,
        },
        ..s
    }
}

/// Show the sections of the telemetry display.
fn show_sections(st: &mut Store, rival: bool, skills: bool)
    ensures
        final(st).saved == with_sections(old(st).saved, rival, skills),
        final(st).only_saved(*old(st), seq![Effect::Write]),
{
    st.saved.tele = TelePrefs {
        telemetry: true,
        tele_grade: true,
        tele_portrait: true,
        tele_rival: rival,
        tele_skills: skills,
        tele_tower: true,
        tele_winprob: true,
        tele_pace: true,
        tele_battle: true,
        tele_marker: true,
        tele_scale: st.saved.tele.tele_scale,
    };
    st.pending.push(Effect::Write);
}

/// The broadcast preset: every section but the rival panel and the skill feed.
pub fn tele_preset_broadcast(st: &mut Store)
    ensures
        final(st).saved == with_sections(old(st).saved, false, false),
        final(st).only_saved(*old(st), seq![Effect::Write]),
        old(st).agrees() ==> final(st).agrees(),
{
    show_sections(st, false, false);
}

/// The full preset: every section.
pub fn tele_preset_full(st: &mut Store)
    ensures
        final(st).saved == with_sections(old(st).saved, true, true),
        final(st).only_saved(*old(st), seq![Effect::Write]),
        old(st).agrees() ==> final(st).agrees(),
{
    show_sections(st, true, true);
}

/// The release that the user does not want to be asked about.
pub fn update_skip(st: &Store) -> (r: String)
    ensures
        r@ == st.saved.misc.update_skip@,
{
    st.saved.misc.update_skip.clone()
}

/// Set the release that the user does not want to be asked about.
pub fn set_update_skip(st: &mut Store, tag: &str)
    ensures
        final(st).saved.misc.update_skip@ == tag@,
        final(st).saved == (Settings {
            misc: MiscPrefs {
                update_skip: final(st).saved.misc.update_skip,
                ..old(st).saved.misc
            },
            ..old(st).saved
        }),
        final(st).only_saved(*old(st), seq![Effect::Write]),
        old(st).agrees() ==> final(st).agrees(),
{
    st.saved.misc.update_skip = tag.to_owned();
    st.pending.push(Effect::Write);
}

/// The changelog last shown.
pub fn update_seen_changelog(st: &Store) -> (r: String)
    ensures
        r@ == st.saved.misc.update_seen_changelog@,
{
    st.saved.misc.update_seen_changelog.clone()
}

/// Set the changelog last shown; nothing is written where it is the one already stored.
pub fn set_update_seen_changelog(st: &mut Store, notes: &str)
    ensures
        final(st).saved.misc.update_seen_changelog@ == notes@,
        final(st).saved == (Settings {
            misc: MiscPrefs {
                update_seen_changelog: final(st).saved.misc.update_seen_changelog,
                ..old(st).saved.misc
            },
            ..old(st).saved
        }),
        final(st).only_saved(
            *old(st),
            (if old(st).saved.misc.update_seen_changelog@ == notes@ {
                Seq::empty()
            } else {
                seq![Effect::Write]
            }),
        ),
        old(st).agrees() ==> final(st).agrees(),
{
    if !same(st.saved.misc.update_seen_changelog.as_str(), notes) {
        st.saved.misc.update_seen_changelog = notes.to_owned();
        st.pending.push(Effect::Write);
    } else {
        assert(st.pending@ =~= st.pending@ + Seq::<Effect>::empty());
    }
}

/// The glossary language, if one is selected.
pub fn tl_lang(st: &Store) -> (r: Option<String>)
    ensures
        said(r) == said(st.lang),
{
    match &st.lang {
        Some(l) => Some(l.clone()),
        None => None,
    }
}

/// Whether a glossary language is selected.
pub fn tl_lang_set(st: &Store) -> (r: bool)
    ensures
        r == st.lang_set,
{
    st.lang_set
}

/// Select a glossary language; an empty name selects none.
pub fn set_tl_lang(st: &mut Store, lang: Option<String>)
    ensures
        said(final(st).saved.text.tl_lang) == selected(lang),
        said(final(st).lang) == selected(lang),
        final(st).lang_set == (final(st).lang is Some),
        final(st).saved == (Settings { text: TextPrefs { tl_lang: final(st).saved.text.tl_lang, ..old(st).saved.text }, ..old(st).saved }),
        final(st).applied == old(st).applied,
        final(st).mtl_on == old(st).mtl_on,
        final(st).bot_on == old(st).bot_on,
        final(st).power == old(st).power,
        final(st).pending@ == old(st).pending@ + seq![Effect::ForgetText, Effect::Write],
        old(st).agrees() ==> final(st).agrees(),
{
    let ghost before = st.pending@;
    st.lang = select(&lang);
    st.lang_set = st.lang.is_some();
    st.saved.text.tl_lang = select(&lang);
    st.pending.push(Effect::ForgetText);
    st.pending.push(Effect::Write);
    assert(st.pending@ =~= before + seq![Effect::ForgetText, Effect::Write]);
}

/// Whether Overseer may act at all.
pub fn bot_enabled(st: &Store) -> (r: bool)
    ensures
        r == st.bot_on,
{
    st.bot_on
}

/// What a flip of the switches asks for, and the write behind it.
pub open spec fn flip_effects(fan: Option<FanOut>) -> Seq<Effect> {
    match fan {
        Some(f) => seq![Effect::FanOut(f), Effect::Write],
        None => seq![Effect::Write],
    }
}

/// Note what a flip of the switches asks for, and the write behind it.
fn note_flip(pending: &mut Vec<Effect>, fan: Option<FanOut>)
    ensures
        final(pending)@ == old(pending)@ + flip_effects(fan),
{
    let ghost before = pending@;
    if let Some(f) = fan {
        pending.push(Effect::FanOut(f));
    }
    pending.push(Effect::Write);
    assert(pending@ =~= before + flip_effects(fan));
}

impl Store {
    /// Whether this is `before` but for what is stored and the switches, which were flipped to
    /// `next` at `now`.
    pub open spec fn only_flipped(self, before: Store, next: Power, now: u64) -> bool {
        let (power, fan) = flipped(before.power, next, now, before.saved.misc.profiler);
        &&& self.applied == before.applied
        &&& self.lang == before.lang
        &&& self.lang_set == before.lang_set
        &&& self.mtl_on == before.mtl_on
        &&& self.power == power
        &&& self.pending@ =~= before.pending@ + flip_effects(fan)
    }
}

/// Switch Overseer on or off.
#[verifier::spinoff_prover]
#[verifier::rlimit(50)]
pub fn set_bot_enabled(st: &mut Store, on: bool, now: u64)
    ensures
        final(st).saved == (Settings { power: PowerPrefs { bot_enabled: on, ..old(st).saved.power }, ..old(st).saved }),
        final(st).bot_on == on,
        final(st).only_flipped(*old(st), Power { overseer_on: on, ..old(st).power }, now),
        old(st).agrees() ==> final(st).agrees(),
{
    let profiler: bool = st.saved.misc.profiler;
    st.saved.power.bot_enabled = on;
    st.bot_on = on;
    let mut power = st.power;
    let fan = set_overseer_enabled(&mut power, on, now, profiler);
    st.power = power;
    note_flip(&mut st.pending, fan);
}

/// Whether live translation is switched on.
pub fn translation_enabled(st: &Store) -> (r: bool)
    ensures
        r == st.power.translation_on,
{
    st.power.translation_on
}

/// Switch live translation on or off.
pub fn set_translation_enabled(st: &mut Store, on: bool, now: u64)
    ensures
        final(st).saved == (Settings { power: PowerPrefs { translation_enabled: on, ..old(st).saved.power }, ..old(st).saved }),
        final(st).bot_on == old(st).bot_on,
        final(st).only_flipped(*old(st), Power { translation_on: on, ..old(st).power }, now),
        old(st).agrees() ==> final(st).agrees(),
{
    let profiler: bool = st.saved.misc.profiler;
    st.saved.power.translation_enabled = on;
    let mut power = st.power;
    let fan = power_translation(&mut power, on, now, profiler);
    st.power = power;
    note_flip(&mut st.pending, fan);
}

/// Whether translation keeps running while Overseer is off.
pub fn keep_translation(st: &Store) -> (r: bool)
    ensures
        r == st.saved.power.keep_translation_when_disabled,
{
    st.saved.power.keep_translation_when_disabled
}

/// Set whether translation keeps running while Overseer is off.
pub fn set_keep_translation(st: &mut Store, on: bool, now: u64)
    ensures
        final(st).saved == (Settings {
            power: PowerPrefs { keep_translation_when_disabled: on, ..old(st).saved.power },
            ..old(st).saved
        }),
        final(st).bot_on == old(st).bot_on,
        final(st).only_flipped(*old(st), Power { keep_translation: on, ..old(st).power }, now),
        old(st).agrees() ==> final(st).agrees(),
{
    let profiler: bool = st.saved.misc.profiler;
    st.saved.power.keep_translation_when_disabled = on;
    let mut power = st.power;
    let fan = power_keep_translation(&mut power, on, now, profiler);
    st.power = power;
    note_flip(&mut st.pending, fan);
}

/// Whether the analysis keeps running while Overseer is off.
pub fn keep_analysis(st: &Store) -> (r: bool)
    ensures
        r == st.saved.power.keep_analysis_when_disabled,
{
    st.saved.power.keep_analysis_when_disabled
}

/// Set whether the analysis keeps running while Overseer is off.
pub fn set_keep_analysis(st: &mut Store, on: bool, now: u64)
    ensures
        final(st).saved == (Settings {
            power: PowerPrefs { keep_analysis_when_disabled: on, ..old(st).saved.power },
            ..old(st).saved
        }),
        final(st).bot_on == old(st).bot_on,
        final(st).only_flipped(*old(st), Power { keep_analysis: on, ..old(st).power }, now),
        old(st).agrees() ==> final(st).agrees(),
{
    let profiler: bool = st.saved.misc.profiler;
    st.saved.power.keep_analysis_when_disabled = on;
    let mut power = st.power;
    let fan = power_keep_analysis(&mut power, on, now, profiler);
    st.power = power;
    note_flip(&mut st.pending, fan);
}

/// Whether the monitoring keeps running while Overseer is off.
pub fn keep_monitoring(st: &Store) -> (r: bool)
    ensures
        r == st.saved.power.keep_monitoring_when_disabled,
{
    st.saved.power.keep_monitoring_when_disabled
}

/// Set whether the monitoring keeps running while Overseer is off.
pub fn set_keep_monitoring(st: &mut Store, on: bool, now: u64)
    ensures
        final(st).saved == (Settings {
            power: PowerPrefs { keep_monitoring_when_disabled: on, ..old(st).saved.power },
            ..old(st).saved
        }),
        final(st).bot_on == old(st).bot_on,
        final(st).only_flipped(*old(st), Power { keep_monitoring: on, ..old(st).power }, now),
        old(st).agrees() ==> final(st).agrees(),
{
    let profiler: bool = st.saved.misc.profiler;
    st.saved.power.keep_monitoring_when_disabled = on;
    let mut power = st.power;
    let fan = power_keep_monitoring(&mut power, on, now, profiler);
    st.power = power;
    note_flip(&mut st.pending, fan);
}

/// Whether the exporters keep running while Overseer is off.
pub fn keep_export(st: &Store) -> (r: bool)
    ensures
        r == st.saved.power.keep_export_when_disabled,
{
    st.saved.power.keep_export_when_disabled
}

/// Set whether the exporters keep running while Overseer is off.
pub fn set_keep_export(st: &mut Store, on: bool, now: u64)
    ensures
        final(st).saved == (Settings {
            power: PowerPrefs { keep_export_when_disabled: on, ..old(st).saved.power },
            ..old(st).saved
        }),
        final(st).bot_on == old(st).bot_on,
        final(st).only_flipped(*old(st), Power { keep_export: on, ..old(st).power }, now),
        old(st).agrees() ==> final(st).agrees(),
{
    let profiler: bool = st.saved.misc.profiler;
    st.saved.power.keep_export_when_disabled = on;
    let mut power = st.power;
    let fan = power_keep_export(&mut power, on, now, profiler);
    st.power = power;
    note_flip(&mut st.pending, fan);
}

/// Whether the webhooks keep running while Overseer is off.
pub fn keep_webhook(st: &Store) -> (r: bool)
    ensures
        r == st.saved.power.keep_webhook_when_disabled,
{
    st.saved.power.keep_webhook_when_disabled
}

/// Set whether the webhooks keep running while Overseer is off.
pub fn set_keep_webhook(st: &mut Store, on: bool, now: u64)
    ensures
        final(st).saved == (Settings {
            power: PowerPrefs { keep_webhook_when_disabled: on, ..old(st).saved.power },
            ..old(st).saved
        }),
        final(st).bot_on == old(st).bot_on,
        final(st).only_flipped(*old(st), Power { keep_webhook: on, ..old(st).power }, now),
        old(st).agrees() ==> final(st).agrees(),
{
    let profiler: bool = st.saved.misc.profiler;
    st.saved.power.keep_webhook_when_disabled = on;
    let mut power = st.power;
    let fan = power_keep_webhook(&mut power, on, now, profiler);
    st.power = power;
    note_flip(&mut st.pending, fan);
}

/// Whether the overlay keeps running while Overseer is off.
pub fn keep_overlay(st: &Store) -> (r: bool)
    ensures
        r == st.saved.power.keep_overlay_when_disabled,
{
    st.saved.power.keep_overlay_when_disabled
}

/// Set whether the overlay keeps running while Overseer is off.
pub fn set_keep_overlay(st: &mut Store, on: bool, now: u64)
    ensures
        final(st).saved == (Settings {
            power: PowerPrefs { keep_overlay_when_disabled: on, ..old(st).saved.power },
            ..old(st).saved
        }),
        final(st).bot_on == old(st).bot_on,
        final(st).only_flipped(*old(st), Power { keep_overlay: on, ..old(st).power }, now),
        old(st).agrees() ==> final(st).agrees(),
{
    let profiler: bool = st.saved.misc.profiler;
    st.saved.power.keep_overlay_when_disabled = on;
    let mut power = st.power;
    let fan = power_keep_overlay(&mut power, on, now, profiler);
    st.power = power;
    note_flip(&mut st.pending, fan);
}

/// The webhook configuration.
pub fn webhook_config(st: &Store) -> (r: String)
    ensures
        r@ == st.saved.misc.webhook@,
{
    st.saved.misc.webhook.clone()
}

/// Replace the webhook configuration.
pub fn set_webhook_config(st: &mut Store, cfg: String)
    ensures
        final(st).saved == (Settings { misc: MiscPrefs { webhook: cfg, ..old(st).saved.misc }, ..old(st).saved }),
        final(st).only_saved(*old(st), seq![Effect::Apply(Part::Webhook), Effect::Write]),
        old(st).agrees() ==> final(st).agrees(),
{
    let ghost before = st.pending@;
    st.saved.misc.webhook = cfg;
    st.pending.push(Effect::Apply(Part::Webhook));
    st.pending.push(Effect::Write);
    assert(st.pending@ =~= before + seq![Effect::Apply(Part::Webhook), Effect::Write]);
}

/// Whether machine translation is on.
pub fn mtl_enabled(st: &Store) -> (r: bool)
    ensures
        r == st.mtl_on,
{
    st.mtl_on
}

/// Set whether machine translation is on.
pub fn set_mtl_enabled(st: &mut Store, on: bool)
    ensures
        final(st).saved == (Settings { text: TextPrefs { mtl_enabled: on, ..old(st).saved.text }, ..old(st).saved }),
        final(st).mtl_on == on,
        final(st).applied == old(st).applied,
        final(st).lang == old(st).lang,
        final(st).lang_set == old(st).lang_set,
        final(st).bot_on == old(st).bot_on,
        final(st).power == old(st).power,
        final(st).pending@ == old(st).pending@ + seq![Effect::Write],
        old(st).agrees() ==> final(st).agrees(),
{
    st.saved.text.mtl_enabled = on;
    st.mtl_on = on;
    st.pending.push(Effect::Write);
}

/// The names that are kept in the original language.
pub fn protected_names(st: &Store) -> (r: Vec<String>)
    ensures
        lines(r@) == lines(st.saved.text.protected_names@),
{
    let mut out: Vec<String> = Vec::new();
    let mut i: usize = 0;
    while i < st.saved.text.protected_names.len()
        invariant
            i <= st.saved.text.protected_names.len(),
            out.len() == i,
            forall|j: int|
                0 <= j < i ==> (#[trigger] out@[j])@ == st.saved.text.protected_names@[j]@,
        decreases st.saved.text.protected_names.len() - i,
    {
        out.push(st.saved.text.protected_names[i].clone());
        i = i + 1;
    }
    assert(lines(out@) =~= lines(st.saved.text.protected_names@));
    out
}

/// Set the names that are kept in the original language.
pub fn set_protected_names(st: &mut Store, list: Vec<String>)
    ensures
        final(st).saved == (Settings { text: TextPrefs { protected_names: list, ..old(st).saved.text }, ..old(st).saved }),
        final(st).only_saved(*old(st), seq![Effect::UserNames, Effect::Write]),
        old(st).agrees() ==> final(st).agrees(),
{
    let ghost before = st.pending@;
    st.pending.push(Effect::UserNames);
    st.saved.text.protected_names = list;
    st.pending.push(Effect::Write);
    assert(st.pending@ =~= before + seq![Effect::UserNames, Effect::Write]);
}

/// The key bound to race action `i`: the saved one, or else the default, or else none.
pub open spec fn bound_key(keys: Seq<i32>, i: int) -> i32 {
    if i < keys.len() {
        keys[i]
    } else if i < default_keys().len() {
        default_keys()[i]
    } else {
        0
    }
}

/// The key bound to a race action.
pub fn rd_key(st: &Store, i: usize) -> (r: i32)
    ensures
        r == bound_key(st.saved.cams.rd_keys@, i as int),
{
    if i < st.saved.cams.rd_keys.len() {
        return st.saved.cams.rd_keys[i];
    }
    let def = default_rd_keys();
    if i < def.len() {
        def[i]
    } else {
        0
    }
}

/// The key binds, a short list filled up from the defaults.
pub open spec fn filled_keys(keys: Seq<i32>) -> Seq<i32> {
    if keys.len() < default_keys().len() {
        keys + default_keys().skip(keys.len() as int)
    } else {
        keys
    }
}

/// The key binds with one of them changed.
pub open spec fn rebound_keys(keys: Seq<i32>, i: int, vk: i32) -> Seq<i32> {
    if i < filled_keys(keys).len() {
        filled_keys(keys).update(i, vk)
    } else {
        filled_keys(keys)
    }
}

/// The key binds with one of them changed.
fn rebind(old_keys: &Vec<i32>, i: usize, vk: i32) -> (r: Vec<i32>)
    ensures
        r@ == rebound_keys(old_keys@, i as int, vk),
{
    let def = default_rd_keys();
    let mut keys: Vec<i32> = Vec::new();
    let mut k: usize = 0;
    while k < old_keys.len()
        invariant
            k <= old_keys.len(),
            keys@ == old_keys@.take(k as int),
        decreases old_keys.len() - k,
    {
        keys.push(old_keys[k]);
        k = k + 1;
        assert(keys@ =~= old_keys@.take(k as int));
    }
    assert(keys@ =~= old_keys@);
    while k < def.len()
        invariant
            old_keys.len() <= k,
            k <= def.len() || k == old_keys.len(),
            def@ == default_keys(),
            keys@ == if k == old_keys.len() {
                old_keys@
            } else {
                old_keys@ + def@.subrange(old_keys.len() as int, k as int)
            },
        decreases def.len() - k,
    {
        keys.push(def[k]);
        k = k + 1;
        assert(keys@ =~= old_keys@ + def@.subrange(old_keys.len() as int, k as int));
    }
    assert(keys@ =~= filled_keys(old_keys@));
    if i < keys.len() {
        keys.set(i, vk);
    }
    keys
}

/// Bind a race action to a key. A saved list that is too short is filled up from the defaults first.
pub fn set_rd_key(st: &mut Store, i: usize, vk: i32)
    ensures
        final(st).saved.cams.rd_keys@ == rebound_keys(old(st).saved.cams.rd_keys@, i as int, vk),
        final(st).saved == (Settings {
            cams: CamPrefs {
                rd_keys: final(st).saved.cams.rd_keys,
                ..old(st).saved.cams
            },
            ..old(st).saved
        }),
        final(st).only_saved(*old(st), seq![Effect::Write]),
        old(st).agrees() ==> final(st).agrees(),
{
    let keys = rebind(&st.saved.cams.rd_keys, i, vk);
    st.saved.cams.rd_keys = keys;
    st.pending.push(Effect::Write);
}

/// Whether the settings ask for the free camera; read off the file as it was loaded.
pub fn freecam_pref(loaded: &Settings) -> (r: bool)
    ensures
        r == loaded.misc.freecam,
{
    loaded.misc.freecam
}

/// Whether the free camera is on: chosen, and Overseer is on.
pub fn freecam(st: &Store) -> (r: bool)
    ensures
        r == (st.bot_on && st.saved.misc.freecam),
{
    st.bot_on && st.saved.misc.freecam
}

/// Set whether the free camera is on.
pub fn set_freecam(st: &mut Store, on: bool)
    ensures
        final(st).saved == (Settings { misc: MiscPrefs { freecam: on, ..old(st).saved.misc }, ..old(st).saved }),
        final(st).only_saved(*old(st), seq![Effect::Freecam(on), Effect::Write]),
        old(st).agrees() ==> final(st).agrees(),
{
    let ghost before = st.pending@;
    st.pending.push(Effect::Freecam(on));
    st.saved.misc.freecam = on;
    st.pending.push(Effect::Write);
    assert(st.pending@ =~= before + seq![Effect::Freecam(on), Effect::Write]);
}

/// The saved position of the info chip.
pub fn energy_pos(st: &Store) -> (r: (u32, u32))
    ensures
        r == (st.saved.menu.energy_x, st.saved.menu.energy_y),
{
    (st.saved.menu.energy_x, st.saved.menu.energy_y)
}

/// Save the position of the info chip.
pub fn set_energy_pos(st: &mut Store, x: u32, y: u32)
    ensures
        final(st).saved == (Settings { menu: MenuPrefs { energy_x: x, energy_y: y, ..old(st).saved.menu }, ..old(st).saved }),
        final(st).only_saved(*old(st), seq![Effect::Write]),
        old(st).agrees() ==> final(st).agrees(),
{
    st.saved.menu.energy_x = x;
    st.saved.menu.energy_y = y;
    st.pending.push(Effect::Write);
}

/// What the saved window geometry says.
pub open spec fn windows(s: Seq<(String, [u32; 4])>) -> Seq<(Seq<char>, Seq<u32>)> {
    s.map_values(|p: (String, [u32; 4])| (p.0@, p.1@))
}

/// Where a window's geometry is saved; the length where it is not.
pub open spec fn window_at(s: Seq<(Seq<char>, Seq<u32>)>, key: Seq<char>) -> int
    decreases s.len(),
{
    if s.len() == 0 {
        0
    } else if s[0].0 == key {
        0
    } else {
        1 + window_at(s.drop_first(), key)
    }
}

/// The saved window geometry once that of a window is saved.
pub open spec fn placed(s: Seq<(Seq<char>, Seq<u32>)>, key: Seq<char>, rect: Seq<u32>) -> Seq<
    (Seq<char>, Seq<u32>),
> {
    if window_at(s, key) == s.len() {
        s.push((key, rect))
    } else {
        s.update(window_at(s, key), (key, rect))
    }
}

/// The saved geometry of a window, if it has any.
pub open spec fn rect_of(s: Seq<(Seq<char>, Seq<u32>)>, key: Seq<char>) -> Option<Seq<u32>> {
    if window_at(s, key) < s.len() {
        Some(s[window_at(s, key)].1)
    } else {
        None
    }
}

/// A window's place is within the list, and an occupied one is its own.
proof fn lemma_window_at(s: Seq<(Seq<char>, Seq<u32>)>, key: Seq<char>)
    ensures
        0 <= window_at(s, key) <= s.len(),
        window_at(s, key) < s.len() ==> s[window_at(s, key)].0 == key,
        forall|i: int| 0 <= i < window_at(s, key) ==> (#[trigger] s[i]).0 != key,
    decreases s.len(),
{
    if s.len() > 0 && s[0].0 != key {
        lemma_window_at(s.drop_first(), key);
        assert forall|i: int| 0 <= i < window_at(s, key) implies (#[trigger] s[i]).0 != key by {
            if i > 0 {
                assert(s.drop_first()[i - 1] == s[i]);
            }
        }
    }
}

/// Where a window's geometry is saved.
fn find_window(win: &Vec<(String, [u32; 4])>, key: &str) -> (r: usize)
    ensures
        r == window_at(windows(win@), key@),
        r <= win.len(),
{
    let ghost all = windows(win@);
    let mut i: usize = 0;
    assert(all.skip(0) =~= all);
    while i < win.len()
        invariant
            i <= win.len(),
            all == windows(win@),
            window_at(all, key@) == i + window_at(all.skip(i as int), key@),
        decreases win.len() - i,
    {
        assert(all.skip(i as int)[0] == (win@[i as int].0@, win@[i as int].1@));
        if same(win[i].0.as_str(), key) {
            return i;
        }
        assert(all.skip(i as int).drop_first() =~= all.skip(i as int + 1));
        i = i + 1;
    }
    i
}

/// The saved geometry of a window, if it has any.
pub fn win_rect(st: &Store, key: &str) -> (r: Option<[u32; 4]>)
    ensures
        (match r {
            Some(rect) => Some(rect@),
            None => None,
        }) == rect_of(windows(st.saved.cams.win@), key@),
{
    let i: usize = find_window(&st.saved.cams.win, key);
    proof {
        lemma_window_at(windows(st.saved.cams.win@), key@);
    }
    if i < st.saved.cams.win.len() {
        assert(windows(st.saved.cams.win@)[i as int] == (
            st.saved.cams.win@[i as int].0@,
            st.saved.cams.win@[i as int].1@,
        ));
        Some(st.saved.cams.win[i].1)
    } else {
        None
    }
}

/// Save the geometry of a window. A window that has some is written only where it `moved`, that is
/// where some coordinate changed by more than 1.
pub fn set_win_rect(st: &mut Store, key: &str, rect: [u32; 4], moved: bool)
    ensures
        ({
            let all = windows(old(st).saved.cams.win@);
            if rect_of(all, key@) is None || moved {
                &&& windows(final(st).saved.cams.win@) == placed(all, key@, rect@)
                &&& final(st).only_saved(*old(st), seq![Effect::Write])
            } else {
                *final(st) == *old(st)
            }
        }),
        final(st).saved == (Settings { cams: CamPrefs { win: final(st).saved.cams.win, ..old(st).saved.cams }, ..old(st).saved }),
        old(st).agrees() ==> final(st).agrees(),
{
    let ghost all = windows(st.saved.cams.win@);
    let i: usize = find_window(&st.saved.cams.win, key);
    proof {
        lemma_window_at(all, key@);
    }
    if i == st.saved.cams.win.len() {
        st.saved.cams.win.push((key.to_owned(), rect));
        assert(windows(st.saved.cams.win@) =~= all.push((key@, rect@)));
        st.pending.push(Effect::Write);
    } else if moved {
        st.saved.cams.win.set(i, (key.to_owned(), rect));
        assert(windows(st.saved.cams.win@) =~= all.update(i as int, (key@, rect@)));
        st.pending.push(Effect::Write);
    }
}

/// The presets of a circuit; none where it has none saved.
pub open spec fn presets_of(m: Map<i32, TrackCams>, track: i32) -> Seq<PresetView> {
    if m.dom().contains(track) {
        preset_views(m[track].presets@)
    } else {
        Seq::empty()
    }
}

/// The stored default of a circuit.
pub open spec fn default_of(m: Map<i32, TrackCams>, track: i32) -> u32 {
    if m.dom().contains(track) {
        m[track].default_idx
    } else {
        0
    }
}

/// The default preset of a circuit, always a valid one where there is any, else 0.
pub open spec fn default_index(m: Map<i32, TrackCams>, track: i32) -> int {
    let n = presets_of(m, track).len();
    let d = default_of(m, track) as int;
    if n == 0 {
        0
    } else if d < n {
        d
    } else {
        n - 1
    }
}

/// A copy of a preset.
fn copy_preset(p: &CamPreset) -> (r: CamPreset)
    ensures
        r@ == p@,
{
    CamPreset { name: p.name.clone(), dist: p.dist, yaw: p.yaw, pitch: p.pitch, eyeh: p.eyeh }
}

/// A copy of a row of presets.
fn copy_presets(v: &Vec<CamPreset>) -> (r: Vec<CamPreset>)
    ensures
        preset_views(r@) == preset_views(v@),
{
    let mut out: Vec<CamPreset> = Vec::new();
    let mut i: usize = 0;
    while i < v.len()
        invariant
            i <= v.len(),
            out.len() == i,
            forall|j: int| 0 <= j < i ==> (#[trigger] out@[j])@ == v@[j]@,
        decreases v.len() - i,
    {
        out.push(copy_preset(&v[i]));
        i = i + 1;
    }
    assert(preset_views(out@) =~= preset_views(v@));
    out
}

/// The presets of a circuit.
pub fn cam_presets(st: &Store, track: i32) -> (r: Vec<CamPreset>)
    ensures
        preset_views(r@) == presets_of(st.saved.cams.cam_tracks@, track),
{
    broadcast use vstd::std_specs::hash::group_hash_axioms;

    match st.saved.cams.cam_tracks.get(&track) {
        Some(t) => copy_presets(&t.presets),
        None => {
            let none: Vec<CamPreset> = Vec::new();
            assert(preset_views(none@) =~= Seq::empty());
            none
        },
    }
}

/// The default preset of a circuit.
pub fn cam_default_idx(st: &Store, track: i32) -> (r: usize)
    ensures
        r == default_index(st.saved.cams.cam_tracks@, track),
        presets_of(st.saved.cams.cam_tracks@, track).len() > 0 ==> r < presets_of(
            st.saved.cams.cam_tracks@,
            track,
        ).len(),
{
    broadcast use vstd::std_specs::hash::group_hash_axioms;

    match st.saved.cams.cam_tracks.get(&track) {
        Some(t) => {
            let n: usize = t.presets.len();
            if n == 0 {
                0
            } else if (t.default_idx as u64) < n as u64 {
                t.default_idx as usize
            } else {
                n - 1
            }
        },
        None => 0,
    }
}

/// The pose of the default preset of a circuit, if it has presets.
pub fn cam_default_pose(st: &Store, track: i32) -> (r: Option<(u32, u32, u32, u32)>)
    ensures
        ({
            let all = presets_of(st.saved.cams.cam_tracks@, track);
            let p = all[default_index(st.saved.cams.cam_tracks@, track)];
            r == (if all.len() > 0 {
                Some((p.dist, p.yaw, p.pitch, p.eyeh))
            } else {
                None
            })
        }),
{
    broadcast use vstd::std_specs::hash::group_hash_axioms;

    let i: usize = cam_default_idx(st, track);
    match st.saved.cams.cam_tracks.get(&track) {
        Some(t) => {
            if i < t.presets.len() {
                let p = &t.presets[i];
                assert(preset_views(t.presets@)[i as int] == p@);
                Some((p.dist, p.yaw, p.pitch, p.eyeh))
            } else {
                None
            }
        },
        None => None,
    }
}

impl Store {
    /// Whether this is `before` but for the presets and the default of one circuit.
    pub open spec fn only_track(
        self,
        before: Store,
        track: i32,
        presets: Seq<PresetView>,
        default_idx: u32,
    ) -> bool {
        let m = self.saved.cams.cam_tracks@;
        let m0 = before.saved.cams.cam_tracks@;
        &&& self.saved == (Settings { cams: CamPrefs { cam_tracks: self.saved.cams.cam_tracks, ..before.saved.cams }, ..before.saved })
        &&& self.only_saved(before, seq![Effect::Write])
        &&& m.dom() == m0.dom().insert(track)
        &&& forall|t: i32| t != track && #[trigger] m0.dom().contains(t) ==> m[t] == m0[t]
        &&& presets_of(m, track) == presets
        &&& default_of(m, track) == default_idx
    }
}

/// Put back the presets of a circuit and note the write.
fn put_track(st: &mut Store, track: i32, cams: TrackCams)
    ensures
        final(st).only_track(*old(st), track, preset_views(cams.presets@), cams.default_idx),
        old(st).presets_bounded() && cams.presets@.len() <= MAX_PRESETS
            ==> final(st).presets_bounded(),
        old(st).agrees() ==> final(st).agrees(),
{
    broadcast use vstd::std_specs::hash::group_hash_axioms;

    let _ = st.saved.cams.cam_tracks.insert(track, cams);
    st.pending.push(Effect::Write);
}

/// Copy the presets of a circuit; none where it has none.
fn take_track(st: &Store, track: i32) -> (r: TrackCams)
    ensures
        preset_views(r.presets@) == presets_of(st.saved.cams.cam_tracks@, track),
        r.default_idx == default_of(st.saved.cams.cam_tracks@, track),
{
    broadcast use vstd::std_specs::hash::group_hash_axioms;

    match st.saved.cams.cam_tracks.get(&track) {
        Some(t) => TrackCams { presets: copy_presets(&t.presets), default_idx: t.default_idx },
        None => {
            let none: Vec<CamPreset> = Vec::new();
            assert(preset_views(none@) =~= Seq::empty());
            TrackCams { presets: none, default_idx: 0 }
        },
    }
}

/// Add a preset to a circuit. Returns its index; `None`, and no change, where the circuit is full.
pub fn cam_add_preset(
    st: &mut Store,
    track: i32,
    name: &str,
    dist: u32,
    yaw: u32,
    pitch: u32,
    eyeh: u32,
) -> (r: Option<usize>)
    ensures
        ({
            let m = old(st).saved.cams.cam_tracks@;
            let all = presets_of(m, track);
            if all.len() >= MAX_PRESETS {
                r is None && *final(st) == *old(st)
            } else {
                &&& r == Some(all.len() as usize)
                &&& final(st).only_track(
                    *old(st),
                    track,
                    all.push(PresetView { name: name@, dist, yaw, pitch, eyeh }),
                    default_of(m, track),
                )
            }
        }),
        old(st).presets_bounded() ==> final(st).presets_bounded(),
        old(st).agrees() ==> final(st).agrees(),
{
    let mut cams = take_track(st, track);
    let n: usize = cams.presets.len();
    assert(preset_views(cams.presets@).len() == n);
    if n >= MAX_PRESETS {
        return None;
    }
    let ghost before = cams.presets@;
    let p = CamPreset { name: name.to_owned(), dist, yaw, pitch, eyeh };
    let ghost said = p@;
    cams.presets.push(p);
    assert(preset_views(cams.presets@) =~= preset_views(before).push(said));
    put_track(st, track, cams);
    Some(n)
}

/// Overwrite the pose of a preset; nothing where there is no such preset.
pub fn cam_update_preset(
    st: &mut Store,
    track: i32,
    idx: usize,
    dist: u32,
    yaw: u32,
    pitch: u32,
    eyeh: u32,
)
    ensures
        ({
            let m = old(st).saved.cams.cam_tracks@;
            let all = presets_of(m, track);
            if idx < all.len() {
                final(st).only_track(
                    *old(st),
                    track,
                    all.update(
                        idx as int,
                        PresetView { dist, yaw, pitch, eyeh, ..all[idx as int] },
                    ),
                    default_of(m, track),
                )
            } else {
                *final(st) == *old(st)
            }
        }),
        old(st).presets_bounded() ==> final(st).presets_bounded(),
        old(st).agrees() ==> final(st).agrees(),
{
    let mut cams = take_track(st, track);
    assert(preset_views(cams.presets@).len() == cams.presets@.len());
    if idx < cams.presets.len() {
        let ghost before = cams.presets@;
        assert(preset_views(before)[idx as int] == before[idx as int]@);
        let p = CamPreset { name: cams.presets[idx].name.clone(), dist, yaw, pitch, eyeh };
        let ghost said = p@;
        cams.presets.set(idx, p);
        assert(preset_views(cams.presets@) =~= preset_views(before).update(idx as int, said));
        assert(old(st).presets_bounded() ==> cams.presets@.len() <= MAX_PRESETS);
        put_track(st, track, cams);
    }
}

/// Rename a preset; nothing where there is no such preset.
pub fn cam_rename_preset(st: &mut Store, track: i32, idx: usize, name: &str)
    ensures
        ({
            let m = old(st).saved.cams.cam_tracks@;
            let all = presets_of(m, track);
            if idx < all.len() {
                final(st).only_track(
                    *old(st),
                    track,
                    all.update(idx as int, PresetView { name: name@, ..all[idx as int] }),
                    default_of(m, track),
                )
            } else {
                *final(st) == *old(st)
            }
        }),
        old(st).presets_bounded() ==> final(st).presets_bounded(),
        old(st).agrees() ==> final(st).agrees(),
{
    let mut cams = take_track(st, track);
    assert(preset_views(cams.presets@).len() == cams.presets@.len());
    if idx < cams.presets.len() {
        let ghost before = cams.presets@;
        assert(preset_views(before)[idx as int] == before[idx as int]@);
        let mut p = copy_preset(&cams.presets[idx]);
        p.name = name.to_owned();
        let ghost said = p@;
        cams.presets.set(idx, p);
        assert(preset_views(cams.presets@) =~= preset_views(before).update(idx as int, said));
        put_track(st, track, cams);
    }
}

/// Delete a preset; nothing where there is no such preset. A default that no longer exists becomes
/// the first.
pub fn cam_delete_preset(st: &mut Store, track: i32, idx: usize)
    ensures
        ({
            let m = old(st).saved.cams.cam_tracks@;
            let all = presets_of(m, track);
            if idx < all.len() {
                final(st).only_track(
                    *old(st),
                    track,
                    all.remove(idx as int),
                    (if default_of(m, track) >= all.len() - 1 {
                        0
                    } else {
                        default_of(m, track)
                    }),
                )
            } else {
                *final(st) == *old(st)
            }
        }),
        old(st).presets_bounded() ==> final(st).presets_bounded(),
        old(st).agrees() ==> final(st).agrees(),
{
    let mut cams = take_track(st, track);
    assert(preset_views(cams.presets@).len() == cams.presets@.len());
    if idx < cams.presets.len() {
        let ghost before = cams.presets@;
        let _ = cams.presets.remove(idx);
        assert(preset_views(cams.presets@) =~= preset_views(before).remove(idx as int));
        if cams.default_idx as u64 >= cams.presets.len() as u64 {
            cams.default_idx = 0;
        }
        put_track(st, track, cams);
    }
}

/// Choose the default preset of a circuit; nothing where there is no such preset.
pub fn cam_set_default(st: &mut Store, track: i32, idx: usize)
    ensures
        ({
            let m = old(st).saved.cams.cam_tracks@;
            let all = presets_of(m, track);
            if idx < all.len() {
                final(st).only_track(*old(st), track, all, idx as u32)
            } else {
                *final(st) == *old(st)
            }
        }),
        old(st).presets_bounded() ==> final(st).presets_bounded(),
        old(st).agrees() ==> final(st).agrees(),
{
    let mut cams = take_track(st, track);
    assert(preset_views(cams.presets@).len() == cams.presets@.len());
    if idx < cams.presets.len() {
        cams.default_idx = idx as u32;
        put_track(st, track, cams);
    }
}

/// Switching Overseer off does not touch a stored choice: every setting but the switch itself is as
/// before, and back on they are all as they were.
pub proof fn lemma_switch_keeps_choices(s: Settings)
    requires
        s.power.bot_enabled,
    ensures
        ({
            let off = Settings { power: PowerPrefs { bot_enabled: false, ..s.power }, ..s };
            (Settings { power: PowerPrefs { bot_enabled: true, ..off.power }, ..off }) == s
        }),
{
}

/// The features that were removed stay off after startup, whatever the file says.
pub proof fn lemma_removed_features_stay_off(s: Settings)
    ensures
        !boot_settings(s).misc.freecam,
        !boot_settings(s).misc.tt_capture,
        !boot_settings(s).gfx.cyspring_uncap,
        boot_settings(s).tele.telemetry == s.tele.telemetry,
{
}

/// At startup the switches are fanned out last, and the log level is set first.
pub proof fn lemma_boot_order(s: Settings, p: Power)
    ensures
        boot_effects(s, p)[0] == Effect::Trace(s.misc.verbose_log),
        boot_effects(s, p).last() is FanOut,
{
}

/// A window's geometry that was saved is read back, and no other window's is touched.
pub proof fn lemma_window_remembered(
    s: Seq<(Seq<char>, Seq<u32>)>,
    key: Seq<char>,
    rect: Seq<u32>,
    other: Seq<char>,
)
    ensures
        rect_of(placed(s, key, rect), key) == Some(rect),
        other != key ==> rect_of(placed(s, key, rect), other) == rect_of(s, other),
    decreases s.len(),
{
    let t = placed(s, key, rect);
    if s.len() == 0 {
        assert(t =~= seq![(key, rect)]);
        assert(t.drop_first() =~= Seq::empty());
        assert(window_at(t, key) == 0);
        if other != key {
            assert(window_at(t.drop_first(), other) == 0);
            assert(window_at(t, other) == 1);
        }
    } else if s[0].0 == key {
        assert(t =~= s.update(0, (key, rect)));
        assert(window_at(t, key) == 0);
        assert(t.drop_first() =~= s.drop_first());
        let k = window_at(s.drop_first(), other);
        lemma_window_at(s.drop_first(), other);
        if other != key {
            assert(window_at(t, other) == 1 + k && window_at(s, other) == 1 + k);
            assert(1 + k < s.len() ==> t[1 + k] == s[1 + k]);
        }
    } else {
        let rest = s.drop_first();
        lemma_window_at(rest, key);
        lemma_window_remembered(rest, key, rect, other);
        assert(t[0] == s[0]);
        assert(t.drop_first() =~= placed(rest, key, rect));
        let u = t.drop_first();
        lemma_window_at(u, key);
        lemma_window_at(u, other);
        lemma_window_at(rest, other);
        assert(window_at(t, key) == 1 + window_at(u, key));
        assert(u[window_at(u, key)] == t[1 + window_at(u, key)]);
        if other != key && s[0].0 != other {
            assert(window_at(t, other) == 1 + window_at(u, other));
            assert(window_at(s, other) == 1 + window_at(rest, other));
            if window_at(u, other) < u.len() {
                assert(u[window_at(u, other)] == t[1 + window_at(u, other)]);
            }
            if window_at(rest, other) < rest.len() {
                assert(rest[window_at(rest, other)] == s[1 + window_at(rest, other)]);
            }
        }
    }
}

/// A key that was bound to a race action is read back, and no other action's is touched.
pub proof fn lemma_key_remembered(keys: Seq<i32>, i: int, vk: i32, j: int)
    requires
        0 <= i < filled_keys(keys).len(),
        0 <= j,
    ensures
        bound_key(rebound_keys(keys, i, vk), i) == vk,
        j != i ==> bound_key(rebound_keys(keys, i, vk), j) == bound_key(keys, j),
{
}

/// A preset that is added stands last, the others stay where they are, and deleting it again leaves
/// what was there before.
pub proof fn lemma_preset_added(all: Seq<PresetView>, p: PresetView)
    ensures
        all.push(p).last() == p,
        all.push(p).remove(all.len() as int) == all,
{
    assert(all.push(p).remove(all.len() as int) =~= all);
}

/// Asking whether a language is selected is asking whether there is one, and an empty name in the file
/// selects none.
pub proof fn lemma_language_is_one_question(st: Store)
    requires
        st.agrees(),
    ensures
        st.lang_set == (st.lang is Some),
        st.lang_set == names_language(st.saved.text.tl_lang),
        said(st.saved.text.tl_lang) == Some(Seq::<char>::empty()) ==> st.lang is None,
{
}

/// What a setting is before anyone chose: the bot and the translation run and nothing is kept while the
/// bot is off; training, events, shops, rivals and cutscenes are skipped and nothing else; the display
/// stays as the game has it; telemetry shows every section.
pub proof fn lemma_defaults(s: Settings)
    requires
        s.is_default(),
    ensures
        s.power.bot_enabled && s.power.translation_enabled,
        !s.power.keep_translation_when_disabled && !s.power.keep_analysis_when_disabled
            && !s.power.keep_monitoring_when_disabled && !s.power.keep_export_when_disabled
            && !s.power.keep_webhook_when_disabled && !s.power.keep_overlay_when_disabled,
        s.skip.skip_training && s.skip.skip_events && s.skip.skip_shop && s.skip.skip_rival
            && s.skip.skip_scene_cutt,
        !s.skip.race_result && !s.skip.hyper_skip && !s.skip.skip_warnings && !s.skip.skip_inspiration
            && !s.skip.skip_skill_learn && !s.skip.event_auto_choice && !s.skip.race_ff,
        s.skip.fps == 0 && s.skip.ui_tempo == 0x3f80_0000,
        s.menu.rail_right && s.menu.menu_centered && s.menu.energy_x == 0x4270_0000 && s.menu.energy_y
            == 0x4270_0000 && s.menu.toggle_key == 0,
        !s.menu.bonds_only && !s.menu.show_career && !s.menu.show_race && !s.menu.show_energy
            && !s.menu.seen_hint && !s.menu.classic_menu,
        s.text.mtl_idle_unload_s == 300 && s.text.tl_lang is None && !s.text.mtl_enabled
            && !s.text.mtl_hq && s.text.protected_names@.len() == 0,
        !s.gfx.cyspring_uncap && !s.gfx.gfx_quality && !s.gfx.low_spec,
        s.gfx.gfx_aa == -1 && s.gfx.gfx_shadows == -1 && s.gfx.gfx_shadow_dist == 0xbf80_0000,
        s.gfx.cvd_mode == 0 && s.gfx.cvd_strength == 0x3f59_999a && s.gfx.low_level == 1
            && s.gfx.low_render_scale == 0,
        !s.display.always_on_top && !s.display.block_minimize && s.display.display_mode == 0
            && s.display.render_scale == 0x3f80_0000 && s.display.ui_scale == 0x3f80_0000,
        s.tele.telemetry && s.tele.tele_grade && s.tele.tele_portrait && s.tele.tele_rival
            && s.tele.tele_skills && s.tele.tele_tower && s.tele.tele_winprob && s.tele.tele_pace
            && s.tele.tele_battle && s.tele.tele_marker && s.tele.tele_scale == 0x3f80_0000,
        s.misc.webhook@.len() == 0 && s.misc.legacy_capture && s.misc.companion_bridge,
        !s.misc.verbose_log && !s.misc.profiler && !s.misc.tt_capture && !s.misc.oracle
            && !s.misc.freecam && !s.misc.race_export && !s.misc.umas_export,
        s.misc.update_skip@.len() == 0 && s.misc.update_seen_changelog@.len() == 0,
        s.cams.cam_tracks@.dom() == Set::<i32>::empty() && s.cams.win@.len() == 0,
        s.cams.rd_keys@ == seq![37i32, 39, 38, 40, 73, 75, 219, 221, 79, 80, 86],
{
    assert(s.cams.cam_tracks@.dom() =~= Set::<i32>::empty());
    assert(default_keys() =~= seq![37i32, 39, 38, 40, 73, 75, 219, 221, 79, 80, 86]);
}

/// Startup changes the three removed features alone.
pub proof fn lemma_boot_keeps_the_rest(s: Settings)
    ensures
        ({
            let b = boot_settings(s);
            &&& b.power == s.power && b.skip == s.skip && b.menu == s.menu && b.text == s.text && b.display
                == s.display && b.tele == s.tele && b.cams == s.cams
            &&& !s.misc.freecam && !s.misc.tt_capture ==> b.misc == s.misc
            &&& !s.gfx.cyspring_uncap ==> b.gfx == s.gfx
            &&& b.misc.webhook == s.misc.webhook && b.misc.legacy_capture == s.misc.legacy_capture
                && b.misc.profiler == s.misc.profiler && b.misc.race_export == s.misc.race_export
            &&& b.gfx.cvd_mode == s.gfx.cvd_mode && b.gfx.low_spec == s.gfx.low_spec
        }),
{
}

/// At startup every part is applied once.
pub proof fn lemma_boot_applies_all(s: Settings, p: Power)
    ensures
        boot_effects(s, p).len() == 15,
        boot_effects(s, p).contains(Effect::Apply(Part::Skip)),
        boot_effects(s, p).contains(Effect::Apply(Part::Performance)),
        boot_effects(s, p).contains(Effect::Apply(Part::Tempo)),
        boot_effects(s, p).contains(Effect::Apply(Part::TeamTrials)),
        boot_effects(s, p).contains(Effect::Apply(Part::Freecam)),
        boot_effects(s, p).contains(Effect::Apply(Part::RaceExport)),
        boot_effects(s, p).contains(Effect::Apply(Part::Companion)),
        boot_effects(s, p).contains(Effect::Apply(Part::Umas)),
        boot_effects(s, p).contains(Effect::Apply(Part::Webhook)),
        boot_effects(s, p).contains(Effect::UserNames),
        boot_effects(s, p).contains(Effect::Profiler(s.misc.profiler)),
        boot_effects(s, p).contains(Effect::CvdStrength(s.gfx.cvd_strength)),
        0 <= s.gfx.cvd_mode < 256 ==> boot_effects(s, p).contains(
            Effect::CvdMode(s.gfx.cvd_mode as u8),
        ),
        boot_effects(s, p).contains(Effect::FanOut(fan_out_of(p, s.misc.profiler))),
{
    let e = boot_effects(s, p);
    assert(e[1] == Effect::Profiler(s.misc.profiler));
    assert(e[2] == Effect::Apply(Part::Skip));
    assert(e[3] == Effect::Apply(Part::Performance));
    assert(e[4] == Effect::CvdMode(s.gfx.cvd_mode as u8));
    assert(e[5] == Effect::CvdStrength(s.gfx.cvd_strength));
    assert(e[6] == Effect::Apply(Part::Tempo));
    assert(e[7] == Effect::Apply(Part::TeamTrials));
    assert(e[8] == Effect::Apply(Part::Freecam));
    assert(e[9] == Effect::Apply(Part::RaceExport));
    assert(e[10] == Effect::Apply(Part::Companion));
    assert(e[11] == Effect::Apply(Part::Umas));
    assert(e[12] == Effect::UserNames);
    assert(e[13] == Effect::Apply(Part::Webhook));
    assert(e[14] == Effect::FanOut(fan_out_of(p, s.misc.profiler)));
}

/// A number is kept between its bounds: it stays where it lies between them, and comes to the nearer one
/// where it does not.
pub proof fn lemma_within(v: i32, lo: i32, hi: i32)
    requires
        lo <= hi,
    ensures
        lo <= within(v, lo, hi) <= hi,
        lo <= v <= hi ==> within(v, lo, hi) == v,
        v <= lo ==> within(v, lo, hi) == lo,
        v >= hi ==> within(v, lo, hi) == hi,
{
}

/// A telemetry preset sets the two sections that it is asked for and turns on all others; the size and
/// everything else stay.
pub proof fn lemma_sections(s: Settings, rival: bool, skills: bool)
    ensures
        ({
            let t = with_sections(s, rival, skills);
            &&& t.tele.tele_rival == rival
            &&& t.tele.tele_skills == skills
            &&& t.tele.telemetry && t.tele.tele_grade && t.tele.tele_portrait && t.tele.tele_tower
                && t.tele.tele_winprob && t.tele.tele_pace && t.tele.tele_battle && t.tele.tele_marker
            &&& t.tele.tele_scale == s.tele.tele_scale
            &&& t.power == s.power && t.skip == s.skip && t.menu == s.menu && t.text == s.text && t.gfx
                == s.gfx && t.display == s.display && t.misc == s.misc && t.cams == s.cams
        }),
{
}

/// A switch is always saved; it is fanned out before that where something changed.
pub proof fn lemma_flip_effects(fan: Option<FanOut>)
    ensures
        flip_effects(fan).last() == Effect::Write,
        fan matches Some(f) ==> flip_effects(fan).len() == 2 && flip_effects(fan)[0] == Effect::FanOut(f),
        fan is None ==> flip_effects(fan).len() == 1,
{
}

/// A key that is not bound is the default one, and past the defaults there is none.
pub proof fn lemma_bound_keys(keys: Seq<i32>, i: int)
    requires
        0 <= i,
    ensures
        i < keys.len() ==> bound_key(keys, i) == keys[i],
        keys.len() <= i < 11 ==> bound_key(keys, i) == seq![
            37i32,
            39,
            38,
            40,
            73,
            75,
            219,
            221,
            79,
            80,
            86,
        ][i],
        keys.len() <= i && 11 <= i ==> bound_key(keys, i) == 0,
        filled_keys(keys).len() >= 11,
        keys.is_prefix_of(filled_keys(keys)),
        i < filled_keys(keys).len() ==> filled_keys(keys)[i] == bound_key(keys, i),
        i >= filled_keys(keys).len() ==> rebound_keys(keys, i, 0) == filled_keys(keys),
{
    assert(default_keys() =~= seq![37i32, 39, 38, 40, 73, 75, 219, 221, 79, 80, 86]);
}

/// The default preset of a track is the one chosen, the last where fewer are left, and the first where
/// there is none.
pub proof fn lemma_default_preset(m: Map<i32, TrackCams>, track: i32)
    ensures
        presets_of(m, track).len() == 0 ==> default_index(m, track) == 0,
        presets_of(m, track).len() > 0 ==> 0 <= default_index(m, track) < presets_of(m, track).len(),
        m.dom().contains(track) && m[track].default_idx < m[track].presets@.len() ==> default_index(
            m,
            track,
        ) == m[track].default_idx,
        m.dom().contains(track) && m[track].presets@.len() > 0 && m[track].default_idx
            >= m[track].presets@.len() ==> default_index(m, track) == m[track].presets@.len() - 1,
        !m.dom().contains(track) ==> presets_of(m, track).len() == 0 && default_of(m, track) == 0,
{
}

/// What the parts see agrees with what is saved: the language, the translation and every switch.
pub proof fn lemma_agreement(st: Store)
    requires
        st.agrees(),
    ensures
        st.bot_on <==> st.saved.power.bot_enabled,
        st.power.overseer_on <==> st.saved.power.bot_enabled,
        st.power.translation_on <==> st.saved.power.translation_enabled,
        st.power.keep_translation <==> st.saved.power.keep_translation_when_disabled,
        st.power.keep_analysis <==> st.saved.power.keep_analysis_when_disabled,
        st.power.keep_monitoring <==> st.saved.power.keep_monitoring_when_disabled,
        st.power.keep_export <==> st.saved.power.keep_export_when_disabled,
        st.power.keep_webhook <==> st.saved.power.keep_webhook_when_disabled,
        st.power.keep_overlay <==> st.saved.power.keep_overlay_when_disabled,
        st.mtl_on <==> st.saved.text.mtl_enabled,
        st.saved.text.tl_lang matches Some(l) ==> (l@.len() > 0 ==> (st.lang matches Some(k) && k@ == l@)),
        st.saved.text.tl_lang is None ==> st.lang is None,
{
}

/// Saving a choice changes nothing that the parts see, and asks for its effects behind those that wait.
pub proof fn lemma_only_saved(st: Store, before: Store, todo: Seq<Effect>)
    requires
        st.only_saved(before, todo),
    ensures
        st.applied == before.applied && st.lang == before.lang && st.lang_set == before.lang_set
            && st.mtl_on == before.mtl_on && st.bot_on == before.bot_on && st.power == before.power,
        st.pending@ == before.pending@ + todo,
{
}

/// A switch that changes nothing is only saved; one that changes something is fanned out too.
pub proof fn lemma_only_flipped(st: Store, before: Store, next: Power, now: u64)
    requires
        st.only_flipped(before, next, now),
    ensures
        st.applied == before.applied && st.lang == before.lang && st.lang_set == before.lang_set
            && st.mtl_on == before.mtl_on,
        next == before.power ==> st.power == before.power && st.pending@ == before.pending@.push(
            Effect::Write,
        ),
        next != before.power ==> st.power.overseer_on == next.overseer_on && st.power.translation_on
            == next.translation_on && st.power.last_change_ms == now && st.pending@ == before.pending@
            + seq![Effect::FanOut(fan_out_of(next, before.saved.misc.profiler)), Effect::Write],
{
    if next == before.power {
        assert(st.pending@ =~= before.pending@.push(Effect::Write));
    }
}

/// A change of a track's presets touches no other track and no other setting, and is saved.
pub proof fn lemma_only_track(
    st: Store,
    before: Store,
    track: i32,
    presets: Seq<PresetView>,
    default_idx: u32,
    other: i32,
)
    requires
        st.only_track(before, track, presets, default_idx),
        other != track,
    ensures
        presets_of(st.saved.cams.cam_tracks@, track) == presets,
        default_of(st.saved.cams.cam_tracks@, track) == default_idx,
        presets_of(st.saved.cams.cam_tracks@, other) == presets_of(before.saved.cams.cam_tracks@, other),
        default_of(st.saved.cams.cam_tracks@, other) == default_of(before.saved.cams.cam_tracks@, other),
        st.saved.power == before.saved.power && st.saved.skip == before.saved.skip && st.saved.menu
            == before.saved.menu && st.saved.text == before.saved.text && st.saved.gfx
            == before.saved.gfx && st.saved.display == before.saved.display && st.saved.tele
            == before.saved.tele && st.saved.misc == before.saved.misc,
        st.saved.cams.win == before.saved.cams.win && st.saved.cams.rd_keys == before.saved.cams.rd_keys,
        st.pending@ == before.pending@.push(Effect::Write),
{
    let m = st.saved.cams.cam_tracks@;
    let m0 = before.saved.cams.cam_tracks@;
    assert(m.dom().contains(other) <==> m0.dom().contains(other));
    assert(st.pending@ =~= before.pending@.push(Effect::Write));
}

/// A track has at most four presets; a preset and a window are seen as they are.
pub proof fn lemma_preset_views(st: Store, p: CamPreset, s: Seq<(String, [u32; 4])>)
    ensures
        st.presets_bounded() <==> forall|t: i32| #[trigger]
            st.saved.cams.cam_tracks@.dom().contains(t) ==> st.saved.cams.cam_tracks@[t].presets@.len()
                <= 4,
        p@.name == p.name@ && p@.dist == p.dist && p@.yaw == p.yaw && p@.pitch == p.pitch && p@.eyeh
            == p.eyeh,
        windows(s).len() == s.len(),
        forall|i: int| 0 <= i < s.len() ==> #[trigger] windows(s)[i] == (s[i].0@, s[i].1@),
{
}

} // verus!
