//! The switches, and the settings that are stored.

use overseer::runtime::{
    active, generation, last_change_ms, new_power, overseer_enabled, set_keep_analysis, set_overseer_enabled,
    set_translation_enabled, suspended, Subsystem,
};
use overseer::settings::{
    apply_on_boot, bot_enabled, cam_add_preset, cam_default_idx, cam_default_pose, cam_delete_preset,
    cam_presets, cam_rename_preset, cam_set_default, cam_update_preset, freecam, keep_within, open_store,
    rd_key, render_scale, save_current, set_bot_enabled, set_cvd_mode, set_gfx_aa, set_mtl_idle_unload_s,
    set_rd_key, set_tele_scale, set_tl_lang, set_verbose_log, set_win_rect, tele_preset_broadcast, tele_scale,
    tl_lang, tl_lang_set, verbose_log, win_rect, Effect, Live, Settings, Store,
};

fn every_part() -> Vec<Subsystem> {
    vec![
        Subsystem::Skip,
        Subsystem::Tempo,
        Subsystem::Translation,
        Subsystem::TranslationEngine,
        Subsystem::Analysis,
        Subsystem::Advisor,
        Subsystem::Monitoring,
        Subsystem::Export,
    ]
}

#[test]
fn switching_off_suspends_everything() {
    let mut p = new_power();
    assert!(every_part().into_iter().all(|s| active(&p, s)));
    let f = set_overseer_enabled(&mut p, false, 70, true).expect("a flip");
    assert!(!f.translation && f.suspend_monitoring && !f.profiler && !f.advisor);
    assert!(every_part().into_iter().all(|s| suspended(&p, s)));
    assert_eq!((generation(&p), last_change_ms(&p)), (1, 70));
}

#[test]
fn repeating_a_switch_is_silent() {
    let mut p = new_power();
    assert!(set_overseer_enabled(&mut p, true, 5, false).is_none());
    assert_eq!((generation(&p), last_change_ms(&p)), (0, 0));
}

#[test]
fn an_override_keeps_its_part() {
    let mut p = new_power();
    set_overseer_enabled(&mut p, false, 1, false);
    set_keep_analysis(&mut p, true, 2, false);
    assert!(active(&p, Subsystem::Analysis));
    assert!(!active(&p, Subsystem::Skip));
    set_overseer_enabled(&mut p, true, 3, false);
    set_translation_enabled(&mut p, false, 4, false);
    assert!(!active(&p, Subsystem::Translation) && active(&p, Subsystem::Skip));
    assert!(overseer_enabled(&p));
}

fn store() -> Store {
    open_store(Settings::default(), new_power())
}

fn writes(st: &Store) -> usize {
    st.pending.iter().filter(|e| matches!(e, Effect::Write)).count()
}

#[test]
fn a_setter_tells_the_part_and_writes() {
    let mut st = store();
    set_verbose_log(&mut st, true);
    assert!(verbose_log(&st));
    assert_eq!(st.pending.len(), 2);
    assert!(st.pending.iter().any(|e| matches!(e, Effect::Trace(true))));
    assert_eq!(writes(&st), 1);
}

#[test]
fn numbers_are_kept_within_bounds() {
    let mut st = store();
    assert_eq!((keep_within(7, 0, 4), keep_within(-7, 0, 4), keep_within(2, 0, 4)), (4, 0, 2));
    set_cvd_mode(&mut st, 99);
    assert_eq!(st.saved.gfx.cvd_mode, 3);
    set_tele_scale(&mut st, 9.0f32.to_bits());
    assert_eq!(f32::from_bits(tele_scale(&st)), 2.0);
    set_tele_scale(&mut st, 0.1f32.to_bits());
    assert_eq!(f32::from_bits(tele_scale(&st)), 0.6);
    set_mtl_idle_unload_s(&mut st, 1_000_000);
    assert_eq!(st.saved.text.mtl_idle_unload_s, 86_400);
    set_gfx_aa(&mut st, 8);
    assert_eq!(st.saved.gfx.gfx_aa, 8);
    assert_eq!(f32::from_bits(render_scale(&st)), 1.0);
}

#[test]
fn the_switch_keeps_every_choice() {
    let mut st = store();
    let skips = st.saved.skip;
    set_bot_enabled(&mut st, false, 10);
    assert!(!bot_enabled(&st) && !st.power.overseer_on);
    assert_eq!(st.saved.skip, skips);
    set_bot_enabled(&mut st, true, 20);
    assert!(bot_enabled(&st) && st.power.overseer_on);
    assert_eq!(st.saved.skip, skips);
}

fn live() -> Live {
    Live {
        train: true,
        event: true,
        shop: true,
        rival: true,
        race_result: true,
        race_ff: true,
        hyper: true,
        skill_learn: true,
        warnings: true,
        inspiration: true,
        event_choice: true,
        fps: 144,
        tempo: 3.0f32.to_bits(),
    }
}

#[test]
fn defaults_never_overwrite_the_file_before_boot() {
    let mut st = store();
    let before = st.saved.skip;
    save_current(&mut st, live());
    assert_eq!(st.saved.skip, before);
    assert!(st.pending.is_empty());

    apply_on_boot(&mut st, Settings::default(), 1);
    let told = st.pending.len();
    assert!(told > 0);
    assert_eq!(writes(&st), 0);
    save_current(&mut st, live());
    assert!(st.saved.skip.skip_training && st.saved.skip.hyper_skip);
    assert_eq!(writes(&st), 1);
}

#[test]
fn a_removed_feature_stays_off() {
    let mut st = store();
    let mut loaded = Settings::default();
    loaded.misc.freecam = true;
    apply_on_boot(&mut st, loaded, 1);
    assert!(!freecam(&st));
}

#[test]
fn a_language_is_selected() {
    let mut st = store();
    assert!(!tl_lang_set(&st));
    set_tl_lang(&mut st, Some("en".to_string()));
    assert!(tl_lang_set(&st));
    assert_eq!(tl_lang(&st), Some("en".to_string()));
    assert!(st.pending.iter().any(|e| matches!(e, Effect::ForgetText)));
}

#[test]
fn presets_are_kept_per_circuit() {
    let mut st = store();
    assert_eq!(cam_add_preset(&mut st, 10, "Low", 1, 2, 3, 4), Some(0));
    assert_eq!(cam_add_preset(&mut st, 10, "High", 5, 6, 7, 8), Some(1));
    assert_eq!(cam_presets(&st, 10).len(), 2);
    assert_eq!(cam_presets(&st, 11).len(), 0);
    assert_eq!(cam_default_pose(&st, 10), Some((1, 2, 3, 4)));
    cam_set_default(&mut st, 10, 1);
    assert_eq!((cam_default_idx(&st, 10), cam_default_pose(&st, 10)), (1, Some((5, 6, 7, 8))));
    cam_update_preset(&mut st, 10, 1, 9, 9, 9, 9);
    cam_rename_preset(&mut st, 10, 1, "Top");
    assert_eq!(cam_presets(&st, 10)[1].name, "Top");
    assert_eq!(cam_default_pose(&st, 10), Some((9, 9, 9, 9)));
    cam_delete_preset(&mut st, 10, 1);
    assert_eq!((cam_presets(&st, 10).len(), cam_default_idx(&st, 10)), (1, 0));
    for i in 1..4 {
        assert_eq!(cam_add_preset(&mut st, 10, "More", 0, 0, 0, 0), Some(i));
    }
    assert_eq!(cam_add_preset(&mut st, 10, "Five", 0, 0, 0, 0), None);
    assert_eq!(cam_default_pose(&st, 12), None);
}

#[test]
fn an_empty_language_is_none() {
    let mut s = Settings::default();
    s.text.tl_lang = Some(String::new());
    let mut st = open_store(s, new_power());
    assert!(tl_lang(&st).is_none() && !tl_lang_set(&st));
    let mut s = Settings::default();
    s.text.tl_lang = Some("fr".to_string());
    apply_on_boot(&mut st, s, 1);
    assert_eq!((tl_lang(&st).as_deref(), tl_lang_set(&st)), (Some("fr"), true));
    let mut s = Settings::default();
    s.text.tl_lang = Some(String::new());
    apply_on_boot(&mut st, s, 2);
    assert!(tl_lang(&st).is_none() && !tl_lang_set(&st));
    set_tl_lang(&mut st, Some(String::new()));
    assert!(tl_lang(&st).is_none() && !tl_lang_set(&st));
}

#[test]
fn a_short_list_of_keys_is_filled_up() {
    let mut s = Settings::default();
    s.cams.rd_keys = vec![0x51, 0x52];
    let mut st = open_store(s, new_power());
    let third = rd_key(&st, 2);
    set_rd_key(&mut st, 0, 0x41);
    assert_eq!((rd_key(&st, 0), rd_key(&st, 1), rd_key(&st, 2)), (0x41, 0x52, third));
}

#[test]
fn windows_and_keys_are_remembered() {
    let mut st = store();
    assert_eq!(win_rect(&st, "tower"), None);
    set_win_rect(&mut st, "tower", [1, 2, 3, 4], true);
    assert_eq!(win_rect(&st, "tower"), Some([1, 2, 3, 4]));
    set_win_rect(&mut st, "tower", [9, 9, 9, 9], false);
    assert_eq!(win_rect(&st, "tower"), Some([1, 2, 3, 4]), "only a window that moved is stored");
    assert_eq!(rd_key(&st, 0), 0x25);
    set_rd_key(&mut st, 0, 0x41);
    assert_eq!(rd_key(&st, 0), 0x41);
    assert_eq!(rd_key(&st, 99), 0);
}

#[test]
fn a_preset_switches_the_overlay_at_once() {
    let mut st = store();
    tele_preset_broadcast(&mut st);
    assert!(st.saved.tele.tele_tower);
    assert_eq!(writes(&st), 1);
}
