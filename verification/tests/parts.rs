//! The log, the watchdog, the graphics and display knobs, queries, and the smaller parts.

use overseer::bits::{clamp, less, reaches};
use overseer::performance::display::{
    game_hwnd, install as install_display, new_display, on_set_resolution, set_block_minimize, set_display_mode,
    set_render_scale, swallows,
};
use overseer::performance::graphics::{
    apply_game_quality, apply_now, candidates, install as install_graphics, new_graphics, note_readback,
    on_apply_quality, pump, readback, search_due, set_aa, set_low_level, set_low_spec, set_quality_unlocked,
    set_shadow_distance, set_shadows, Slots, REAPPLY_MS,
};
use overseer::plurals::{Ast, Resolver};
use overseer::proxy::{identity, real_file, Identity};
use overseer::reset::{install, is_ready, new_reset, poll, request, Found};
use overseer::sql::{
    BinaryOperator, CharacterSystemTextQuery, Expr, ExprExt, RaceJikkyoCommentQuery, RaceJikkyoMessageQuery, Row,
    Select, SelectExt, SelectItem, SelectItemExt, SelectQueryState, TableFactor, TextDataQuery, TextPack,
};
use overseer::startup_probe::{is_title, new_probe, observe as look, Sight, MAX_LOOKS};
use overseer::template::{Pack, Reading};
use overseer::tools::log::{
    log, log_to, new_log, queued, rotate_if_needed, set_trace, take_batch, trace, write_batch, QUEUE_CAP,
    ROTATE_BYTES,
};
use overseer::tt_il2cpp::obscured_i32;
use overseer::umas::{install as install_umas, MethodInfo, Setup as UmasSetup};
use overseer::watchdog::{new_watch, observe, Report};
use std::collections::HashMap;

#[test]
fn a_repeated_line_is_tallied() {
    let mut l = new_log();
    log(&mut l, "hello", 1, "[t] ", 1000);
    log(&mut l, "hello", 1, "[t] ", 1500);
    log(&mut l, "hello", 1, "[t] ", 1600);
    log(&mut l, "other", 2, "[t] ", 1600);
    assert_eq!(queued(&l), 2);
    log(&mut l, "hello", 1, "[t] ", 9000);
    let batch = take_batch(&mut l, "[t] ");
    assert_eq!(batch.len(), 3);
    assert_eq!(batch[0], ("overseer-native.log", "[t] hello".to_string()));
    assert_eq!(batch[2], ("overseer-native.log", "[t] hello  (x2)".to_string()));
    assert_eq!(queued(&l), 0);
}

#[test]
fn a_burst_is_one_summary_whatever_comes_in_between() {
    let mut l = new_log();
    log(&mut l, "hello", 1, "[t] ", 1000);
    for i in 0..40u64 {
        log(&mut l, "hello", 1, "[t] ", 1000 + i * 10);
        log(&mut l, "other", 100 + i, "[t] ", 1000 + i * 10);
    }
    assert_eq!(queued(&l), 41);
    log(&mut l, "hello", 1, "[t] ", 3000);
    log(&mut l, "hello", 1, "[t] ", 5000);
    let batch = take_batch(&mut l, "[t] ");
    assert_eq!(batch[41].1, "[t] hello  (x40)");
    assert_eq!(batch[42].1, "[t] hello", "nothing was left out since");
}

#[test]
fn a_shadow_distance_of_zero_is_a_choice() {
    let mut g = new_graphics();
    set_shadow_distance(&mut g, (-1.0f32).to_bits());
    assert!(!pump(&mut g, 10), "a negative one leaves the game's");
    set_shadow_distance(&mut g, 0.0f32.to_bits());
    assert!(pump(&mut g, 20));
    let w = apply_now(&mut g, Some(2), Some(50.0f32.to_bits()));
    assert_eq!((w.aa, w.shadow_dist), (Some(2), Some(0.0f32.to_bits())));
}

#[test]
fn a_full_queue_drops_and_says_so() {
    let mut l = new_log();
    for i in 0..(QUEUE_CAP as u64 + 3) {
        log_to(&mut l, "a.log", "line", i, "", 0);
    }
    assert_eq!((queued(&l), l.dropped), (QUEUE_CAP, 3));
    let batch = take_batch(&mut l, "");
    assert_eq!(batch[QUEUE_CAP].1, "[log] 3 lines dropped (write queue full)");
    assert_eq!((l.dropped, l.dropped_total), (0, 3));
}

#[test]
fn lines_are_grouped_by_file() {
    let batch = vec![
        ("a.log", "1".to_string()),
        ("b.log", "2".to_string()),
        ("a.log", "3".to_string()),
    ];
    let out = write_batch(&batch);
    assert_eq!(out, vec![("a.log", "1\n3\n".to_string()), ("b.log", "2\n".to_string())]);
    assert!(rotate_if_needed(ROTATE_BYTES) && !rotate_if_needed(ROTATE_BYTES - 1));
    let mut l = new_log();
    trace(&mut l, "quiet", 1, "", 0);
    assert_eq!(queued(&l), 0);
    set_trace(&mut l, true);
    trace(&mut l, "quiet", 1, "", 0);
    assert_eq!(queued(&l), 1);
}

#[test]
fn a_freeze_is_reported_and_its_end_too() {
    let mut w = new_watch();
    assert_eq!(observe(&mut w, 3, 100, 9000).1, Report::Quiet, "still warming up");
    assert_eq!(observe(&mut w, 50, 1000, 1100), (true, Report::Quiet));
    assert_eq!(observe(&mut w, 50, 1000, 3000).1, Report::Stuck(2000, true));
    assert_eq!(observe(&mut w, 50, 1000, 4000).1, Report::Quiet);
    assert_eq!(observe(&mut w, 50, 1000, 8000).1, Report::Stuck(7000, false));
    assert_eq!(observe(&mut w, 51, 8100, 8200).1, Report::Recovered(7200));
    assert_eq!(observe(&mut w, 52, 8200, 8300).1, Report::Quiet);
}

#[test]
fn the_knobs_are_pushed_and_given_back_once() {
    let mut g = new_graphics();
    assert!(!pump(&mut g, 5000));
    set_aa(&mut g, 4);
    assert!(pump(&mut g, 5000) && !pump(&mut g, 5001) && pump(&mut g, 5000 + REAPPLY_MS));
    let w = apply_now(&mut g, Some(2), Some(50.0f32.to_bits()));
    assert_eq!((w.aa, w.shadow_dist), (Some(4), Some(50.0f32.to_bits())));
    set_aa(&mut g, -1);
    assert!(pump(&mut g, 9000));
    let w = apply_now(&mut g, None, None);
    assert_eq!((w.aa, w.shadow_dist), (Some(2), Some(50.0f32.to_bits())), "its own values");
    assert!(!pump(&mut g, 90_000));
}

#[test]
fn low_resources_overrule_the_knobs() {
    let mut g = new_graphics();
    set_low_spec(&mut g, true);
    set_low_level(&mut g, 3);
    set_shadow_distance(&mut g, 99.0f32.to_bits());
    set_shadows(&mut g, 1);
    let w = apply_now(&mut g, None, None);
    assert_eq!((w.aa, w.pixel_lights, w.lod_cross_fade), (Some(0), Some(0), Some(false)));
    assert_eq!((w.shadow_dist, w.quality), (Some(0), 0));
    assert_eq!(apply_game_quality(&mut g, 0, true, true, Some(2)), Some(0));
    assert_eq!(apply_game_quality(&mut g, 0, true, true, Some(2)), None);
    assert_eq!(apply_game_quality(&mut g, -1, true, true, None), Some(2), "the game's own tier");
    assert_eq!(on_apply_quality(&mut g, 1, false), (0, true));
    set_low_spec(&mut g, false);
    assert_eq!(on_apply_quality(&mut g, 1, false), (1, false));
    set_quality_unlocked(&mut g, true);
    assert_eq!(on_apply_quality(&mut g, 1, false), (3, true));
    note_readback(&mut g, Some(8), Some(30.0f32.to_bits()));
    assert_eq!(readback(&g), (8, 30.0f32.to_bits()));
    assert!(search_due(&mut g, 10_000) && !search_due(&mut g, 12_999) && search_due(&mut g, 13_000));
}

#[test]
fn the_graphics_installation_is_reported() {
    let s = Slots {
        apply_quality: 1,
        get_quality: 0,
        find_object: 1,
        class_object: 1,
        engine: true,
        set_aa: 1,
        set_pixel_lights: 0,
        set_shadow_distance: 1,
        set_lod_fade: 1,
        get_aa: 0,
        get_shadow_distance: 1,
    };
    let (driver, setters, getters) = install_graphics(true, &Ok(()), &s).expect("installed");
    assert_eq!(driver, "[graphics] game-quality driver: ApplyGraphicsQuality=ok GetQuality=MISS FindObjectOfType=ok typeof=ok");
    assert_eq!(setters, "[graphics] QualitySettings setters: aa=ok pixellights=MISS shadowdist=ok lodcrossfade=ok");
    assert_eq!(getters, Some("[graphics] QualitySettings getters: aa=MISS shadowdist=ok".to_string()));
    assert!(install_graphics(true, &Ok(()), &Slots { engine: false, ..s }).expect("installed").2.is_none());
    assert_eq!(install_graphics(false, &Ok(()), &s), Err("GraphicSettings not found".to_string()));
    assert_eq!(install_graphics(true, &Err("detour".to_string()), &s), Err("detour".to_string()));
    let names: Vec<String> = ["GetQuality/0", "Update/0", "get_Instance/0", "ApplySETTINGS/1"].iter().map(|n| n.to_string()).collect();
    assert_eq!(candidates(&names), vec![0, 2, 3]);
}

#[test]
fn the_window_follows_its_settings() {
    let mut d = new_display();
    assert_eq!(on_set_resolution(&d, 2), 2);
    for (mode, full) in [(1, 1), (2, 0), (3, 3)] {
        set_display_mode(&mut d, mode);
        assert_eq!(on_set_resolution(&d, 2), full);
    }
    assert!(!swallows(&d, 1, 6));
    set_block_minimize(&mut d, true);
    assert!(swallows(&d, 1, 6) && !swallows(&d, 1, 9) && !swallows(&d, 5, 6));
    assert_eq!(game_hwnd(&mut d, &vec![0, 7, 8]), 7);
    assert_eq!(game_hwnd(&mut d, &vec![9]), 7);
    set_render_scale(&mut d, 9.0f32.to_bits());
    assert_eq!(f32::from_bits(d.render_scale), 2.0);
    assert_eq!(install_display(true, false, true), Ok("[display] hooks: fullscreen"));
    assert_eq!(install_display(true, true, true), Err("no display hooks installed"));
}

#[test]
fn single_precision_bits_compare() {
    let b = |v: f32| v.to_bits();
    assert!(less(b(-2.0), b(-1.0)) && less(b(-1.0), b(0.5)) && !less(b(0.0), b(-0.0)));
    assert!(reaches(b(1.0), b(1.0)) && !reaches(b(f32::NAN), b(1.0)) && !less(b(f32::NAN), b(1.0)));
    assert_eq!((clamp(b(9.0), b(1.0), b(2.0)), clamp(b(0.5), b(1.0), b(2.0))), (b(2.0), b(1.0)));
}

#[test]
fn the_library_knows_whom_it_stands_in_for() {
    assert_eq!(identity("C:\\Game\\CRI_mana_vpx.dll"), Identity::Codec);
    assert_eq!(identity("unityplayer.dll"), Identity::Player);
    assert_eq!(identity("overseer.dll"), Identity::Own);
    assert_eq!(real_file(Identity::Player), Some("UnityPlayer_orig.dll"));
    assert_eq!(real_file(Identity::Own), None);
}

#[test]
fn a_reset_waits_for_its_tick() {
    let mut s = new_reset();
    let all = Found { class: true, get_instance: true, software_reset: true, callable: true };
    assert_eq!(
        install(&mut s, &Found { get_instance: false, ..all }),
        "methods missing (get_Instance=false SoftwareReset=true)"
    );
    assert!(!is_ready(&s));
    assert_eq!(install(&mut s, &all), "OK");
    assert!(is_ready(&s) && !poll(&mut s, true, false));
    request(&mut s);
    assert!(!poll(&mut s, true, true), "one already runs");
    assert!(!poll(&mut s, true, false), "and the request is spent");
    request(&mut s);
    assert!(poll(&mut s, true, false));
}

#[test]
fn the_title_screen_is_seen_to_be_left() {
    let mut p = new_probe();
    assert_eq!(look(&mut p, ""), (false, Sight::Watching));
    assert_eq!(look(&mut p, "Title"), (true, Sight::Watching));
    assert!(is_title(&p));
    assert_eq!(look(&mut p, "Home"), (true, Sight::LeftTitle));
    let mut q = new_probe();
    for _ in 0..MAX_LOOKS {
        assert_eq!(look(&mut q, "Splash").1, Sight::Watching);
    }
    assert_eq!(look(&mut q, "Splash").1, Sight::TimedOut);
}

#[test]
fn a_masked_number_is_unmasked() {
    assert_eq!(obscured_i32(0x55aa, 1234 ^ 0x55aa), 1234);
}

#[test]
fn the_roster_installation_is_reported() {
    let m = |class: &str, name: &str| MethodInfo {
        class: class.to_string(),
        name: name.to_string(),
        params: vec!["TrainedChara[]".to_string()],
    };
    let s = UmasSetup { init: true, image: true, listable: true, pointer: true, detoured: false, hooked: Ok(true) };
    assert_eq!(install_umas(&s, &vec![m("A", "b")]), "hooked TrainedChara[] method (veterans export)");
    assert_eq!(install_umas(&s, &vec![]), "no TrainedChara[] method found");
    let t = UmasSetup { hooked: Err("busy".to_string()), ..s };
    assert_eq!(install_umas(&t, &vec![m("A", "b")]), "detour failed: busy");
    let u = UmasSetup { detoured: true, ..t };
    assert_eq!(install_umas(&u, &vec![m("A", "b")]), "already detoured (skipped)");
    let v = UmasSetup { image: false, ..u };
    assert_eq!(install_umas(&v, &vec![m("A", "b")]), "game image not found");
}

fn texts() -> TextPack {
    let mut skills: HashMap<i32, String> = HashMap::new();
    skills.insert(100061, "Triumphant Pulse".to_string());
    let mut descs: HashMap<i32, String> = HashMap::new();
    descs.insert(100061, "Runs faster.".to_string());
    descs.insert(7, "Lasts $(plural 2 '$ turn' '$ turns').".to_string());
    let mut text_data: HashMap<i32, HashMap<i32, String>> = HashMap::new();
    text_data.insert(47, skills);
    text_data.insert(48, descs);
    let mut voices: HashMap<i32, String> = HashMap::new();
    voices.insert(2, "Hello!".to_string());
    let mut character_system_text: HashMap<i32, HashMap<i32, String>> = HashMap::new();
    character_system_text.insert(1006, voices);
    let mut comments: HashMap<i32, String> = HashMap::new();
    comments.insert(5, "And they are off!".to_string());
    let mut messages: HashMap<i32, String> = HashMap::new();
    messages.insert(6, "What a race.".to_string());
    TextPack {
        text_data,
        character_system_text,
        race_jikkyo_comment: comments,
        race_jikkyo_message: messages,
        disable_skill_name_translation: false,
        rules: Pack {
            plural_form: Resolver::Expr(Ast::parse("n == 1 ? 0 : 1").expect("parses")),
            ordinal_form: Resolver::First,
            ordinal_types: Vec::new(),
            months: vec!["January".to_string()],
        },
        numbers: vec![("2".to_string(), Reading { whole: 2, shown: "2".to_string() })],
    }
}

#[test]
fn interface_text_is_found_by_its_keys() {
    let row = Row { ints: vec![0, 0] };
    let mut q = TextDataQuery::default();
    q.add_column(0, "text");
    q.add_param(1, "category");
    q.add_param(2, "index");
    q.bind_int(1, 47);
    assert_eq!(q.get_text(&row, &texts(), 0), None, "not bound yet");
    q.bind_int(2, 100061);
    assert_eq!(q.get_text(&row, &texts(), 0).as_deref(), Some("Triumphant Pulse"));
    assert_eq!(q.get_text(&row, &texts(), 1), None, "another column");
    let mut plain = texts();
    plain.disable_skill_name_translation = true;
    assert_eq!(q.get_text(&row, &plain, 0), None);
    q.bind_int(1, 48);
    q.bind_int(2, 900061);
    assert_eq!(q.get_text(&row, &texts(), 0).as_deref(), Some("Runs faster."), "an inherited skill");
    q.bind_int(2, 7);
    assert_eq!(q.get_text(&row, &texts(), 0).as_deref(), Some("Lasts 2 turns."), "a text leaves expanded");
}

#[test]
fn spoken_text_is_found_by_its_row() {
    let row = Row { ints: vec![0, 2] };
    let mut q = CharacterSystemTextQuery::default();
    q.add_column(0, "text");
    q.add_column(1, "voice_id");
    q.add_param(1, "character_id");
    q.bind_int(1, 1006);
    assert_eq!(q.get_text(&row, &texts(), 0).as_deref(), Some("Hello!"));
    q.bind_int(1, 1007);
    assert_eq!(q.get_text(&row, &texts(), 0), None);
    let mut c = RaceJikkyoCommentQuery::default();
    c.add_column(0, "id");
    c.add_column(1, "message");
    let five = Row { ints: vec![5, 0] };
    assert_eq!(c.get_text(&five, &texts(), 1).as_deref(), Some("And they are off!"));
    let mut m = RaceJikkyoMessageQuery::default();
    m.add_column(0, "id");
    m.add_column(1, "message");
    let six = Row { ints: vec![6, 0] };
    assert_eq!(m.get_text(&six, &texts(), 1).as_deref(), Some("What a race."));
    assert_eq!(m.get_text(&five, &texts(), 1), None);
}

#[test]
fn a_query_is_walked() {
    let ident = |s: &str| Expr::Identifier(s.to_string());
    let eq = |s: &str| Expr::BinaryOp { left: Box::new(ident(s)), op: BinaryOperator::Eq, right: Box::new(Expr::Placeholder) };
    let select = Select {
        from: vec![TableFactor::Table(vec!["text_data".to_string()])],
        projection: vec![SelectItem::UnnamedExpr(ident("text")), SelectItem::Other],
        selection: Some(Expr::BinaryOp { left: Box::new(eq("category")), op: BinaryOperator::And, right: Box::new(eq("index")) }),
    };
    assert_eq!(select.get_first_table_name().map(|s| s.as_str()), Some("text_data"));
    assert_eq!(select.projection[0].get_unnamed_expr_ident().map(|s| s.as_str()), Some("text"));
    assert_eq!(select.projection[1].get_unnamed_expr_ident(), None);
    let mut seen: Vec<String> = Vec::new();
    let mut it = select.selection.as_ref().expect("a condition").binary_op_iter();
    while let Some(op) = it.next() {
        if *op.op == BinaryOperator::Eq && op.right.is_placeholder_value() {
            seen.push(op.left.get_ident_value().expect("a column").clone());
        }
    }
    assert_eq!(seen, vec!["category".to_string(), "index".to_string()]);
}
