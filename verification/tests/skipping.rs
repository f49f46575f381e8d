//! What is pressed, skipped and sped up for the player.

use overseer::guard::Gate;
use overseer::race::{new_race, Race};
use overseer::runtime::{new_power, set_overseer_enabled};
use overseer::skip::dialog::{is_object, log_dialog_once, on_push1, on_push2, Dialog, Gates};
use overseer::skip::inspire::{
    arm_trace, drive as drive_inspire, install as install_inspire, install_phase1, new_inspire, on_setup_button,
    own_method_argc, play_methods, trace_entered, Arming, Button, Classes, Owner, TraceLine,
};
use overseer::skip::result::{
    choice_pending, data_still_frontmost, drive_event_choice, drive_race_ff, drive_result_skip, force_disarm,
    hyper_clicked, hyper_safety_on_dialog, hyper_tick, install_race_result, new_result_skip, on_button_update,
    on_change_main_view, on_choice_setup, on_ff_awake, on_ff_setvisible, on_gacha_begin, on_home_in,
    on_pointer_click, on_push, capture_result_ui, press_allowed, reap_window, rr_should_advance,
    try_arm_warning_confirm, warn_clicked, warn_confirms, warning_data_matches, ChoiceSight, DialogWiring,
    HomeWiring, RaceWiring, Wiring, WINDOW_CAP_MS,
};
use overseer::skip::shop::{
    closes_on, drain_pending, drives_on, new_shop, on_back_pressed, on_driven, on_exch_request, on_movenext,
    on_shop_perf, on_use_perf, presses_back, shop_close_item_list, shop_teardown,
};
use overseer::skip::skill::{
    abandon_flow, activate_view, clear_all, install as install_skill, is_learn_verb, is_purchase_verb,
    new_skill_skip, on_back, on_confirm, on_result, pump, try_arm_on_push, wants_button, Setup as SkillSetup, SkillSight,
};
use overseer::skip::train::{do_training_skip, new_train, on_photo_end_cut, on_photo_play_cut};
use overseer::ui_input::{
    auto_close, auto_press, button_name, cache_sizes, click_now, enter, leave, log_due, new_input, note_name,
    on_locked, on_pressed, reap_busy,
};
use overseer::ui_tempo::{
    effective_tempo, heartbeat, install as install_tempo, looper_count, new_tempo, on_stepped, on_tick, on_update,
    set_gacha_active, set_home_active, set_tempo, step_budget_us, steps_on, stored_tempo, Drive, Loopers, Scene,
    Setup as TempoSetup, GACHA_PIN_CAP_MS,
};

fn race(finish_order: i32, continues: i32) -> Race {
    let mut r = new_race();
    r.finish_order = finish_order;
    r.continues = continues;
    r
}

#[test]
fn a_gate_closes_by_itself() {
    let mut g = Gate::new(100);
    assert!(!g.is_open(0));
    g.arm(50);
    assert!(g.is_open(149) && !g.is_open(150) && g.raw());
    assert!(!g.reap(149) && g.reap(150) && !g.raw());
    g.arm(1);
    assert!(g.disarm() && !g.disarm());
}

#[test]
fn only_a_win_or_a_hopeless_loss_is_advanced() {
    let r = new_result_skip(true);
    assert!(rr_should_advance(&r.window, true, &race(1, -1)));
    assert!(rr_should_advance(&r.window, true, &race(5, 0)));
    assert!(!rr_should_advance(&r.window, true, &race(5, 2)));
    assert!(!rr_should_advance(&r.window, true, &race(0, -1)));
    assert!(!rr_should_advance(&r.window, false, &race(1, -1)));
    assert!(!rr_should_advance(&new_result_skip(false).window, true, &race(1, -1)));
    assert!(press_allowed(&race(5, 0), "NextButton") && !press_allowed(&race(5, 0), "ButtonCommon"));
    assert!(press_allowed(&race(1, 0), "ButtonCommon") && !press_allowed(&race(1, 0), "ButtonRight"));
}

#[test]
fn a_result_sequence_begins_with_the_players_skip_and_ends() {
    let (mut r, mut u) = (new_result_skip(true), new_input());
    assert!(!on_pointer_click(&mut r, &mut u, true, true, "RaceSkipButton", 10), "not our own click");
    assert!(!on_pointer_click(&mut r, &mut u, false, true, "NextButton", 10));
    assert!(on_pointer_click(&mut r, &mut u, false, true, "RaceSkipButton", 10));
    assert!(!on_pointer_click(&mut r, &mut u, false, true, "RaceSkipButton", 20), "already on");
    assert!(!reap_window(&mut r, &mut u, 20));
    assert!(reap_window(&mut r, &mut u, 10 + WINDOW_CAP_MS));
    assert!(!force_disarm(&mut r, &mut u));
}

#[test]
fn a_view_change_ends_everything() {
    let (mut r, mut u, mut t, mut s, mut i) =
        (new_result_skip(true), new_input(), new_tempo(), new_skill_skip(), new_inspire());
    on_pointer_click(&mut r, &mut u, false, true, "RaceSkipButton", 10);
    set_home_active(&mut t, true);
    activate_view(&mut s, &mut r, 4, 10);
    on_setup_button(&mut i, 9, 10);
    assert!(on_change_main_view(&mut r, &mut u, &mut t, &mut s, &mut i, 30));
    assert!(!r.window.gate.armed && !t.home_active && !s.active && i.ctrl == 0);
    assert_eq!(r.career_ms, 30);
    on_home_in(&mut r, &mut u, &mut t, &mut s, &mut i);
    assert!(t.home_active);
}

#[test]
fn a_button_is_looked_at_for_what_is_wanted() {
    let mut r = new_result_skip(true);
    let mut p = new_power();
    let b = on_button_update(&mut r, &p, 5, true, 100, false, false, 50);
    assert!(b.want_shop && b.want_name && b.sweep && !b.want_warn && !b.suspended);
    let b = on_button_update(&mut r, &p, 6, true, 100, false, false, 60);
    assert!(!b.sweep, "one sweep at a time");
    let b = on_button_update(&mut r, &p, 6, false, 0, true, false, 150);
    assert!(b.sweep && b.want_skill && !b.want_shop);
    set_overseer_enabled(&mut p, false, 1, false);
    let b = on_button_update(&mut r, &p, 6, true, 900, true, false, 200);
    assert!(b.suspended && !b.want_shop && !b.want_skill && !b.want_name);
}

#[test]
fn a_choice_is_taken_once() {
    let mut r = new_result_skip(true);
    on_choice_setup(&mut r.choice, 77, 1000);
    assert!(choice_pending(&r.choice, 1001) && !choice_pending(&r.choice, 11_000));
    let s = ChoiceSight { acting: true, resolved: true, destroyed: false, waiting: true };
    assert!(!drive_event_choice(&mut r.choice, &ChoiceSight { waiting: false, ..s }, 1300));
    assert!(drive_event_choice(&mut r.choice, &s, 1300));
    assert!(!drive_event_choice(&mut r.choice, &s, 2000));
    assert!(!choice_pending(&r.choice, 1301));
    on_choice_setup(&mut r.choice, 78, 3000);
    assert!(!drive_event_choice(&mut r.choice, &ChoiceSight { destroyed: true, ..s }, 3300));
    assert_eq!(r.choice.ctrl, 0);
}

#[test]
fn fast_forward_is_pressed_where_it_shows() {
    let mut r = new_result_skip(true);
    on_ff_awake(&mut r.ff, 5);
    assert!(!drive_race_ff(&mut r.ff, true, true, false, Some(false), 1000));
    on_ff_setvisible(&mut r.ff, 5, true);
    assert!(drive_race_ff(&mut r.ff, true, true, false, None, 1000));
    assert!(!drive_race_ff(&mut r.ff, true, true, false, None, 1100));
}

#[test]
fn a_won_result_scene_is_skipped_once() {
    let (mut r, mut u) = (new_result_skip(true), new_input());
    on_pointer_click(&mut r, &mut u, false, true, "RaceSkipButton", 1000);
    assert!(capture_result_ui(&mut r.scene, 6));
    assert!(!drive_result_skip(&mut r, &race(4, 0), true, false, false, true, false, 2000), "lost");
    assert!(drive_result_skip(&mut r, &race(1, 0), true, false, false, true, false, 2000));
    assert!(!drive_result_skip(&mut r, &race(1, 0), true, false, false, true, false, 3000));
    assert_eq!(r.scene.skips, 1);
}

#[test]
fn taps_are_spaced_and_inert() {
    let mut r = new_result_skip(true);
    assert!(hyper_tick(&r, true, true, "ScreenTap", 1000));
    assert!(!hyper_tick(&r, true, true, "ButtonRight", 1000));
    assert!(!hyper_tick(&r, true, false, "ScreenTap", 1000));
    hyper_clicked(&mut r.hyper, "ScreenTap", 1000);
    assert!(!hyper_tick(&r, true, true, "ScreenTap", 1219) && hyper_tick(&r, true, true, "ScreenTap", 1220));
    hyper_clicked(&mut r.hyper, "RaceSkipButton", 2000);
    assert!(hyper_safety_on_dialog(&r.hyper, true, 2500) && !hyper_safety_on_dialog(&r.hyper, true, 3001));
}

#[test]
fn a_warning_is_confirmed_while_it_is_in_front() {
    assert!(warning_data_matches("Warning", "OK", "Cancel"));
    assert!(!warning_data_matches("Warning", "OK", ""));
    assert!(!warning_data_matches("Confirm purchase", "OK", "Cancel"));
    let mut r = new_result_skip(true);
    assert!(!try_arm_warning_confirm(&mut r, true, false, true, 9, 1000), "only in a career");
    assert!(try_arm_warning_confirm(&mut r, true, true, true, 9, 1000));
    assert!(warn_confirms(&r.warn, "ButtonRight", true, true, false, 1001));
    assert!(!warn_confirms(&r.warn, "ButtonLeft", true, true, false, 1001));
    assert!(!warn_confirms(&r.warn, "ButtonRight", true, false, false, 1001));
    assert!(!warn_confirms(&r.warn, "ButtonRight", true, true, false, 7000));
    warn_clicked(&mut r.warn);
    assert!(!warn_confirms(&r.warn, "ButtonRight", true, true, false, 1001));
    assert!(data_still_frontmost(9, Some(5), 5) && !data_still_frontmost(9, Some(8), 5));
    assert!(data_still_frontmost(9, None, 5) && !data_still_frontmost(0, None, 5) && !data_still_frontmost(9, Some(0), 0));
    on_push(&mut r, 50);
    assert_eq!(r.dialog_guard_until, 1550);
}

#[test]
fn the_shop_is_left_by_its_back_button() {
    let mut s = new_shop();
    assert!(!presses_back(&s, true, Some("BackButton"), false, 50));
    s.press_back_until = 100;
    assert!(presses_back(&s, true, Some("BackButton"), false, 50));
    assert!(!presses_back(&s, true, Some("BackButton2"), false, 50) && !presses_back(&s, true, None, false, 50));
    assert!(!presses_back(&s, false, Some("BackButton"), false, 50));
    assert!(!presses_back(&s, true, Some("BackButton"), true, 50));
    assert!(!presses_back(&s, true, Some("BackButton"), false, 100));
    on_back_pressed(&mut s, false);
    assert_eq!(s.press_back_until, 100);
    on_back_pressed(&mut s, true);
    assert_eq!(s.press_back_until, 0);
}

fn dialog(target: usize, title: &str, right: &str, left: &str, center: &str) -> Option<Dialog> {
    Some(Dialog {
        target,
        title: title.to_string(),
        right: right.to_string(),
        left: left.to_string(),
        center: center.to_string(),
    })
}

#[test]
fn a_pushed_dialog_is_recognized_in_either_place() {
    let g = Gates { warnings: true, hyper: true, inspiration: false, skills: true, career: true };
    let lost = race(5, 2);
    let (mut r, mut s) = (new_result_skip(true), new_skill_skip());
    activate_view(&mut s, &mut r, 4, 900);
    assert_eq!(r.career_ms, 900);
    let p = on_push1(&mut r, &mut s, &g, &dialog(0x20000, "Warning", "ok", "Cancel", ""), &lost, false, 5000);
    assert!(p.warned && !p.learning && !p.hyper_off && !p.closes);
    assert_eq!((r.warn.target, r.warn.until_ms, r.career_ms), (0x20000, 11_000, 5000));

    let (mut r, mut s) = (new_result_skip(true), new_skill_skip());
    activate_view(&mut s, &mut r, 4, 900);
    assert_eq!(r.career_ms, 900);
    let p = on_push2(
        &mut r,
        &mut s,
        &g,
        &dialog(1, "Warning", "OK", "Cancel", ""),
        &dialog(0x30008, "", "Learn", "Cancel", ""),
        &lost,
        false,
        5000,
    );
    assert!(!p.warned && p.learning);
    assert_eq!((r.warn.target, s.confirm_target, r.career_ms), (0, 0x30008, 5000));

    hyper_clicked(&mut r.hyper, "RaceSkipButton", 5000);
    r.window.gate.arm(5000);
    let p = on_push2(&mut r, &mut s, &g, &None, &None, &race(1, -1), false, 5500);
    assert!(!p.warned && !p.learning && p.hyper_off && p.closes);
    assert!(!on_push1(&mut r, &mut s, &g, &None, &race(1, -1), true, 5500).closes, "a press of ours runs");
    assert!(is_object(0x10000) && !is_object(0xfff8) && !is_object(0x10004));
}

#[test]
fn a_kind_of_dialog_is_written_down_once() {
    let g = Gates { warnings: false, hyper: false, inspiration: true, skills: false, career: true };
    let mut seen = Vec::new();
    assert_eq!(
        log_dialog_once(&mut seen, &g, "Data", "DialogCommon").as_deref(),
        Some("[dialog] pushed: arg=\"Data\" dialog=\"DialogCommon\"")
    );
    assert_eq!(log_dialog_once(&mut seen, &g, "Data", "DialogCommon"), None);
    assert!(log_dialog_once(&mut seen, &g, "", "DialogCommon").is_some());
    let idle = Gates { inspiration: false, ..g };
    assert_eq!(log_dialog_once(&mut seen, &idle, "Other", ""), None);
    assert_eq!(log_dialog_once(&mut seen, &Gates { career: false, ..g }, "Other", ""), None);
    assert_eq!(seen, vec!["Data|DialogCommon".to_string(), "|DialogCommon".to_string()]);
}

fn wiring() -> Wiring {
    Wiring {
        button_class: true,
        view_class: true,
        button_name: true,
        click: true,
        event_ctor: true,
        update: Ok(()),
        pointer_click: Ok(()),
        change_view: Ok(()),
        home: HomeWiring { home_class: true, home_in: true, gacha_class: true, gacha_begin: true, gacha_init: true },
        dialogs: DialogWiring {
            manager: true,
            push: true,
            push_sequence: true,
            choice_class: true,
            choice_waits: true,
            choice_select: true,
        },
        race: RaceWiring {
            ff_class: true,
            ff_push: true,
            ff_visible: true,
            scene_class: true,
            scene_setup: true,
            scene_finish: true,
            scene_skip: true,
            scene_skip_plain: true,
        },
    }
}

#[test]
fn what_is_missing_is_noted() {
    assert_eq!(install_race_result(&wiring()), Ok("".to_string()));
    let mut w = wiring();
    w.event_ctor = false;
    w.dialogs.manager = false;
    assert_eq!(
        install_race_result(&w),
        Ok("evt ctor miss; dialog-mgr miss (no auto-close); ".to_string())
    );
    w.update = Err("Update: not found".to_string());
    assert_eq!(install_race_result(&w), Err("Update: not found".to_string()));
    w.button_class = false;
    assert_eq!(install_race_result(&w), Err("anchor miss".to_string()));
}

#[test]
fn skills_are_learned_and_never_bought() {
    assert!(is_learn_verb(" Learn ") && !is_learn_verb("Buy"));
    assert!(is_purchase_verb("buy") && !is_purchase_verb(""));
    let mut s = new_skill_skip();
    let mut r = new_result_skip(true);
    assert!(!try_arm_on_push(&mut s, &mut r, true, 5, "Learn", "Cancel", "", 1000), "no skill screen");
    activate_view(&mut s, &mut r, 4, 900);
    assert_eq!(r.career_ms, 900);
    assert!(!try_arm_on_push(&mut s, &mut r, true, 5, "Buy", "Cancel", "", 1000));
    assert!(!try_arm_on_push(&mut s, &mut r, true, 5, "Learn", "Purchase", "", 1000));
    assert!(try_arm_on_push(&mut s, &mut r, true, 5, "Learn", "Cancel", "", 1000));
    assert_eq!(r.career_ms, 1000);
    assert!(wants_button(&s, true, 1001) && !wants_button(&s, false, 1001));
    let v = SkillSight { on: true, ours: false, confirm_ok: true, result_ok: true, story: false, back: true, view_gone: false };
    assert!(!pump(&mut s, &v, Some("ButtonLeft"), 2000).confirm);
    assert!(pump(&mut s, &v, Some("ButtonRight"), 2000).confirm);
    on_confirm(&mut s, true, 2000);
    assert!(pump(&mut s, &SkillSight { story: true, ..v }, None, 2100).skip_scene);
    assert!(try_arm_on_push(&mut s, &mut r, true, 6, "", "", "Close", 2200));
    assert!(pump(&mut s, &v, Some("ButtonCenter"), 2600).close_result);
    on_result(&mut s, true, 2600);
    assert!(pump(&mut s, &v, None, 2700).go_back);
    let gone = SkillSight { view_gone: true, ..v };
    assert!(!pump(&mut s, &gone, Some("Button"), 2700).press_back);
    let p = pump(&mut s, &gone, Some("BackButton"), 2700);
    assert!(p.press_back && !p.go_back && s.view == 0);
    on_back(&mut s, false);
    assert!(pump(&mut s, &v, Some("BackButton"), 2710).press_back, "the screen was forgotten");
    let mut done = s;
    on_back(&mut done, true);
    assert!(!pump(&mut done, &v, Some("BackButton"), 2720).press_back);
    abandon_flow(&mut s);
    assert!(!pump(&mut s, &v, None, 2800).go_back);
    clear_all(&mut s);
    assert!(!s.active);
}

#[test]
fn the_skill_screen_is_reported() {
    let s = SkillSetup { any_class: true, class: true, back: true, begin: Ok(()), play_out: Ok(()) };
    assert_eq!(install_skill(&s), "");
    let t = SkillSetup { back: false, begin: Err("not found".to_string()), ..s };
    assert_eq!(
        install_skill(&t),
        "skill OnClickBackButton miss (BackButton-press fallback only); skill BeginView: not found; "
    );
    let u = SkillSetup { any_class: false, class: false, ..t };
    assert_eq!(
        install_skill(&u),
        "skill-probe: every candidate class miss; skill vc class miss (no skill-learn skip); "
    );
}

#[test]
fn the_inspiration_view_is_told_of_once() {
    let mut i = new_inspire();
    assert!(!drive_inspire(&mut i, true, false, true, false));
    on_setup_button(&mut i, 3, 10);
    assert!(!drive_inspire(&mut i, true, true, true, false), "behind a dialog");
    assert!(drive_inspire(&mut i, true, false, true, false));
    assert!(!drive_inspire(&mut i, true, false, true, false));
    on_setup_button(&mut i, 4, 20);
    assert!(!drive_inspire(&mut i, true, false, true, true));
    assert_eq!(i.ctrl, 0);
}

#[test]
fn traces_are_armed_within_limits() {
    let entries: Vec<String> =
        ["Play/1", "PlayOut/0", "Play/2", "Stop/0", "SkipRuntime/0", "Odd/x"].iter().map(|s| s.to_string()).collect();
    assert_eq!(own_method_argc(&entries, "Play"), Some(1));
    assert_eq!(own_method_argc(&entries, "Odd"), None);
    assert_eq!(own_method_argc(&entries, "Gone"), None);
    assert_eq!(play_methods(&entries), vec!["Play".to_string(), "PlayOut".to_string()]);
    assert_eq!(arm_trace(None, true, 0), Arming::BaseOnly);
    assert_eq!(arm_trace(None, false, 0), Arming::Miss);
    assert_eq!(arm_trace(Some(3), false, 0), Arming::TooWide);
    assert_eq!(arm_trace(Some(2), false, 12), Arming::NoSlot);
    assert_eq!(arm_trace(Some(2), false, 11), Arming::Slot(11));
    let mut n = 58;
    assert_eq!(trace_entered(&mut n), TraceLine::Entered);
    assert_eq!(trace_entered(&mut n), TraceLine::Last);
    assert_eq!(trace_entered(&mut n), TraceLine::Silent);

    let c = Classes { event: false, manager: true, helper: true };
    let (want, notes) = install_inspire(&c, true, &entries);
    assert_eq!(notes, "inspire evc miss; ");
    assert_eq!(want.len(), 7);
    assert_eq!(want[0], (Owner::Manager, "ChangeViewSuccessionCutAndStory".to_string()));
    assert_eq!(want[6], (Owner::Helper, "PlayOut".to_string()));
    assert!(install_inspire(&c, false, &entries).0.is_empty());

    let b = Button { class: true, click_argc: Some(0), setup_argc: Some(1), callable: true, hooked: true };
    assert_eq!(install_phase1(&b), (true, "inspire: SetupSuccessionButton not own/0-arg; "));
    assert_eq!(install_phase1(&Button { setup_argc: Some(0), ..b }), (true, ""));
    assert_eq!(install_phase1(&Button { click_argc: None, ..b }).0, false);
}

#[test]
fn the_shop_hands_back_its_callbacks() {
    let mut s = new_shop();
    assert!(!on_shop_perf(&mut s, false, 1, 2));
    assert!(on_shop_perf(&mut s, true, 1, 0));
    assert!(on_shop_perf(&mut s, true, 2, 3));
    assert_eq!(drain_pending(&mut s), vec![1, 2, 3]);
    assert!(drain_pending(&mut s).is_empty());
    assert!(on_use_perf(&mut s, true, 9, 4, 0));
    assert_eq!(shop_teardown(&mut s), 4);
    assert_eq!(shop_teardown(&mut s), 0);
    assert!(on_movenext(&mut s, true) && !on_movenext(&mut s, true));
    on_driven(&mut s);
    assert!(on_movenext(&mut s, true));
    assert!(drives_on(true, 2000) && !drives_on(true, 2001) && !drives_on(false, 0));
    assert!(shop_close_item_list(Some("PartsDialogItem")) && !shop_close_item_list(None));
    assert!(closes_on(1, Some("Dialog")) && !closes_on(2, Some("Dialog")));
    on_exch_request(&mut s, true, 500);
    assert_eq!(s.close_buy_until, 1500);
}

#[test]
fn a_photo_is_left_to_play() {
    let mut t = new_train();
    assert!(do_training_skip(&mut t, true, false, false, true, 8));
    on_photo_play_cut(&mut t);
    assert!(!do_training_skip(&mut t, true, false, false, true, 9));
    on_photo_end_cut(&mut t);
    assert!(do_training_skip(&mut t, true, false, false, true, 9));
    assert_eq!(t.skips, 2);
    assert!(!do_training_skip(&mut t, false, false, false, true, 9));
}

#[test]
fn presses_run_out_and_are_spaced() {
    let (mut u, mut r) = (new_input(), new_result_skip(true));
    let won = race(1, 0);
    for i in 0..4u64 {
        assert!(auto_press(&u, &won, 7, "ScreenTap", 1000 + i * 200));
        on_pressed(&mut u, &mut r.window, 7, 1000 + i * 200);
        assert!(!auto_press(&u, &won, 7, "ScreenTap", 1000 + i * 200 + 129));
    }
    assert!(!auto_press(&u, &won, 7, "ScreenTap", 9000));
    assert!(auto_press(&u, &won, 8, "NextButton", 9000));
    on_pressed(&mut u, &mut r.window, 8, 9000);
    assert!(!auto_press(&u, &won, 8, "NextButton", 19_000), "a plain button once");
    assert_eq!(r.window.presses, 5);
    enter(&mut u, 20_000);
    assert!(!auto_press(&u, &won, 9, "NextButton", 20_100) && !click_now(&u, 9, false, 20_100));
    leave(&mut u);
    assert!(auto_press(&u, &won, 9, "NextButton", 20_200) && click_now(&u, 9, false, 20_200));
    enter(&mut u, 30_000);
    assert!(!reap_busy(&mut u, 30_749) && reap_busy(&mut u, 30_750));
}

#[test]
fn buttons_are_named_and_told_of() {
    let mut u = new_input();
    assert!(button_name(&u, 3).is_none());
    note_name(&mut u, 3, "NextButton");
    assert_eq!(button_name(&u, 3).map(|s| s.as_str()), Some("NextButton"));
    assert!(log_due(&mut u, "NextButton", false, 10) && !log_due(&mut u, "NextButton", false, 90_000));
    assert!(log_due(&mut u, "NextButton", true, 90_000) && !log_due(&mut u, "", true, 90_000));
    assert!(auto_close(&mut u, 5, "Gallop.DialogCommon", 10) && !auto_close(&mut u, 5, "Gallop.DialogCommon", 20));
    assert!(!auto_close(&mut u, 6, "Gallop.Other", 20));
    assert_eq!(cache_sizes(&u), (1, 0, 1, 1));
    let mut r = new_result_skip(true);
    assert!(!on_locked(&mut r.window, "NextButton", 1000), "first it is left alone");
    assert!(!on_locked(&mut r.window, "NextButton", 1599) && on_locked(&mut r.window, "NextButton", 1600));
    assert!(!on_locked(&mut r.window, "ScreenTap", 9000));
}

fn bits(v: f32) -> u32 {
    v.to_bits()
}

#[test]
fn the_tempo_is_bounded_and_pinned() {
    let mut t = new_tempo();
    set_tempo(&mut t, bits(50.0));
    assert_eq!(stored_tempo(&t), bits(20.0));
    set_tempo(&mut t, bits(0.2));
    assert_eq!(stored_tempo(&t), bits(1.0));
    set_tempo(&mut t, bits(16.0));
    let s = Scene { bot_on: true, story: false, choice: false, loops_known: true };
    assert_eq!(effective_tempo(&t, &s, 0), bits(16.0));
    assert_eq!(effective_tempo(&t, &Scene { bot_on: false, ..s }, 0), bits(1.0));
    assert_eq!(effective_tempo(&t, &Scene { choice: true, ..s }, 0), bits(10.0));
    set_home_active(&mut t, true);
    assert_eq!(effective_tempo(&t, &Scene { loops_known: false, ..s }, 0), bits(1.0));
    assert_eq!(effective_tempo(&t, &s, 0), bits(16.0));
    on_gacha_begin(&mut t, 1000);
    assert_eq!(effective_tempo(&t, &s, 1001), bits(1.0));
    assert_eq!(effective_tempo(&t, &s, 1000 + GACHA_PIN_CAP_MS), bits(16.0));
    set_gacha_active(&mut t, false, 1002);
    assert_eq!(effective_tempo(&t, &s, 1003), bits(16.0));
}

#[test]
fn a_frame_is_driven_by_its_tempo() {
    let mut t = new_tempo();
    assert_eq!(on_update(&mut t, bits(1.0)), (Loopers::Leave, Drive::Stock));
    assert_eq!(on_update(&mut t, bits(4.0)), (Loopers::Cancel, Drive::Scaled));
    on_tick(&mut t, 5, 1000);
    assert_eq!(on_update(&mut t, bits(16.0)), (Loopers::Leave, Drive::Stepped));
    assert_eq!(on_update(&mut t, bits(1.0)), (Loopers::Restore, Drive::Stock));
    assert_eq!(heartbeat(&t), (1, 5));
    on_tick(&mut t, 21, 17_000);
    assert_eq!(t.frame_us, 16_000);
    assert_eq!(step_budget_us(&t, 16_667), 667);
    on_stepped(&mut t, false, bits(0.5), 8000);
    assert_eq!((t.debt, t.pump_us), (bits(0.5), 8000));
    assert_eq!(step_budget_us(&t, 16_667), 8667);
    assert!(steps_on(1, 9, 99_999, 10) && !steps_on(2, 9, 10, 10) && !steps_on(9, 9, 0, 10));
    assert_eq!((looper_count(5, 3), looper_count(-1, 3), looper_count(9999, 9999)), (3, 0, 4096));
}

#[test]
fn the_tempo_installation_is_reported() {
    let s = TempoSetup { class: true, method: true, pointer: true, chained: false, made: Ok(()), enabled: Ok(()) };
    assert_eq!(install_tempo(&s), Ok("OK"));
    assert_eq!(install_tempo(&TempoSetup { chained: true, ..s }), Ok("OK (chained on top \u{2014} Overseer owns speed)"));
    let none = TempoSetup { class: false, method: false, pointer: false, chained: false, made: Ok(()), enabled: Ok(()) };
    assert_eq!(install_tempo(&none), Err("TweenManager not found".to_string()));
    let off = TempoSetup { class: true, method: true, pointer: true, enabled: Err("denied".to_string()), ..none };
    assert_eq!(install_tempo(&off), Err("Update enable: denied".to_string()));
}
