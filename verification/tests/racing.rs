//! The race being run, and its broadcast display.

use overseer::race::{
    compute_header, continues_available, course_distance, install, new_race, on_frame, on_import, on_player,
    on_post, player_finish_order, race_grade, race_header, set_continues_available, set_net_player,
    sim_finish_order, stats, track_id, Hooks, RaceHorse, RaceInfo,
};
use overseer::race_director::{
    active_skills, compute_skill_effect, field_rows, follow_state, install_offsets, new_director, on_ctor,
    on_new_race, on_switch_follow, publish_frame, race_active, race_epoch, skill_effect_of, skill_feed,
    skill_name, speed_trace, spurt_outlook, telemetry, update_followed, DetailRead, EffectTexts, FieldAt,
    FollowRead, FollowState, Reading, SkillRead, GAP_MS,
};

fn horse(idx: i64) -> RaceHorse {
    RaceHorse { idx, dist: 0, lane: 0, speed: 0, hp: 0, max_hp: 0, tempt: 0, block: 0 }
}

#[test]
fn a_frame_is_published_in_order() {
    let mut r = new_race();
    for i in [3, 1, 2, 1] {
        on_frame(&mut r, i as i32, horse(i), 0, 0);
    }
    on_frame(&mut r, 0, horse(0), 77, 1000);
    let order: Vec<i64> = r.live.horses.iter().map(|h| h.idx).collect();
    assert_eq!(order, vec![0, 1, 2, 3]);
    assert_eq!((r.live.time, r.live.horse_count, r.live.active), (77, 4, true));
    assert!(r.buffer.is_empty());

    on_frame(&mut r, 1, horse(1), 0, 1100);
    on_frame(&mut r, 0, horse(0), 88, 1200);
    assert_eq!(r.live.time, 77, "too soon");
    assert!(r.buffer.is_empty());
    assert_eq!(stats(&r), (-1, 1));
}

#[test]
fn the_players_place_comes_from_the_gate() {
    let mut r = new_race();
    set_net_player(&mut r, 4, 3, 9);
    on_post(&mut r, Some((9, 120)), &vec![Some(4), Some(1), Some(0)]);
    assert_eq!(player_finish_order(&r), 1);
    assert_eq!((r.live.horse_count, r.live.duration), (9, 120));
    on_import(&mut r);
    assert_eq!(player_finish_order(&r), 0);
    on_post(&mut r, None, &vec![]);
    assert_eq!(player_finish_order(&r), 0);
    assert_eq!(sim_finish_order(&vec![Some(4), None], 0), 4);
    assert_eq!(sim_finish_order(&vec![Some(4), None], 1), -1);
    assert_eq!(sim_finish_order(&vec![Some(4), None], -1), -1);
    assert_eq!(sim_finish_order(&vec![Some(4), None], 2), -1);
    set_continues_available(&mut r, 2);
    assert_eq!(continues_available(&r), 2);
}

#[test]
fn the_header_is_built_once() {
    let mut r = new_race();
    let info = RaceInfo { id: 5, distance: 2400, track: 10006, kind: 3, grade: 100 };
    compute_header(&mut r, &RaceInfo { distance: 0, ..info });
    assert_eq!(race_header(&r), "");
    on_player(&mut r, 4, &info);
    assert_eq!(race_header(&r), "Tokyo 2400m Medium");
    assert_eq!((course_distance(&r), track_id(&r), race_grade(&r)), (2400, 10006, 100));
    compute_header(&mut r, &RaceInfo { distance: 1200, ..info });
    assert_eq!(course_distance(&r), 2400);
    compute_header(&mut r, &RaceInfo { id: 6, distance: 1200, track: 10006, kind: 1, grade: 0 });
    assert_eq!(course_distance(&r), 1200);
}

#[test]
fn watched_functions_are_reported() {
    let none = Hooks {
        reader: true,
        frame: false,
        import: false,
        post: false,
        player: false,
        header: false,
        export: false,
        export_unpacked: false,
        export_simulated: false,
    };
    assert_eq!(install(&none), "hooks=[]");
    assert_eq!(install(&Hooks { frame: true, player: true, export_simulated: true, ..none }), "hooks=[frame,player,export-sim]");
    assert_eq!(install(&Hooks { reader: false, ..none }), "reader miss");
}

fn reading(distance: f32, speed: f32) -> Reading {
    Reading {
        order: Some(0),
        hp: Some(100.0f32.to_bits()),
        max_hp: Some(200.0f32.to_bits()),
        speed: Some(speed.to_bits()),
        distance: Some(distance.to_bits()),
        phase: Some(1),
        hp_empty: Some(false),
        bad_start: Some(false),
        fight: Some(false),
        top: Some(false),
        block_time: None,
        prev_order: None,
        defeat: None,
        position: None,
        popularity: None,
        style: None,
        trainer: None,
    }
}

const COURSE: u32 = 0x44fa_0000;

#[test]
fn the_tower_is_ordered_by_distance() {
    let mut d = new_director();
    on_ctor(&mut d, 1, &Some("Rice Shower".to_string()), Some(1030));
    for (gate, dist) in [(1, 100.0), (2, 300.0), (3, 200.0)] {
        publish_frame(&mut d, gate, &reading(dist, 17.0), 1, COURSE, 3, 1000);
    }
    let rows = field_rows(&mut d, 1, 1010);
    let gates: Vec<(i32, i32)> = rows.iter().map(|r| (r.pos, r.gate)).collect();
    assert_eq!(gates, vec![(1, 2), (2, 3), (3, 1)]);
    assert!(rows[2].followed && !rows[0].followed);
    assert_eq!(rows[2].name, "Rice Shower");

    publish_frame(&mut d, 1, &reading(400.0, 17.0), 1, COURSE, 4, 1020);
    let rows = field_rows(&mut d, 1, 1200);
    assert_eq!((rows[0].gate, rows[0].trend), (1, 2));
    assert_eq!((rows[1].gate, rows[1].trend), (2, -1));
    let t = telemetry(&d, 1).expect("a followed horse");
    assert_eq!((t.followed_name.as_str(), t.field_size, t.chara_id), ("Rice Shower", 3, 1030));
    assert!(telemetry(&d, 9).is_none());
}

#[test]
fn a_finished_horse_keeps_its_place() {
    let mut d = new_director();
    publish_frame(&mut d, 1, &reading(1990.0, 17.0), 1, COURSE, 3, 1000);
    publish_frame(&mut d, 2, &reading(2000.0, 17.0), 1, COURSE, 3, 1000);
    publish_frame(&mut d, 1, &reading(2100.0, 17.0), 1, COURSE, 3, 1010);
    let rows = field_rows(&mut d, 1, 1020);
    assert_eq!(rows.iter().map(|r| r.gate).collect::<Vec<_>>(), vec![2, 1], "the first over the line stays first");
}

#[test]
fn a_silence_begins_another_race() {
    let mut d = new_director();
    publish_frame(&mut d, 1, &reading(100.0, 17.0), 1, COURSE, 3, 1000);
    assert!(race_active(&d, true, false, 1100));
    assert_eq!(race_epoch(&d), 1);
    publish_frame(&mut d, 2, &reading(10.0, 17.0), 2, COURSE, 0, 1000 + GAP_MS + 1);
    assert_eq!(race_epoch(&d), 2);
    assert_eq!(field_rows(&mut d, 2, 2000).len(), 1);
    publish_frame(&mut d, 0, &reading(10.0, 17.0), 2, COURSE, 0, 2000);
    let mut none = reading(10.0, 17.0);
    none.hp = None;
    publish_frame(&mut d, 5, &none, 2, COURSE, 0, 2000);
    assert_eq!(field_rows(&mut d, 2, 2000).len(), 1);
    on_new_race(&mut d);
    assert_eq!(field_rows(&mut d, 2, 2000).len(), 0);
}

#[test]
fn the_pace_is_recorded_once_per_stretch() {
    let mut d = new_director();
    for (bucket, speed) in [(0usize, 16.0f32), (0, 18.0), (2, 20.0)] {
        publish_frame(&mut d, 1, &reading(100.0, speed), 1, COURSE, bucket, 1000);
    }
    let pace: Vec<f32> = speed_trace(&d).iter().map(|b| f32::from_bits(*b)).collect();
    assert_eq!(pace.len(), 3);
    assert_eq!((pace[0], pace[2]), (18.0, 20.0));
    on_switch_follow(&mut d);
    assert!(speed_trace(&d).is_empty());
}

fn follow(used: Vec<i32>) -> FollowRead {
    let n = used.len();
    FollowRead {
        used,
        names: (0..n).map(|i| Some(format!("Skill {i}"))).collect(),
        effects: (0..n).map(|i| format!("Effect {i}")).collect(),
        skills: Some(vec![
            Some(SkillRead {
                id: 7,
                details: vec![
                    None,
                    Some(DetailRead { activated: true, left: 3.0f32.to_bits(), category: 2, debuff: false }),
                ],
            }),
            Some(SkillRead {
                id: 8,
                details: vec![Some(DetailRead { activated: true, left: 99.0f32.to_bits(), category: 2, debuff: false })],
            }),
            None,
        ]),
        follow: Some(FollowState { kakari: true, temptation_mode: 1, keep_mode: 2, downhill: false }),
        phase: Some(2),
        outlook: Some(3),
    }
}

#[test]
fn the_followed_horse_tells_more() {
    let mut d = new_director();
    update_followed(&mut d, &follow(vec![200, 201]));
    assert_eq!(skill_feed(&d).clone(), vec![(200, "Skill 0".to_string()), (201, "Skill 1".to_string())]);
    assert_eq!(active_skills(&d).iter().map(|s| s.id).collect::<Vec<_>>(), vec![7]);
    assert!(follow_state(&d).kakari);
    assert_eq!(spurt_outlook(&d), 3);
    assert_eq!(skill_effect_of(&d, 201), "Effect 1");
    update_followed(&mut d, &follow(vec![200, 201]));
    assert_eq!(skill_feed(&d).len(), 2, "a skill is listed once");
    assert_eq!(skill_name(5, &Some("Corner Adept \u{25cb}".to_string())), "Corner Adept");
}

#[test]
fn an_effect_is_put_into_words() {
    let t = EffectTexts {
        whole: "5".to_string(),
        fine: "0.35".to_string(),
        percent: "5.5".to_string(),
        seconds: "2.4".to_string(),
        time: 2.4f32.to_bits(),
    };
    assert_eq!(compute_skill_effect(27, 3500, &t), "+0.35 m/s 2.4s");
    assert_eq!(compute_skill_effect(0, 0, &t), "");
}

#[test]
fn offsets_are_looked_up() {
    let at = |class: &str, field: &str, offset: usize| FieldAt { class: class.to_string(), field: field.to_string(), offset };
    let (none, ok) = install_offsets(&vec![]);
    assert!(!ok);
    assert_eq!(none.horse.hp, 0);
    let (some, ok) = install_offsets(&vec![
        at("Gallop.Other", "_hp", 8),
        at("Gallop.HorseRaceInfo", "_hp", 24),
        at("Gallop.HorseRaceInfo", "_maxHp", 28),
    ]);
    assert!(ok);
    assert_eq!((some.horse.hp, some.horse.max_hp, some.horse.speed), (24, 28, 0));
}
