//! The field of a race, read from the entry screen's response.

use overseer::msgpack::{decode, Node};
use overseer::names::{Names, Program};
use overseer::race_field::{
    clear, condition_name, distance_bracket, grade, ground_name, latest, new_field_state, note, style_name,
    weather_name,
};

fn packed(v: &serde_json::Value) -> rmpv::Value {
    match v {
        serde_json::Value::Null => rmpv::Value::Nil,
        serde_json::Value::Bool(b) => rmpv::Value::Boolean(*b),
        serde_json::Value::Number(n) => n
            .as_i64()
            .map(rmpv::Value::from)
            .or_else(|| n.as_f64().map(rmpv::Value::from))
            .unwrap_or(rmpv::Value::Nil),
        serde_json::Value::String(s) => rmpv::Value::from(s.as_str()),
        serde_json::Value::Array(a) => rmpv::Value::Array(a.iter().map(packed).collect()),
        serde_json::Value::Object(o) => {
            rmpv::Value::Map(o.iter().map(|(k, v)| (rmpv::Value::from(k.as_str()), packed(v))).collect())
        }
    }
}

/// The msgpack bytes of a JSON text.
fn bytes_of(json: &str) -> Vec<u8> {
    let parsed = serde_json::from_str::<serde_json::Value>(json).expect("fixture is valid json");
    let mut out: Vec<u8> = Vec::new();
    rmpv::encode::write_value(&mut out, &packed(&parsed)).expect("fixture encodes");
    out
}

fn mp(json: &str) -> Node {
    decode(&bytes_of(json)).expect("fixture decodes")
}

fn program(id: i64, name: &str, ground: i64, distance: i64) -> Program {
    Program { id, name: name.to_string(), ground, distance }
}

fn tables() -> Names {
    Names {
        items: vec![],
        skills: vec![],
        supports: vec![],
        charas: vec![(1006, "Oguri Cap".to_string())],
        hint_pools: vec![],
        skill_groups: vec![],
        programs: vec![program(1070, "Junior Make Debut", 1, 1600)],
        factors: vec![],
    }
}

/// A debut race over 1600 m of turf, with three of its runners.
const DEBUT: &str = r#"{"race_start_info":{
  "program_id":1070,"weather":1,"ground_condition":1,"race_horse_data":[
  {"frame_order":8,"viewer_id":7777,"chara_id":1006,"speed":222,"stamina":137,"pow":261,
   "guts":146,"wiz":114,"running_style":3,"popularity":1,"motivation":4,
   "proper_ground_turf":7,"proper_ground_dirt":6,"proper_distance_short":3,
   "proper_distance_mile":7,"proper_distance_middle":7,"proper_distance_long":7,
   "proper_running_style_nige":4,"proper_running_style_senko":7,
   "proper_running_style_sashi":7,"proper_running_style_oikomi":4,
   "skill_array":[{"skill_id":100061,"level":1}]},
  {"frame_order":4,"viewer_id":0,"chara_id":1,"speed":77,"stamina":57,"pow":104,"guts":94,
   "wiz":100,"running_style":2,"popularity":8,"motivation":1,
   "proper_ground_turf":6,"proper_ground_dirt":1,"proper_distance_short":4,
   "proper_distance_mile":5,"proper_distance_middle":4,"proper_distance_long":2,
   "proper_running_style_nige":5,"proper_running_style_senko":6,
   "proper_running_style_sashi":5,"proper_running_style_oikomi":4,"skill_array":[]},
  {"frame_order":7,"viewer_id":0,"chara_id":1,"speed":86,"stamina":80,"pow":77,"guts":93,
   "wiz":37,"running_style":1,"popularity":9,"motivation":1,
   "proper_ground_turf":6,"proper_ground_dirt":1,"proper_distance_short":2,
   "proper_distance_mile":4,"proper_distance_middle":5,"proper_distance_long":4,
   "proper_running_style_nige":6,"proper_running_style_senko":5,
   "proper_running_style_sashi":4,"proper_running_style_oikomi":3,"skill_array":[]}]}}"#;

#[test]
fn decodes_a_real_entry_screen_field() {
    let mut st = new_field_state();
    note(&mut st, &mp(DEBUT), &tables());
    let f = latest(&st).expect("a field was published");

    assert_eq!(f.program_id, 1070);
    assert_eq!(f.race_name, "Junior Make Debut", "program id resolved via the bundled table");
    assert_eq!((f.distance, f.distance_label, f.ground), (1600, "Mile", "Turf"));
    assert_eq!((f.weather, f.condition), ("Sunny", "Firm"));
    assert_eq!(f.field_size, 3);

    let totals: Vec<i64> = f.runners.iter().map(|r| r.total).collect();
    assert_eq!(totals, vec![880, 432, 373]);

    let me = &f.runners[0];
    assert!(me.is_player);
    assert_eq!(me.name, "Oguri Cap");
    assert_eq!((f.player_rank, f.player_frame), (1, 8));
    assert_eq!(me.style, "Late", "running_style 3 is sashi");
    assert_eq!(me.skills, 1);
    assert_eq!(me.mood, 4);
}

#[test]
fn aptitudes_are_selected_for_the_race_and_the_runner() {
    let mut st = new_field_state();
    note(&mut st, &mp(DEBUT), &tables());
    let f = latest(&st).unwrap();

    assert_eq!(
        (f.runners[0].apt_ground, f.runners[0].apt_distance, f.runners[0].apt_style),
        ("A", "A", "A")
    );
    assert_eq!(
        (f.runners[1].apt_ground, f.runners[1].apt_distance, f.runners[1].apt_style),
        ("B", "C", "B")
    );
    assert_eq!(
        (f.runners[2].apt_ground, f.runners[2].apt_distance, f.runners[2].apt_style),
        ("B", "D", "B")
    );
    assert_eq!(f.runners[1].name, "");
    assert!(!f.runners[1].is_player);
}

#[test]
fn an_empty_race_start_info_does_not_clear_a_live_field() {
    let mut st = new_field_state();
    note(&mut st, &mp(DEBUT), &tables());
    assert!(latest(&st).is_some());

    note(&mut st, &mp(r#"{"race_start_info":{"race_horse_data":[]},"chara_info":{"turn":12}}"#), &tables());
    note(&mut st, &mp(r#"{"chara_info":{"turn":13}}"#), &tables());
    assert_eq!(latest(&st).map(|f| f.program_id), Some(1070), "the live field survived");

    clear(&mut st);
    assert!(latest(&st).is_none(), "race_end retires it");
}

#[test]
fn entering_a_new_race_retires_the_previous_result() {
    let mut st = new_field_state();
    let mut reveal = Some("{\"player_finish_label\":\"1st of 17\"}".to_string());
    if note(&mut st, &mp(DEBUT), &tables()) {
        reveal = None;
    }
    assert!(reveal.is_none(), "a new race must clear the old result");

    reveal = Some("{\"player_finish_label\":\"9th of 18\"}".to_string());
    if note(&mut st, &mp(DEBUT), &tables()) {
        reveal = None;
    }
    assert!(reveal.is_some(), "re-serving the same race must keep its own result");
}

#[test]
fn an_unlisted_program_still_yields_a_field() {
    let mut st = new_field_state();
    note(
        &mut st,
        &mp(
            r#"{"race_start_info":{"program_id":1106,"weather":9,"ground_condition":9,
              "race_horse_data":[{"frame_order":1,"viewer_id":7777,"chara_id":1006,"speed":100,
              "stamina":100,"pow":100,"guts":100,"wiz":100,"running_style":1,"popularity":1,
              "motivation":3,"proper_ground_turf":8}]}}"#,
        ),
        &tables(),
    );
    let f = latest(&st).expect("still published");
    assert_eq!(f.race_name, "");
    assert_eq!((f.distance, f.distance_label), (0, "?"));
    assert_eq!((f.weather, f.condition), ("?", "?"));
    assert_eq!(f.runners[0].total, 500);
    assert_eq!(f.runners[0].apt_distance, "?", "no distance means no distance aptitude");
}

#[test]
fn the_stronger_runner_is_listed_first_and_ties_keep_their_order() {
    let mut st = new_field_state();
    note(
        &mut st,
        &mp(r#"{"header":{"viewer_id":5},"race_start_info":{"program_id":1070,"race_horse_data":[
            {"frame_order":1,"viewer_id":0,"speed":10},
            {"frame_order":2,"viewer_id":0,"speed":30},
            {"frame_order":3,"viewer_id":5,"speed":10},
            {"frame_order":4,"viewer_id":6,"speed":10}]}}"#),
        &tables(),
    );
    let f = latest(&st).unwrap();
    let frames: Vec<i64> = f.runners.iter().map(|r| r.frame).collect();
    assert_eq!(frames, vec![2, 1, 3, 4]);
    assert_eq!((f.player_rank, f.player_frame), (3, 3));
}

#[test]
fn codes_are_named() {
    assert_eq!((1..=8).map(grade).collect::<Vec<_>>(), vec!["G", "F", "E", "D", "C", "B", "A", "S"]);
    assert_eq!(grade(0), "?");
    assert_eq!((1..=4).map(style_name).collect::<Vec<_>>(), vec!["Front", "Pace", "Late", "End"]);
    assert_eq!((1..=4).map(weather_name).collect::<Vec<_>>(), vec!["Sunny", "Cloudy", "Rainy", "Snowy"]);
    assert_eq!((1..=4).map(condition_name).collect::<Vec<_>>(), vec!["Firm", "Good", "Soft", "Heavy"]);
    assert_eq!((ground_name(2), ground_name(1)), ("Dirt", "Turf"));
    assert_eq!(
        (distance_bracket(1400), distance_bracket(1401), distance_bracket(1801), distance_bracket(2401)),
        ("Sprint", "Mile", "Medium", "Long")
    );
}
