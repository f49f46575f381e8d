//! What responses are read for.

use overseer::career::{Account, Gain, Stat};
use overseer::msgpack::{decode, Node};
use overseer::names::{Factor, Names, Program};
use overseer::race_field::{latest, new_field_state};
use overseer::response_hook::account::parse_account;
use overseer::response_hook::career_start::{parse_blocked, parse_career_plan, parse_factors, parse_spark_offer};
use overseer::response_hook::finish::parse_finish;
use overseer::response_hook::{on_response, parse_continues, parse_race, Capture, Gates, NetPlayer};

fn packed(v: &serde_json::Value) -> rmpv::Value {
    match v {
        serde_json::Value::Null => rmpv::Value::Nil,
        serde_json::Value::Bool(b) => rmpv::Value::Boolean(*b),
        serde_json::Value::Number(n) => n
            .as_i64()
            .map(rmpv::Value::from)
            .or_else(|| n.as_f64().map(rmpv::Value::from))
            .unwrap_or(rmpv::Value::Nil),
        serde_json::Value::String(s) => rmpv::Value::from(s.as_str()),
        serde_json::Value::Array(a) => rmpv::Value::Array(a.iter().map(packed).collect()),
        serde_json::Value::Object(o) => {
            rmpv::Value::Map(o.iter().map(|(k, v)| (rmpv::Value::from(k.as_str()), packed(v))).collect())
        }
    }
}

/// The msgpack bytes of a JSON text.
fn bytes_of(json: &str) -> Vec<u8> {
    let parsed = serde_json::from_str::<serde_json::Value>(json).expect("fixture is valid json");
    let mut out: Vec<u8> = Vec::new();
    rmpv::encode::write_value(&mut out, &packed(&parsed)).expect("fixture encodes");
    out
}

fn mp(json: &str) -> Node {
    decode(&bytes_of(json)).expect("fixture decodes")
}

fn program(id: i64, name: &str, ground: i64, distance: i64) -> Program {
    Program { id, name: name.to_string(), ground, distance }
}

fn factor(id: i64, name: &str, kind: &str, stars: i64) -> Factor {
    Factor { id, name: name.to_string(), kind: kind.to_string(), stars }
}

fn tables() -> Names {
    Names {
        items: vec![(1, "Vita 20".to_string()), (2, "Cleat Hammer".to_string())],
        skills: vec![(200212, "Corner Adept".to_string())],
        supports: vec![(30001, "Kitasan Black".to_string())],
        charas: vec![(1006, "Oguri Cap".to_string())],
        hint_pools: vec![(30001, vec!["Straightaway Recovery".to_string(), "Corner Adept".to_string()])],
        skill_groups: vec![("Straightaway Recovery".to_string(), 77)],
        programs: vec![program(623, "Hanshin Juvenile Fillies", 1, 1600), program(81, "Arima Kinen", 1, 2500)],
        factors: vec![
            factor(403, "Guts", "stat", 3),
            factor(2302, "Late Surger", "aptitude", 2),
            factor(10060101, "Triumphant Pulse", "unique", 1),
            factor(2010601, "Head-On", "skill", 1),
            factor(2011801, "Ramp Up", "skill", 1),
            factor(2014401, "Pressure", "skill", 1),
            factor(2016601, "Up-Tempo", "skill", 1),
            factor(1003401, "Hopeful Stakes", "race", 1),
            factor(3000402, "URA Finale", "scenario", 2),
        ],
    }
}

fn unknown_account() -> Account {
    Account {
        tp_cur: None,
        tp_max: None,
        rp_cur: None,
        rp_max: None,
        carats: None,
        skill_point: None,
        gold: None,
    }
}

fn all_on() -> Gates {
    Gates { analysis: true, export: true, legacy_capture: true }
}

#[test]
fn the_spark_offer_is_decoded_and_named() {
    let offer = parse_spark_offer(
        &mp(
            r#"{"single_mode_factor_select_common":{"lottery_remain_num":1,"lottery_count":1,
              "factor_select_info_array":[{"lottery_id":1,"factor_info_array":[
                {"factor_id":403,"level":0},{"factor_id":2302,"level":0},
                {"factor_id":10060101,"level":0},{"factor_id":2010601,"level":0},
                {"factor_id":2011801,"level":0},{"factor_id":2014401,"level":0},
                {"factor_id":2016601,"level":0},{"factor_id":1003401,"level":0},
                {"factor_id":3000402,"level":0}]}]}}"#,
        ),
        &tables(),
    )
    .expect("an offer was published");
    assert_eq!(offer.sparks.len(), 9);
    assert_eq!((offer.rerolls_left, offer.rerolls_used), (1, 1));
    assert!(offer.sparks.iter().all(|s| !s.name.is_empty()), "every offered spark resolved to a name");
    assert_eq!((offer.sparks[0].name.as_str(), offer.sparks[0].stars), ("Guts", 3));
    let by_id = |id: i64| offer.sparks.iter().find(|s| s.id == id).unwrap();
    assert_eq!((by_id(10060101).kind.as_str(), by_id(10060101).name.as_str()), ("unique", "Triumphant Pulse"));
    assert_eq!(by_id(1003401).kind, "race");
    assert_eq!(by_id(2302).name, "Late Surger");
}

#[test]
fn a_rerolled_pool_collects_every_group() {
    let offer = parse_spark_offer(
        &mp(
            r#"{"single_mode_factor_lottery_common":{"lottery_remain_num":0,"lottery_count":2,
              "factor_select_info_array":[
                {"lottery_id":1,"factor_info_array":[{"factor_id":403}]},
                {"lottery_id":2,"factor_info_array":[{"factor_id":2302},{"factor_id":0}]}]}}"#,
        ),
        &tables(),
    )
    .unwrap();
    assert_eq!(offer.sparks.len(), 2, "both groups, and the zero id dropped");
    assert_eq!(offer.rerolls_left, 0);
}

#[test]
fn the_career_plan_merges_entered_and_rolled_races() {
    let plan = parse_career_plan(
        &mp(
            r#"{"single_mode_start_common":{
              "reserved_race_array":[{"deck_num":0,"race_array":[{"year":1,"program_id":623}]},
                                     {"deck_num":1,"race_array":[]}],
              "race_random_program_array":[{"year":1,"program_id":623},{"year":2,"program_id":81},
                                           {"year":3,"program_id":1106}]}}"#,
        ),
        &tables(),
    )
    .expect("a plan was published");
    assert_eq!(plan.len(), 3, "623 listed once, not twice");

    let entered: Vec<_> = plan.iter().filter(|p| p.reserved).collect();
    assert_eq!(entered.len(), 1);
    assert_eq!(entered[0].program_id, 623);
    assert_eq!(entered[0].name, "Hanshin Juvenile Fillies");

    let arima = plan.iter().find(|p| p.program_id == 81).unwrap();
    assert_eq!((arima.name.as_str(), arima.distance, arima.ground), ("Arima Kinen", 2500, "Turf"));
    let unlisted = plan.iter().find(|p| p.program_id == 1106).unwrap();
    assert_eq!(unlisted.name, "");
}

#[test]
fn the_blocked_notice_is_silent_when_nothing_is_blocked() {
    let mut blocked = vec!["stale".to_string()];
    if let Some(b) = parse_blocked(&mp(
        r#"{"not_up_parameter_info":{"status_type_array":[],"chara_effect_id_array":[],
              "skill_id_array":[],"skill_tips_array":[],"evaluation_chara_id_array":[]}}"#,
    )) {
        blocked = b;
    }
    assert!(blocked.is_empty());

    if let Some(b) = parse_blocked(&mp(
        r#"{"not_up_parameter_info":{"status_type_array":[1,5],"skill_id_array":[200212,200362]}}"#,
    )) {
        blocked = b;
    }
    let b = blocked;
    assert!(b.contains(&"Speed did not increase".to_string()), "{b:?}");
    assert!(b.contains(&"Wit did not increase".to_string()), "{b:?}");
    assert!(b.contains(&"skill_id_array: 2".to_string()), "{b:?}");
}

#[test]
fn no_block_and_no_plan_publish_nothing() {
    assert!(parse_blocked(&mp(r#"{"chara_info":{}}"#)).is_none());
    assert!(parse_career_plan(&mp(r#"{"single_mode_start_common":{}}"#), &tables()).is_none());
    assert!(parse_spark_offer(&mp(r#"{"factor_select_info_array":[]}"#), &tables()).is_none());
}

#[test]
fn a_response_that_says_nothing_keeps_the_account() {
    let prior = Account { tp_cur: Some(30), carats: Some(1500), ..unknown_account() };
    let r = parse_account(&mp(r#"{"data":{"x":1}}"#), prior, &tables());
    assert_eq!(r.account, prior);
    assert!(!r.career_present && !r.race_over && r.items.is_none() && r.training.is_none() && r.bonds.is_none());
}

#[test]
fn the_account_is_updated_field_by_field() {
    let prior = Account { tp_cur: Some(30), gold: Some(8), ..unknown_account() };
    let r = parse_account(
        &mp(r#"{"tp_info":{"current_tp":55,"max_tp":100},"coin_info":{"coin":100,"fcoin":25},
            "chara_info":{"turn":12,"skill_point":140,"speed":300,"wiz":250,"motivation":4,"vital":66}}"#),
        prior,
        &tables(),
    );
    assert_eq!((r.account.tp_cur, r.account.tp_max, r.account.carats), (Some(55), Some(100), Some(125)));
    assert_eq!((r.account.skill_point, r.account.gold), (Some(140), Some(8)));
    assert!(r.career_present);
    let c = r.career.expect("the career has begun");
    assert_eq!((c.turn, c.speed, c.wit, c.mood, c.energy, c.active), (12, 300, 250, 4, 66, true));
}

#[test]
fn inventory_shop_and_bonds_are_listed() {
    let r = parse_account(
        &mp(r#"{"chara_info":{"turn":5,"support_card_array":[
              {"support_card_id":30001,"evaluation":100},{"support_card_id":30002,"bond":40},{"id":0}]},
            "free_data_set":{"user_item_info_array":[{"item_id":1,"num":2},{"item_id":2,"num":0}],
              "pick_up_item_info_array":[{"item_id":2,"coin_num":40},
                {"item_id":1,"coin_num":9,"limit_buy_count":1,"item_buy_num":1},
                {"item_id":1,"coin_num":9,"limit_turn":4}]}}"#),
        unknown_account(),
        &tables(),
    );
    assert_eq!(r.items.unwrap(), vec!["Vita 20 x2".to_string()]);
    assert_eq!(r.catalog.unwrap(), vec!["Cleat Hammer (40)".to_string()]);
    let bonds: Vec<(i64, i64, bool)> = r.bonds.unwrap().iter().map(|b| (b.id, b.bond, b.maxed)).collect();
    assert_eq!(bonds, vec![(30001, 100, true), (30002, 40, false)]);
}

#[test]
fn a_training_tile_names_its_partners_and_hints() {
    let r = parse_account(
        &mp(r#"{"chara_info":{"turn":5,"support_card_array":[{"position":1,"support_card_id":30001}],
              "skill_tips_array":[{"group_id":77}]},
            "home_info":{"command_info_array":[
              {"command_type":1,"command_id":105,"failure_rate":7,"training_partner_array":[1,1006,102],
               "tips_event_partner_array":[1,1],
               "params_inc_dec_info_array":[{"target_type":2,"value":10},{"target_type":2,"value":3},
                 {"target_type":30,"value":-20},{"target_type":99,"value":1}]},
              {"command_type":3,"command_id":101}]}}"#),
        unknown_account(),
        &tables(),
    );
    let tiles = r.training.unwrap();
    assert_eq!(tiles.len(), 1);
    let t = &tiles[0];
    assert_eq!(t.stat, Stat::Stamina);
    assert_eq!(t.gains, vec![(Gain::Sta, 13), (Gain::Energy, -20)]);
    assert_eq!(t.fail, 7);
    assert_eq!(
        t.partners,
        vec!["Kitasan Black".to_string(), "Oguri Cap".to_string(), "Partner #102".to_string()]
    );
    let hints: Vec<(&str, bool)> = t.hints.iter().map(|h| (h.name.as_str(), h.known)).collect();
    assert_eq!(hints, vec![("Corner Adept", false), ("Straightaway Recovery", true)]);
}

#[test]
fn a_first_grade_win_and_a_purchase_are_noted() {
    let r = parse_account(
        &mp(r#"{"race_reward_info":{"result_rank":1,"gained_fans":9000,"race_grade":1},
            "skill_learning_info_array":[{"skill_id":200212,"need_skill_point":120},{"skill_id":7}]}"#),
        unknown_account(),
        &tables(),
    );
    assert_eq!(r.race_result, Some((1, 9000)));
    assert!(r.race_over && r.g1_win);
    assert_eq!(r.purchases, vec![(200212, "Corner Adept".to_string(), 120)]);
}

#[test]
fn a_login_roster_is_no_finished_career() {
    assert!(parse_finish(&mp(
        r#"{"single_mode_finish_common":{"trained_chara":[{"trained_chara_id":5,"rank_score":900}]}}"#
    ))
    .is_none());
    assert!(parse_finish(&mp(
        r#"{"single_mode_finish_common":{"trained_chara_id":6,"trained_chara":[{"trained_chara_id":5}]}}"#
    ))
    .is_none());
    let p = parse_finish(&mp(
        r#"{"single_mode_finish_common":{"trained_chara_id":5,"scenario_id":4,"difficulty":2,
          "trained_chara":[{"trained_chara_id":4},{"trained_chara_id":5,"card_id":100601,"rank_score":900,
            "wiz":410,"wins":12,"race_result_list":[1,2,3],"factor_id_array":[403,{"factor_id":2302},0],
            "skill_array":[{"skill_id":200212}]}]}}"#,
    ))
    .expect("the career is finished");
    assert_eq!((p.card_id, p.rank_score, p.wit, p.wins, p.race_count), (100601, 900, 410, 12, 3));
    assert_eq!(p.factor_ids, vec![403, 2302]);
    assert_eq!(p.skill_ids, vec![200212]);
    assert_eq!(p.difficulty, 2);
    assert_eq!(p.resolved, vec!["sparks", "skills", "core"]);
}

#[test]
fn the_players_horse_and_the_retries_are_found() {
    let race = mp(r#"{"race_horse_data":[{"viewer_id":0,"frame_order":3},{"viewer_id":9,"frame_order":7}]}"#);
    assert_eq!(parse_race(&race), Some(NetPlayer { index: 1, frame_order: 7, horses: 2 }));
    assert_eq!(parse_race(&mp(r#"{"race_horse_data":[{"viewer_id":0}]}"#)), None);
    assert_eq!(parse_continues(&mp(r#"{"a":{"available_continue_num":3}}"#)), Some(3));
    assert_eq!(parse_continues(&mp(r#"{"a":1}"#)), None);
}

#[test]
fn sparks_are_read_per_trained_chara() {
    let got = parse_factors(&mp(
        r#"{"trained_chara":[{"card_id":11,"factor_id_array":[403,{"factor_id":2302},0]},{"card_id":12}]}"#,
    ));
    assert_eq!(got, vec![(11, vec![403, 2302])]);
}

#[test]
fn a_suspended_reader_sees_nothing() {
    let bytes = bytes_of(r#"{"race_horse_data":[{"viewer_id":9}],"chara_info":{"turn":3},"race_scenario":"x"}"#);
    let mut field = new_field_state();
    let off = Gates { analysis: false, export: false, legacy_capture: true };
    let r = on_response(&bytes, off, unknown_account(), &tables(), &mut field);
    assert!(!r.forward && r.player.is_none() && r.account.is_none() && r.capture.is_none());
    assert!(latest(&field).is_none());

    let only_export = Gates { analysis: false, export: true, legacy_capture: true };
    let r = on_response(&bytes, only_export, unknown_account(), &tables(), &mut field);
    assert!(r.forward && r.player.is_none() && r.account.is_none() && r.capture.is_none());
}

#[test]
fn one_response_feeds_every_reader() {
    let bytes = bytes_of(
        r#"{"race_start_info":{"program_id":81,"race_horse_data":[{"viewer_id":9,"frame_order":2,"speed":5}]},
            "chara_info":{"turn":3},"home_info":{},"race_scenario":"x","tp_info":{"current_tp":4}}"#,
    );
    let mut field = new_field_state();
    let r = on_response(&bytes, all_on(), unknown_account(), &tables(), &mut field);
    assert!(r.forward && r.retire_reveal);
    assert_eq!(r.player, Some(NetPlayer { index: 0, frame_order: 2, horses: 1 }));
    assert_eq!(r.account.unwrap().account.tp_cur, Some(4));
    assert_eq!(r.capture, Some(Capture::Race), "a race result is kept before a career screen");
    assert_eq!(latest(&field).unwrap().race_name, "Arima Kinen");

    let home = bytes_of(r#"{"chara_info":{"turn":3},"home_info":{}}"#);
    let r = on_response(&home, all_on(), unknown_account(), &tables(), &mut field);
    assert_eq!(r.capture, Some(Capture::Career));
    assert!(!r.retire_reveal);
    assert_eq!(latest(&field).unwrap().program_id, 81, "the field survives a turn");

    let end = bytes_of(r#"{"race_reward_info":{"result_rank":2}}"#);
    let r = on_response(&end, all_on(), unknown_account(), &tables(), &mut field);
    assert_eq!(r.account.unwrap().race_result, Some((2, 0)));
    assert!(latest(&field).is_none());
}

#[test]
fn what_is_not_msgpack_is_forwarded_and_left_alone() {
    assert!(decode(&[0x9f, 0x01]).is_none());
    let mut bytes = vec![0x9fu8];
    bytes.extend_from_slice(b"chara_info");
    let mut field = new_field_state();
    let r = on_response(&bytes, all_on(), unknown_account(), &tables(), &mut field);
    assert!(r.forward && r.account.is_none());
    let empty: Vec<u8> = vec![];
    assert!(!on_response(&empty, all_on(), unknown_account(), &tables(), &mut field).forward);
}
