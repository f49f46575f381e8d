//! Race results, their history, and what is handed to other programs.

use base64::Engine;
use cbc::cipher::block_padding::Pkcs7;
use cbc::cipher::{BlockDecryptMut, KeyIvInit};
use overseer::race_export::{
    dump_team_trials, file_name, folder_for, maybe_dump, new_export, sanitize, save, set_enabled as set_export,
    stamp_version, winner_of,
};
use overseer::race_reveal::{
    decode, decode_and_publish, history_report, ordinal, record_race, summarize, RaceRecord, DEDUP_WINDOW_MS, MAX_HISTORY,
};
use overseer::runtime::{new_power, set_overseer_enabled, Power};
use overseer::sidecar::{gen_token, new_sidecar, on_exit, resolve_python, set_active, spawn, Next};
use overseer::uma_bridge::{
    forward, frame_body, new_bridge, send_request, send_request_frame, send_response, set_enabled,
    set_external_active, split, Kind, MAX_REQUEST, PARTIAL,
};
use overseer::umas::{admits, describe, new_umas, pick_method, save as save_umas, set_enabled as set_umas, MethodInfo};
use std::io::Write;

fn put(out: &mut Vec<u8>, v: i32) {
    out.extend_from_slice(&v.to_le_bytes());
}

/// A result table: each horse's place, from 0, and its time.
fn blob(rows: &[(i32, f32)]) -> Vec<u8> {
    let mut b: Vec<u8> = Vec::new();
    put(&mut b, 2);
    b.extend_from_slice(&[9, 9]);
    put(&mut b, 7);
    put(&mut b, rows.len() as i32);
    put(&mut b, 0);
    put(&mut b, 31);
    put(&mut b, 1);
    b.push(0);
    put(&mut b, 2);
    put(&mut b, 3);
    b.extend_from_slice(&[0; 6]);
    put(&mut b, 0);
    for (place, time) in rows {
        put(&mut b, *place);
        b.extend_from_slice(&time.to_le_bytes());
        b.extend_from_slice(&[0; 19]);
        b.extend_from_slice(&(time * 2.0).to_le_bytes());
    }
    b
}

fn pack_text(blob: &[u8]) -> String {
    let mut gz = flate2::write::GzEncoder::new(Vec::new(), flate2::Compression::default());
    gz.write_all(blob).expect("writes");
    base64::engine::general_purpose::STANDARD.encode(gz.finish().expect("ends"))
}

/// A response with a race: the accounts by gate, and the scenario text.
fn response(viewers: &[i64], scenario: &str) -> Vec<u8> {
    let horses: Vec<rmpv::Value> = viewers
        .iter()
        .enumerate()
        .map(|(i, v)| {
            rmpv::Value::Map(vec![
                (rmpv::Value::from("frame_order"), rmpv::Value::from(i as i64 + 1)),
                (rmpv::Value::from("viewer_id"), rmpv::Value::from(*v)),
            ])
        })
        .collect();
    let doc = rmpv::Value::Map(vec![
        (rmpv::Value::from("race_horse_data"), rmpv::Value::Array(horses)),
        (rmpv::Value::from("race_scenario"), rmpv::Value::from(scenario)),
    ]);
    let mut out: Vec<u8> = Vec::new();
    rmpv::encode::write_value(&mut out, &doc).expect("encodes");
    out
}

#[test]
fn a_result_is_read_in_finish_order() {
    let text = pack_text(&blob(&[(2, 95.5), (0, 93.25), (1, 94.0)]));
    let d = decode(&response(&[0, 0, 42], &text)).expect("decodes");
    let places: Vec<i64> = d.order.iter().map(|f| f.place).collect();
    assert_eq!(places, vec![1, 2, 3]);
    assert_eq!(d.order[0].time, 93.25f32.to_bits());
    assert_eq!(d.order[0].raw, 186.5f32.to_bits());
    assert_eq!((d.field_size, d.player_place, d.player_time), (3, Some(2), Some(94.0f32.to_bits())));
    assert_eq!(d.label, "2nd of 3");

    let r = decode_and_publish(&response(&[0, 0, 42], &text)).expect("publishes");
    assert_eq!(r.own, Some((2, 3, 94.0f32.to_bits())));
}

#[test]
fn a_broken_result_is_no_result() {
    let whole = blob(&[(0, 90.0), (1, 91.0)]);
    assert!(decode(&response(&[42, 0], &pack_text(&whole))).is_some());
    assert!(decode(&response(&[42, 0], &pack_text(&whole[..whole.len() - 1]))).is_none());
    assert!(decode(&response(&[42, 0], "not base64!")).is_none());
    assert!(decode(&response(&[42, 0], &base64::engine::general_purpose::STANDARD.encode(b"plain"))).is_none());
    assert!(decode(&response(&[42, 0], &pack_text(&blob(&[])))).is_none());
    assert!(decode(&[]).is_none());
}

#[test]
fn ordinals_are_english() {
    let said: Vec<String> = [1, 2, 3, 4, 11, 12, 13, 21, 102, 113].iter().map(|n| ordinal(*n)).collect();
    assert_eq!(said, vec!["1st", "2nd", "3rd", "4th", "11th", "12th", "13th", "21st", "102nd", "113th"]);
}

fn record(epoch_ms: u64, place: i64, grade: i64) -> RaceRecord {
    RaceRecord { epoch_ms, name: String::new(), grade, distance: 0, place, field: 9, time: 0 }
}

#[test]
fn a_resent_result_is_recorded_once() {
    let mut hist: Vec<RaceRecord> = Vec::new();
    assert!(record_race(&mut hist, record(1000, 1, 0), false));
    assert!(!record_race(&mut hist, record(1000 + DEDUP_WINDOW_MS - 1, 1, 0), true));
    assert!(record_race(&mut hist, record(1000 + DEDUP_WINDOW_MS, 1, 0), true));
    assert!(record_race(&mut hist, record(1000 + DEDUP_WINDOW_MS, 2, 0), true));
    assert_eq!(hist.len(), 3);
}

#[test]
fn the_history_forgets_its_oldest() {
    let mut hist: Vec<RaceRecord> = Vec::new();
    for i in 0..(MAX_HISTORY as u64 + 5) {
        record_race(&mut hist, record(i * 1_000_000, 1, 0), true);
    }
    assert_eq!(hist.len(), MAX_HISTORY);
    assert_eq!(hist[0].epoch_ms, 5_000_000);
}

#[test]
fn a_summary_counts_the_history() {
    let hist = vec![record(1, 1, 100), record(2, 3, 100), record(3, 9, 0), record(4, 1, 0)];
    let shown = history_report(&hist);
    assert!(shown.records.iter().map(|r| r.epoch_ms).eq(hist.iter().rev().map(|r| r.epoch_ms)));
    assert_eq!(shown.summary, summarize(&hist));
    let none = Vec::new();
    let empty = history_report(&none);
    assert!(empty.records.is_empty());
    assert_eq!((empty.summary.total, empty.summary.wins, empty.summary.top3, empty.summary.g1_wins), (0, 0, 0, 0));
    let s = summarize(&hist);
    assert_eq!((s.total, s.wins, s.top3, s.g1_wins, s.place_sum), (4, 2, 3, 1, 14));
}

fn off() -> Power {
    let mut p = new_power();
    set_overseer_enabled(&mut p, false, 5, false);
    p
}

#[test]
fn the_feed_stops_with_everything_else() {
    let b = new_bridge();
    let on = new_power();
    assert_eq!(send_response(&b, &on, &[1, 2]), Some((Kind::Response, vec![1, 2])));
    assert_eq!(send_request(&b, &on, &[3]), Some((Kind::Request, vec![3])));
    assert_eq!(send_response(&b, &on, &[]), None);
    assert_eq!(send_request(&b, &on, &vec![0; MAX_REQUEST + 1]), None);
    assert_eq!(send_response(&b, &off(), &[1]), None);
    assert_eq!(send_request(&b, &off(), &[1]), None);

    let mut plugin = new_bridge();
    set_external_active(&mut plugin, true);
    assert_eq!(send_response(&plugin, &on, &[1]), None);
    let mut switched = new_bridge();
    set_enabled(&mut switched, false);
    assert_eq!(send_response(&switched, &on, &[1]), None);
}

#[test]
fn a_forwarded_response_can_be_decrypted() {
    let packets = forward(b"hello overseer");
    assert_eq!(packets.len(), 3);
    assert_eq!((packets[0][0], packets[1][0], packets[2][0]), (0, 1, 2));
    assert_eq!(packets[0][1..3], [0, 32]);
    let key: [u8; 32] = packets[1][3..].try_into().expect("a key");
    let iv: [u8; 16] = packets[2][3..].try_into().expect("a vector");
    assert_eq!(&iv, b"CarrotBlenderIV0");
    let plain = cbc::Decryptor::<aes::Aes256>::new(&key.into(), &iv.into())
        .decrypt_padded_vec_mut::<Pkcs7>(&packets[0][3..])
        .expect("decrypts");
    assert_eq!(plain, b"\0\0\0\0hello overseer");
}

#[test]
fn a_long_body_is_split_evenly() {
    let ct = vec![7u8; PARTIAL * 2 + 1];
    let packets = frame_body(&ct);
    assert_eq!(packets[0], vec![4, 3]);
    assert_eq!(packets.len(), 4);
    let sizes: Vec<usize> = packets[1..].iter().map(|p| p.len() - 3).collect();
    assert_eq!(sizes, vec![20001, 20000, 20000]);
    assert_eq!(packets[1][..3], [5, 78, 33]);
    assert_eq!(frame_body(&ct[..PARTIAL]).len(), 1);

    let parts = split(&[1, 2, 3, 4, 5], 3);
    assert_eq!(parts, vec![&[1u8, 2][..], &[3, 4], &[5]]);
    assert_eq!(parts.concat(), vec![1, 2, 3, 4, 5]);
    assert_eq!(split(&[1, 2], 0), vec![&[1u8, 2][..]]);
}

#[test]
fn a_request_is_framed_as_it_is() {
    assert_eq!(send_request_frame(&[9; 300])[..4], [3, 1, 44, 9]);
}

fn race_json() -> serde_json::Value {
    serde_json::from_str(
        r#"{"<SimDataBase64>k__BackingField":"AAAA","<RaceType>k__BackingField":"Champions",
            "<RaceHorse>k__BackingField":[{"FinishOrder":3},
              {"FinishOrder":0,"<charaName>k__BackingField":"Oguri: Cap ","FinishTimeRaw":93.5}]}"#,
    )
    .expect("valid json")
}

#[test]
fn a_race_is_filed_under_its_kind_and_winner() {
    let mut v = race_json();
    assert_eq!(winner_of(&v), Some(("Oguri: Cap ".to_string(), 93.5f64.to_bits())));
    let t = save(&mut v).expect("there is a replay");
    assert_eq!(t.folder, "Champions meeting");
    let (name, time) = t.winner.expect("there is a winner");
    assert_eq!((name.as_str(), f64::from_bits(time)), ("Oguri_ Cap", 93.5));
    assert_eq!(v.get("horseACT_version").and_then(|x| x.as_str()), Some("1.1.4"));
    assert_eq!(v.get("<RaceType>k__BackingField").and_then(|x| x.as_str()), Some("Champions"));
    assert_eq!(file_name(Some((&name, "93.5000")), "17"), "Oguri_ Cap-93.5000s-17.json");
    assert_eq!(file_name(None, "17"), "race-17.json");
}

#[test]
fn a_race_without_replay_is_not_filed() {
    let mut v: serde_json::Value =
        serde_json::from_str(r#"{"<SimDataBase64>k__BackingField":"","x":1}"#).expect("valid json");
    let before = v.clone();
    assert!(save(&mut v).is_none());
    assert_eq!(v, before);
    let mut list: serde_json::Value = serde_json::from_str("[1]").expect("valid json");
    stamp_version(&mut list);
    assert_eq!(list.to_string(), "[1]");
}

#[test]
fn team_trials_are_recognised() {
    let mut v: serde_json::Value =
        serde_json::from_str(r#"{"data":{"race_result_array":[]}}"#).expect("valid json");
    assert_eq!(dump_team_trials(&mut v, "8"), Some("TT-8.json".to_string()));
    assert_eq!(v.get("horseACT_version").and_then(|x| x.as_str()), Some("1.1.4"));
    let mut other: serde_json::Value = serde_json::from_str(r#"{"data":{}}"#).expect("valid json");
    assert_eq!(dump_team_trials(&mut other, "8"), None);
}

#[test]
fn folders_and_names_are_clean() {
    assert_eq!(folder_for("Single"), "Career");
    assert_eq!(folder_for("Daily"), "Team trials");
    assert_eq!(folder_for(""), "Other");
    assert_eq!(folder_for("New/Kind"), "New_Kind");
    assert_eq!(sanitize(" a*b-c\u{30a6}? "), "a_b-c\u{30a6}_");
}

#[test]
fn a_race_is_dumped_once() {
    let mut e = new_export();
    let p = new_power();
    assert!(!maybe_dump(&mut e, &p, 10, Some(20)));
    set_export(&mut e, true);
    assert!(maybe_dump(&mut e, &p, 10, Some(20)));
    assert!(!maybe_dump(&mut e, &p, 10, Some(20)));
    assert!(maybe_dump(&mut e, &p, 11, Some(21)));
    assert!(!maybe_dump(&mut e, &off(), 12, Some(22)));
    assert!(!maybe_dump(&mut e, &p, 0, Some(23)));
}

#[test]
fn a_partial_roster_is_skipped() {
    let mut u = new_umas();
    let p = new_power();
    assert!(!save_umas(&mut u, &p, 50, "[{}]"));
    set_umas(&mut u, true);
    assert!(save_umas(&mut u, &p, 50, "[{}]"));
    assert!(!save_umas(&mut u, &p, 49, "[{}]"));
    assert!(admits(&u, &p, 50) && !admits(&u, &p, 49));
    assert!(!save_umas(&mut u, &off(), 60, "[{}]"));
}

#[test]
fn the_roster_method_is_picked() {
    let m = |class: &str, name: &str, params: &[&str]| MethodInfo {
        class: class.to_string(),
        name: name.to_string(),
        params: params.iter().map(|p| p.to_string()).collect(),
    };
    let taker = m("Other", "Set", &["Gallop.TrainedChara[]"]);
    let wanted = m("WorkTrainedCharaData", "UpdateAll", &["Gallop.TrainedChara[]"]);
    assert_eq!(pick_method(&vec![]), None);
    assert_eq!(describe(&taker, true), "(fallback) Other.Set (params=1)");
    assert_eq!(describe(&wanted, false), "WorkTrainedCharaData.UpdateAll (params=1)");
    let picked = pick_method(&vec![m("X", "Y", &[]), taker, wanted]);
    assert_eq!(picked, Some((2, false)));
}

#[test]
fn a_failing_sidecar_is_given_up() {
    let mut s = new_sidecar();
    assert!(spawn(&mut s));
    assert!(!spawn(&mut s), "one at a time");
    for _ in 0..5 {
        assert_eq!(on_exit(&mut s, Some(1), 0), Next::Restart);
    }
    assert_eq!(on_exit(&mut s, Some(1), 0), Next::GiveUp);

    let mut t = new_sidecar();
    for _ in 0..4 {
        on_exit(&mut t, None, 1);
    }
    assert_eq!(on_exit(&mut t, None, 600), Next::Restart);
    assert_eq!(t.fast_exits, 0, "a long run forgives");
    assert_eq!(on_exit(&mut t, Some(0), 600), Next::Stop);
    set_active(&mut t, false);
    assert!(!t.active);
}

#[test]
fn an_interpreter_is_found() {
    assert_eq!(resolve_python(Some("C:\\py\\python.exe".to_string()), &vec![]), Some("C:\\py\\python.exe".to_string()));
    assert_eq!(resolve_python(None, &vec![false, true, true]), Some("python3".to_string()));
    assert_eq!(resolve_python(None, &vec![false, false, false]), None);
}

#[test]
fn a_token_has_32_digits() {
    assert_eq!(gen_token(0, 0), "00000000000000000000000000000000");
    assert_eq!(gen_token(0xabc, 0), "00000000000000000000000000000abc");
    assert_eq!(gen_token(0, 1), "00000000000000009e3779b97f4a7c15");
}
