use kiosk_core::control::{dispatch, Arg, Effect, Message};
use kiosk_core::ingest::{
    archive_path, ensure_default_settings, forward_address, plan_submission, removal_targets,
    rows_per_file, threshold_of,
};
use kiosk_core::json::{int_value, text_value};
use kiosk_core::record_log::{
    archive_file_name, archive_index, count_csv_rows, next_archive_index, row_bytes,
    should_rotate, staging_file_name, ArchiveError, Record,
};
use kiosk_core::store::{Store, StoreBuilder};
use kiosk_core::Languages;
use serde_json::Value;

fn empty_store() -> Store {
    StoreBuilder::new(".settings".to_string()).build()
}

fn message(addr: &str, args: Vec<Arg>) -> Message {
    Message { addr: addr.to_string(), args }
}

#[test]
fn language_engine_values() {
    assert_eq!(Languages::EN.value(), "xkb:us::eng");
    assert_eq!(Languages::JP.value(), "anthy");
    assert_eq!(Languages::PL.value(), "xkb:pl::pol");
    assert_eq!(Languages::from_value("libpinyin"), Some(Languages::CN));
    assert_eq!(Languages::from_value("xkb:es::spa"), Some(Languages::ES));
    assert_eq!(Languages::from_value("unknown"), None);
}

#[test]
fn language_round_trips() {
    for l in Languages::all() {
        assert_eq!(Languages::from_value(l.value()), Some(l));
        assert_eq!(Languages::from_str(&l.to_string()), Ok(l));
    }
    assert_eq!(Languages::all().len(), 10);
    assert_eq!(Languages::KR.to_string(), "KR");
    assert_eq!(Languages::from_str("XX"), Err(()));
}

#[test]
fn insert_save_load_round_trip() {
    let mut store = empty_store();
    store.insert("max_characters".to_string(), Value::from(200)).unwrap();
    store.insert("td_osc_address".to_string(), Value::from("10.0.0.2:7002")).unwrap();
    store.insert("max_characters".to_string(), Value::from(180)).unwrap();
    store.insert("ratio".to_string(), Value::from(0.25)).unwrap();
    let bytes = store.save().unwrap();

    let mut fresh = empty_store();
    fresh.load(&bytes).unwrap();
    assert_eq!(fresh.len(), 3);
    assert_eq!(fresh.get("max_characters"), Some(&Value::from(180)));
    assert_eq!(fresh.get("td_osc_address"), Some(&Value::from("10.0.0.2:7002")));
    assert_eq!(fresh.get("ratio"), Some(&Value::from(0.25)));
}

#[test]
fn load_overlays_stored_values() {
    let mut saved = empty_store();
    saved.insert("a".to_string(), Value::from(1)).unwrap();
    let bytes = saved.save().unwrap();

    let mut store = StoreBuilder::new(".settings".to_string())
        .default("a".to_string(), Value::from(5))
        .default("b".to_string(), Value::from(6))
        .build();
    store.load(&bytes).unwrap();
    assert_eq!(store.get("a"), Some(&Value::from(1)));
    assert_eq!(store.get("b"), Some(&Value::from(6)));
}

#[test]
fn load_of_bad_bytes_keeps_cache() {
    let mut store = empty_store();
    store.insert("k".to_string(), Value::from(3)).unwrap();
    assert!(store.load(b"not json").is_err());
    assert!(store.load(b"[1, 2]").is_err());
    assert_eq!(store.len(), 1);
    assert_eq!(store.get("k"), Some(&Value::from(3)));
}

#[test]
fn reset_restores_defaults() {
    let mut store = StoreBuilder::new(".settings".to_string())
        .defaults(vec![
            ("max_characters".to_string(), Value::from(160)),
            ("max_sentences_per_csv".to_string(), Value::from(100)),
        ])
        .build();
    store.insert("max_characters".to_string(), Value::from(10)).unwrap();
    store.insert("extra".to_string(), Value::from("x")).unwrap();
    store.reset().unwrap();
    assert_eq!(store.len(), 2);
    assert_eq!(store.get("max_characters"), Some(&Value::from(160)));
    assert_eq!(store.get("max_sentences_per_csv"), Some(&Value::from(100)));
    assert!(!store.has("extra"));
}

#[test]
fn reset_without_defaults_empties() {
    let mut store = empty_store();
    store.insert("a".to_string(), Value::from(1)).unwrap();
    store.reset().unwrap();
    assert!(store.is_empty());
}

#[test]
fn store_delete_keys_values_entries() {
    let mut store = empty_store();
    store.insert("a".to_string(), Value::from(1)).unwrap();
    store.insert("b".to_string(), Value::from(2)).unwrap();
    assert_eq!(store.delete("a"), Ok(true));
    assert_eq!(store.delete("a"), Ok(false));
    assert_eq!(store.keys(), vec!["b".to_string()]);
    assert_eq!(store.values(), vec![Value::from(2)]);
    store.insert("c".to_string(), Value::from(3)).unwrap();
    let keys = store.keys();
    let values = store.values();
    for (k, v) in keys.iter().zip(values.iter()) {
        assert_eq!(store.get(k), Some(v));
    }
    store.delete("c").unwrap();
    assert_eq!(store.entries(), vec![("b".to_string(), Value::from(2))]);
    store.clear().unwrap();
    assert_eq!(store.len(), 0);
    assert_eq!(store.path(), ".settings");
}

#[test]
fn default_settings_fill_gaps_only() {
    let mut store = empty_store();
    store.insert("max_characters".to_string(), Value::from(50)).unwrap();
    ensure_default_settings(&mut store);
    assert_eq!(store.get("max_characters"), Some(&Value::from(50)));
    assert_eq!(store.get("max_sentences_per_csv"), Some(&Value::from(100)));
}

#[test]
fn rotation_counts_over_many_submissions() {
    let threshold: u64 = 3;
    let mut staging: usize = 0;
    let mut archive: Vec<String> = Vec::new();
    let mut rows: Vec<usize> = Vec::new();
    for _ in 0..7 {
        if should_rotate(staging, threshold) {
            let index = next_archive_index(&archive).ok().unwrap();
            archive.push(archive_file_name(index));
            rows.push(staging + 1);
            staging = 0;
        } else {
            staging += 1;
        }
    }
    assert_eq!(archive, vec!["1.csv".to_string(), "2.csv".to_string()]);
    assert_eq!(rows, vec![3, 3]);
    assert_eq!(staging, 1);
}

#[test]
fn archive_index_resumes_after_existing_file() {
    let names = vec!["3.csv".to_string()];
    let index = next_archive_index(&names).ok().unwrap();
    assert_eq!(index, 4);
    assert_eq!(archive_file_name(index), "4.csv");
    assert_eq!(next_archive_index(&Vec::new()).ok(), Some(1));
    let names = vec!["2.csv".to_string(), "10.csv".to_string(), "7.csv".to_string()];
    assert_eq!(next_archive_index(&names).ok(), Some(11));
}

#[test]
fn archive_index_rejects_bad_names() {
    let names = vec!["1.csv".to_string(), "notes.txt".to_string()];
    match next_archive_index(&names) {
        Err(ArchiveError::Misnamed(n)) => assert_eq!(n, "notes.txt"),
        _ => panic!("expected a misnamed file"),
    }
    let names = vec!["18446744073709551615.csv".to_string()];
    assert!(matches!(next_archive_index(&names), Err(ArchiveError::Exhausted)));
    assert_eq!(archive_index("18446744073709551616.csv"), None);
    assert_eq!(archive_index("12.csv"), Some(12));
    assert_eq!(archive_index("5"), Some(5));
    assert_eq!(archive_index(".csv"), None);
    assert_eq!(archive_index("a1.csv"), None);
}

#[test]
fn max_characters_dispatch_then_reload() {
    let mut store = empty_store();
    let msg = message("/max_characters", vec![Arg::Int(200)]);
    assert!(matches!(dispatch(&msg, &mut store), Effect::Settings));
    assert_eq!(store.get("max_characters"), Some(&Value::from(200)));
    let bytes = store.save().unwrap();
    let mut fresh = empty_store();
    fresh.load(&bytes).unwrap();
    assert_eq!(fresh.get("max_characters"), Some(&Value::from(200)));
}

#[test]
fn settings_commands_dispatch() {
    let mut store = empty_store();
    let msg = message("/td_osc_address", vec![Arg::Str("127.0.0.1:9000".to_string())]);
    assert!(matches!(dispatch(&msg, &mut store), Effect::Settings));
    let msg = message("/max_sentences_per_csv", vec![Arg::Int(5)]);
    assert!(matches!(dispatch(&msg, &mut store), Effect::Settings));
    assert_eq!(rows_per_file(&store), 5);
    assert_eq!(forward_address(&store), Some("127.0.0.1:9000".to_string()));
}

#[test]
fn remove_all_targets_every_archive_file() {
    let mut store = empty_store();
    let effect = dispatch(&message("/remove_all_csv", vec![]), &mut store);
    assert!(matches!(effect, Effect::RemoveAll));
    assert!(store.is_empty());
    let names = vec!["1.csv".to_string(), "2.csv".to_string()];
    let targets = removal_targets(&effect, &names);
    assert_eq!(
        targets,
        vec!["sentences/1.csv".to_string(), "sentences/2.csv".to_string(), "tmp.csv".to_string()]
    );
}

#[test]
fn remove_one_and_staging_targets() {
    let mut store = empty_store();
    let effect = dispatch(&message("/remove_output_csv", vec![Arg::Str("4.csv".to_string())]), &mut store);
    assert_eq!(removal_targets(&effect, &vec![]), vec!["sentences/4.csv".to_string()]);
    let effect = dispatch(&message("/remove_tmp_csv", vec![]), &mut store);
    assert_eq!(removal_targets(&effect, &vec!["1.csv".to_string()]), vec!["tmp.csv".to_string()]);
    assert_eq!(archive_path("9.csv"), "sentences/9.csv");
    assert_eq!(staging_file_name(), "tmp.csv");
}

#[test]
fn unknown_address_changes_nothing() {
    let mut store = empty_store();
    store.insert("max_characters".to_string(), Value::from(160)).unwrap();
    let before = store.entries();
    let effect = dispatch(&message("/foo", vec![Arg::Int(1), Arg::Str("x".to_string())]), &mut store);
    assert!(matches!(effect, Effect::Ignored));
    assert_eq!(store.entries(), before);
    assert!(removal_targets(&effect, &vec!["1.csv".to_string()]).is_empty());
}

#[test]
fn wrong_argument_shape_is_ignored() {
    let mut store = empty_store();
    let effect = dispatch(&message("/max_characters", vec![Arg::Str("200".to_string())]), &mut store);
    assert!(matches!(effect, Effect::Ignored));
    let effect = dispatch(&message("/remove_all_csv", vec![Arg::Other]), &mut store);
    assert!(matches!(effect, Effect::Ignored));
    assert!(store.is_empty());
}

#[test]
fn threshold_two_rotates_after_second_sentence() {
    let a = Record::new("es", "Hola", "T1");
    let b = Record::new("es", "Adiós", "T2");
    let c = Record::new("es", "Chau", "T3");

    let first = plan_submission(0, &a, 2, None).unwrap();
    assert!(!first.rotate);
    assert_eq!(first.append, b"language,sentence,timestamp\nes,Hola,T1\n".to_vec());
    let mut staging = first.append.clone();
    assert_eq!(count_csv_rows(&staging), 1);

    let second = plan_submission(count_csv_rows(&staging), &b, 2, None).unwrap();
    assert!(second.rotate);
    staging.extend_from_slice(&second.append);
    assert_eq!(staging, "language,sentence,timestamp\nes,Hola,T1\nes,Adiós,T2\n".as_bytes().to_vec());
    assert_eq!(count_csv_rows(&staging), 2);
    let index = next_archive_index(&Vec::new()).ok().unwrap();
    assert_eq!(archive_file_name(index), "1.csv");

    let third = plan_submission(count_csv_rows(&[]), &c, 2, None).unwrap();
    assert!(!third.rotate);
    assert_eq!(third.append, b"language,sentence,timestamp\nes,Chau,T3\n".to_vec());
    assert_eq!(count_csv_rows(&third.append), 1);
}

#[test]
fn forwarding_packet_carries_sentence() {
    let r = Record::new("en", "hello", "T");
    let plan = plan_submission(5, &r, 100, Some("127.0.0.1:7002".to_string())).unwrap();
    let fwd = plan.forward.unwrap();
    assert_eq!(fwd.address, "127.0.0.1:7002");
    let (_, packet) = rosc::decoder::decode_udp(&fwd.packet).unwrap();
    match packet {
        rosc::OscPacket::Message(m) => {
            assert_eq!(m.addr, "/new_row");
            assert_eq!(m.args, vec![rosc::OscType::String("hello".to_string())]);
        }
        _ => panic!("expected a message"),
    }
    assert!(!plan.rotate);
    assert_eq!(plan.append, b"en,hello,T\n".to_vec());
}

#[test]
fn thresholds_and_rotation_rule() {
    assert_eq!(threshold_of(None), 100);
    assert_eq!(threshold_of(Some(7)), 7);
    assert_eq!(threshold_of(Some(-3)), 0);
    assert!(should_rotate(99, 100));
    assert!(!should_rotate(98, 100));
    assert!(should_rotate(0, 0));
    assert!(should_rotate(usize::MAX, 5));
    let store = empty_store();
    assert_eq!(rows_per_file(&store), 100);
    assert_eq!(forward_address(&store), None);
}

#[test]
fn row_bytes_quote_fields() {
    let r = Record::new("en", "a, \"b\"", "T");
    assert_eq!(row_bytes(&r, false).unwrap(), b"en,\"a, \"\"b\"\"\",T\n".to_vec());
    assert_eq!(count_csv_rows(b""), 0);
}

#[test]
fn json_value_builders() {
    assert_eq!(int_value(-4), Value::from(-4));
    assert_eq!(text_value("x"), Value::from("x"));
}

#[test]
fn load_reads_any_object_layout() {
    let mut store = empty_store();
    store.insert("a".to_string(), Value::from(9)).unwrap();
    store.insert("c".to_string(), Value::from(3)).unwrap();
    store.load(b" { \"b\" : \"x\",\n \"a\": 1 } ").unwrap();
    assert_eq!(store.len(), 3);
    assert_eq!(store.get("a"), Some(&Value::from(1)));
    assert_eq!(store.get("b"), Some(&Value::from("x")));
    assert_eq!(store.get("c"), Some(&Value::from(3)));
    assert!(store.load(b"42").is_err());
    assert!(store.load(b"").is_err());
    assert_eq!(store.len(), 3);
}

#[test]
fn archive_index_plus_sign_and_names() {
    assert_eq!(archive_index("+3.csv"), Some(3));
    assert_eq!(archive_index("+.csv"), None);
    assert_eq!(archive_index("++3.csv"), None);
    assert_eq!(archive_file_name(0), "0.csv");
    assert_eq!(archive_file_name(1234567), "1234567.csv");
    assert_eq!(archive_file_name(u64::MAX), "18446744073709551615.csv");
    assert_eq!(archive_index(&archive_file_name(907)), Some(907));
}

#[test]
fn settings_of_the_wrong_type() {
    let mut store = empty_store();
    store.insert("max_sentences_per_csv".to_string(), Value::from("ten")).unwrap();
    store.insert("td_osc_address".to_string(), Value::from(7)).unwrap();
    assert_eq!(rows_per_file(&store), 100);
    assert_eq!(forward_address(&store), None);
}

#[test]
fn negative_threshold_rotates_every_submission() {
    let mut store = empty_store();
    let msg = message("/max_sentences_per_csv", vec![Arg::Int(-1)]);
    assert!(matches!(dispatch(&msg, &mut store), Effect::Settings));
    let threshold = rows_per_file(&store);
    assert_eq!(threshold, 0);
    let r = Record::new("en", "x", "T");
    assert!(plan_submission(0, &r, threshold, None).unwrap().rotate);
}

#[test]
fn record_now_is_utc() {
    let r = kiosk_core::ingest::record_now("en", "hi");
    assert_eq!(r.language, "en");
    assert_eq!(r.sentence, "hi");
    assert!(r.timestamp.ends_with("+00:00"));
    assert!(r.timestamp.len() > 6);
}

#[test]
fn forward_packet_bytes() {
    let r = Record::new("en", "hey", "T");
    let plan = plan_submission(0, &r, 10, Some("a:1".to_string())).unwrap();
    let expected = b"/new_row\0\0\0\0,s\0\0hey\0".to_vec();
    assert_eq!(plan.forward.unwrap().packet, expected);
}
