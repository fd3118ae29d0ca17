use girasol::model::{Frequency, TraceContent, TraceModel};
use girasol::store::{DataActor, DbMsg, DbReply, TraceError, insert_str, query_str, query_model,
    insert_model};

fn temp_store() -> DataActor {
    let db = sled::Config::new().temporary(true).open().unwrap();
    DataActor::new(db)
}

fn systemtap_model(name: &str) -> TraceModel {
    TraceModel {
        name: name.to_string(),
        lasting: 3,
        interval: 10,
        content: TraceContent::SystemTap {
            function_list: vec!["vfs_read".to_string(), "vfs_write".to_string()],
            process: "nginx".to_string(),
            args: vec!["-v".to_string()],
            envs: vec![("LANG".to_string(), "C".to_string())],
        },
    }
}

fn perf_model(name: &str, freq: Frequency) -> TraceModel {
    TraceModel {
        name: name.to_string(),
        lasting: 5,
        interval: 2,
        content: TraceContent::PerfBranch {
            frequency: freq,
            absolute_path: "/usr/bin/payments".to_string(),
            additional_args: vec!["--call-graph".to_string()],
        },
    }
}

#[test]
fn add_then_get_returns_equal_record() {
    let mut store = temp_store();
    let model = systemtap_model("probe1");
    let reply = store.handle(DbMsg::Add(model.clone())).unwrap();
    assert_eq!(reply, DbReply::Success);
    let got = store.handle(DbMsg::Get("probe1".to_string())).unwrap();
    assert_eq!(got, DbReply::GetResult(model));
}

#[test]
fn add_then_get_perf_variants() {
    let mut store = temp_store();
    for (name, freq) in [
        ("p_max", Frequency::Max),
        ("p_def", Frequency::Default),
        ("p_42", Frequency::Specific(42)),
    ] {
        let model = perf_model(name, freq);
        assert_eq!(store.handle(DbMsg::Add(model.clone())).unwrap(), DbReply::Success);
        assert_eq!(
            store.handle(DbMsg::Get(name.to_string())).unwrap(),
            DbReply::GetResult(model)
        );
    }
}

#[test]
fn second_add_conflicts_and_keeps_first_record() {
    let mut store = temp_store();
    let first = systemtap_model("probe1");
    assert_eq!(store.handle(DbMsg::Add(first.clone())).unwrap(), DbReply::Success);
    let mut second = perf_model("probe1", Frequency::Max);
    second.name = "probe1".to_string();
    match store.handle(DbMsg::Add(second)) {
        Err(TraceError::Conflict(name)) => assert_eq!(name, "probe1"),
        other => panic!("expected a conflict, got {:?}", other),
    }
    match store.handle(DbMsg::QueryAll).unwrap() {
        DbReply::AllList(all) => {
            assert_eq!(all.len(), 1);
            assert_eq!(all[0], first);
        },
        other => panic!("expected a listing, got {:?}", other),
    }
}

#[test]
fn remove_absent_fails_and_present_succeeds() {
    let mut store = temp_store();
    match store.handle(DbMsg::Remove("ghost".to_string())) {
        Err(TraceError::NotFound(name)) => assert_eq!(name, "ghost"),
        other => panic!("expected not-found, got {:?}", other),
    }
    let model = systemtap_model("probe1");
    assert_eq!(store.handle(DbMsg::Add(model)).unwrap(), DbReply::Success);
    assert_eq!(store.handle(DbMsg::Remove("probe1".to_string())).unwrap(), DbReply::Success);
    match store.handle(DbMsg::Get("probe1".to_string())) {
        Err(TraceError::NotFound(name)) => assert_eq!(name, "probe1"),
        other => panic!("expected not-found, got {:?}", other),
    }
}

#[test]
fn listing_count_follows_successful_adds_and_removes() {
    let mut store = temp_store();
    let names = ["a", "b", "c", "d"];
    let mut successes: i64 = 0;
    for name in names {
        if store.handle(DbMsg::Add(perf_model(name, Frequency::Default))).is_ok() {
            successes += 1;
        }
    }
    // A repeated add fails and must not change the count.
    assert!(store.handle(DbMsg::Add(perf_model("a", Frequency::Max))).is_err());
    // A failed remove must not change the count either.
    assert!(store.handle(DbMsg::Remove("zz".to_string())).is_err());
    if store.handle(DbMsg::Remove("b".to_string())).is_ok() {
        successes -= 1;
    }
    match store.handle(DbMsg::QueryAll).unwrap() {
        DbReply::AllList(all) => assert_eq!(all.len() as i64, successes),
        other => panic!("expected a listing, got {:?}", other),
    }
}

#[test]
fn corrupt_record_fails_get_and_listing() {
    let mut db = sled::Config::new().temporary(true).open().unwrap();
    insert_str(&"broken".to_string(), &"hi".to_string(), &mut db).unwrap();
    let mut store = DataActor::new(db);
    match store.handle(DbMsg::Get("broken".to_string())) {
        Err(TraceError::Serialization) => {},
        other => panic!("expected a serialization error, got {:?}", other),
    }
    match store.handle(DbMsg::QueryAll) {
        Err(TraceError::Serialization) => {},
        other => panic!("expected a serialization error, got {:?}", other),
    }
}

#[test]
fn raw_string_round_trip() {
    let mut db = sled::Config::new().temporary(true).open().unwrap();
    let key = "greeting".to_string();
    let value = "hello, tracer".to_string();
    insert_str(&key, &value, &mut db).unwrap();
    assert_eq!(query_str(&key, &db).unwrap(), value);
    match insert_str(&key, &"again".to_string(), &mut db) {
        Err(TraceError::Conflict(name)) => assert_eq!(name, "greeting"),
        other => panic!("expected a conflict, got {:?}", other),
    }
    match query_str(&"missing".to_string(), &db) {
        Err(TraceError::NotFound(name)) => assert_eq!(name, "missing"),
        other => panic!("expected not-found, got {:?}", other),
    }
}

#[test]
fn model_helpers_round_trip() {
    let mut db = sled::Config::new().temporary(true).open().unwrap();
    let model = systemtap_model("helper");
    insert_model(&model, &mut db).unwrap();
    assert_eq!(query_model(&"helper".to_string(), &db).unwrap(), model);
}

#[test]
fn kill_flushes_and_record_survives_reopening() {
    let path = "/tmp/girasol_durability_catalog";
    let model = perf_model("probe7", Frequency::Specific(99));
    {
        let db = sled::open(path).unwrap();
        let mut store = DataActor::new(db);
        // An earlier run may have left the record behind: clear it first.
        let _ = store.handle(DbMsg::Remove("probe7".to_string()));
        assert_eq!(store.handle(DbMsg::Add(model.clone())).unwrap(), DbReply::Success);
        assert_eq!(store.handle(DbMsg::Kill).unwrap(), DbReply::Success);
        assert!(!store.accepts());
    }
    let db = sled::open(path).unwrap();
    let mut store = DataActor::new(db);
    assert_eq!(
        store.handle(DbMsg::Get("probe7".to_string())).unwrap(),
        DbReply::GetResult(model)
    );
}

#[test]
fn listing_comes_in_key_order() {
    let mut store = temp_store();
    for name in ["delta", "alpha", "charlie", "bravo"] {
        assert_eq!(
            store.handle(DbMsg::Add(perf_model(name, Frequency::Default))).unwrap(),
            DbReply::Success
        );
    }
    match store.handle(DbMsg::QueryAll).unwrap() {
        DbReply::AllList(all) => {
            let names: Vec<&str> = all.iter().map(|m| m.name.as_str()).collect();
            assert_eq!(names, vec!["alpha", "bravo", "charlie", "delta"]);
        },
        other => panic!("expected a listing, got {:?}", other),
    }
}
