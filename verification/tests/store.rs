//! The timeline and the object store.
use agent_undo::failure::Failure;
use agent_undo::image::Effect;
use agent_undo::paths::ProjectPaths;
use agent_undo::rows::{EventRecord, EventRow, FileState, NewEvent, PinRow, SessionRow};
use agent_undo::store::changes::clip_output;
use agent_undo::store::{Store, Tables};

fn paths() -> ProjectPaths {
    let root = "/work/project";
    ProjectPaths {
        root: root.to_string(),
        data_dir: format!("{root}/.agent-undo"),
        objects_dir: format!("{root}/.agent-undo/objects"),
        db_path: format!("{root}/.agent-undo/timeline.db"),
        config_path: format!("{root}/.agent-undo/config.toml"),
        bin_dir: format!("{root}/.agent-undo/bin"),
        socket_path: format!("{root}/.agent-undo/daemon.sock"),
        socket_info_path: format!("{root}/.agent-undo/daemon.sock.path"),
    }
}

fn event(
    ts_ns: i64,
    path: &str,
    before: Option<&str>,
    after: Option<&str>,
    attribution: &str,
    session: Option<&str>,
) -> NewEvent {
    NewEvent {
        ts_ns,
        path: path.to_string(),
        before_hash: before.map(|s| s.to_string()),
        after_hash: after.map(|s| s.to_string()),
        size_before: before.map(|s| s.len() as i64),
        size_after: after.map(|s| s.len() as i64),
        attribution: attribution.to_string(),
        confidence: "high".to_string(),
        session_id: session.map(|s| s.to_string()),
        pid: None,
        process_name: None,
        tool_name: None,
    }
}

fn session(id: &str, started: i64) -> SessionRow {
    SessionRow {
        id: id.to_string(),
        agent: "codex".to_string(),
        started_at_ns: started,
        ended_at_ns: None,
        prompt: None,
        model: None,
        metadata: None,
        prompt_output: None,
    }
}

fn ids(events: &[EventRow]) -> Vec<i64> {
    events.iter().map(|e| e.id).collect()
}

#[test]
fn blob_roundtrip_reads_back_original_bytes() {
    let mut store = Store::init(paths());
    let input = b"hello compressed world\n";

    let hash = store.write_blob(input).expect("write blob");
    let effects = store.take_effects();
    assert_eq!(effects.len(), 1);
    match &effects[0] {
        Effect::PutObject { hash: under, stored } => {
            assert_eq!(under, &hash);
            assert_ne!(stored.as_slice(), input, "object should be stored compressed");
        }
        other => panic!("unexpected effect: {other:?}"),
    }

    let output = store.read_blob(&hash).expect("read blob");
    assert_eq!(output, input);
}

#[test]
fn blob_reader_falls_back_to_legacy_raw_objects() {
    let mut store = Store::init(paths());
    let input = b"legacy raw object\n";
    let hash = blake3::hash(input).to_hex().to_string();

    store.load_object(&hash, Some(input.to_vec()));

    let output = store.read_blob(&hash).expect("read legacy blob");
    assert_eq!(output, input);
}

#[test]
fn an_object_lies_below_the_first_two_characters_of_its_hash() {
    let p = paths();
    assert_eq!(
        p.object_path("abcdef"),
        "/work/project/.agent-undo/objects/ab/cdef"
    );
    let mut store = Store::init(p);
    let hash = store.write_blob(b"x").expect("write blob");
    assert_eq!(hash.len(), 64);
    assert_eq!(hash, blake3::hash(b"x").to_hex().to_string());
}

#[test]
fn equal_contents_are_stored_once() {
    let mut store = Store::init(paths());
    let first = store.write_blob(b"same").expect("write blob");
    assert!(store.has_blob(&first));
    assert_eq!(store.take_effects().len(), 1);
    let second = store.write_blob(b"same").expect("write blob");
    assert_eq!(first, second);
    assert_eq!(store.take_effects().len(), 0);
}

#[test]
fn a_missing_object_is_an_error() {
    let store = Store::init(paths());
    assert!(!store.has_blob("00"));
    match store.read_blob("00") {
        Err(Failure::NoObject { hash }) => assert_eq!(hash, "00"),
        other => panic!("unexpected outcome: {other:?}"),
    }
}

#[test]
fn hashing_a_file_hands_its_content_back() {
    let (hash, bytes) = Store::hash_file(b"content".to_vec());
    assert_eq!(hash, blake3::hash(b"content").to_hex().to_string());
    assert_eq!(bytes, b"content");
}

#[test]
fn recorded_events_are_numbered_and_found() {
    let mut store = Store::init(paths());
    let a = store.record_event(&event(10, "a", None, Some("h1"), "codex", None)).unwrap();
    let b = store.record_event(&event(20, "b", Some("h1"), None, "codex", None)).unwrap();
    assert_eq!((a, b), (1, 2));
    assert_eq!(store.event_count(), 2);
    let e = store.get_event(2).expect("event");
    assert_eq!(e.path, "b");
    assert_eq!(e.before_hash, Some("h1".to_string()));
    assert_eq!(e.after_hash, None);
    assert!(store.get_event(3).is_none());
}

#[test]
fn a_full_timeline_takes_no_more_events() {
    let mut tables = Tables {
        events: Vec::new(),
        last_event_id: i64::MAX,
        sessions: Vec::new(),
        pins: Vec::new(),
        last_pin_id: 0,
        file_states: Vec::new(),
    };
    tables.file_states.push((
        "a".to_string(),
        FileState { latest_hash: "h".to_string(), latest_size: 1, latest_ts_ns: 1 },
    ));
    let mut store = Store::open(paths(), tables).expect("sound tables");
    assert_eq!(store.get_file_state("a"), Some(("h".to_string(), 1)));
    match store.record_event(&event(1, "a", None, Some("h"), "x", None)) {
        Err(f @ Failure::Full) => assert_eq!(f.message(), "database or disk is full"),
        other => panic!("unexpected outcome: {other:?}"),
    }
    assert_eq!(store.take_effects().len(), 0);
}

#[test]
fn tables_that_are_not_numbered_are_refused() {
    let row = |id: i64| EventRecord {
        row: EventRow {
            id,
            ts_ns: 1,
            path: "a".to_string(),
            before_hash: None,
            after_hash: None,
            size_before: None,
            size_after: None,
            attribution: "x".to_string(),
            session_id: None,
        },
        confidence: "high".to_string(),
        pid: None,
        process_name: None,
        tool_name: None,
    };
    let tables = |a: i64, b: i64, last: i64| Tables {
        events: vec![row(a), row(b)],
        last_event_id: last,
        sessions: Vec::new(),
        pins: Vec::new(),
        last_pin_id: 0,
        file_states: Vec::new(),
    };
    assert!(Store::open(paths(), tables(2, 1, 2)).is_none());
    assert!(Store::open(paths(), tables(1, 2, 1)).is_none());
    assert!(Store::open(paths(), tables(1, 2, 2)).is_some());
}

#[test]
fn events_are_filtered_newest_first() {
    let mut store = Store::init(paths());
    store.record_event(&event(10, "src/a.rs", None, Some("1"), "codex", None)).unwrap();
    store.record_event(&event(30, "src/b.rs", None, Some("2"), "cursor", None)).unwrap();
    store.record_event(&event(20, "doc/a.md", None, Some("3"), "codex", None)).unwrap();
    assert_eq!(ids(&store.recent_events(10)), vec![3, 2, 1]);
    assert_eq!(ids(&store.recent_events(2)), vec![3, 2]);
    assert_eq!(ids(&store.filtered_events(Some("codex"), None, None, 10)), vec![3, 1]);
    assert_eq!(ids(&store.filtered_events(None, Some("A.R"), None, 10)), vec![1]);
    assert_eq!(ids(&store.filtered_events(None, Some("src/%.rs"), None, 10)), vec![2, 1]);
    assert_eq!(ids(&store.filtered_events(None, None, Some(20), 10)), vec![3, 2]);
    assert_eq!(ids(&store.filtered_events(Some("codex"), Some("a"), Some(15), 10)), vec![3]);
    assert_eq!(ids(&store.filtered_events(None, None, None, 0)), Vec::<i64>::new());
    assert_eq!(ids(&store.filtered_events(None, None, None, 2)), ids(&store.recent_events(2)));
    assert_eq!(ids(&store.filtered_events(None, Some("RC/"), None, 1)), vec![2]);
    assert_eq!(ids(&store.filtered_events(None, Some("rs/"), None, 10)), Vec::<i64>::new());
}

#[test]
fn events_of_a_session_come_oldest_first() {
    let mut store = Store::init(paths());
    store.record_event(&event(30, "a", None, Some("1"), "codex", Some("s"))).unwrap();
    store.record_event(&event(10, "b", None, Some("2"), "codex", Some("s"))).unwrap();
    store.record_event(&event(20, "c", None, Some("3"), "codex", Some("t"))).unwrap();
    assert_eq!(ids(&store.events_for_session("s")), vec![2, 1]);
    assert_eq!(ids(&store.events_for_session("none")), Vec::<i64>::new());
}

#[test]
fn the_latest_user_event_is_no_trace_of_a_restore() {
    let mut store = Store::init(paths());
    store.record_event(&event(10, "a", None, Some("1"), "codex", None)).unwrap();
    store.record_event(&event(20, "a", Some("1"), Some("1"), "pre-restore", None)).unwrap();
    store.record_event(&event(30, "a", Some("1"), None, "agent-undo-restore", None)).unwrap();
    store.record_event(&event(40, "b", None, Some("2"), "initial-scan", None)).unwrap();
    assert_eq!(store.latest_user_event_for_file("a").expect("event").id, 1);
    assert!(store.latest_user_event_for_file("c").is_none());
    assert_eq!(store.latest_user_event().expect("event").id, 1);
}

#[test]
fn file_states_are_set_and_dropped() {
    let mut store = Store::init(paths());
    assert!(store.get_file_state("b").is_none());
    store.upsert_file_state("b", "h", 3, 1);
    store.upsert_file_state("a", "g", 4, 2);
    store.upsert_file_state("b", "i", 5, 3);
    assert_eq!(store.get_file_state("b"), Some(("i".to_string(), 5)));
    assert_eq!(store.current_tracked_paths(), vec!["a".to_string(), "b".to_string()]);
    store.delete_file_state("b");
    assert!(store.get_file_state("b").is_none());
    assert_eq!(store.take_effects().len(), 4);
}

#[test]
fn a_session_is_kept_once_and_fills_up() {
    let mut store = Store::init(paths());
    let mut s = session("s", 10);
    s.prompt = Some("first".to_string());
    store.upsert_session(&s);
    s.prompt = Some("second".to_string());
    s.model = Some("m".to_string());
    s.started_at_ns = 99;
    store.upsert_session(&s);
    let all = store.list_sessions(10);
    assert_eq!(all.len(), 1);
    assert_eq!(all[0].agent, "codex");
    assert_eq!(all[0].model, Some("m".to_string()));
    let before = format!("{:?}", store.list_sessions(10));
    store.upsert_session(&s);
    assert_eq!(before, format!("{:?}", store.list_sessions(10)));
}

#[test]
fn ending_a_session_merges_its_notes() {
    let mut store = Store::init(paths());
    let mut s = session("s", 10);
    s.metadata = Some("{\"a\":1,\"b\":1}".to_string());
    store.upsert_session(&s);
    store.end_session("s", 20, None, Some("m"), Some("out"), Some("{\"b\":2}"));
    let row = store.latest_session().expect("session");
    assert_eq!(row.ended_at_ns, Some(20));
    assert_eq!(row.model, Some("m".to_string()));
    assert_eq!(row.prompt_output, Some("out".to_string()));
    assert_eq!(row.metadata, Some("{\"a\":1,\"b\":2}".to_string()));
}

#[test]
fn long_outputs_are_clipped() {
    let long = "x".repeat(600);
    assert_eq!(clip_output(Some(long.as_str())), Some("x".repeat(500)));
    assert_eq!(clip_output(Some("short")), Some("short".to_string()));
    assert_eq!(clip_output(None), None);
    let limit = format!("{}é", "x".repeat(499));
    assert_eq!(clip_output(Some(limit.as_str())), Some(limit.clone()));
    let wide = "世".repeat(600);
    assert_eq!(clip_output(Some(wide.as_str())), Some("世".repeat(500)));
    let mut store = Store::init(paths());
    store.upsert_session(&session("s", 10));
    store.end_session("s", 20, None, None, Some(wide.as_str()), None);
    let row = store.latest_session().expect("session");
    assert_eq!(row.prompt_output, Some("世".repeat(500)));
}

#[test]
fn sessions_are_listed_newest_first() {
    let mut store = Store::init(paths());
    store.upsert_session(&session("old", 10));
    store.upsert_session(&session("new", 30));
    store.upsert_session(&session("mid", 20));
    let order: Vec<String> = store.list_sessions(2).into_iter().map(|s| s.id).collect();
    assert_eq!(order, vec!["new".to_string(), "mid".to_string()]);
    assert_eq!(store.latest_session().expect("session").id, "new");
}

#[test]
fn a_pin_holds_the_newest_event() {
    let mut store = Store::init(paths());
    store.record_event(&event(10, "a", None, Some("1"), "codex", None)).unwrap();
    store.record_event(&event(20, "a", Some("1"), Some("2"), "codex", None)).unwrap();
    let id = store.create_pin_at("here", 25).unwrap();
    assert_eq!(id, 1);
    let pin: PinRow = store.find_pin("here").expect("pin");
    assert_eq!((pin.id, pin.event_id, pin.created_at_ns), (1, 2, 25));
    assert!(store.find_pin("there").is_none());
    store.create_pin_at("later", 30).unwrap();
    let labels: Vec<String> = store.list_pins().into_iter().map(|p| p.label).collect();
    assert_eq!(labels, vec!["later".to_string(), "here".to_string()]);
    assert_eq!(store.latest_pin().expect("pin").label, "later");
    assert_eq!(store.create_pin("now").unwrap(), 3);
}

#[test]
fn the_state_at_an_event_is_the_last_known_one() {
    let mut store = Store::init(paths());
    store.record_event(&event(10, "a", None, Some("1"), "codex", None)).unwrap();
    store.record_event(&event(20, "b", None, Some("2"), "codex", None)).unwrap();
    store.record_event(&event(30, "a", Some("1"), None, "codex", None)).unwrap();
    assert_eq!(
        store.file_state_at_event(2),
        vec![
            ("a".to_string(), Some("1".to_string())),
            ("b".to_string(), Some("2".to_string())),
        ]
    );
    assert_eq!(store.file_state_at_event(3)[0], ("a".to_string(), None));
}

#[test]
fn collecting_keeps_pinned_and_latest_events() {
    let mut store = Store::init(paths());
    let h: Vec<String> =
        (0..4).map(|i| store.write_blob(format!("content {i}").as_bytes()).unwrap()).collect();
    store.record_event(&event(10, "a", None, Some(&h[0]), "codex", None)).unwrap();
    store.record_event(&event(20, "a", Some(&h[0]), Some(&h[1]), "codex", None)).unwrap();
    store.create_pin_at("keep", 21).unwrap();
    store.record_event(&event(30, "a", Some(&h[1]), Some(&h[2]), "codex", None)).unwrap();
    store.record_event(&event(40, "a", Some(&h[2]), Some(&h[3]), "codex", None)).unwrap();
    store.take_effects();
    let (events, blobs) = store.gc_at(1_000, 100, &h);
    // Events 1 and 3 go: 2 is pinned and 4 is the latest of its file.
    assert_eq!(events, 2);
    assert_eq!(ids(&store.recent_events(10)), vec![4, 2]);
    assert_eq!(blobs, 0);
    for hash in &h {
        assert!(store.has_blob(hash));
    }
}

#[test]
fn collecting_sweeps_what_nothing_refers_to() {
    let mut store = Store::init(paths());
    let kept = store.write_blob(b"kept").unwrap();
    let lost = store.write_blob(b"lost").unwrap();
    store.record_event(&event(10, "a", None, Some(&kept), "codex", None)).unwrap();
    store.take_effects();
    let removed = store.sweep_orphan_blobs(&vec![kept.clone(), lost.clone()]);
    assert_eq!(removed, 1);
    assert!(store.has_blob(&kept));
    assert!(!store.has_blob(&lost));
    match &store.take_effects()[..] {
        [Effect::DropObject { hash }] => assert_eq!(hash, &lost),
        other => panic!("unexpected effects: {other:?}"),
    }
    assert_eq!(store.sweep_orphan_blobs(&vec![kept.clone()]), 0);
    assert!(store.has_blob(&kept));
}

#[test]
fn collecting_keeps_the_state_that_was_pinned() {
    let mut store = Store::init(paths());
    store.record_event(&event(10, "a", None, Some("1"), "codex", None)).unwrap();
    store.record_event(&event(20, "b", None, Some("2"), "codex", None)).unwrap();
    store.record_event(&event(30, "b", Some("2"), Some("3"), "codex", None)).unwrap();
    store.create_pin_at("p", 35).unwrap();
    store.record_event(&event(40, "a", Some("1"), Some("4"), "codex", None)).unwrap();
    store.record_event(&event(50, "a", Some("4"), Some("5"), "codex", None)).unwrap();
    assert_eq!(store.gc_at(1_000, 100, &Vec::new()).0, 2);
    assert_eq!(ids(&store.recent_events(10)), vec![5, 3, 1]);
    let state = store.file_state_at_event(3);
    assert_eq!(
        state,
        vec![
            ("a".to_string(), Some("1".to_string())),
            ("b".to_string(), Some("3".to_string())),
        ]
    );
}

#[test]
fn collecting_spares_young_events() {
    let mut store = Store::init(paths());
    store.record_event(&event(900, "a", None, Some("1"), "codex", None)).unwrap();
    store.record_event(&event(950, "a", Some("1"), Some("2"), "codex", None)).unwrap();
    assert_eq!(store.gc_at(1_000, 100, &Vec::new()).0, 0);
    assert_eq!(store.gc_at(1_000, 99, &Vec::new()).0, 1);
}
