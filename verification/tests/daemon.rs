//! The watcher: what is recorded, what is skipped and who is said to have done it.
use agent_undo::attribution::{
    fingerprint_process, heuristic_attribution, resolve_attribution, HookedAgent, ProcessInfo,
};
use agent_undo::daemon::{
    batch_candidates, build_ignorer, changed, initial_scan_at, process_path, process_path_at,
    relative_path, serve_start, serve_step, should_skip, should_skip_transient, Arrival,
    Attribution, Found, Scanned, WatchEvent, WatchKind, WatchStep, WatchedPath,
};
use agent_undo::hook::{write_active_session, ActiveSession};
use agent_undo::ignoring::enters;
use agent_undo::image::{Effect, Entry};
use agent_undo::paths::ProjectPaths;
use agent_undo::restore::restore_file_to;
use agent_undo::store::Store;
use sysinfo::{ProcessRefreshKind, RefreshKind, System};

fn paths() -> ProjectPaths {
    let root = "/work/project";
    ProjectPaths {
        root: root.to_string(),
        data_dir: format!("{root}/.agent-undo"),
        objects_dir: format!("{root}/.agent-undo/objects"),
        db_path: format!("{root}/.agent-undo/timeline.db"),
        config_path: format!("{root}/.agent-undo/config.toml"),
        bin_dir: format!("{root}/.agent-undo/bin"),
        socket_path: format!("{root}/.agent-undo/daemon.sock"),
        socket_info_path: format!("{root}/.agent-undo/daemon.sock.path"),
    }
}

fn hooked() -> HookedAgent {
    HookedAgent {
        title: "Helper Pro".to_string(),
        short: "Helper".to_string(),
        id: "helper-pro".to_string(),
        mark: "helper".to_string(),
    }
}

fn process(pid: u32, name: &str, cmd: &[&str], cwd: Option<&str>) -> ProcessInfo {
    ProcessInfo {
        pid,
        name: name.to_string(),
        exe: None,
        cmd: cmd.iter().map(|s| s.to_string()).collect(),
        cwd: cwd.map(|s| s.to_string()),
    }
}

fn agent() -> Attribution {
    Attribution {
        agent: "codex".to_string(),
        confidence: "medium".to_string(),
        session_id: None,
        tool_name: None,
        pid: Some(7),
        process_name: Some("codex".to_string()),
    }
}

fn file(bytes: &[u8]) -> Found {
    Found::File { len: bytes.len() as u64, bytes: bytes.to_vec() }
}

fn found_agent(p: &ProcessInfo) -> Option<(String, u8)> {
    fingerprint_process(p, &hooked())
}

#[test]
fn fingerprint_tolerates_real_process_handles() {
    let system = System::new_with_specifics(
        RefreshKind::new().with_processes(ProcessRefreshKind::everything()),
    );
    let me = sysinfo::get_current_pid().expect("own pid").as_u32();
    let current = system
        .processes()
        .values()
        .find(|process| process.pid().as_u32() == me)
        .expect("current process present");

    let info = ProcessInfo {
        pid: current.pid().as_u32(),
        name: current.name().to_string(),
        exe: current
            .exe()
            .and_then(|p| p.file_name())
            .map(|s| s.to_string_lossy().into_owned()),
        cmd: current.cmd().to_vec(),
        cwd: current.cwd().map(|p| p.to_string_lossy().into_owned()),
    };
    let _ = fingerprint_process(&info, &hooked());
}

#[test]
fn programs_are_told_apart_by_what_they_mention() {
    let cases = [
        ("Cursor", "cursor", 40),
        ("helper", "helper-pro", 40),
        ("aider", "aider", 35),
        ("codex", "codex", 35),
        ("cline", "cline", 30),
    ];
    for (name, agent, score) in cases {
        assert_eq!(found_agent(&process(1, name, &[], None)), Some((agent.to_string(), score)));
    }
    assert_eq!(found_agent(&process(1, "vim", &[], None)), None);
    assert_eq!(found_agent(&process(1, "au", &["cursor"], None)), None);
    assert_eq!(found_agent(&process(1, "agent-undo", &["codex"], None)), None);
    assert_eq!(
        found_agent(&process(1, "node", &["/opt/Aider/main.js"], None)),
        Some(("aider".to_string(), 35))
    );
    let extension = "/home/u/.vscode/extensions/Continue.continue-1.0/out/index.js";
    assert_eq!(
        found_agent(&process(1, "node", &["node", extension], None)),
        Some(("continue".to_string(), 30))
    );
    assert_eq!(found_agent(&process(1, "less", &[extension], None)), None);
    assert_eq!(found_agent(&process(1, "git", &["git", "rebase", "--continue"], None)), None);
    assert_eq!(found_agent(&process(1, "node", &["continue.js"], None)), None);
    assert_eq!(found_agent(&process(1, "roo", &["root"], None)), None);
}

#[test]
fn the_program_that_looks_most_like_an_agent_is_taken() {
    let running = vec![
        process(1, "cline", &[], Some("/work/project")),
        process(2, "codex", &[], Some("/work/project/src")),
        process(3, "cursor", &[], Some("/elsewhere")),
        process(4, "aider", &[], Some("/work/project")),
        process(5, "cursor", &[], None),
    ];
    let who = heuristic_attribution("/work/project", 99, &hooked(), &running).expect("somebody");
    assert_eq!(who.agent, "codex");
    assert_eq!(who.confidence, "medium");
    assert_eq!(who.pid, Some(2));
    assert_eq!(who.process_name, Some("codex".to_string()));
    let who = heuristic_attribution("/work/project", 2, &hooked(), &running).expect("somebody");
    assert_eq!(who.agent, "aider");
    assert!(heuristic_attribution("/work/pro", 99, &hooked(), &running).is_none());
}

#[test]
fn the_active_session_goes_before_running_programs() {
    let mut store = Store::init(paths());
    let running = vec![process(2, "codex", &[], Some("/work/project"))];
    assert_eq!(resolve_attribution(&store, 1, &hooked(), &running).agent, "codex");
    assert_eq!(resolve_attribution(&store, 1, &hooked(), &Vec::new()).agent, "unknown");
    assert_eq!(resolve_attribution(&store, 1, &hooked(), &Vec::new()).confidence, "none");
    let active = ActiveSession {
        session_id: "s".to_string(),
        agent: "aider".to_string(),
        started_at_ns: 1,
        tool_name: Some("Write".to_string()),
        intended_file: None,
    };
    write_active_session(&mut store, Some(&active));
    let who = resolve_attribution(&store, 1, &hooked(), &running);
    assert_eq!(who.agent, "aider");
    assert_eq!(who.confidence, "high");
    assert_eq!(who.session_id, Some("s".to_string()));
    assert_eq!(who.tool_name, Some("Write".to_string()));
}

#[test]
fn the_first_scan_takes_every_file_once() {
    let mut store = Store::init(paths());
    let files = vec![
        Scanned { path: "a".to_string(), len: 3, bytes: b"one".to_vec() },
        Scanned { path: "big".to_string(), len: 11, bytes: b"elevenbytes".to_vec() },
        Scanned { path: "b".to_string(), len: 3, bytes: b"one".to_vec() },
    ];
    assert_eq!(initial_scan_at(&mut store, &files, 10, 5).expect("scan"), 2);
    assert_eq!(store.current_tracked_paths(), vec!["a".to_string(), "b".to_string()]);
    let events = store.recent_events(10);
    assert_eq!(events.len(), 2);
    assert!(events.iter().all(|e| e.attribution == "initial-scan" && e.before_hash.is_none()));
    for e in &events {
        let hash = e.after_hash.as_deref().expect("a content");
        assert_eq!(store.read_blob(hash).expect("stored"), b"one");
    }
}

#[test]
fn changes_are_recorded_and_repeats_are_not() {
    let mut store = Store::init(paths());
    assert!(changed(&store, "a", &file(b"one"), 100));
    process_path_at(&mut store, "/work/project/a", &file(b"one"), 100, &agent(), 10).expect("made");
    process_path_at(&mut store, "/work/project/a", &file(b"one"), 100, &agent(), 20).expect("same");
    process_path_at(&mut store, "/work/project/a", &file(b"two"), 100, &agent(), 30).expect("edit");
    process_path_at(&mut store, "/work/project/a", &Found::Missing, 100, &agent(), 40).expect("gone");
    process_path_at(&mut store, "/work/project/a", &Found::Missing, 100, &agent(), 50).expect("gone");
    process_path_at(&mut store, "/work/project/d", &Found::Directory, 100, &agent(), 60).expect("dir");
    process_path_at(&mut store, "/work/project/l", &file(b"long"), 3, &agent(), 70).expect("long");
    let events = store.recent_events(10);
    assert_eq!(events.len(), 3);
    let one = blake3::hash(b"one").to_hex().to_string();
    let two = blake3::hash(b"two").to_hex().to_string();
    assert_eq!(events[2].path, "a");
    assert_eq!((&events[2].before_hash, &events[2].after_hash), (&None, &Some(one.clone())));
    assert_eq!((&events[1].before_hash, &events[1].after_hash), (&Some(one), &Some(two.clone())));
    assert_eq!((&events[0].before_hash, &events[0].after_hash), (&Some(two), &None));
    assert_eq!(events[0].size_before, Some(3));
    assert_eq!(events[0].attribution, "codex");
    assert!(store.get_file_state("a").is_none());
}

#[test]
fn a_change_is_attributed_when_it_is_met() {
    let mut store = Store::init(paths());
    let running = vec![process(2, "codex", &[], Some("/work/project"))];
    process_path(&mut store, "/work/project/a", &file(b"x"), 100, 1, &hooked(), &running).expect("made");
    assert_eq!(store.recent_events(1)[0].attribution, "codex");
}

#[test]
fn what_a_restore_wrote_is_no_change() {
    let mut store = Store::init(paths());
    let one = store.write_blob(b"one").expect("blob");
    store.take_effects();
    store.load_file("a", Some(Entry::File(b"two".to_vec())));
    restore_file_to(&mut store, "a", Some(&one)).expect("restore");
    assert!(!changed(&store, "a", &file(b"one"), 100));
    let n = store.event_count();
    process_path_at(&mut store, "/work/project/a", &file(b"one"), 100, &agent(), 99).expect("met");
    assert_eq!(store.event_count(), n);
}

#[test]
fn ignored_paths_are_skipped() {
    let none: Vec<String> = Vec::new();
    let ignorer = build_ignorer(
        "/work/project",
        &vec!["*.log".to_string()],
        &vec!["secret/".to_string()],
        &vec!["*.bak".to_string()],
    );
    for (path, dir) in [
        ("/work/project/x.log", false),
        ("/work/project/secret", true),
        ("/work/project/x.bak", false),
        ("/work/project/node_modules", true),
        ("/work/project/target", true),
        ("/work/project/.git/HEAD", false),
        ("/work/project/.agent-undo/timeline.db", false),
        ("/work/project/.DS_Store", false),
        ("/work/project/target/debug/app", false),
        ("/work/project/web/node_modules/left/index.js", false),
        ("/work/project/dist/app.js", false),
        ("/work/project/build/out/x.o", false),
        ("/work/project/secret/key.txt", false),
        ("/elsewhere/.git/HEAD", false),
    ] {
        assert!(should_skip(&ignorer, path, dir), "{path} should be skipped");
    }
    assert!(!should_skip(&ignorer, "/work/project/src/main.rs", false));
    assert!(!should_skip(&ignorer, "/work/project/secret", false));
    assert!(!should_skip(&ignorer, "/work/project/target", false));
    assert!(!should_skip(&ignorer, "/work/project/targets/x", false));
    assert!(!should_skip(&ignorer, "/work/project", true));
    assert!(!should_skip(&ignorer, "/elsewhere/target/x", false));
    for root in ["/", "/work/project", "/work/project/", "/work/./project"] {
        let rules = build_ignorer(root, &none, &none, &none);
        for below in ["dist", "web/node_modules", "/build"] {
            let path = format!("{}/{below}", root.trim_end_matches('/'));
            assert!(should_skip(&rules, &path, true), "{path} under {root}");
            assert!(!should_skip(&rules, &path, false), "{path} under {root}");
            assert!(should_skip(&rules, &format!("{path}/x"), false), "{path}/x under {root}");
        }
    }
    assert!(should_skip(&ignorer, "/resolved/project/dist", true));
    assert!(should_skip(&ignorer, "/resolved/project/x.log", false));
    assert!(!should_skip(&ignorer, "/resolved/project/src/x.rs", false));
    let nested = build_ignorer("/home/target/project", &none, &none, &none);
    assert!(!should_skip(&nested, "/home/target/project/src/a.rs", false));
    assert!(should_skip(&nested, "/home/target/project/src/build/a.o", false));
    let opened = build_ignorer("/work/project", &none, &none, &vec!["!target/".to_string()]);
    assert!(!should_skip(&opened, "/work/project/target/debug/app", false));
    let marked = build_ignorer("/work/project", &vec!["\u{feff}*.log".to_string()], &none, &none);
    assert!(should_skip(&marked, "/work/project/x.log", false));
    assert!(!enters(".git") && !enters(".agent-undo") && enters("src"));
}

#[test]
fn scratch_files_are_skipped_unless_they_are_known() {
    let mut store = Store::init(paths());
    for name in ["a.tmp", "a.temp", ".a.swp", ".a.swo", "a~", "a___jb_tmp___", "a___jb_old___", ".#a"] {
        assert!(should_skip_transient(&store, &format!("/work/project/{name}")), "{name}");
    }
    assert!(!should_skip_transient(&store, "/work/project/a.rs"));
    store.upsert_file_state("a.tmp", "h", 1, 1);
    assert!(!should_skip_transient(&store, "/work/project/a.tmp"));
}

#[test]
fn a_batch_is_looked_at_once_per_path() {
    let store = Store::init(paths());
    let none: Vec<String> = Vec::new();
    let ignorer = build_ignorer("/work/project", &none, &none, &none);
    let event = |kind: WatchKind, paths: &[&str]| WatchEvent {
        kind,
        paths: paths
            .iter()
            .map(|p| WatchedPath { path: p.to_string(), is_dir: false })
            .collect(),
    };
    let batch = vec![
        event(WatchKind::Create, &["/work/project/b", "/work/project/a"]),
        event(WatchKind::Modify, &["/work/project/a", "/work/project/.git/index"]),
        event(WatchKind::Other, &["/work/project/c"]),
        event(WatchKind::Remove, &["/work/project/d.tmp"]),
    ];
    let mut found = batch_candidates(&store, &ignorer, &batch);
    found.sort();
    assert_eq!(found, vec!["/work/project/a".to_string(), "/work/project/b".to_string()]);
}

#[test]
fn the_watcher_gathers_until_it_is_quiet() {
    assert_eq!(serve_start(true), WatchStep::Stop);
    assert_eq!(serve_start(false), WatchStep::Wait);
    assert_eq!(serve_step(false, Arrival::Change), WatchStep::Gather);
    assert_eq!(serve_step(true, Arrival::Change), WatchStep::Gather);
    assert_eq!(serve_step(true, Arrival::Quiet), WatchStep::Process);
    assert_eq!(serve_step(false, Arrival::Closed), WatchStep::Stop);
}

#[test]
fn paths_are_told_relative_to_the_project() {
    assert_eq!(relative_path("/work/project", "/work/project/src/a.rs"), "src/a.rs");
    assert_eq!(relative_path("/work/project", "/elsewhere/a.rs"), "/elsewhere/a.rs");
}

#[test]
fn effects_come_in_the_order_of_the_changes() {
    let mut store = Store::init(paths());
    process_path_at(&mut store, "/work/project/a", &file(b"one"), 100, &agent(), 10).expect("made");
    let effects = store.take_effects();
    let object = effects.iter().position(|e| matches!(e, Effect::PutObject { .. }));
    let event = effects.iter().position(|e| matches!(e, Effect::RecordEvent(_)));
    let state = effects.iter().position(|e| matches!(e, Effect::SetFileState { .. }));
    assert!(object.expect("object") < event.expect("event"));
    assert!(event < state);
}

#[test]
fn known_states_follow_the_timeline() {
    let mut store = Store::init(paths());
    let files = vec![
        Scanned { path: "a".to_string(), len: 3, bytes: b"one".to_vec() },
        Scanned { path: "b".to_string(), len: 3, bytes: b"two".to_vec() },
    ];
    initial_scan_at(&mut store, &files, 10, 5).expect("scan");
    process_path_at(&mut store, "/work/project/a", &file(b"three"), 100, &agent(), 10).expect("edit");
    process_path_at(&mut store, "/work/project/b", &Found::Missing, 100, &agent(), 20).expect("gone");
    process_path_at(&mut store, "/work/project/c", &file(b"four"), 100, &agent(), 30).expect("made");
    for path in ["a", "b", "c"] {
        let latest = store
            .recent_events(100)
            .into_iter()
            .find(|e| e.path == path)
            .and_then(|e| e.after_hash);
        assert_eq!(store.get_file_state(path).map(|s| s.0), latest, "{path}");
    }
}

#[test]
fn deletions_are_attributed_to_the_active_session() {
    let mut store = Store::init(paths());
    let nobody: Vec<ProcessInfo> = Vec::new();
    let me = hooked();
    process_path(&mut store, "/work/project/a", &file(b"x"), 100, 1, &me, &nobody).expect("made");
    assert_eq!(store.recent_events(1)[0].attribution, "unknown");
    let active = ActiveSession {
        session_id: "s".to_string(),
        agent: "other/agent".to_string(),
        started_at_ns: 1,
        tool_name: Some("Bash".to_string()),
        intended_file: None,
    };
    write_active_session(&mut store, Some(&active));
    process_path(&mut store, "/work/project/a", &Found::Missing, 100, 1, &me, &nobody).expect("gone");
    let e = &store.recent_events(1)[0];
    assert_eq!(e.attribution, "other/agent");
    assert_eq!(e.session_id, Some("s".to_string()));
    assert!(e.after_hash.is_none());
}
