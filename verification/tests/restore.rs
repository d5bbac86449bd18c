//! Undoing: restores, plans and previews.
use agent_undo::failure::Failure;
use agent_undo::image::{Effect, Entry};
use agent_undo::paths::ProjectPaths;
use agent_undo::restore::{
    apply_plan, diff_event_text, format_plan, oops, oops_plan, plan_event, plan_pin, plan_session,
    plan_to_json, restore_file_at, restore_file_to, restore_latest_change_to_file, restore_pin,
    restore_session, restore_to_event, show_event_bytes, try_plan_to_json, PlanItem, PlanKind,
};
use agent_undo::rows::NewEvent;
use agent_undo::store::Store;

fn paths() -> ProjectPaths {
    let root = "/work/project";
    ProjectPaths {
        root: root.to_string(),
        data_dir: format!("{root}/.agent-undo"),
        objects_dir: format!("{root}/.agent-undo/objects"),
        db_path: format!("{root}/.agent-undo/timeline.db"),
        config_path: format!("{root}/.agent-undo/config.toml"),
        bin_dir: format!("{root}/.agent-undo/bin"),
        socket_path: format!("{root}/.agent-undo/daemon.sock"),
        socket_info_path: format!("{root}/.agent-undo/daemon.sock.path"),
    }
}

fn record(
    store: &mut Store,
    ts_ns: i64,
    path: &str,
    before: Option<&str>,
    after: Option<&str>,
    who: &str,
    session: Option<&str>,
) -> i64 {
    store
        .record_event(&NewEvent {
            ts_ns,
            path: path.to_string(),
            before_hash: before.map(|s| s.to_string()),
            after_hash: after.map(|s| s.to_string()),
            size_before: None,
            size_after: None,
            attribution: who.to_string(),
            confidence: "high".to_string(),
            session_id: session.map(|s| s.to_string()),
            pid: None,
            process_name: None,
            tool_name: None,
        })
        .expect("record event")
}

/// A project in which session `s` changed `a.txt` twice and made `new.txt`.
fn project() -> (Store, String, String, String) {
    let mut store = Store::init(paths());
    let one = store.write_blob(b"one\n").unwrap();
    let two = store.write_blob(b"two\n").unwrap();
    let three = store.write_blob(b"three\n").unwrap();
    record(&mut store, 10, "a.txt", None, Some(&one), "initial-scan", None);
    record(&mut store, 20, "a.txt", Some(&one), Some(&two), "codex", Some("s"));
    record(&mut store, 30, "a.txt", Some(&two), Some(&three), "codex", Some("s"));
    record(&mut store, 40, "new.txt", None, Some(&one), "codex", Some("s"));
    store.upsert_file_state("a.txt", &three, 6, 30);
    store.upsert_file_state("new.txt", &one, 4, 40);
    store.take_effects();
    store.load_file("a.txt", Some(Entry::File(b"three\n".to_vec())));
    store.load_file("new.txt", Some(Entry::File(b"one\n".to_vec())));
    (store, one, two, three)
}

fn content(store: &Store, path: &str) -> Option<Vec<u8>> {
    match store.entry(path) {
        Some(Entry::File(bytes)) => Some(bytes.clone()),
        _ => None,
    }
}

#[test]
fn oops_plan_prefers_full_explicit_session_over_time_window() {
    let mut store = Store::init(paths());
    record(&mut store, 100, "a.txt", None, Some("hash-a"), "test-agent", Some("session-1"));
    record(&mut store, 200, "b.txt", None, Some("hash-b"), "test-agent", Some("session-1"));

    let plan = oops_plan(&store, 1);
    let paths: Vec<String> = plan.into_iter().map(|(path, _)| path).collect();
    assert_eq!(paths, vec!["a.txt".to_string(), "b.txt".to_string()]);
}

#[test]
fn oops_without_a_session_takes_the_last_burst() {
    let mut store = Store::init(paths());
    record(&mut store, 100, "a.txt", None, Some("1"), "unknown", None);
    record(&mut store, 1_000, "b.txt", None, Some("2"), "unknown", None);
    record(&mut store, 1_010, "c.txt", None, Some("3"), "unknown", None);
    let paths = |w: i64| -> Vec<String> { oops_plan(&store, w).into_iter().map(|x| x.0).collect() };
    assert_eq!(paths(5), vec!["c.txt".to_string()]);
    assert_eq!(paths(10), vec!["b.txt".to_string(), "c.txt".to_string()]);
    assert_eq!(paths(10_000).len(), 3);
    assert_eq!(oops_plan(&Store::init(crate::paths()), 5).len(), 0);
}

#[test]
fn a_restore_reaches_its_target_and_saves_the_current_content_first() {
    let (mut store, one, _, three) = project();
    restore_file_at(&mut store, "a.txt", Some(&one), 50, 51).expect("restore");
    assert_eq!(content(&store, "a.txt"), Some(b"one\n".to_vec()));
    assert_eq!(store.get_file_state("a.txt"), Some((one.clone(), 4)));
    let events = store.recent_events(2);
    assert_eq!(events[1].attribution, "pre-restore");
    assert_eq!(events[1].before_hash, Some(three.clone()));
    assert_eq!(events[1].after_hash, Some(three.clone()));
    assert_eq!(events[0].attribution, "agent-undo-restore");
    assert_eq!(events[0].before_hash, Some(three.clone()));
    assert_eq!(events[0].after_hash, Some(one.clone()));
    assert_eq!(events[0].ts_ns, 51);
    let effects = store.take_effects();
    match &effects[0] {
        Effect::RecordEvent(r) => assert_eq!(r.row.attribution, "pre-restore"),
        other => panic!("unexpected effect: {other:?}"),
    }
}

#[test]
fn an_unsaved_content_is_stored_before_it_is_overwritten() {
    let (mut store, one, _, _) = project();
    store.load_file("a.txt", Some(Entry::File(b"edited by hand\n".to_vec())));
    restore_file_to(&mut store, "a.txt", Some(&one)).expect("restore");
    let kept = blake3::hash(b"edited by hand\n").to_hex().to_string();
    assert_eq!(store.read_blob(&kept).expect("saved"), b"edited by hand\n");
    let effects = store.take_effects();
    let saved = effects.iter().position(|e| matches!(e, Effect::PutObject { .. }));
    let written = effects.iter().position(|e| matches!(e, Effect::WriteFile { .. }));
    assert!(saved.expect("saved") < written.expect("written"));
}

#[test]
fn a_restore_can_be_undone() {
    let (mut store, one, _, three) = project();
    restore_file_to(&mut store, "a.txt", Some(&one)).expect("restore");
    restore_file_to(&mut store, "a.txt", Some(&three)).expect("undo the restore");
    assert_eq!(content(&store, "a.txt"), Some(b"three\n".to_vec()));
}

#[test]
fn restoring_a_file_that_did_not_exist_removes_it() {
    let (mut store, _, _, _) = project();
    let e = store.get_event(4).expect("event");
    restore_to_event(&mut store, &e).expect("restore");
    assert!(store.entry("new.txt").is_none());
    assert!(store.get_file_state("new.txt").is_none());
    assert!(store.take_effects().iter().any(|e| matches!(e, Effect::RemoveFile { .. })));
}

#[test]
fn a_restore_without_its_content_fails() {
    let (mut store, _, _, _) = project();
    match restore_file_to(&mut store, "a.txt", Some("gone")) {
        Err(f @ Failure::NoBlob { .. }) => assert_eq!(f.message(), "reading blob gone"),
        other => panic!("unexpected outcome: {other:?}"),
    }
    assert_eq!(content(&store, "a.txt"), Some(b"three\n".to_vec()));
}

#[test]
fn a_directory_is_no_target() {
    let (mut store, one, _, _) = project();
    store.load_file("dir", Some(Entry::Directory));
    match restore_file_to(&mut store, "dir", Some(&one)) {
        Err(f @ Failure::Directory { .. }) => assert_eq!(f.message(), "dir is a directory"),
        other => panic!("unexpected outcome: {other:?}"),
    }
}

#[test]
fn a_session_is_rolled_back() {
    let (mut store, _, _, _) = project();
    let restored = restore_session(&mut store, "s").expect("roll back");
    assert_eq!(restored, vec!["a.txt".to_string(), "new.txt".to_string()]);
    assert_eq!(content(&store, "a.txt"), Some(b"one\n".to_vec()));
    assert!(store.entry("new.txt").is_none());
    assert_eq!(restore_session(&mut store, "none").expect("nothing"), Vec::<String>::new());
}

#[test]
fn a_session_is_rolled_back_as_a_whole_or_not_at_all() {
    let (mut store, _, _, _) = project();
    record(&mut store, 45, "z.txt", Some("gone"), Some("x"), "codex", Some("s"));
    store.take_effects();
    match restore_session(&mut store, "s") {
        Err(Failure::NoBlob { hash }) => assert_eq!(hash, "gone"),
        other => panic!("unexpected outcome: {other:?}"),
    }
    assert_eq!(store.take_effects().len(), 0);
    assert_eq!(content(&store, "a.txt"), Some(b"three\n".to_vec()));
    assert!(store.entry("new.txt").is_some());
}

#[test]
fn the_last_change_to_a_file_is_undone_past_restores() {
    let (mut store, _, two, _) = project();
    let e = restore_latest_change_to_file(&mut store, "a.txt").expect("undo");
    assert_eq!(e.id, 3);
    assert_eq!(store.get_file_state("a.txt"), Some((two, 4)));
    let again = restore_latest_change_to_file(&mut store, "a.txt").expect("undo");
    assert_eq!(again.id, 3);
    match restore_latest_change_to_file(&mut store, "unheard.txt") {
        Err(f @ Failure::NoUndoable { .. }) => {
            assert_eq!(f.message(), "no undoable events for unheard.txt")
        }
        other => panic!("unexpected outcome: {other:?}"),
    }
}

#[test]
fn a_pin_is_restored() {
    let mut store = Store::init(paths());
    let one = store.write_blob(b"one\n").unwrap();
    let two = store.write_blob(b"two\n").unwrap();
    record(&mut store, 10, "a.txt", None, Some(&one), "codex", None);
    store.create_pin_at("good", 15).unwrap();
    record(&mut store, 20, "a.txt", Some(&one), Some(&two), "codex", None);
    record(&mut store, 30, "b.txt", None, Some(&two), "codex", None);
    store.upsert_file_state("a.txt", &two, 4, 20);
    store.upsert_file_state("b.txt", &two, 4, 30);
    store.take_effects();
    store.load_file("a.txt", Some(Entry::File(b"two\n".to_vec())));
    store.load_file("b.txt", Some(Entry::File(b"two\n".to_vec())));
    let plan = plan_pin(&store, "good").expect("plan");
    assert_eq!(plan.len(), 2);
    let restored = restore_pin(&mut store, "good").expect("restore");
    assert_eq!(restored, vec!["a.txt".to_string(), "b.txt".to_string()]);
    assert_eq!(content(&store, "a.txt"), Some(b"one\n".to_vec()));
    assert!(store.entry("b.txt").is_none());
    match restore_pin(&mut store, "bad") {
        Err(f @ Failure::NoPin { .. }) => assert_eq!(f.message(), "no pin labeled 'bad'"),
        other => panic!("unexpected outcome: {other:?}"),
    }
}

#[test]
fn oops_undoes_what_it_plans() {
    let (mut store, _, _, _) = project();
    let plan = oops_plan(&store, 30_000_000_000);
    let planned: Vec<String> = plan.iter().map(|x| x.0.clone()).collect();
    let done = oops(&mut store, 30_000_000_000).expect("oops");
    let undone: Vec<String> = done.iter().map(|x| x.0.clone()).collect();
    assert_eq!(planned, undone);
    assert_eq!(planned, vec!["a.txt".to_string(), "new.txt".to_string()]);
    assert_eq!(content(&store, "a.txt"), Some(b"one\n".to_vec()));
    assert!(store.entry("new.txt").is_none());
}

#[test]
fn the_content_of_an_event_is_shown() {
    let (store, _, _, _) = project();
    assert_eq!(show_event_bytes(&store, 2, true, false).expect("before"), b"one\n");
    assert_eq!(show_event_bytes(&store, 2, false, true).expect("after"), b"two\n");
    assert_eq!(show_event_bytes(&store, 2, false, false).expect("after"), b"two\n");
    match show_event_bytes(&store, 4, true, false) {
        Err(f @ Failure::NoContent { .. }) => assert_eq!(
            f.message(),
            "event #4 has no before content (file did not exist at this event)"
        ),
        other => panic!("unexpected outcome: {other:?}"),
    }
    match show_event_bytes(&store, 99, false, true) {
        Err(f @ Failure::NoEvent { .. }) => assert_eq!(f.message(), "no event #99"),
        other => panic!("unexpected outcome: {other:?}"),
    }
}

#[test]
fn the_difference_of_an_event_is_shown() {
    let (store, _, _, _) = project();
    let text = diff_event_text(&store, 2).expect("diff");
    assert!(text.contains("--- a/a.txt"));
    assert!(text.contains("+++ b/a.txt"));
    assert!(text.contains("-one\n"));
    assert!(text.contains("+two\n"));
    match diff_event_text(&store, 99) {
        Err(Failure::NoEvent { id }) => assert_eq!(id, 99),
        other => panic!("unexpected outcome: {other:?}"),
    }
}

#[test]
fn the_lines_of_a_difference_make_up_both_sides() {
    let older = "same\nold\r\nsame\nmoved\nend";
    let newer = "moved\nsame\nnew\nsame\n\nend\n";
    let mut store = Store::init(paths());
    let a = store.write_blob(older.as_bytes()).unwrap();
    let b = store.write_blob(newer.as_bytes()).unwrap();
    let id = record(&mut store, 10, "x", Some(&a), Some(&b), "codex", None);
    let text = diff_event_text(&store, id).expect("diff");
    let side = |signs: [char; 2]| -> String {
        text.split_inclusive('\n')
            .skip(2)
            .filter(|line| line.starts_with(signs))
            .map(|line| &line[1..])
            .collect()
    };
    assert_eq!(side([' ', '-']), format!("{older}\n"));
    assert_eq!(side([' ', '+']), newer);
}

#[test]
fn a_plan_tells_what_would_change() {
    let (mut store, one, _, _) = project();
    let plan = plan_session(&store, "s").expect("plan");
    assert_eq!(plan.len(), 2);
    assert_eq!(plan[0].path, "a.txt");
    assert_eq!(plan[0].kind, PlanKind::Modified);
    assert_eq!(plan[0].target_hash, Some(one));
    assert_eq!(plan[1].path, "new.txt");
    assert_eq!(plan[1].target_hash, None);
    let report = plan_to_json(&plan, "session", "s");
    assert_eq!(report.file_count, 2);
    assert_eq!(report.revert_type, "session");
    assert_eq!(report.revert_target, "s");
    assert_eq!(report.stats.additions, 1);
    assert_eq!(report.stats.deletions, 2);
    assert_eq!(report.stats.total, 3);
    assert_eq!(report.files[0].filename, "a.txt");
    assert_eq!((report.files[0].additions, report.files[0].deletions), (1, 1));
    assert_eq!(report.files[0].changes, 2);
    assert!(report.restored.is_none());
    assert!(try_plan_to_json(&plan, "session", "s").is_some());
    let text = format_plan(&plan, "session s");
    assert!(text.starts_with("Would revert session s (2 file(s)):\n\n"));
    assert!(text.ends_with("Roll back these 2 file(s)?"));
    let done = apply_plan(&mut store, &plan).expect("apply");
    assert_eq!(done, vec!["a.txt".to_string(), "new.txt".to_string()]);
    assert_eq!(content(&store, "a.txt"), Some(b"one\n".to_vec()));
}

#[test]
fn a_plan_for_one_event_has_one_file() {
    let (store, one, _, _) = project();
    let plan: Vec<PlanItem> = plan_event(&store, 2).expect("plan");
    assert_eq!(plan.len(), 1);
    assert_eq!(plan[0].target_hash, Some(one));
    assert_eq!(plan[0].event_id, 2);
    assert_eq!(plan[0].attribution, "codex");
    match plan_event(&store, 99) {
        Err(Failure::NoEvent { id }) => assert_eq!(id, 99),
        other => panic!("unexpected outcome: {other:?}"),
    }
}

#[test]
fn contents_that_are_no_text_are_not_compared() {
    let mut store = Store::init(paths());
    let bytes = store.write_blob(&[0u8, 159, 146, 150]).unwrap();
    record(&mut store, 10, "a.bin", Some(&bytes), Some("x"), "codex", None);
    store.take_effects();
    store.load_file("a.bin", Some(Entry::File(vec![0u8, 1, 2])));
    let plan = plan_event(&store, 1).expect("plan");
    let report = plan_to_json(&plan, "event", "1");
    assert_eq!(report.stats.total, 0);
    assert!(report.files[0].patch.is_none());
}

#[test]
fn differences_of_broken_text_are_shown_with_marks() {
    let mut store = Store::init(paths());
    let broken = store.write_blob(&[b'a', 0xff, b'\n']).unwrap();
    record(&mut store, 10, "a.txt", None, Some(&broken), "codex", None);
    let text = diff_event_text(&store, 1).expect("diff");
    assert_eq!(
        text,
        "--- a/a.txt (event #1, before)\n+++ b/a.txt (event #1, after)\n+a\u{fffd}\n"
    );
}

#[test]
fn equal_lines_are_shown_once() {
    let mut store = Store::init(paths());
    let one = store.write_blob(b"same\nold\n").unwrap();
    let two = store.write_blob(b"same\nnew").unwrap();
    record(&mut store, 10, "a.txt", Some(&one), Some(&two), "codex", None);
    let text = diff_event_text(&store, 1).expect("diff");
    assert!(text.ends_with(", after)\n same\n-old\n+new\n"), "{text}");
}

#[test]
fn a_pin_can_be_restored_after_a_collection() {
    let mut store = Store::init(paths());
    let h1 = store.write_blob(b"first\n").unwrap();
    let h2 = store.write_blob(b"second\n").unwrap();
    let h3 = store.write_blob(b"third\n").unwrap();
    record(&mut store, 10, "a.txt", None, Some(&h1), "codex", None);
    record(&mut store, 20, "b.txt", None, Some(&h2), "codex", None);
    store.create_pin_at("good", 25).unwrap();
    record(&mut store, 30, "a.txt", Some(&h1), Some(&h3), "codex", None);
    store.upsert_file_state("a.txt", &h3, 6, 30);
    store.upsert_file_state("b.txt", &h2, 7, 20);
    store.load_file("a.txt", Some(Entry::File(b"third\n".to_vec())));
    store.load_file("b.txt", Some(Entry::File(b"second\n".to_vec())));
    let names = vec![h1.clone(), h2.clone(), h3.clone()];
    assert_eq!(store.gc_at(1_000_000, 1, &names), (0, 0));
    restore_pin(&mut store, "good").expect("restored");
    assert_eq!(content(&store, "a.txt"), Some(b"first\n".to_vec()));
    assert_eq!(content(&store, "b.txt"), Some(b"second\n".to_vec()));
}

#[test]
fn an_empty_file_is_not_a_missing_one() {
    let mut store = Store::init(paths());
    let empty = store.write_blob(b"").unwrap();
    let full = store.write_blob(b"full\n").unwrap();
    let made = record(&mut store, 10, "made.txt", None, Some(&empty), "codex", None);
    let emptied = record(&mut store, 20, "cut.txt", Some(&full), Some(&empty), "codex", None);
    let gone = record(&mut store, 30, "gone.txt", Some(&empty), None, "codex", None);
    store.load_file("made.txt", Some(Entry::File(Vec::new())));
    store.load_file("cut.txt", Some(Entry::File(Vec::new())));
    store.load_file("gone.txt", None);
    let kind = |id: i64| plan_event(&store, id).expect("planned")[0].kind;
    assert_eq!(kind(made), PlanKind::Created);
    assert_eq!(kind(emptied), PlanKind::Modified);
    assert_eq!(kind(gone), PlanKind::Deleted);
}

#[test]
fn the_plan_for_a_pin_names_what_differs() {
    let mut store = Store::init(paths());
    let empty = store.write_blob(b"").unwrap();
    let full = store.write_blob(b"full\n").unwrap();
    record(&mut store, 10, "same.txt", None, Some(&full), "codex", None);
    record(&mut store, 11, "cut.txt", None, Some(&full), "codex", None);
    record(&mut store, 12, "void.txt", None, Some(&empty), "codex", None);
    record(&mut store, 13, "lost.txt", None, Some(&full), "codex", None);
    record(&mut store, 14, "gone.txt", None, Some(&full), "codex", None);
    store.create_pin_at("p", 15).unwrap();
    for path in ["same.txt", "cut.txt", "void.txt", "lost.txt", "later.txt"] {
        store.upsert_file_state(path, &full, 5, 16);
    }
    store.load_file("same.txt", Some(Entry::File(b"full\n".to_vec())));
    store.load_file("cut.txt", Some(Entry::File(Vec::new())));
    store.load_file("void.txt", Some(Entry::File(Vec::new())));
    store.load_file("lost.txt", None);
    store.load_file("gone.txt", None);
    store.load_file("later.txt", Some(Entry::File(Vec::new())));
    let plan = plan_pin(&store, "p").expect("planned");
    let found: Vec<(String, PlanKind)> =
        plan.iter().map(|item| (item.path.clone(), item.kind)).collect();
    assert_eq!(
        found,
        vec![
            ("cut.txt".to_string(), PlanKind::Modified),
            ("gone.txt".to_string(), PlanKind::Deleted),
            ("later.txt".to_string(), PlanKind::Created),
        ]
    );
}

#[test]
fn undoing_the_last_change_again_changes_nothing_more() {
    let (mut store, _, _, _) = project();
    let first = restore_latest_change_to_file(&mut store, "a.txt").expect("undone");
    let after = content(&store, "a.txt");
    let second = restore_latest_change_to_file(&mut store, "a.txt").expect("undone");
    assert_eq!(first.id, 3);
    assert_eq!(second.id, 3);
    assert_eq!(after, Some(b"two\n".to_vec()));
    assert_eq!(content(&store, "a.txt"), after);
}

#[test]
fn an_oops_plans_the_same_again() {
    let (mut store, _, _, _) = project();
    let plan = |store: &Store| -> Vec<(String, i64)> {
        oops_plan(store, 1).into_iter().map(|(path, e)| (path, e.id)).collect()
    };
    let before = plan(&store);
    assert_eq!(before, vec![("a.txt".to_string(), 2), ("new.txt".to_string(), 4)]);
    oops(&mut store, 1).expect("undone");
    assert_eq!(plan(&store), before);
}

#[test]
fn what_files_held_can_be_read_back_after_they_are_restored() {
    let (mut store, _, _, _) = project();
    store.load_file("a.txt", Some(Entry::File(b"by hand\n".to_vec())));
    store.load_file("new.txt", Some(Entry::File(b"by hand too\n".to_vec())));
    restore_session(&mut store, "s").expect("rolled back");
    for text in ["by hand\n", "by hand too\n"] {
        let (hash, _) = Store::hash_file(text.as_bytes().to_vec());
        assert_eq!(store.read_blob(&hash).expect("stored"), text.as_bytes());
    }
}
