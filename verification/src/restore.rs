//! Restoring files: the undo machinery.
//!
//! Every restore takes two steps. First the current content of the file is stored, and a
//! `pre-restore` event notes it, so that the restore can itself be undone. Then the file is
//! written or removed, an `agent-undo-restore` event notes that, and the new content becomes the
//! latest known one, so that the watcher does not take the write for an edit.
use vstd::prelude::*;

pub mod bulk;
pub mod laws;
pub mod outcomes;
pub mod plan;
pub mod preview;

pub use self::bulk::{
    oops, oops_plan, restore_latest_change_to_file, restore_pin, restore_session,
};
pub use self::plan::{apply_plan, plan_event, plan_pin, plan_session, PlanItem, PlanKind};
pub use self::preview::{
    diff_event_text, format_plan, plan_to_json, show_event_bytes, try_plan_to_json, RevertFile,
    RevertJsonOutput, RevertStats,
};

use crate::failure::{Failure, FailureView};
use crate::image::{EffectView, Entry, EntryView, Image};
use crate::outside::now_ns;
use crate::rows::{EventRow, FileStateView, NewEvent, NewEventView};
use crate::store::Store;

verus! {

broadcast use vstd::string::group_string_axioms;

// --- one file ----------------------------------------------------------------------------------

/// The content of the regular file at a path.
pub open spec fn current(i: Image, path: Seq<char>) -> Option<Seq<u8>> {
    if i.files.contains_key(path) {
        match i.files[path] {
            EntryView::File(bytes) => Some(bytes),
            _ => None,
        }
    } else {
        None
    }
}

/// Whether a directory stands at a path.
pub open spec fn is_directory(i: Image, path: Seq<char>) -> bool {
    i.files.contains_key(path) && i.files[path] is Directory
}

/// What storing the current content of a file changes; `None` where it cannot be compressed.
pub open spec fn saving(i: Image, path: Seq<char>) -> Option<Seq<EffectView>> {
    match current(i, path) {
        Some(bytes) => crate::store::changes::blob_effects(i, bytes),
        None => Some(Seq::empty()),
    }
}

/// Whether what a file held before can be read back after, unless something else was stored under
/// its hash.
pub open spec fn rescued(before: Image, after: Image, path: Seq<char>) -> bool {
    match current(before, path) {
        Some(bytes) => crate::store::changes::welcomes(before, bytes)
            ==> crate::store::changes::keeps(after, bytes),
        None => true,
    }
}

/// The hash and the size of some content.
pub open spec fn mark(content: Option<Seq<u8>>) -> Option<(Seq<char>, i64)> {
    match content {
        Some(bytes) => Some((crate::outside::blake3_hex(bytes), bytes.len() as i64)),
        None => None,
    }
}

/// The event that notes a step of a restore.
pub open spec fn trace(
    path: Seq<char>,
    before: Option<(Seq<char>, i64)>,
    after: Option<(Seq<char>, i64)>,
    attribution: Seq<char>,
    ts_ns: i64,
) -> NewEventView {
    NewEventView {
        ts_ns,
        path,
        before_hash: match before {
            Some(m) => Some(m.0),
            None => None,
        },
        after_hash: match after {
            Some(m) => Some(m.0),
            None => None,
        },
        size_before: match before {
            Some(m) => Some(m.1),
            None => None,
        },
        size_after: match after {
            Some(m) => Some(m.1),
            None => None,
        },
        attribution,
        confidence: "high"@,
        session_id: None,
        pid: None,
        process_name: None,
        tool_name: None,
    }
}

/// The first step of a restore: the current content is stored and noted.
pub open spec fn snapshotting(i: Image, path: Seq<char>, ts_ns: i64) -> Seq<EffectView> {
    let m = mark(current(i, path));
    saving(i, path)->0.push(
        EffectView::RecordEvent(
            crate::store::changes::recorded(i, trace(path, m, m, "pre-restore"@, ts_ns)),
        ),
    )
}

/// The second step of a restore: the file is brought to its target, where it was `before`; and
/// why that failed.
pub open spec fn applying(
    i: Image,
    path: Seq<char>,
    before: Option<(Seq<char>, i64)>,
    target: Option<Seq<char>>,
    ts_ns: i64,
) -> (Seq<EffectView>, Option<FailureView>) {
    match target {
        Some(hash) => match crate::store::changes::blob(i, hash) {
            None => (Seq::empty(), Some(FailureView::NoBlob { hash })),
            Some(bytes) => {
                let written = seq![EffectView::WriteFile { path, bytes }];
                let size = bytes.len() as i64;
                if is_directory(i, path) {
                    (Seq::empty(), Some(FailureView::Directory { path }))
                } else if i.last_event_id == i64::MAX {
                    (written, Some(FailureView::Full))
                } else {
                    (
                        written.push(
                            EffectView::RecordEvent(
                                crate::store::changes::recorded(
                                    i,
                                    trace(
                                        path,
                                        before,
                                        Some((hash, size)),
                                        "agent-undo-restore"@,
                                        ts_ns,
                                    ),
                                ),
                            ),
                        ).push(
                            EffectView::SetFileState {
                                path,
                                state: FileStateView {
                                    latest_hash: hash,
                                    latest_size: size,
                                    latest_ts_ns: ts_ns,
                                },
                            },
                        ),
                        None,
                    )
                }
            },
        },
        None => {
            let removed = if i.files.contains_key(path) {
                seq![EffectView::RemoveFile { path }]
            } else {
                Seq::empty()
            };
            if is_directory(i, path) {
                (Seq::empty(), Some(FailureView::Directory { path }))
            } else if i.last_event_id == i64::MAX {
                (removed, Some(FailureView::Full))
            } else {
                (
                    removed.push(
                        EffectView::RecordEvent(
                            crate::store::changes::recorded(
                                i,
                                trace(path, before, None, "agent-undo-restore"@, ts_ns),
                            ),
                        ),
                    ).push(EffectView::DropFileState { path }),
                    None,
                )
            }
        },
    }
}

/// What a restore changes, and why it failed. `ts_ns` and `after_ts` are the times of its two
/// steps. A target of `None` means that the file did not exist.
pub open spec fn restoring(
    i: Image,
    path: Seq<char>,
    target: Option<Seq<char>>,
    ts_ns: i64,
    after_ts: i64,
) -> (Seq<EffectView>, Option<FailureView>) {
    match saving(i, path) {
        None => (Seq::empty(), Some(FailureView::Encode)),
        Some(saved) => if i.last_event_id == i64::MAX {
            (saved, Some(FailureView::Full))
        } else {
            let first = snapshotting(i, path, ts_ns);
            let second = applying(
                crate::image::replay(i, first),
                path,
                mark(current(i, path)),
                target,
                after_ts,
            );
            (first + second.0, second.1)
        },
    }
}

/// Whether a restore changed the store and came out as it should.
pub open spec fn restores(
    before: Store,
    after: Store,
    path: Seq<char>,
    target: Option<Seq<char>>,
    ts_ns: i64,
    after_ts: i64,
    outcome: Option<FailureView>,
) -> bool {
    let run = restoring(before.image(), path, target, ts_ns, after_ts);
    &&& Store::did(before, after, run.0)
    &&& outcome == run.1
}

/// Whether a restore, at whatever times, changed the store and came out as it should.
pub open spec fn restores_file(
    before: Store,
    after: Store,
    path: Seq<char>,
    target: Option<Seq<char>>,
    outcome: Option<FailureView>,
) -> bool {
    exists|ts_ns: i64, after_ts: i64| #[trigger]
        restores(before, after, path, target, ts_ns, after_ts, outcome)
}

fn trace_event(
    path: &str,
    before: &Option<(String, i64)>,
    after: &Option<(String, i64)>,
    attribution: &str,
    ts_ns: i64,
) -> (r: NewEvent)
    ensures
        r.deep_view() == trace(
            path@,
            before.deep_view(),
            after.deep_view(),
            attribution@,
            ts_ns,
        ),
{
    NewEvent {
        ts_ns,
        path: path.to_owned(),
        before_hash: match before {
            Some(m) => Some(m.0.clone()),
            None => None,
        },
        after_hash: match after {
            Some(m) => Some(m.0.clone()),
            None => None,
        },
        size_before: match before {
            Some(m) => Some(m.1),
            None => None,
        },
        size_after: match after {
            Some(m) => Some(m.1),
            None => None,
        },
        attribution: attribution.to_owned(),
        confidence: "high".to_owned(),
        session_id: None,
        pid: None,
        process_name: None,
        tool_name: None,
    }
}

/// The second step of a restore.
fn apply_target(
    store: &mut Store,
    path: &str,
    before: &Option<(String, i64)>,
    target: Option<&str>,
    ts_ns: i64,
) -> (r: Result<(), Failure>)
    requires
        old(store).wf(),
    ensures
        ({
            let run = applying(
                old(store).image(),
                path@,
                before.deep_view(),
                target.deep_view(),
                ts_ns,
            );
            &&& Store::did(*old(store), *final(store), run.0)
            &&& crate::failure::outcome(r) == run.1
        }),
{
    let ghost start = *store;
    let ghost i = store.image();
    proof {
        Store::lemma_did_nothing(start);
    }
    let directory = match store.entry(path) {
        Some(Entry::Directory) => true,
        _ => false,
    };
    match target {
        Some(hash) => {
            let bytes = match store.read_blob(hash) {
                Ok(b) => b,
                Err(_) => {
                    return Err(Failure::NoBlob { hash: hash.to_owned() });
                },
            };
            if directory {
                return Err(Failure::Directory { path: path.to_owned() });
            }
            let size: i64 = bytes.len() as i64;
            let ghost write = EffectView::WriteFile { path: path@, bytes: bytes@ };
            store.write_file(path, bytes);
            let ghost written = *store;
            let after: Option<(String, i64)> = Some((hash.to_owned(), size));
            let event = trace_event(path, before, &after, "agent-undo-restore", ts_ns);
            proof {
                crate::image::lemma_replay_few(i, write, write);
            }
            let ghost note = EffectView::RecordEvent(
                crate::store::changes::recorded(i, event.deep_view()),
            );
            match store.record_event(&event) {
                Ok(_) => {},
                Err(f) => {
                    proof {
                        Store::lemma_did_both(start, written, *store, seq![write], Seq::empty());
                        assert(seq![write] + Seq::<EffectView>::empty() =~= seq![write]);
                    }
                    return Err(f);
                },
            }
            let ghost noted = *store;
            store.upsert_file_state(path, hash, size, ts_ns);
            proof {
                let state = FileStateView {
                    latest_hash: hash@,
                    latest_size: size,
                    latest_ts_ns: ts_ns,
                };
                let set = EffectView::SetFileState { path: path@, state };
                Store::lemma_did_both(start, written, noted, seq![write], seq![note]);
                Store::lemma_did_both(
                    start,
                    noted,
                    *store,
                    seq![write] + seq![note],
                    seq![set],
                );
                assert(seq![write] + seq![note] + seq![set] =~= seq![write].push(note).push(set));
            }
            Ok(())
        },
        None => {
            if directory {
                return Err(Failure::Directory { path: path.to_owned() });
            }
            let ghost removal = if i.files.contains_key(path@) {
                seq![EffectView::RemoveFile { path: path@ }]
            } else {
                Seq::<EffectView>::empty()
            };
            if store.entry(path).is_some() {
                store.remove_file(path);
                proof {
                    let e = EffectView::RemoveFile { path: path@ };
                    crate::image::lemma_replay_few(i, e, e);
                }
            }
            let ghost removed = *store;
            let event = trace_event(path, before, &None, "agent-undo-restore", ts_ns);
            let ghost note = EffectView::RecordEvent(
                crate::store::changes::recorded(i, event.deep_view()),
            );
            match store.record_event(&event) {
                Ok(_) => {},
                Err(f) => {
                    proof {
                        Store::lemma_did_both(start, removed, *store, removal, Seq::empty());
                        assert(removal + Seq::<EffectView>::empty() =~= removal);
                    }
                    return Err(f);
                },
            }
            let ghost noted = *store;
            store.delete_file_state(path);
            proof {
                let drop = EffectView::DropFileState { path: path@ };
                Store::lemma_did_both(start, removed, noted, removal, seq![note]);
                Store::lemma_did_both(start, noted, *store, removal + seq![note], seq![drop]);
                assert(removal + seq![note] + seq![drop] =~= removal.push(note).push(drop));
            }
            Ok(())
        },
    }
}

/// Brings a file to the content under a hash, or removes it where the target is `None`. The two
/// steps take place at the given times.
pub fn restore_file_at(
    store: &mut Store,
    rel_path: &str,
    target_hash: Option<&str>,
    ts_ns: i64,
    after_ts: i64,
) -> (r: Result<(), Failure>)
    requires
        old(store).wf(),
    ensures
        restores(
            *old(store),
            *final(store),
            rel_path@,
            target_hash.deep_view(),
            ts_ns,
            after_ts,
            crate::failure::outcome(r),
        ),
        saving(old(store).image(), rel_path@) is Some ==> rescued(
            old(store).image(),
            final(store).image(),
            rel_path@,
        ),
{
    let ghost start = *store;
    let ghost i = store.image();
    proof {
        Store::lemma_did_nothing(start);
    }
    let content: Option<Vec<u8>> = match store.entry(rel_path) {
        Some(Entry::File(bytes)) => {
            let copy = bytes.clone();
            assert(copy@ =~= bytes@);
            Some(copy)
        },
        _ => None,
    };
    let before: Option<(String, i64)> = match &content {
        Some(bytes) => {
            assert(current(i, rel_path@) == Some(bytes@));
            match store.write_blob(bytes.as_slice()) {
                Ok(hash) => Some((hash, bytes.len() as i64)),
                Err(f) => {
                    return Err(f);
                },
            }
        },
        None => None,
    };
    let ghost saved = saving(i, rel_path@)->0;
    let ghost kept = *store;
    proof {
        assert(before.deep_view() == mark(current(i, rel_path@)));
        assert(kept.image().last_event_id == i.last_event_id) by {
            if saved.len() > 0 {
                crate::image::lemma_replay_few(i, saved[0], saved[0]);
                assert(saved =~= seq![saved[0]]);
            }
        }
    }
    let event = trace_event(rel_path, &before, &before, "pre-restore", ts_ns);
    let ghost note = EffectView::RecordEvent(
        crate::store::changes::recorded(i, event.deep_view()),
    );
    match store.record_event(&event) {
        Ok(_) => {},
        Err(f) => {
            proof {
                Store::lemma_did_both(start, kept, *store, saved, Seq::empty());
                assert(saved + Seq::<EffectView>::empty() =~= saved);
            }
            return Err(f);
        },
    }
    let ghost noted = *store;
    proof {
        Store::lemma_did_both(start, kept, noted, saved, seq![note]);
        assert(saved + seq![note] =~= snapshotting(i, rel_path@, ts_ns));
    }
    let r = apply_target(store, rel_path, &before, target_hash, after_ts);
    proof {
        let first = snapshotting(i, rel_path@, ts_ns);
        let second = applying(
            noted.image(),
            rel_path@,
            mark(current(i, rel_path@)),
            target_hash.deep_view(),
            after_ts,
        );
        Store::lemma_did_both(start, noted, *store, first, second.0);
        crate::image::lemma_replay_few(kept.image(), note, note);
        laws::lemma_applying(
            noted.image(),
            rel_path@,
            mark(current(i, rel_path@)),
            target_hash.deep_view(),
            after_ts,
        );
    }
    r
}

/// Brings a file to the content under a hash, or removes it where the target is `None`.
pub fn restore_file_to(store: &mut Store, rel_path: &str, target_hash: Option<&str>) -> (r: Result<
    (),
    Failure,
>)
    requires
        old(store).wf(),
    ensures
        restores_file(
            *old(store),
            *final(store),
            rel_path@,
            target_hash.deep_view(),
            crate::failure::outcome(r),
        ),
        saving(old(store).image(), rel_path@) is Some ==> rescued(
            old(store).image(),
            final(store).image(),
            rel_path@,
        ),
{
    let ts_ns: i64 = now_ns();
    let after_ts: i64 = now_ns();
    restore_file_at(store, rel_path, target_hash, ts_ns, after_ts)
}

/// Brings a file to its state before an event: undoes that event.
pub fn restore_to_event(store: &mut Store, event: &EventRow) -> (r: Result<(), Failure>)
    requires
        old(store).wf(),
    ensures
        restores_file(
            *old(store),
            *final(store),
            event.path@,
            event.before_hash.deep_view(),
            crate::failure::outcome(r),
        ),
        saving(old(store).image(), event.path@) is Some ==> rescued(
            old(store).image(),
            final(store).image(),
            event.path@,
        ),
{
    let target: Option<&str> = match &event.before_hash {
        Some(hash) => Some(hash.as_str()),
        None => None,
    };
    assert(target.deep_view() == event.before_hash.deep_view());
    restore_file_to(store, event.path.as_str(), target)
}

} // verus!
