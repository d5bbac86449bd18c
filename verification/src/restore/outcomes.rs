//! What each way of undoing comes to, in terms of the timeline and the files.
use vstd::prelude::*;

use crate::image::{EntryView, Image};
use crate::outside::{LineChangeView, LineTag};
use crate::rows::{EventRecordView, EventRowView, FileStateView};
use crate::store::Store;

use super::plan::{PlanItemView, WantedView};
use super::preview::RevertFileView;

verus! {

broadcast use vstd::string::group_string_axioms;

// --- one file ----------------------------------------------------------------------------------

/// Whether a file is as a target says: it has the content that is stored under the hash, or, for
/// no hash, there is nothing at its path.
pub open spec fn is_left_with(i: Image, path: Seq<char>, target: Option<Seq<char>>) -> bool {
    match target {
        Some(hash) => {
            &&& i.objects.contains_key(hash)
            &&& i.files.contains_key(path)
            &&& i.files[path] == EntryView::File(
                match crate::outside::zstd_decoded(i.objects[hash]) {
                    Some(bytes) => bytes,
                    None => i.objects[hash],
                },
            )
        },
        None => !i.files.contains_key(path),
    }
}

/// An event of a restore.
pub open spec fn trace_row(
    id: int,
    path: Seq<char>,
    before: Option<Seq<char>>,
    size_before: Option<i64>,
    after: Option<Seq<char>>,
    size_after: Option<i64>,
    attribution: Seq<char>,
    ts_ns: i64,
) -> EventRecordView {
    EventRecordView {
        row: EventRowView {
            id: id as i64,
            ts_ns,
            path,
            before_hash: before,
            after_hash: after,
            size_before,
            size_after,
            attribution,
            session_id: None,
        },
        confidence: "high"@,
        pid: None,
        process_name: None,
        tool_name: None,
    }
}

/// The content of the regular file at a path, if there is one.
pub open spec fn held(i: Image, path: Seq<char>) -> Option<Seq<u8>> {
    if i.files.contains_key(path) && i.files[path] is File {
        Some(i.files[path]->File_0)
    } else {
        None
    }
}

/// The hash of the content of the regular file at a path, if there is one.
pub open spec fn held_hash(i: Image, path: Seq<char>) -> Option<Seq<char>> {
    match held(i, path) {
        Some(bytes) => Some(crate::outside::blake3_hex(bytes)),
        None => None,
    }
}

/// The size of the regular file at a path, if there is one.
pub open spec fn held_size(i: Image, path: Seq<char>) -> Option<i64> {
    match held(i, path) {
        Some(bytes) => Some(bytes.len() as i64),
        None => None,
    }
}

/// A restore that works leaves the file with the content that is stored under the target, or
/// removes it where there is no target, and has that known as the latest content. It adds two
/// events: one that names the content before on both sides, and one from that content to the
/// target. It stores the content before, and changes nothing else.
pub proof fn law_restore_does_what_it_says(
    i: Image,
    path: Seq<char>,
    target: Option<Seq<char>>,
    ts_ns: i64,
    after_ts: i64,
)
    requires
        super::restoring(i, path, target, ts_ns, after_ts).1 is None,
    ensures
        ({
            let j = crate::image::replay(
                i,
                super::restoring(i, path, target, ts_ns, after_ts).0,
            );
            let n = i.last_event_id;
            let size = match target {
                Some(_) => Some((j.files[path]->File_0).len() as i64),
                None => None,
            };
            &&& is_left_with(j, path, target)
            &&& match target {
                Some(hash) => j.file_states == i.file_states.insert(
                    path,
                    FileStateView { latest_hash: hash, latest_size: size->0, latest_ts_ns: after_ts },
                ),
                None => j.file_states == i.file_states.remove(path),
            }
            &&& j.events == i.events.push(
                trace_row(
                    n + 1,
                    path,
                    held_hash(i, path),
                    held_size(i, path),
                    held_hash(i, path),
                    held_size(i, path),
                    "pre-restore"@,
                    ts_ns,
                ),
            ).push(
                trace_row(
                    n + 2,
                    path,
                    held_hash(i, path),
                    held_size(i, path),
                    target,
                    size,
                    "agent-undo-restore"@,
                    after_ts,
                ),
            )
            &&& j.last_event_id == n + 2
            &&& i.objects.submap_of(j.objects)
            &&& held_hash(i, path) matches Some(hash) ==> {
                &&& j.objects.contains_key(hash)
                &&& !i.objects.contains_key(hash) ==> crate::outside::zstd_encoded(
                    held(i, path)->0,
                ) == Some(j.objects[hash])
            }
            &&& forall|hash: Seq<char>| #[trigger]
                j.objects.contains_key(hash) ==> i.objects.contains_key(hash) || held_hash(i, path)
                    == Some(hash)
            &&& i.files.remove(path) == j.files.remove(path)
            &&& (j.sessions, j.pins, j.last_pin_id, j.marker) == (
                i.sessions,
                i.pins,
                i.last_pin_id,
                i.marker,
            )
        }),
{
    let run = super::restoring(i, path, target, ts_ns, after_ts);
    let j = crate::image::replay(i, run.0);
    super::laws::law_restore_reaches_its_target(i, path, target, ts_ns, after_ts);
    super::laws::lemma_restore_adds(i, path, target, ts_ns, after_ts);
    let saved = super::saving(i, path)->0;
    let kept = crate::image::replay(i, saved);
    if saved.len() > 0 {
        crate::image::lemma_replay_few(i, saved[0], saved[0]);
        assert(saved =~= seq![saved[0]]);
    }
    let first = super::snapshotting(i, path, ts_ns);
    let middle = crate::image::replay(i, first);
    crate::image::lemma_replay_push(i, saved, first.last());
    assert(first.drop_last() =~= saved);
    assert(middle == crate::image::apply(kept, first.last()));
    let m = super::mark(super::current(i, path));
    let second = super::applying(middle, path, m, target, after_ts);
    super::laws::lemma_applying(middle, path, m, target, after_ts);
    crate::image::lemma_replay_concat(i, first, second.0);
    let e = second.0;
    let empty = Seq::<crate::image::EffectView>::empty();
    crate::image::lemma_replay_push(middle, empty, e[0]);
    crate::image::lemma_replay_push(middle, empty.push(e[0]), e[1]);
    crate::image::lemma_replay_push(middle, empty.push(e[0]).push(e[1]), e[2]);
    if e.len() == 2 {
        assert(e =~= empty.push(e[0]).push(e[1]));
    } else {
        assert(e.len() == 3);
        assert(e =~= empty.push(e[0]).push(e[1]).push(e[2]));
    }
    assert(held(i, path) == super::current(i, path));
}

/// A restore works where two more events can be numbered, no directory stands at the path, the
/// target is stored or is what the file holds, and what the file holds is stored or can be
/// compressed; and only there. Where it fails for another reason than the numbers, no file has
/// changed.
pub proof fn law_restore_fails_where_it_must(
    i: Image,
    path: Seq<char>,
    target: Option<Seq<char>>,
    ts_ns: i64,
    after_ts: i64,
)
    requires
        0 <= i.last_event_id,
    ensures
        ({
            let run = super::restoring(i, path, target, ts_ns, after_ts);
            let j = crate::image::replay(i, run.0);
            &&& run.1 is None <==> {
                &&& i.last_event_id + 2 <= i64::MAX
                &&& !(i.files.contains_key(path) && i.files[path] is Directory)
                &&& target matches Some(hash) ==> i.objects.contains_key(hash) || held_hash(
                    i,
                    path,
                ) == Some(hash)
                &&& held(i, path) matches Some(bytes) ==> i.objects.contains_key(
                    crate::outside::blake3_hex(bytes),
                ) || crate::outside::zstd_encoded(bytes) is Some
            }
            &&& i.last_event_id + 2 <= i64::MAX && run.1 is Some ==> j.files == i.files
                && j.file_states == i.file_states
        }),
{
    let run = super::restoring(i, path, target, ts_ns, after_ts);
    let j = crate::image::replay(i, run.0);
    assert(held(i, path) == super::current(i, path));
    if let Some(saved) = super::saving(i, path) {
        let kept = crate::image::replay(i, saved);
        if saved.len() > 0 {
            crate::image::lemma_replay_few(i, saved[0], saved[0]);
            assert(saved =~= seq![saved[0]]);
        }
        if i.last_event_id < i64::MAX {
            let first = super::snapshotting(i, path, ts_ns);
            let middle = crate::image::replay(i, first);
            crate::image::lemma_replay_push(i, saved, first.last());
            assert(first.drop_last() =~= saved);
            assert(middle == crate::image::apply(kept, first.last()));
            let m = super::mark(super::current(i, path));
            let second = super::applying(middle, path, m, target, after_ts);
            crate::image::lemma_replay_concat(i, first, second.0);
            assert(middle.files == i.files && middle.file_states == i.file_states);
            assert(middle.last_event_id == i.last_event_id + 1);
        }
    }
}

// --- a session ---------------------------------------------------------------------------------

/// Whether the event at a place is the first of a session at its path.
pub open spec fn is_first_of_session(i: Image, id: Seq<char>, path: Seq<char>, m: int) -> bool {
    &&& crate::timeline::laws::is_of_session(i, id, m)
    &&& i.events[m].row.path == path
    &&& forall|k: int|
        crate::timeline::laws::is_of_session(i, id, k) && (#[trigger] i.events[k]).row.path == path
            && k != m ==> crate::timeline::laws::comes_first(i.events[m].row, i.events[k].row)
}

/// Whether an event is the first of a session at a path.
pub open spec fn opens_session_at(i: Image, id: Seq<char>, path: Seq<char>, e: EventRowView) -> bool {
    exists|m: int| #[trigger] is_first_of_session(i, id, path, m) && i.events[m].row == e
}

/// Whether a hash is what was at a path before the first event of a session there.
pub open spec fn was_before_session(
    i: Image,
    id: Seq<char>,
    path: Seq<char>,
    hash: Option<Seq<char>>,
) -> bool {
    exists|m: int| #[trigger]
        is_first_of_session(i, id, path, m) && i.events[m].row.before_hash == hash
}

/// Whether a session has an event at a path.
pub open spec fn session_touches(i: Image, id: Seq<char>, path: Seq<char>) -> bool {
    exists|k: int| #[trigger]
        crate::timeline::laws::is_of_session(i, id, k) && i.events[k].row.path == path
}

/// The first event of each file that a session touched, in the order of the paths, is what the
/// listing of the first events of a session holds.
proof fn lemma_session_firsts(i: Image, id: Seq<char>)
    requires
        crate::store::sound(i),
    ensures
        ({
            let plan = crate::table::listing(
                super::bulk::earliest(crate::timeline::session_events(i, id)),
            );
            &&& forall|n: int|
                #![trigger plan[n]]
                0 <= n < plan.len() ==> opens_session_at(i, id, plan[n].0, plan[n].1)
            &&& forall|path: Seq<char>| #[trigger]
                session_touches(i, id, path) ==> super::bulk::paths_of(plan).contains(path)
            &&& crate::table::increasing(super::bulk::paths_of(plan))
        }),
{
    let events = crate::timeline::session_events(i, id);
    let first = super::bulk::earliest(events);
    let plan = crate::table::listing(first);
    super::laws::lemma_earliest(events);
    crate::table::lemma_listing_exists(first);
    crate::timeline::laws::law_session_events_are_complete(i, id);
    let paths = super::bulk::paths_of(plan);
    assert forall|n: int| #![trigger plan[n]] 0 <= n < plan.len() implies opens_session_at(
        i,
        id,
        plan[n].0,
        plan[n].1,
    ) by {
        let path = plan[n].0;
        assert(paths[n] == path);
        assert(first.dom().contains(paths[n]));
        assert(first[plan[n].0] == plan[n].1);
        let a = choose|a: int|
            super::laws::is_first_at(events, path, a) && first[path] == #[trigger] events[a];
        assert(crate::timeline::laws::stands_for_session(i, id, events[a]));
        let m = choose|m: int| #[trigger]
            crate::timeline::laws::is_of_session(i, id, m) && i.events[m].row == events[a];
        assert(is_first_of_session(i, id, path, m)) by {
            assert forall|k: int|
                crate::timeline::laws::is_of_session(i, id, k) && (#[trigger] i.events[k]).row.path
                    == path && k != m implies crate::timeline::laws::comes_first(
                i.events[m].row,
                i.events[k].row,
            ) by {
                assert(events.contains(i.events[k].row));
                let b = choose|b: int| 0 <= b < events.len() && events[b] == i.events[k].row;
                assert(events[b].path == path);
                if b == a {
                    if k < m {
                        assert(i.events[k].row.id < i.events[m].row.id);
                    } else {
                        assert(i.events[m].row.id < i.events[k].row.id);
                    }
                }
                assert(a < b);
            }
        }
    }
    assert forall|path: Seq<char>| #[trigger] session_touches(i, id, path) implies paths.contains(
        path,
    ) by {
        let k = choose|k: int| #[trigger]
            crate::timeline::laws::is_of_session(i, id, k) && i.events[k].row.path == path;
        assert(events.contains(i.events[k].row));
        let b = choose|b: int| 0 <= b < events.len() && events[b] == i.events[k].row;
        assert(first.contains_key(events[b].path));
        assert(first.dom().contains(path));
    }
}

/// What a session rollback names: exactly the paths at which the session has an event, each once
/// and in the order of texts, each with what was there before its first event of the session.
pub proof fn law_session_rollback_names_every_file(i: Image, id: Seq<char>)
    requires
        crate::store::sound(i),
    ensures
        ({
            let targets = super::bulk::session_targets(i, id);
            let paths = super::bulk::paths_of(targets);
            &&& forall|path: Seq<char>| #[trigger]
                paths.contains(path) <==> session_touches(i, id, path)
            &&& forall|n: int|
                #![trigger targets[n]]
                0 <= n < targets.len() ==> was_before_session(i, id, targets[n].0, targets[n].1)
            &&& crate::table::increasing(paths)
            &&& paths.no_duplicates()
        }),
{
    lemma_session_firsts(i, id);
    let plan = crate::table::listing(
        super::bulk::earliest(crate::timeline::session_events(i, id)),
    );
    let targets = super::bulk::session_targets(i, id);
    let paths = super::bulk::paths_of(targets);
    assert(paths =~= super::bulk::paths_of(plan));
    crate::table::lemma_increasing_distinct(paths);
    assert forall|n: int| #![trigger targets[n]] 0 <= n < targets.len() implies was_before_session(
        i,
        id,
        targets[n].0,
        targets[n].1,
    ) by {
        assert(targets[n] == (plan[n].0, plan[n].1.before_hash));
        assert(opens_session_at(i, id, plan[n].0, plan[n].1));
        let m = choose|m: int| #[trigger]
            is_first_of_session(i, id, plan[n].0, m) && i.events[m].row == plan[n].1;
        assert(i.events[m].row.before_hash == targets[n].1);
    }
    assert forall|path: Seq<char>| #[trigger] paths.contains(path) implies session_touches(
        i,
        id,
        path,
    ) by {
        let n = choose|n: int| 0 <= n < paths.len() && paths[n] == path;
        assert(targets[n].0 == path);
        assert(was_before_session(i, id, targets[n].0, targets[n].1));
        let m = choose|m: int| #[trigger]
            is_first_of_session(i, id, path, m) && i.events[m].row.before_hash == targets[n].1;
        assert(crate::timeline::laws::is_of_session(i, id, m));
    }
}

/// A session touches a file where it has a first event there, and it has but one.
proof fn lemma_first_of_session(i: Image, id: Seq<char>, path: Seq<char>, m: int, o: int)
    requires
        is_first_of_session(i, id, path, m),
        is_first_of_session(i, id, path, o),
    ensures
        m == o,
{
    assert(i.events[m].row.path == path && i.events[o].row.path == path);
    if m != o {
        assert(crate::timeline::laws::comes_first(i.events[m].row, i.events[o].row));
        assert(crate::timeline::laws::comes_first(i.events[o].row, i.events[m].row));
    }
}

/// Rolling a session back leaves every file that it touched as it was before the first event of
/// the session there, and every other file as it is; or, where that fails, nothing has changed.
pub proof fn law_session_rollback_undoes_the_session(
    i: Image,
    id: Seq<char>,
    times: Seq<(i64, i64)>,
    path: Seq<char>,
)
    requires
        crate::store::sound(i),
    ensures
        ({
            let run = super::bulk::restoring_together(
                i,
                super::bulk::session_targets(i, id),
                times,
            );
            let j = crate::image::replay(i, run.0);
            match run.1 {
                None => {
                    &&& session_touches(i, id, path) ==> exists|m: int| #[trigger]
                        is_first_of_session(i, id, path, m)
                    &&& forall|m: int| #[trigger]
                        is_first_of_session(i, id, path, m) ==> is_left_with(
                            j,
                            path,
                            i.events[m].row.before_hash,
                        )
                    &&& !session_touches(i, id, path) ==> unchanged_at(i, j, path)
                    &&& i.objects.submap_of(j.objects)
                },
                Some(_) => j == i,
            }
        }),
{
    let targets = super::bulk::session_targets(i, id);
    let paths = super::bulk::paths_of(targets);
    let run = super::bulk::restoring_together(i, targets, times);
    let j = crate::image::replay(i, run.0);
    law_session_rollback_names_every_file(i, id);
    super::laws::law_restores_reach_their_targets(i, targets, times);
    if run.1 is None {
        if paths.contains(path) {
            let n = choose|n: int| 0 <= n < paths.len() && paths[n] == path;
            assert(targets[n].0 == path);
            assert(was_before_session(i, id, targets[n].0, targets[n].1));
            let o = choose|o: int| #[trigger]
                is_first_of_session(i, id, path, o) && i.events[o].row.before_hash == targets[n].1;
            assert(super::laws::brought(j, targets[n].0, targets[n].1));
            assert forall|m: int| #[trigger] is_first_of_session(i, id, path, m) implies is_left_with(
                j,
                path,
                i.events[m].row.before_hash,
            ) by {
                lemma_first_of_session(i, id, path, m, o);
            }
        } else {
            assert(super::laws::same_at(i, j, path));
            assert forall|m: int| !(#[trigger] is_first_of_session(i, id, path, m)) by {
                if is_first_of_session(i, id, path, m) {
                    assert(crate::timeline::laws::is_of_session(i, id, m));
                    assert(session_touches(i, id, path));
                }
            }
        }
    }
}

/// Whether the same stands at a path before and after, and is tracked in the same way.
pub open spec fn unchanged_at(i: Image, j: Image, path: Seq<char>) -> bool {
    &&& i.files.contains_key(path) == j.files.contains_key(path)
    &&& i.files.contains_key(path) ==> i.files[path] == j.files[path]
    &&& i.file_states.contains_key(path) == j.file_states.contains_key(path)
    &&& i.file_states.contains_key(path) ==> i.file_states[path] == j.file_states[path]
}

// --- a pin -------------------------------------------------------------------------------------

/// Restoring a pin leaves every file as the newest event there up to the pin left it, removes the
/// files that are tracked and have no such event, and leaves every other file as it is; or, where
/// that fails, nothing has changed.
pub proof fn law_pin_brings_its_state_back(i: Image, event_id: i64, times: Seq<(i64, i64)>)
    requires
        crate::store::sound(i),
        i.file_states.dom().finite(),
    ensures
        ({
            let run = super::bulk::restoring_together(
                i,
                super::bulk::pin_targets(i, event_id),
                times,
            );
            let j = crate::image::replay(i, run.0);
            match run.1 {
                None => {
                    &&& forall|path: Seq<char>, m: int| #[trigger]
                        crate::timeline::laws::is_newest_up_to(i, path, event_id, m)
                            ==> is_left_with(j, path, i.events[m].row.after_hash)
                    &&& forall|path: Seq<char>|
                        (forall|k: int|
                            0 <= k < i.events.len() && (#[trigger] i.events[k]).row.path == path
                                ==> i.events[k].row.id > event_id) ==> {
                            &&& i.file_states.contains_key(path) ==> !(
                            #[trigger] j.files.contains_key(path))
                            &&& !i.file_states.contains_key(path) ==> unchanged_at(i, j, path)
                        }
                    &&& i.objects.submap_of(j.objects)
                },
                Some(_) => j == i,
            }
        }),
{
    let targets = super::bulk::pin_targets(i, event_id);
    let paths = super::bulk::paths_of(targets);
    let m0 = super::bulk::project_at(i, event_id);
    let known = crate::timeline::snapshot(i.events, event_id);
    super::laws::lemma_snapshot_finite(i.events, event_id);
    assert(m0.dom() =~= known.dom() + i.file_states.dom());
    crate::table::lemma_listing_exists(m0);
    super::laws::lemma_pin_targets_once(i, event_id);
    super::laws::law_restores_reach_their_targets(i, targets, times);
    let run = super::bulk::restoring_together(i, targets, times);
    let j = crate::image::replay(i, run.0);
    if run.1 is None {
        assert forall|path: Seq<char>, m: int| #[trigger]
            crate::timeline::laws::is_newest_up_to(i, path, event_id, m) implies is_left_with(
            j,
            path,
            i.events[m].row.after_hash,
        ) by {
            crate::timeline::laws::law_state_is_what_the_newest_events_left(i, event_id, path);
            assert(i.events[m].row.path == path);
            assert(known.contains_key(path));
            assert(m0.dom().contains(path));
            assert(paths.contains(path));
            let n = choose|n: int| 0 <= n < paths.len() && paths[n] == path;
            assert(targets[n].0 == path);
            assert(m0[targets[n].0] == targets[n].1);
            assert(super::laws::brought(j, targets[n].0, targets[n].1));
        }
        assert forall|path: Seq<char>|
            (forall|k: int|
                0 <= k < i.events.len() && (#[trigger] i.events[k]).row.path == path
                    ==> i.events[k].row.id > event_id) implies {
            &&& i.file_states.contains_key(path) ==> !(#[trigger] j.files.contains_key(path))
            &&& !i.file_states.contains_key(path) ==> unchanged_at(i, j, path)
        } by {
            crate::timeline::laws::law_state_is_what_the_newest_events_left(i, event_id, path);
            assert(!known.contains_key(path));
            if i.file_states.contains_key(path) {
                assert(m0.dom().contains(path));
                assert(paths.contains(path));
                let n = choose|n: int| 0 <= n < paths.len() && paths[n] == path;
                assert(targets[n].0 == path);
                assert(m0[targets[n].0] == targets[n].1);
                assert(super::laws::brought(j, targets[n].0, targets[n].1));
            } else {
                if paths.contains(path) {
                    let n = choose|n: int| 0 <= n < paths.len() && paths[n] == path;
                    assert(m0.dom().contains(paths[n]));
                }
                assert(super::laws::same_at(i, j, path));
            }
        }
    }
}

// --- the last burst ----------------------------------------------------------------------------

/// Whether the event at a place is the newest that a user or an agent caused.
pub open spec fn is_newest_users(i: Image, t: int) -> bool {
    &&& crate::timeline::laws::is_users(i, t)
    &&& forall|k: int| t < k < i.events.len() ==> !(#[trigger] crate::timeline::laws::is_users(i, k))
}

/// Whether the event at a place belongs to the burst that ends with the event at `t`: a user or an
/// agent caused it, it is one of the newest 500 events, and neither it nor any such event since is
/// older than `window_ns` before the last of them.
pub open spec fn is_in_burst(i: Image, window_ns: i64, t: int, k: int) -> bool {
    &&& crate::timeline::laws::is_users(i, k)
    &&& i.events.len() - 500 <= k <= t
    &&& forall|m: int|
        k <= m <= t && #[trigger] crate::timeline::laws::is_users(i, m) ==> i.events[m].row.ts_ns
            >= i.events[t].row.ts_ns - window_ns
}

/// Whether the event at a place is the oldest of the burst at its path.
pub open spec fn is_first_of_burst(
    i: Image,
    window_ns: i64,
    t: int,
    path: Seq<char>,
    m: int,
) -> bool {
    &&& is_in_burst(i, window_ns, t, m)
    &&& i.events[m].row.path == path
    &&& forall|k: int|
        #![trigger i.events[k]]
        is_in_burst(i, window_ns, t, k) && i.events[k].row.path == path ==> m <= k
}

/// The events that an `oops` looks at, newest first.
spec fn looked_at(i: Image) -> Seq<EventRowView> {
    crate::timeline::recent(i, super::bulk::OOPS_REACH as nat).filter(crate::timeline::by_user())
}

/// Whether an event is one of the newest 500 and was caused by a user or an agent.
spec fn can_be_undone(i: Image, e: EventRowView) -> bool {
    exists|k: int| #[trigger]
        crate::timeline::laws::is_users(i, k) && k >= i.events.len() - 500 && i.events[k].row == e
}

/// The events that an `oops` looks at are those of the newest 500 that a user or an agent caused,
/// by decreasing number.
proof fn lemma_looked_at(i: Image)
    requires
        crate::store::sound(i),
    ensures
        forall|k: int| #[trigger]
            crate::timeline::laws::is_users(i, k) && k >= i.events.len() - 500 ==> looked_at(
                i,
            ).contains(i.events[k].row),
        forall|a: int|
            #![trigger looked_at(i)[a]]
            0 <= a < looked_at(i).len() ==> can_be_undone(i, looked_at(i)[a]),
        forall|a: int, b: int|
            0 <= a < b < looked_at(i).len() ==> (#[trigger] looked_at(i)[a]).id > (
            #[trigger] looked_at(i)[b]).id,
{
    let r = crate::timeline::recent(i, super::bulk::OOPS_REACH as nat);
    let f = crate::timeline::by_user();
    let u = looked_at(i);
    let n = i.events.len() as int;
    crate::timeline::laws::law_recent_are_the_last(i, super::bulk::OOPS_REACH as nat);
    assert forall|k: int| #[trigger] crate::timeline::laws::is_users(i, k) && k >= n
        - 500 implies u.contains(i.events[k].row) by {
        assert(r[n - 1 - k] == i.events[k].row);
        r.lemma_filter_contains(f, n - 1 - k);
    }
    assert forall|a: int| #![trigger u[a]] 0 <= a < u.len() implies can_be_undone(i, u[a]) by {
        r.lemma_filter_pred(f, a);
        assert(u.contains(u[a]));
        r.lemma_filter_contains_rev(f, u[a]);
        let b = choose|b: int| 0 <= b < r.len() && r[b] == u[a];
        assert(i.events[n - 1 - b].row == u[a]);
        assert(crate::timeline::laws::is_users(i, n - 1 - b));
    }
    assert forall|a: int, b: int| 0 <= a < b < r.len() implies (#[trigger] r[a]).id > (
    #[trigger] r[b]).id by {
        assert(i.events[n - 1 - b].row.id < i.events[n - 1 - a].row.id);
    }
    lemma_filter_decreasing(r, f);
}

/// Where an event that an `oops` looks at stands in the timeline.
proof fn lemma_place(i: Image, a: int) -> (k: int)
    requires
        crate::store::sound(i),
        0 <= a < looked_at(i).len(),
    ensures
        crate::timeline::laws::is_users(i, k),
        k >= i.events.len() - 500,
        i.events[k].row == looked_at(i)[a],
{
    lemma_looked_at(i);
    assert(can_be_undone(i, looked_at(i)[a]));
    choose|k: int| #[trigger]
        crate::timeline::laws::is_users(i, k) && k >= i.events.len() - 500 && i.events[k].row
            == looked_at(i)[a]
}

/// Which of the events that an `oops` looks at stands at a place of the timeline.
proof fn lemma_looked_up(i: Image, k: int) -> (a: int)
    requires
        crate::store::sound(i),
        crate::timeline::laws::is_users(i, k),
        k >= i.events.len() - 500,
    ensures
        0 <= a < looked_at(i).len(),
        looked_at(i)[a] == i.events[k].row,
{
    lemma_looked_at(i);
    assert(looked_at(i).contains(i.events[k].row));
    choose|a: int| 0 <= a < looked_at(i).len() && looked_at(i)[a] == i.events[k].row
}

/// Of two events that an `oops` looks at, the one that comes first stands later in the timeline.
proof fn lemma_looked_order(i: Image, a: int, b: int, k: int, m: int)
    requires
        crate::store::sound(i),
        0 <= a < looked_at(i).len(),
        0 <= b < looked_at(i).len(),
        0 <= k < i.events.len(),
        0 <= m < i.events.len(),
        looked_at(i)[a] == i.events[k].row,
        looked_at(i)[b] == i.events[m].row,
    ensures
        a < b <==> k > m,
        a == b <==> k == m,
{
    lemma_looked_at(i);
    let u = looked_at(i);
    if a < b {
        assert(u[a].id > u[b].id);
    } else if b < a {
        assert(u[b].id > u[a].id);
    }
    if k < m {
        assert(i.events[k].row.id < i.events[m].row.id);
    } else if m < k {
        assert(i.events[m].row.id < i.events[k].row.id);
    }
}

/// The first event that an `oops` looks at is the newest that a user or an agent caused.
proof fn lemma_looked_first(i: Image, t: int)
    requires
        crate::store::sound(i),
        is_newest_users(i, t),
        t >= i.events.len() - 500,
    ensures
        looked_at(i).len() > 0,
        looked_at(i)[0] == i.events[t].row,
{
    let a = lemma_looked_up(i, t);
    if a > 0 {
        let k = lemma_place(i, 0);
        lemma_looked_order(i, 0, a, k, t);
    }
}

/// Filtering keeps decreasing numbers decreasing.
proof fn lemma_filter_decreasing(s: Seq<EventRowView>, f: spec_fn(EventRowView) -> bool)
    requires
        forall|a: int, b: int|
            0 <= a < b < s.len() ==> (#[trigger] s[a]).id > (#[trigger] s[b]).id,
    ensures
        forall|a: int, b: int|
            0 <= a < b < s.filter(f).len() ==> (#[trigger] s.filter(f)[a]).id > (
            #[trigger] s.filter(f)[b]).id,
    decreases s.len(),
{
    reveal(Seq::filter);
    if s.len() > 0 {
        let t = s.drop_last();
        assert forall|a: int, b: int| 0 <= a < b < t.len() implies (#[trigger] t[a]).id > (
        #[trigger] t[b]).id by {
            assert(s[a].id > s[b].id);
        }
        lemma_filter_decreasing(t, f);
        let u = t.filter(f);
        assert forall|a: int| 0 <= a < u.len() implies (#[trigger] u[a]).id > s.last().id by {
            assert(u.contains(u[a]));
            t.lemma_filter_contains_rev(f, u[a]);
            let k = choose|k: int| 0 <= k < t.len() && t[k] == u[a];
            assert(s[k].id > s[s.len() - 1].id);
        }
    }
}

/// A burst is the beginning of a list up to the first event that is too old.
proof fn lemma_burst_is_a_beginning(u: Seq<EventRowView>, cutoff: int) -> (n: int)
    ensures
        0 <= n <= u.len(),
        super::bulk::burst(u, cutoff) == u.take(n),
        forall|a: int| 0 <= a < n ==> (#[trigger] u[a]).ts_ns >= cutoff,
        n < u.len() ==> u[n].ts_ns < cutoff,
    decreases u.len(),
{
    if u.len() == 0 || u[0].ts_ns < cutoff {
        assert(u.take(0) =~= Seq::<EventRowView>::empty());
        0
    } else {
        let rest = u.drop_first();
        let n = lemma_burst_is_a_beginning(rest, cutoff);
        assert(super::bulk::burst(u, cutoff) =~= u.take(n + 1));
        assert forall|a: int| 0 <= a < n + 1 implies (#[trigger] u[a]).ts_ns >= cutoff by {
            if a > 0 {
                assert(rest[a - 1] == u[a]);
            }
        }
        if n < rest.len() {
            assert(rest[n] == u[n + 1]);
        }
        n + 1
    }
}

/// The last event of each file in a list is one that no event of the file follows.
proof fn lemma_latest_is_last(b: Seq<EventRowView>)
    ensures
        super::bulk::latest(b).dom().finite(),
        forall|p: Seq<char>| #[trigger]
            super::bulk::latest(b).contains_key(p) ==> exists|m: int| #[trigger]
                is_last_at(b, p, m) && super::bulk::latest(b)[p] == b[m],
        forall|a: int|
            0 <= a < b.len() ==> super::bulk::latest(b).contains_key((#[trigger] b[a]).path),
    decreases b.len(),
{
    if b.len() > 0 {
        let fewer = b.drop_last();
        let n = b.len() - 1;
        lemma_latest_is_last(fewer);
        let m = super::bulk::latest(fewer);
        let all = super::bulk::latest(b);
        assert forall|p: Seq<char>| #[trigger] all.contains_key(p) implies exists|o: int| #[trigger]
            is_last_at(b, p, o) && all[p] == b[o] by {
            if p == b[n].path {
                assert(is_last_at(b, p, n));
            } else {
                let o = choose|o: int| #[trigger] is_last_at(fewer, p, o) && m[p] == fewer[o];
                assert forall|a: int| o < a < b.len() implies (#[trigger] b[a]).path != p by {
                    if a < n {
                        assert(fewer[a] == b[a]);
                    }
                }
                assert(is_last_at(b, p, o));
            }
        }
        assert forall|a: int| 0 <= a < b.len() implies all.contains_key((#[trigger] b[a]).path) by {
            if a < n {
                assert(fewer[a] == b[a]);
            }
        }
    }
}

/// Whether the event at a place in a list is the last of a file.
spec fn is_last_at(b: Seq<EventRowView>, path: Seq<char>, m: int) -> bool {
    &&& 0 <= m < b.len()
    &&& b[m].path == path
    &&& forall|a: int| m < a < b.len() ==> (#[trigger] b[a]).path != path
}

/// The list of a burst holds the events that belong to it.
proof fn lemma_burst_holds(i: Image, window_ns: i64, t: int, k: int) -> (a: int)
    requires
        crate::store::sound(i),
        is_newest_users(i, t),
        t >= i.events.len() - 500,
        is_in_burst(i, window_ns, t, k),
    ensures
        ({
            let b = super::bulk::burst(looked_at(i), i.events[t].row.ts_ns - window_ns);
            &&& 0 <= a < b.len()
            &&& b[a] == i.events[k].row
            &&& b[a] == looked_at(i)[a]
        }),
{
    let u = looked_at(i);
    let cutoff = i.events[t].row.ts_ns - window_ns;
    let n = lemma_burst_is_a_beginning(u, cutoff);
    let a = lemma_looked_up(i, k);
    if a >= n {
        let o = lemma_place(i, n);
        lemma_looked_order(i, n, a, o, k);
        assert(o <= t) by {
            if o > t {
                assert(!crate::timeline::laws::is_users(i, o));
            }
        }
        assert(i.events[o].row.ts_ns >= i.events[t].row.ts_ns - window_ns);
    }
    a
}

/// The list of a burst holds no other events.
proof fn lemma_burst_holds_no_other(i: Image, window_ns: i64, t: int, a: int) -> (k: int)
    requires
        crate::store::sound(i),
        is_newest_users(i, t),
        t >= i.events.len() - 500,
        0 <= a < super::bulk::burst(looked_at(i), i.events[t].row.ts_ns - window_ns).len(),
    ensures
        is_in_burst(i, window_ns, t, k),
        i.events[k].row == super::bulk::burst(
            looked_at(i),
            i.events[t].row.ts_ns - window_ns,
        )[a],
        i.events[k].row == looked_at(i)[a],
        a < looked_at(i).len(),
{
    let u = looked_at(i);
    let cutoff = i.events[t].row.ts_ns - window_ns;
    let n = lemma_burst_is_a_beginning(u, cutoff);
    let k = lemma_place(i, a);
    assert(k <= t) by {
        if k > t {
            assert(!crate::timeline::laws::is_users(i, k));
        }
    }
    assert forall|m: int|
        k <= m <= t && #[trigger] crate::timeline::laws::is_users(
            i,
            m,
        ) implies i.events[m].row.ts_ns >= i.events[t].row.ts_ns - window_ns by {
        let c = lemma_looked_up(i, m);
        lemma_looked_order(i, c, a, m, k);
        assert(u[c].ts_ns >= cutoff);
    }
    k
}

/// Whether an event is the oldest of a burst at a path.
pub open spec fn opens_burst_at(
    i: Image,
    window_ns: i64,
    t: int,
    path: Seq<char>,
    e: EventRowView,
) -> bool {
    exists|m: int| #[trigger]
        is_first_of_burst(i, window_ns, t, path, m) && i.events[m].row == e
}

/// Where the newest event that a user or an agent caused belongs to no session, an `oops` names
/// exactly the files of the last burst, each with its oldest event in the burst.
pub proof fn law_oops_takes_the_oldest_of_the_burst(i: Image, window_ns: i64, t: int)
    requires
        crate::store::sound(i),
        is_newest_users(i, t),
        t >= i.events.len() - 500,
        i.events[t].row.session_id is None,
    ensures
        ({
            let plan = super::bulk::oops_of(i, window_ns);
            &&& forall|n: int|
                #![trigger plan[n]]
                0 <= n < plan.len() ==> opens_burst_at(i, window_ns, t, plan[n].0, plan[n].1)
            &&& forall|k: int| #[trigger]
                is_in_burst(i, window_ns, t, k) ==> super::bulk::paths_of(plan).contains(
                    i.events[k].row.path,
                )
            &&& crate::table::increasing(super::bulk::paths_of(plan))
        }),
{
    let u = looked_at(i);
    lemma_looked_first(i, t);
    let b = super::bulk::burst(u, i.events[t].row.ts_ns - window_ns);
    lemma_latest_is_last(b);
    let last = super::bulk::latest(b);
    crate::table::lemma_listing_exists(last);
    let plan = super::bulk::oops_of(i, window_ns);
    assert(plan == crate::table::listing(last));
    let paths = super::bulk::paths_of(plan);
    assert forall|n: int| #![trigger plan[n]] 0 <= n < plan.len() implies opens_burst_at(
        i,
        window_ns,
        t,
        plan[n].0,
        plan[n].1,
    ) by {
        let path = plan[n].0;
        assert(paths[n] == path);
        assert(last.dom().contains(paths[n]));
        assert(last[plan[n].0] == plan[n].1);
        let a = choose|a: int| #[trigger] is_last_at(b, path, a) && last[path] == b[a];
        let m = lemma_burst_holds_no_other(i, window_ns, t, a);
        assert forall|k: int|
            #![trigger i.events[k]]
            is_in_burst(i, window_ns, t, k) && i.events[k].row.path == path implies m <= k by {
            let c = lemma_burst_holds(i, window_ns, t, k);
            assert(b[c].path == path);
            let o = lemma_burst_holds_no_other(i, window_ns, t, c);
            lemma_looked_order(i, c, a, k, m);
        }
        assert(is_first_of_burst(i, window_ns, t, path, m));
    }
    assert forall|k: int| #[trigger] is_in_burst(i, window_ns, t, k) implies paths.contains(
        i.events[k].row.path,
    ) by {
        let c = lemma_burst_holds(i, window_ns, t, k);
        assert(last.contains_key(b[c].path));
        assert(last.dom().contains(i.events[k].row.path));
    }
}

/// Where the newest event that a user or an agent caused belongs to a session, an `oops` names
/// exactly the files that the session touched, each with the first event of the session there.
pub proof fn law_oops_takes_the_whole_session(i: Image, window_ns: i64, t: int, id: Seq<char>)
    requires
        crate::store::sound(i),
        is_newest_users(i, t),
        t >= i.events.len() - 500,
        i.events[t].row.session_id == Some(id),
    ensures
        ({
            let plan = super::bulk::oops_of(i, window_ns);
            &&& forall|n: int|
                #![trigger plan[n]]
                0 <= n < plan.len() ==> opens_session_at(i, id, plan[n].0, plan[n].1)
            &&& forall|path: Seq<char>| #[trigger]
                session_touches(i, id, path) ==> super::bulk::paths_of(plan).contains(path)
            &&& crate::table::increasing(super::bulk::paths_of(plan))
        }),
{
    lemma_looked_first(i, t);
    crate::timeline::laws::law_session_events_are_complete(i, id);
    assert(crate::timeline::laws::is_of_session(i, id, t));
    assert(crate::timeline::session_events(i, id).contains(i.events[t].row));
    lemma_session_firsts(i, id);
}

/// Where none of the newest 500 events was caused by a user or an agent, an `oops` has nothing to
/// undo.
pub proof fn law_oops_may_have_nothing_to_undo(i: Image, window_ns: i64)
    requires
        crate::store::sound(i),
        forall|k: int|
            k >= i.events.len() - 500 ==> !(#[trigger] crate::timeline::laws::is_users(i, k)),
    ensures
        super::bulk::oops_of(i, window_ns).len() == 0,
{
    if looked_at(i).len() > 0 {
        let k = lemma_place(i, 0);
    }
}

/// An `oops` that works leaves every file of its plan as it was before the event that the plan
/// names there, and every other file as it is.
pub proof fn law_oops_undoes_its_plan(i: Image, window_ns: i64, times: Seq<(i64, i64)>)
    requires
        super::bulk::restoring_all(
            i,
            super::bulk::undone(super::bulk::oops_of(i, window_ns)),
            times,
        ).1 is None,
    ensures
        ({
            let plan = super::bulk::oops_of(i, window_ns);
            let run = super::bulk::restoring_all(i, super::bulk::undone(plan), times);
            let j = crate::image::replay(i, run.0);
            &&& forall|n: int|
                0 <= n < plan.len() ==> is_left_with(
                    j,
                    (#[trigger] plan[n]).0,
                    plan[n].1.before_hash,
                )
            &&& forall|path: Seq<char>|
                !(#[trigger] super::bulk::paths_of(plan).contains(path)) ==> unchanged_at(
                    i,
                    j,
                    path,
                )
        }),
{
    let plan = super::bulk::oops_of(i, window_ns);
    let targets = super::bulk::undone(plan);
    super::laws::lemma_oops_once(i, window_ns);
    super::laws::law_restores_reach_their_targets(i, targets, times);
    let j = crate::image::replay(i, super::bulk::restoring_all(i, targets, times).0);
    assert(super::bulk::paths_of(targets) =~= super::bulk::paths_of(plan));
    assert forall|n: int| 0 <= n < plan.len() implies is_left_with(
        j,
        (#[trigger] plan[n]).0,
        plan[n].1.before_hash,
    ) by {
        assert(targets[n] == (plan[n].0, plan[n].1.before_hash));
        assert(super::laws::brought(j, targets[n].0, targets[n].1));
    }
    assert forall|path: Seq<char>| !(#[trigger] super::bulk::paths_of(plan).contains(
        path,
    )) implies unchanged_at(i, j, path) by {
        assert(super::laws::same_at(i, j, path));
    }
}

// --- plans -------------------------------------------------------------------------------------

/// The content that a hash stands for; nothing for no hash.
pub open spec fn stored(i: Image, hash: Option<Seq<char>>) -> Seq<u8> {
    match hash {
        Some(h) => match crate::outside::zstd_decoded(i.objects[h]) {
            Some(bytes) => bytes,
            None => i.objects[h],
        },
        None => Seq::empty(),
    }
}

/// Whether an item of a plan says what a revert to a target would do to a file: it shows the
/// content to come and the content there is, and it calls the file modified where both exist,
/// created where there is a file but shall be none, and deleted where there is none but shall be.
pub open spec fn is_item_for(
    i: Image,
    x: PlanItemView,
    path: Seq<char>,
    target: Option<Seq<char>>,
    event_id: i64,
    attribution: Seq<char>,
) -> bool {
    &&& x.path == path
    &&& x.target_hash == target
    &&& x.event_id == event_id
    &&& x.attribution == attribution
    &&& x.old_content == stored(i, target)
    &&& x.new_content == (match held(i, path) {
        Some(bytes) => bytes,
        None => Seq::empty(),
    })
    &&& target is Some && held(i, path) is Some ==> x.kind is Modified
    &&& target is None && held(i, path) is Some ==> x.kind is Created
    &&& target is Some && held(i, path) is None ==> x.kind is Deleted
}

/// A plan has an item for every file that is wanted, in their order; there is none only where the
/// content that a file shall have is not stored.
pub proof fn law_a_plan_says_what_would_change(i: Image, wanted: Seq<WantedView>)
    ensures
        super::plan::planning(i, wanted) is Ok <==> forall|k: int|
            0 <= k < wanted.len() && (#[trigger] wanted[k]).target_hash is Some
                ==> i.objects.contains_key(wanted[k].target_hash->0),
        super::plan::planning(i, wanted) matches Ok(items) ==> {
            &&& items.len() == wanted.len()
            &&& forall|k: int|
                0 <= k < items.len() ==> is_item_for(
                    i,
                    #[trigger] items[k],
                    wanted[k].path,
                    wanted[k].target_hash,
                    wanted[k].event_id,
                    wanted[k].attribution,
                )
        },
    decreases wanted.len(),
{
    if wanted.len() > 0 {
        let fewer = wanted.drop_last();
        let n = wanted.len() - 1;
        law_a_plan_says_what_would_change(i, fewer);
        assert(forall|k: int| 0 <= k < n ==> #[trigger] wanted[k] == fewer[k]);
        assert(held(i, wanted[n].path) == super::current(i, wanted[n].path));
        if super::plan::planning(i, wanted) is Ok {
            assert forall|k: int|
                0 <= k < wanted.len() && (#[trigger] wanted[k]).target_hash
                    is Some implies i.objects.contains_key(wanted[k].target_hash->0) by {
                if k < n {
                    assert(fewer[k].target_hash is Some);
                }
            }
        } else if forall|k: int|
            0 <= k < wanted.len() && (#[trigger] wanted[k]).target_hash is Some
                ==> i.objects.contains_key(wanted[k].target_hash->0) {
            assert forall|k: int|
                0 <= k < fewer.len() && (#[trigger] fewer[k]).target_hash
                    is Some implies i.objects.contains_key(fewer[k].target_hash->0) by {
                assert(wanted[k].target_hash is Some);
            }
            assert(wanted[n] == wanted.last());
        }
    }
}

/// Undoing an event wants its file as it was before the event.
pub proof fn law_an_event_plan_wants_the_state_before(e: EventRowView)
    ensures
        super::plan::wants(e).path == e.path,
        super::plan::wants(e).target_hash == e.before_hash,
        super::plan::wants(e).event_id == e.id,
        super::plan::wants(e).attribution == e.attribution,
{
}

/// Whether something wanted is what was at its path before the first event of a session there.
pub open spec fn wants_session_start(i: Image, id: Seq<char>, w: WantedView) -> bool {
    exists|m: int| #[trigger]
        is_first_of_session(i, id, w.path, m) && w.target_hash == i.events[m].row.before_hash
            && w.event_id == i.events[m].row.id && w.attribution == i.events[m].row.attribution
}

/// A plan for a session wants every file that the session touched, each once, as it was before the
/// first event of the session there.
pub proof fn law_a_session_plan_wants_every_file(i: Image, id: Seq<char>)
    requires
        crate::store::sound(i),
    ensures
        ({
            let wanted = super::plan::session_wants(i, id);
            &&& forall|n: int|
                0 <= n < wanted.len() ==> wants_session_start(i, id, #[trigger] wanted[n])
            &&& forall|path: Seq<char>| #[trigger]
                session_touches(i, id, path) ==> exists|n: int|
                    0 <= n < wanted.len() && (#[trigger] wanted[n]).path == path
            &&& forall|a: int, b: int|
                0 <= a < b < wanted.len() ==> (#[trigger] wanted[a]).path != (
                #[trigger] wanted[b]).path
        }),
{
    lemma_session_firsts(i, id);
    let plan = crate::table::listing(
        super::bulk::earliest(crate::timeline::session_events(i, id)),
    );
    let paths = super::bulk::paths_of(plan);
    let wanted = super::plan::session_wants(i, id);
    crate::table::lemma_increasing_distinct(paths);
    assert forall|n: int| 0 <= n < wanted.len() implies wants_session_start(
        i,
        id,
        #[trigger] wanted[n],
    ) by {
        assert(opens_session_at(i, id, plan[n].0, plan[n].1));
        let m = choose|m: int| #[trigger]
            is_first_of_session(i, id, plan[n].0, m) && i.events[m].row == plan[n].1;
        assert(is_first_of_session(i, id, wanted[n].path, m));
    }
    assert forall|path: Seq<char>| #[trigger] session_touches(i, id, path) implies exists|n: int|
        0 <= n < wanted.len() && (#[trigger] wanted[n]).path == path by {
        assert(paths.contains(path));
        let n = choose|n: int| 0 <= n < paths.len() && paths[n] == path;
        assert(wanted[n].path == path);
    }
    assert forall|a: int, b: int| 0 <= a < b < wanted.len() implies (#[trigger] wanted[a]).path != (
    #[trigger] wanted[b]).path by {
        assert(paths[a] != paths[b]);
    }
}

/// An item of a plan for a pin says what a revert to the state at the pin would do to its file.
pub proof fn law_a_pin_plan_says_what_would_change(i: Image, event_id: i64, n: int)
    requires
        crate::store::sound(i),
        i.file_states.dom().finite(),
        super::plan::planning_pin(i, event_id) is Ok,
        0 <= n < super::plan::planning_pin(i, event_id)->Ok_0.len(),
    ensures
        ({
            let x = super::plan::planning_pin(i, event_id)->Ok_0[n];
            &&& is_item_for(i, x, x.path, x.target_hash, event_id, ""@)
            &&& forall|m: int| #[trigger]
                crate::timeline::laws::is_newest_up_to(i, x.path, event_id, m) ==> x.target_hash
                    == i.events[m].row.after_hash
            &&& (forall|k: int|
                0 <= k < i.events.len() && (#[trigger] i.events[k]).row.path == x.path
                    ==> i.events[k].row.id > event_id) ==> x.target_hash is None
        }),
{
    let wanted = super::plan::pin_wants(i, event_id);
    let items = super::plan::planning(i, wanted)->Ok_0;
    let f = super::plan::worth(i);
    let plan = super::plan::planning_pin(i, event_id)->Ok_0;
    let x = plan[n];
    law_a_plan_says_what_would_change(i, wanted);
    assert(plan.contains(x));
    items.lemma_filter_contains_rev(f, x);
    let k = choose|k: int| 0 <= k < items.len() && items[k] == x;
    assert(is_item_for(
        i,
        items[k],
        wanted[k].path,
        wanted[k].target_hash,
        wanted[k].event_id,
        wanted[k].attribution,
    ));
    let m0 = super::bulk::project_at(i, event_id);
    let known = crate::timeline::snapshot(i.events, event_id);
    super::laws::lemma_snapshot_finite(i.events, event_id);
    assert(m0.dom() =~= known.dom() + i.file_states.dom());
    crate::table::lemma_listing_exists(m0);
    let targets = super::bulk::pin_targets(i, event_id);
    assert(m0[targets[k].0] == targets[k].1);
    assert(crate::table::keys_of(targets)[k] == x.path);
    assert(m0.dom().contains(crate::table::keys_of(targets)[k]));
    crate::timeline::laws::law_state_is_what_the_newest_events_left(i, event_id, x.path);
}

/// Carrying a plan out leaves every file as its item says, where no file stands in it twice and
/// nothing fails.
pub proof fn law_a_plan_is_carried_out(i: Image, plan: Seq<PlanItemView>, times: Seq<(i64, i64)>)
    requires
        forall|a: int, b: int|
            0 <= a < b < plan.len() ==> (#[trigger] plan[a]).path != (#[trigger] plan[b]).path,
        super::bulk::restoring_all(i, super::plan::plan_targets(plan), times).1 is None,
    ensures
        ({
            let run = super::bulk::restoring_all(i, super::plan::plan_targets(plan), times);
            let j = crate::image::replay(i, run.0);
            &&& forall|k: int|
                0 <= k < plan.len() ==> is_left_with(
                    j,
                    (#[trigger] plan[k]).path,
                    plan[k].target_hash,
                )
            &&& forall|path: Seq<char>|
                (forall|k: int| 0 <= k < plan.len() ==> (#[trigger] plan[k]).path != path)
                    ==> #[trigger] unchanged_at(i, j, path)
        }),
{
    let targets = super::plan::plan_targets(plan);
    let paths = super::bulk::paths_of(targets);
    assert(paths.no_duplicates()) by {
        assert forall|a: int, b: int| 0 <= a < paths.len() && 0 <= b < paths.len() && a
            != b implies paths[a] != paths[b] by {
            assert(paths[a] == plan[a].path && paths[b] == plan[b].path);
        }
    }
    super::laws::law_restores_reach_their_targets(i, targets, times);
    let j = crate::image::replay(i, super::bulk::restoring_all(i, targets, times).0);
    assert forall|k: int| 0 <= k < plan.len() implies is_left_with(
        j,
        (#[trigger] plan[k]).path,
        plan[k].target_hash,
    ) by {
        assert(targets[k] == (plan[k].path, plan[k].target_hash));
        assert(super::laws::brought(j, targets[k].0, targets[k].1));
    }
    assert forall|path: Seq<char>|
        (forall|k: int| 0 <= k < plan.len() ==> (#[trigger] plan[k]).path
            != path) implies #[trigger] unchanged_at(i, j, path) by {
        if paths.contains(path) {
            let k = choose|k: int| 0 <= k < paths.len() && paths[k] == path;
            assert(plan[k].path == path);
        }
        assert(super::laws::same_at(i, j, path));
    }
}

// --- previews ----------------------------------------------------------------------------------

/// What is shown of an event is the content after it, or before it where only that is asked for,
/// as it is stored.
pub proof fn law_the_asked_side_is_shown(i: Image, k: int, before: bool, after: bool)
    requires
        crate::store::sound(i),
        0 <= k < i.events.len(),
    ensures
        ({
            let e = i.events[k].row;
            let hash = if before && !after {
                e.before_hash
            } else {
                e.after_hash
            };
            let r = super::preview::side_of(i, e.id, before, after);
            &&& r is Ok <==> hash is Some && i.objects.contains_key(hash->0)
            &&& r is Ok ==> r->Ok_0 == stored(i, hash)
        }),
{
    crate::timeline::laws::law_event_is_found_by_number(i, i.events[k].row.id);
}

/// The lines of a comparison are shown one after the other, each behind its sign.
pub proof fn law_a_patch_shows_every_line(changes: Seq<LineChangeView>, c: LineChangeView)
    ensures
        super::preview::patch(Seq::<LineChangeView>::empty()).len() == 0,
        super::preview::patch(changes.push(c)) == super::preview::patch(changes) + (match c.tag {
            LineTag::Delete => "-"@,
            LineTag::Insert => "+"@,
            LineTag::Equal => " "@,
        }) + c.text,
{
    let f = super::preview::signed_line();
    let parts = changes.push(c).map_values(f);
    let n = changes.len() as int;
    assert(Seq::<LineChangeView>::empty().map_values(f) =~= Seq::<Seq<char>>::empty());
    crate::text::lemma_concat_next(parts, n);
    assert(parts.take(n) =~= changes.map_values(f));
    assert(parts.take(n + 1) =~= parts);
    assert(super::preview::patch(changes.push(c)) =~= super::preview::patch(changes) + (
    match c.tag {
        LineTag::Delete => "-"@,
        LineTag::Insert => "+"@,
        LineTag::Equal => " "@,
    }) + c.text);
}

/// Lines are counted by their tags, each once.
pub proof fn law_lines_are_counted(changes: Seq<LineChangeView>, tag: LineTag)
    ensures
        super::preview::tagged(changes, tag) == changes.filter(
            |c: LineChangeView| c.tag == tag,
        ).len(),
    decreases changes.len(),
{
    reveal(Seq::filter);
    if changes.len() > 0 {
        law_lines_are_counted(changes.drop_last(), tag);
    }
}

/// The sum of a number over the files of a report.
pub open spec fn summed(
    files: Seq<RevertFileView>,
    f: spec_fn(RevertFileView) -> usize,
) -> int
    decreases files.len(),
{
    if files.len() == 0 {
        0
    } else {
        summed(files.drop_last(), f) + f(files.last())
    }
}

/// A report has a file for every item of its plan, in their order, with the lines that are added
/// and removed there; its totals are the sums over the files.
pub proof fn law_a_report_adds_up(plan: Seq<PlanItemView>, kind: Seq<char>, target: Seq<char>)
    requires
        super::preview::plan_size(plan) <= usize::MAX,
        plan.len() <= usize::MAX,
    ensures
        ({
            let r = super::preview::report(plan, kind, target);
            &&& r.revert_type == kind && r.revert_target == target
            &&& r.file_count == plan.len()
            &&& r.files.len() == plan.len()
            &&& forall|k: int|
                0 <= k < plan.len() ==> {
                    let lines = super::preview::changes_of(plan[k]);
                    let file = #[trigger] r.files[k];
                    &&& file.filename == plan[k].path
                    &&& file.before_hash == plan[k].target_hash
                    &&& file.event_id == plan[k].event_id
                    &&& file.attribution == plan[k].attribution
                    &&& file.additions == lines.filter(
                        |c: LineChangeView| c.tag == LineTag::Insert,
                    ).len()
                    &&& file.deletions == lines.filter(
                        |c: LineChangeView| c.tag == LineTag::Delete,
                    ).len()
                    &&& file.changes == file.additions + file.deletions
                }
            &&& r.stats.additions == summed(r.files, |f: RevertFileView| f.additions)
            &&& r.stats.deletions == summed(r.files, |f: RevertFileView| f.deletions)
            &&& r.stats.total == r.stats.additions + r.stats.deletions
        }),
{
    let r = super::preview::report(plan, kind, target);
    assert forall|k: int| 0 <= k < plan.len() implies {
        let lines = super::preview::changes_of(plan[k]);
        let file = #[trigger] r.files[k];
        &&& file.filename == plan[k].path
        &&& file.before_hash == plan[k].target_hash
        &&& file.event_id == plan[k].event_id
        &&& file.attribution == plan[k].attribution
        &&& file.additions == lines.filter(|c: LineChangeView| c.tag == LineTag::Insert).len()
        &&& file.deletions == lines.filter(|c: LineChangeView| c.tag == LineTag::Delete).len()
        &&& file.changes == file.additions + file.deletions
    } by {
        lemma_item_lines(plan, k);
        assert(r.files[k] == super::preview::file_report(
            plan[k],
            super::preview::changes_of(plan[k]),
        ));
    }
    lemma_sums(plan);
}

proof fn lemma_item_lines(plan: Seq<PlanItemView>, k: int)
    requires
        0 <= k < plan.len(),
    ensures
        ({
            let lines = super::preview::changes_of(plan[k]);
            &&& super::preview::tagged(lines, LineTag::Insert) + super::preview::tagged(
                lines,
                LineTag::Delete,
            ) <= super::preview::plan_size(plan)
            &&& super::preview::tagged(lines, LineTag::Insert) == lines.filter(
                |c: LineChangeView| c.tag == LineTag::Insert,
            ).len()
            &&& super::preview::tagged(lines, LineTag::Delete) == lines.filter(
                |c: LineChangeView| c.tag == LineTag::Delete,
            ).len()
        }),
    decreases plan.len(),
{
    let lines = super::preview::changes_of(plan[k]);
    law_lines_are_counted(lines, LineTag::Insert);
    law_lines_are_counted(lines, LineTag::Delete);
    if k < plan.len() - 1 {
        assert(plan.drop_last()[k] == plan[k]);
        lemma_item_lines(plan.drop_last(), k);
    }
}

proof fn lemma_sums(plan: Seq<PlanItemView>)
    requires
        super::preview::plan_size(plan) <= usize::MAX,
    ensures
        ({
            let files = plan.map_values(super::preview::item_report());
            &&& super::preview::plan_lines(plan, LineTag::Insert) == summed(
                files,
                |f: RevertFileView| f.additions,
            )
            &&& super::preview::plan_lines(plan, LineTag::Delete) == summed(
                files,
                |f: RevertFileView| f.deletions,
            )
        }),
    decreases plan.len(),
{
    if plan.len() > 0 {
        let fewer = plan.drop_last();
        let files = plan.map_values(super::preview::item_report());
        lemma_sums(fewer);
        assert(files.drop_last() =~= fewer.map_values(super::preview::item_report()));
        let x = plan.last();
        assert(files.last() == super::preview::file_report(x, super::preview::changes_of(x)));
        if super::preview::is_binary(x) {
            assert(super::preview::changes_of(x).len() == 0);
        }
    }
}

// --- stores ------------------------------------------------------------------------------------

/// Whether one project follows from another by restores alone: no event, object, session or pin is
/// lost or changed, and what was added to the timeline are traces of restores.
pub open spec fn only_restored(i: Image, j: Image) -> bool {
    &&& i.events.len() <= j.events.len()
    &&& forall|k: int| 0 <= k < i.events.len() ==> (#[trigger] j.events[k]) == i.events[k]
    &&& forall|k: int|
        i.events.len() <= k < j.events.len() ==> (#[trigger] j.events[k]).row.attribution
            == "pre-restore"@ || j.events[k].row.attribution == "agent-undo-restore"@
    &&& i.objects.submap_of(j.objects)
    &&& (j.sessions, j.pins, j.marker) == (i.sessions, i.pins, i.marker)
}

proof fn lemma_only_restored(
    i: Image,
    targets: Seq<(Seq<char>, Option<Seq<char>>)>,
    times: Seq<(i64, i64)>,
)
    requires
        super::bulk::paths_of(targets).no_duplicates(),
    ensures
        only_restored(
            i,
            crate::image::replay(i, super::bulk::restoring_all(i, targets, times).0),
        ),
{
    let j = crate::image::replay(i, super::bulk::restoring_all(i, targets, times).0);
    super::laws::law_restores_reach_their_targets(i, targets, times);
    super::laws::lemma_restores_leave_traces(i, targets, times);
    assert forall|k: int| 0 <= k < i.events.len() implies (#[trigger] j.events[k])
        == i.events[k] by {
        assert(j.events.take(i.events.len() as int)[k] == i.events[k]);
    }
}

/// After a restore of one file: where it worked, the file is as its target says, two events were
/// added, and everything else is as it was; where it failed and more events could be numbered, no
/// file has changed.
pub proof fn law_after_a_restore(
    before: Store,
    after: Store,
    path: Seq<char>,
    target: Option<Seq<char>>,
    outcome: Option<crate::failure::FailureView>,
)
    requires
        before.wf(),
        super::restores_file(before, after, path, target, outcome),
    ensures
        ({
            let i = before.image();
            let j = after.image();
            &&& outcome is None ==> {
                &&& is_left_with(j, path, target)
                &&& only_restored(i, j)
                &&& j.events.len() == i.events.len() + 2
                &&& j.events[i.events.len() as int].row.path == path
                &&& j.events[i.events.len() as int].row.after_hash == held_hash(i, path)
                &&& j.events[i.events.len() as int + 1].row.path == path
                &&& j.events[i.events.len() as int + 1].row.before_hash == held_hash(i, path)
                &&& j.events[i.events.len() as int + 1].row.after_hash == target
                &&& i.files.remove(path) == j.files.remove(path)
                &&& i.file_states.remove(path) == j.file_states.remove(path)
            }
            &&& outcome is Some && i.last_event_id + 2 <= i64::MAX ==> j.files == i.files
                && j.file_states == i.file_states
            &&& outcome is None <==> {
                &&& i.last_event_id + 2 <= i64::MAX
                &&& !(i.files.contains_key(path) && i.files[path] is Directory)
                &&& target matches Some(hash) ==> i.objects.contains_key(hash) || held_hash(
                    i,
                    path,
                ) == Some(hash)
                &&& held(i, path) matches Some(bytes) ==> i.objects.contains_key(
                    crate::outside::blake3_hex(bytes),
                ) || crate::outside::zstd_encoded(bytes) is Some
            }
        }),
{
    let i = before.image();
    let (ts_ns, after_ts) = choose|ts_ns: i64, after_ts: i64| #[trigger]
        super::restores(before, after, path, target, ts_ns, after_ts, outcome);
    law_restore_fails_where_it_must(i, path, target, ts_ns, after_ts);
    if outcome is None {
        law_restore_does_what_it_says(i, path, target, ts_ns, after_ts);
        super::laws::law_restore_reaches_its_target(i, path, target, ts_ns, after_ts);
    }
}

/// After files were restored together: where it worked, each is as its target says, and every
/// other file is as it was; where it failed, nothing has changed.
pub proof fn law_after_files_are_restored_together(
    before: Store,
    after: Store,
    targets: Seq<(Seq<char>, Option<Seq<char>>)>,
    outcome: Option<crate::failure::FailureView>,
)
    requires
        super::bulk::restores_together(before, after, targets, outcome),
        super::bulk::paths_of(targets).no_duplicates(),
    ensures
        match outcome {
            None => {
                &&& forall|k: int|
                    0 <= k < targets.len() ==> is_left_with(
                        after.image(),
                        (#[trigger] targets[k]).0,
                        targets[k].1,
                    )
                &&& forall|path: Seq<char>|
                    !(#[trigger] super::bulk::paths_of(targets).contains(path)) ==> unchanged_at(
                        before.image(),
                        after.image(),
                        path,
                    )
                &&& only_restored(before.image(), after.image())
            },
            Some(_) => after.image() == before.image() && after.pending() == before.pending(),
        },
{
    let i = before.image();
    let times = choose|times: Seq<(i64, i64)>|
        times.len() == targets.len() && #[trigger] super::bulk::restores_together_at(
            before,
            after,
            targets,
            times,
            outcome,
        );
    super::laws::law_restores_reach_their_targets(i, targets, times);
    lemma_only_restored(i, targets, times);
    let run = super::bulk::restoring_together(i, targets, times);
    if outcome is Some {
        assert(run.0 =~= Seq::<crate::image::EffectView>::empty());
        assert(before.pending() + run.0 =~= before.pending());
    } else {
        let j = after.image();
        assert forall|k: int| 0 <= k < targets.len() implies is_left_with(
            j,
            (#[trigger] targets[k]).0,
            targets[k].1,
        ) by {
            assert(super::laws::brought(j, targets[k].0, targets[k].1));
        }
        assert forall|path: Seq<char>| !(#[trigger] super::bulk::paths_of(targets).contains(
            path,
        )) implies unchanged_at(i, j, path) by {
            assert(super::laws::same_at(i, j, path));
        }
    }
}

/// After files were restored one by one: where it worked, each is as its target says, and every
/// other file is as it was.
pub proof fn law_after_files_are_restored(
    before: Store,
    after: Store,
    targets: Seq<(Seq<char>, Option<Seq<char>>)>,
    outcome: Option<crate::failure::FailureView>,
)
    requires
        super::bulk::restores_files(before, after, targets, outcome),
        super::bulk::paths_of(targets).no_duplicates(),
    ensures
        only_restored(before.image(), after.image()),
        outcome is None ==> {
            &&& forall|k: int|
                0 <= k < targets.len() ==> is_left_with(
                    after.image(),
                    (#[trigger] targets[k]).0,
                    targets[k].1,
                )
        },
        forall|path: Seq<char>|
            !(#[trigger] super::bulk::paths_of(targets).contains(path)) ==> unchanged_at(
                before.image(),
                after.image(),
                path,
            ),
{
    let i = before.image();
    let times = choose|times: Seq<(i64, i64)>|
        times.len() == targets.len() && #[trigger] super::bulk::restores_all(
            before,
            after,
            targets,
            times,
            outcome,
        );
    super::laws::law_restores_reach_their_targets(i, targets, times);
    lemma_only_restored(i, targets, times);
    let j = after.image();
    if outcome is None {
        assert forall|k: int| 0 <= k < targets.len() implies is_left_with(
            j,
            (#[trigger] targets[k]).0,
            targets[k].1,
        ) by {
            assert(super::laws::brought(j, targets[k].0, targets[k].1));
        }
    }
    assert forall|path: Seq<char>| !(#[trigger] super::bulk::paths_of(targets).contains(
        path,
    )) implies unchanged_at(i, j, path) by {
        assert(super::laws::same_at(i, j, path));
    }
}

/// After a pin was restored: where it worked, every file is as the newest event there up to the
/// pin left it, and those that are tracked and have no such event are gone; where it failed,
/// nothing has changed. The pin is the one with the label that was made last.
pub proof fn law_after_a_pin_is_restored(
    before: Store,
    after: Store,
    label: Seq<char>,
    r: Result<Vec<String>, crate::failure::Failure>,
    p: int,
    path: Seq<char>,
)
    requires
        before.wf(),
        before.image().file_states.dom().finite(),
        super::bulk::restores_pin(before, after, label, r),
        0 <= p < before.image().pins.len(),
        before.image().pins[p].label == label,
        forall|q: int|
            0 <= q < before.image().pins.len() && (#[trigger] before.image().pins[q]).label == label
                && q != p ==> before.image().pins[q].created_at_ns
                < before.image().pins[p].created_at_ns,
    ensures
        ({
            let i = before.image();
            let j = after.image();
            let bound = i.pins[p].event_id;
            &&& r is Ok ==> {
                &&& only_restored(i, j)
                &&& forall|m: int| #[trigger]
                    crate::timeline::laws::is_newest_up_to(i, path, bound, m) ==> is_left_with(
                        j,
                        path,
                        i.events[m].row.after_hash,
                    )
                &&& (forall|k: int|
                    0 <= k < i.events.len() && (#[trigger] i.events[k]).row.path == path
                        ==> i.events[k].row.id > bound) ==> {
                    &&& i.file_states.contains_key(path) ==> !j.files.contains_key(path)
                    &&& !i.file_states.contains_key(path) ==> unchanged_at(i, j, path)
                }
            }
            &&& r is Err ==> j == i
        }),
{
    let i = before.image();
    crate::timeline::laws::law_label_means_the_newest_pin(i, label);
    let pin = crate::timeline::find_pin(i, label)->0;
    let q = choose|q: int| 0 <= q < i.pins.len() && i.pins[q] == pin;
    assert(i.pins[q].label == label);
    assert(i.pins[p].created_at_ns <= pin.created_at_ns);
    assert(q == p);
    let targets = super::bulk::pin_targets(i, pin.event_id);
    super::laws::lemma_pin_targets_once(i, pin.event_id);
    law_after_files_are_restored_together(
        before,
        after,
        targets,
        crate::failure::outcome(r),
    );
    let times = choose|times: Seq<(i64, i64)>|
        times.len() == targets.len() && #[trigger] super::bulk::restores_together_at(
            before,
            after,
            targets,
            times,
            crate::failure::outcome(r),
        );
    law_pin_brings_its_state_back(i, pin.event_id, times);
    assert(after.image().files.contains_key(path) || !after.image().files.contains_key(path));
}

/// After a session was rolled back: where it worked, every file that the session touched is as it
/// was before the first event of the session there, and every other file is as it was; where it
/// failed, nothing has changed.
pub proof fn law_after_a_session_is_rolled_back(
    before: Store,
    after: Store,
    id: Seq<char>,
    outcome: Option<crate::failure::FailureView>,
    path: Seq<char>,
)
    requires
        before.wf(),
        super::bulk::restores_together(
            before,
            after,
            super::bulk::session_targets(before.image(), id),
            outcome,
        ),
    ensures
        ({
            let i = before.image();
            let j = after.image();
            match outcome {
                None => {
                    &&& only_restored(i, j)
                    &&& session_touches(i, id, path) ==> exists|m: int| #[trigger]
                        is_first_of_session(i, id, path, m)
                    &&& forall|m: int| #[trigger]
                        is_first_of_session(i, id, path, m) ==> is_left_with(
                            j,
                            path,
                            i.events[m].row.before_hash,
                        )
                    &&& !session_touches(i, id, path) ==> unchanged_at(i, j, path)
                },
                Some(_) => j == i,
            }
        }),
{
    let i = before.image();
    let targets = super::bulk::session_targets(i, id);
    super::laws::lemma_session_targets_once(i, id);
    law_after_files_are_restored_together(before, after, targets, outcome);
    let times = choose|times: Seq<(i64, i64)>|
        times.len() == targets.len() && #[trigger] super::bulk::restores_together_at(
            before,
            after,
            targets,
            times,
            outcome,
        );
    law_session_rollback_undoes_the_session(i, id, times, path);
}

/// The difference of an event compares the contents on its two sides, as texts; a side without a
/// content counts as an empty text.
pub proof fn law_the_sides_of_an_event_are_compared(i: Image, k: int)
    requires
        crate::store::sound(i),
        0 <= k < i.events.len(),
    ensures
        ({
            let e = i.events[k].row;
            let older = match e.before_hash {
                Some(_) => crate::outside::utf8_lossy(stored(i, e.before_hash)),
                None => Seq::empty(),
            };
            let newer = match e.after_hash {
                Some(_) => crate::outside::utf8_lossy(stored(i, e.after_hash)),
                None => Seq::empty(),
            };
            let r = super::preview::diff_of(i, e.id);
            &&& r is Ok <==> (e.before_hash is None || i.objects.contains_key(e.before_hash->0))
                && (e.after_hash is None || i.objects.contains_key(e.after_hash->0))
            &&& r is Ok ==> r->Ok_0 == "--- a/"@ + e.path + " (event #"@
                + crate::text::decimal_int(e.id as int) + ", before)\n"@ + "+++ b/"@ + e.path
                + " (event #"@ + crate::text::decimal_int(e.id as int) + ", after)\n"@
                + super::preview::patch(crate::outside::line_changes(older, newer))
        }),
{
    crate::timeline::laws::law_event_is_found_by_number(i, i.events[k].row.id);
}

/// A report names the kind of each change and, for a text, shows the comparison of what the file
/// holds with what it is to hold.
pub proof fn law_a_report_shows_each_change(plan: Seq<PlanItemView>, kind: Seq<char>, target: Seq<
    char,
>, k: int)
    requires
        0 <= k < plan.len(),
    ensures
        ({
            let x = plan[k];
            let file = super::preview::report(plan, kind, target).files[k];
            let text = !x.old_content.contains(0u8) && !x.new_content.contains(0u8);
            &&& x.kind is Modified ==> file.status == "modified"@
            &&& x.kind is Created ==> file.status == "added"@
            &&& x.kind is Deleted ==> file.status == "removed"@
            &&& text ==> file.patch == Some(
                super::preview::patch(
                    crate::outside::line_changes(
                        crate::outside::utf8_lossy(x.new_content),
                        crate::outside::utf8_lossy(x.old_content),
                    ),
                ),
            )
            &&& text ==> super::preview::changes_of(x) == crate::outside::line_changes(
                crate::outside::utf8_lossy(x.new_content),
                crate::outside::utf8_lossy(x.old_content),
            )
            &&& !text ==> file.patch is None && file.additions == 0 && file.deletions == 0
            &&& x.new_content.len() > 0 ==> file.after_hash == Some(
                crate::outside::blake3_hex(x.new_content),
            )
        }),
{
}

/// What a file held is read back after a restore, where nothing was stored under its hash before:
/// that is what it means that it was rescued.
pub proof fn law_what_was_rescued_is_read_back(before: Image, after: Image, path: Seq<char>)
    requires
        super::rescued(before, after, path),
        held(before, path) is Some,
        !before.objects.contains_key(crate::outside::blake3_hex(held(before, path)->0)),
    ensures
        ({
            let bytes = held(before, path)->0;
            let hash = crate::outside::blake3_hex(bytes);
            &&& after.objects.contains_key(hash)
            &&& stored(after, Some(hash)) == bytes
        }),
{
    assert(super::current(before, path) == held(before, path));
}

/// What each of many files held is read back after they are restored, where nothing was stored
/// under its hash before and no two of them share a hash.
pub proof fn law_what_all_held_is_read_back(
    before: Image,
    after: Image,
    targets: Seq<(Seq<char>, Option<Seq<char>>)>,
    k: int,
)
    requires
        super::bulk::all_rescued(before, after, targets),
        0 <= k < targets.len(),
        held(before, targets[k].0) is Some,
        !before.objects.contains_key(held_hash(before, targets[k].0)->0),
        forall|m: int|
            0 <= m < targets.len() && held_hash(before, (#[trigger] targets[m]).0) == held_hash(
                before,
                targets[k].0,
            ) ==> held(before, targets[m].0) == held(before, targets[k].0),
    ensures
        after.objects.contains_key(held_hash(before, targets[k].0)->0),
        stored(after, held_hash(before, targets[k].0)) == held(before, targets[k].0)->0,
{
    assert forall|m: int| 0 <= m < targets.len() implies super::bulk::alike(
        before,
        targets[k].0,
        (#[trigger] targets[m]).0,
    ) by {
        assert(super::current(before, targets[m].0) == held(before, targets[m].0));
        assert(super::current(before, targets[k].0) == held(before, targets[k].0));
    }
    assert(super::bulk::is_lone(before, targets, k));
    assert(super::rescued(before, after, targets[k].0));
    law_what_was_rescued_is_read_back(before, after, targets[k].0);
}

} // verus!
