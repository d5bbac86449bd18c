//! What holds of every restore.
use vstd::prelude::*;

use crate::image::{EffectView, Image};
use crate::rows::EventRowView;

verus! {

/// Whether one list of events continues another.
pub open spec fn continues<T>(earlier: Seq<T>, later: Seq<T>) -> bool {
    earlier.len() <= later.len() && later.take(earlier.len() as int) == earlier
}

/// Whether a file has been brought to a target.
pub open spec fn brought(i: Image, path: Seq<char>, target: Option<Seq<char>>) -> bool {
    match target {
        Some(hash) => {
            &&& crate::store::changes::blob(i, hash) is Some
            &&& super::current(i, path) == crate::store::changes::blob(i, hash)
            &&& i.file_states.contains_key(path)
            &&& i.file_states[path].latest_hash == hash
        },
        None => !i.files.contains_key(path) && !i.file_states.contains_key(path),
    }
}

/// What a restore of one path leaves alone: everything but the path, its events, and objects that
/// are added.
pub open spec fn spares(i: Image, j: Image, path: Seq<char>) -> bool {
    &&& continues(i.events, j.events)
    &&& forall|k: int|
        i.events.len() <= k < j.events.len() ==> {
            &&& (#[trigger] j.events[k]).row.path == path
            &&& crate::timeline::is_restore(j.events[k].row.attribution)
        }
    &&& i.objects.submap_of(j.objects)
    &&& i.files.remove(path) == j.files.remove(path)
    &&& i.file_states.remove(path) == j.file_states.remove(path)
    &&& i.sessions == j.sessions
    &&& i.pins == j.pins
    &&& i.last_pin_id == j.last_pin_id
    &&& i.marker == j.marker
}

/// Whether nothing has changed at a path of the working tree.
pub open spec fn same_at(i: Image, j: Image, path: Seq<char>) -> bool {
    &&& i.files.contains_key(path) == j.files.contains_key(path)
    &&& i.files.contains_key(path) ==> i.files[path] == j.files[path]
    &&& i.file_states.contains_key(path) == j.file_states.contains_key(path)
    &&& i.file_states.contains_key(path) ==> i.file_states[path] == j.file_states[path]
}

/// A restore changes nothing at another path.
pub(crate) proof fn lemma_spares_others(i: Image, j: Image, path: Seq<char>, other: Seq<char>)
    requires
        spares(i, j, path),
        path != other,
    ensures
        same_at(i, j, other),
{
    assert(i.files.remove(path).contains_key(other) == i.files.contains_key(other));
    assert(j.files.remove(path).contains_key(other) == j.files.contains_key(other));
    assert(i.file_states.remove(path).contains_key(other) == i.file_states.contains_key(other));
    assert(j.file_states.remove(path).contains_key(other) == j.file_states.contains_key(other));
    if i.files.contains_key(other) {
        assert(i.files.remove(path)[other] == i.files[other]);
        assert(j.files.remove(path)[other] == j.files[other]);
    }
    if i.file_states.contains_key(other) {
        assert(i.file_states.remove(path)[other] == i.file_states[other]);
        assert(j.file_states.remove(path)[other] == j.file_states[other]);
    }
}

pub(crate) proof fn lemma_spares_both(i: Image, j: Image, k: Image, path: Seq<char>)
    requires
        spares(i, j, path),
        spares(j, k, path),
    ensures
        spares(i, k, path),
{
    assert(k.events.take(i.events.len() as int) =~= j.events.take(i.events.len() as int));
    vstd::map_lib::lemma_submap_of_trans(i.objects, j.objects, k.objects);
    assert forall|n: int| i.events.len() <= n < k.events.len() implies (
    #[trigger] k.events[n]).row.path == path && crate::timeline::is_restore(
        k.events[n].row.attribution,
    ) by {
        if n < j.events.len() {
            assert(k.events.take(j.events.len() as int)[n] == j.events[n]);
        }
    }
}

/// The second step of a restore.
pub(crate) proof fn lemma_applying(
    i: Image,
    path: Seq<char>,
    before: Option<(Seq<char>, i64)>,
    target: Option<Seq<char>>,
    ts_ns: i64,
)
    ensures
        ({
            let run = super::applying(i, path, before, target, ts_ns);
            let j = crate::image::replay(i, run.0);
            &&& spares(i, j, path)
            &&& j.objects == i.objects
            &&& j.last_event_id >= i.last_event_id
            &&& run.1 is None ==> {
                &&& brought(j, path, target)
                &&& j.events.len() == i.events.len() + 1
                &&& j.events.last().row.after_hash == target
            }
        }),
{
    let run = super::applying(i, path, before, target, ts_ns);
    let e = run.0;
    let empty = Seq::<EffectView>::empty();
    crate::image::lemma_replay_push(i, empty, e[0]);
    crate::image::lemma_replay_push(i, empty.push(e[0]), e[1]);
    crate::image::lemma_replay_push(i, empty.push(e[0]).push(e[1]), e[2]);
    if e.len() == 1 {
        assert(e =~= empty.push(e[0]));
    } else if e.len() == 2 {
        assert(e =~= empty.push(e[0]).push(e[1]));
    } else if e.len() == 3 {
        assert(e =~= empty.push(e[0]).push(e[1]).push(e[2]));
    }
    let j = crate::image::replay(i, e);
    assert(j.events.take(i.events.len() as int) =~= i.events);
    assert(i.files.remove(path) =~= j.files.remove(path));
    assert(i.file_states.remove(path) =~= j.file_states.remove(path));
}

/// The first step of a restore.
proof fn lemma_snapshotting(i: Image, path: Seq<char>, ts_ns: i64)
    requires
        super::saving(i, path) is Some,
    ensures
        ({
            let j = crate::image::replay(i, super::snapshotting(i, path, ts_ns));
            &&& spares(i, j, path)
            &&& j.files == i.files
            &&& j.file_states == i.file_states
            &&& i.last_event_id < i64::MAX ==> j.last_event_id == i.last_event_id + 1
            &&& j.events.len() == i.events.len() + 1
            &&& j.events.last().row.attribution == "pre-restore"@
            &&& super::current(i, path) matches Some(bytes) ==> {
                &&& j.objects.contains_key(crate::outside::blake3_hex(bytes))
                &&& j.events.last().row.before_hash == Some(crate::outside::blake3_hex(bytes))
                &&& j.events.last().row.after_hash == Some(crate::outside::blake3_hex(bytes))
            }
            &&& super::current(i, path) is None ==> {
                &&& j.events.last().row.before_hash is None
                &&& j.events.last().row.after_hash is None
            }
        }),
{
    let saved = super::saving(i, path)->0;
    let e = super::snapshotting(i, path, ts_ns);
    let k = crate::image::replay(i, saved);
    if saved.len() > 0 {
        crate::image::lemma_replay_few(i, saved[0], saved[0]);
        assert(saved =~= seq![saved[0]]);
    }
    crate::image::lemma_replay_push(i, saved, e.last());
    let j = crate::image::replay(i, e);
    assert(j == crate::image::apply(k, e.last()));
    assert(j.events.take(i.events.len() as int) =~= i.events);
}

/// A restore that works brings the file to its target. Whether it works or not, it takes no event
/// out of the timeline and no object out of the store, and it changes no other file, no session
/// and no pin.
pub proof fn law_restore_reaches_its_target(
    i: Image,
    path: Seq<char>,
    target: Option<Seq<char>>,
    ts_ns: i64,
    after_ts: i64,
)
    ensures
        ({
            let run = super::restoring(i, path, target, ts_ns, after_ts);
            let j = crate::image::replay(i, run.0);
            &&& run.1 is None ==> brought(j, path, target)
            &&& spares(i, j, path)
        }),
{
    let run = super::restoring(i, path, target, ts_ns, after_ts);
    match super::saving(i, path) {
        None => {
            assert(i.events.take(i.events.len() as int) =~= i.events);
        },
        Some(saved) => {
            if i.last_event_id == i64::MAX {
                if saved.len() > 0 {
                    crate::image::lemma_replay_few(i, saved[0], saved[0]);
                    assert(saved =~= seq![saved[0]]);
                }
                assert(i.events.take(i.events.len() as int) =~= i.events);
            } else {
                let first = super::snapshotting(i, path, ts_ns);
                let middle = crate::image::replay(i, first);
                let m = super::mark(super::current(i, path));
                lemma_snapshotting(i, path, ts_ns);
                lemma_applying(middle, path, m, target, after_ts);
                let second = super::applying(middle, path, m, target, after_ts);
                crate::image::lemma_replay_concat(i, first, second.0);
                lemma_spares_both(i, middle, crate::image::replay(i, run.0), path);
            }
        },
    }
}

/// A restore notes what was there before it does anything to the file: a `pre-restore` event
/// names the content, and the store holds an object for it.
pub proof fn law_restore_takes_a_snapshot_first(
    i: Image,
    path: Seq<char>,
    target: Option<Seq<char>>,
    ts_ns: i64,
    after_ts: i64,
)
    requires
        super::saving(i, path) is Some,
        i.last_event_id < i64::MAX,
    ensures
        ({
            let run = super::restoring(i, path, target, ts_ns, after_ts);
            let j = crate::image::replay(i, run.0);
            let n = i.events.len() as int;
            &&& n < j.events.len()
            &&& j.events[n].row.attribution == "pre-restore"@
            &&& j.events[n].row.path == path
            &&& match super::current(i, path) {
                Some(bytes) => {
                    let hash = crate::outside::blake3_hex(bytes);
                    &&& j.events[n].row.before_hash == Some(hash)
                    &&& j.events[n].row.after_hash == Some(hash)
                    &&& j.objects.contains_key(hash)
                },
                None => j.events[n].row.before_hash is None && j.events[n].row.after_hash is None,
            }
            &&& forall|k: int|
                0 <= k < super::snapshotting(i, path, ts_ns).len() ==> !((#[trigger] run.0[k]) is WriteFile)
                    && !(run.0[k] is RemoveFile)
        }),
{
    let first = super::snapshotting(i, path, ts_ns);
    let middle = crate::image::replay(i, first);
    let m = super::mark(super::current(i, path));
    lemma_snapshotting(i, path, ts_ns);
    lemma_applying(middle, path, m, target, after_ts);
    let second = super::applying(middle, path, m, target, after_ts);
    crate::image::lemma_replay_concat(i, first, second.0);
    let j = crate::image::replay(i, first + second.0);
    let n = i.events.len() as int;
    assert(j.events.take(middle.events.len() as int)[n] == middle.events[n]);
    let run = super::restoring(i, path, target, ts_ns, after_ts);
    assert forall|k: int| 0 <= k < first.len() implies !((#[trigger] run.0[k]) is WriteFile)
        && !(run.0[k] is RemoveFile) by {
        assert(run.0[k] == first[k]);
    }
}

/// Undoing the undo: after a restore, restoring the content that the file had before it cannot
/// fail for want of that content, and where it works the file has that content again. What the
/// file had before is what the store keeps under the hash of the `pre-restore` event.
pub proof fn law_restore_can_be_undone(
    i: Image,
    path: Seq<char>,
    target: Option<Seq<char>>,
    ts_ns: i64,
    after_ts: i64,
    later: i64,
    later_after: i64,
)
    requires
        super::restoring(i, path, target, ts_ns, after_ts).1 is None,
        super::current(i, path) is Some ==> crate::store::changes::keeps(
            crate::image::replay(i, super::restoring(i, path, target, ts_ns, after_ts).0),
            super::current(i, path)->0,
        ),
    ensures
        ({
            let j = crate::image::replay(
                i,
                super::restoring(i, path, target, ts_ns, after_ts).0,
            );
            let back = match super::current(i, path) {
                Some(bytes) => Some(crate::outside::blake3_hex(bytes)),
                None => None,
            };
            let again = super::restoring(j, path, back, later, later_after);
            let k = crate::image::replay(j, again.0);
            &&& again.1 matches Some(f) ==> f is Encode || f is Full
            &&& again.1 is None ==> super::current(k, path) == super::current(i, path)
        }),
{
    let j = crate::image::replay(i, super::restoring(i, path, target, ts_ns, after_ts).0);
    let back = match super::current(i, path) {
        Some(bytes) => Some(crate::outside::blake3_hex(bytes)),
        None => None,
    };
    law_restore_reaches_its_target(i, path, target, ts_ns, after_ts);
    law_restore_reaches_its_target(j, path, back, later, later_after);
    let again = super::restoring(j, path, back, later, later_after);
    if super::saving(j, path) is Some && j.last_event_id < i64::MAX {
        let first = super::snapshotting(j, path, later);
        let middle = crate::image::replay(j, first);
        lemma_snapshotting(j, path, later);
        assert(middle.files == j.files);
    }
}

/// The objects that a restore adds: none but one for the content that the file had.
pub(crate) proof fn lemma_restore_adds(
    i: Image,
    path: Seq<char>,
    target: Option<Seq<char>>,
    ts_ns: i64,
    after_ts: i64,
)
    ensures
        ({
            let run = super::restoring(i, path, target, ts_ns, after_ts);
            let j = crate::image::replay(i, run.0);
            forall|hash: Seq<char>| #[trigger]
                j.objects.contains_key(hash) && !i.objects.contains_key(hash)
                    ==> super::current(i, path) is Some && hash == crate::outside::blake3_hex(
                    super::current(i, path)->0,
                )
        }),
{
    let run = super::restoring(i, path, target, ts_ns, after_ts);
    if let Some(saved) = super::saving(i, path) {
        let kept = crate::image::replay(i, saved);
        if saved.len() > 0 {
            crate::image::lemma_replay_few(i, saved[0], saved[0]);
            assert(saved =~= seq![saved[0]]);
        }
        if i.last_event_id < i64::MAX {
            let first = super::snapshotting(i, path, ts_ns);
            let middle = crate::image::replay(i, first);
            let m = super::mark(super::current(i, path));
            crate::image::lemma_replay_push(i, saved, first.last());
            assert(middle.objects == kept.objects);
            lemma_applying(middle, path, m, target, after_ts);
            let second = super::applying(middle, path, m, target, after_ts);
            crate::image::lemma_replay_concat(i, first, second.0);
        }
    }
}

// --- many files --------------------------------------------------------------------------------

/// The files of a plan stand in it once each.
pub(crate) proof fn lemma_undone_once(m: Map<Seq<char>, EventRowView>)
    requires
        m.dom().finite(),
    ensures
        super::bulk::paths_of(super::bulk::undone(crate::table::listing(m))).no_duplicates(),
{
    let plan = crate::table::listing(m);
    crate::table::lemma_listing_exists(m);
    assert(super::bulk::paths_of(super::bulk::undone(plan)) =~= crate::table::keys_of(plan));
    crate::table::lemma_increasing_distinct(crate::table::keys_of(plan));
}

/// The files that a session touched stand once each in what rolling it back restores.
pub(crate) proof fn lemma_session_targets_once(i: Image, session_id: Seq<char>)
    ensures
        super::bulk::paths_of(super::bulk::session_targets(i, session_id)).no_duplicates(),
{
    let events = crate::timeline::session_events(i, session_id);
    lemma_earliest(events);
    lemma_undone_once(super::bulk::earliest(events));
}

/// The known files stand once each in what restoring a pin restores.
pub(crate) proof fn lemma_pin_targets_once(i: Image, event_id: i64)
    requires
        i.file_states.dom().finite(),
    ensures
        super::bulk::paths_of(super::bulk::pin_targets(i, event_id)).no_duplicates(),
{
    let m = super::bulk::project_at(i, event_id);
    lemma_snapshot_finite(i.events, event_id);
    assert(m.dom() =~= crate::timeline::snapshot(i.events, event_id).dom() + i.file_states.dom());
    crate::table::lemma_listing_exists(m);
    crate::table::lemma_increasing_distinct(crate::table::keys_of(crate::table::listing(m)));
}

/// The files of the last burst stand once each in what undoing it restores.
pub(crate) proof fn lemma_oops_once(i: Image, window_ns: i64)
    ensures
        super::bulk::paths_of(
            super::bulk::undone(super::bulk::oops_of(i, window_ns)),
        ).no_duplicates(),
{
    let undoable = crate::timeline::recent(i, super::bulk::OOPS_REACH as nat).filter(
        crate::timeline::by_user(),
    );
    if undoable.len() > 0 {
        let session = crate::timeline::session_events(i, undoable[0].session_id->0);
        let burst = super::bulk::burst(undoable, undoable[0].ts_ns - window_ns);
        lemma_earliest(session);
        lemma_undone_once(super::bulk::earliest(session));
        lemma_latest(burst);
        lemma_undone_once(super::bulk::latest(burst));
    }
}

/// Restoring files one after the other brings each of them to its target, where no path occurs
/// twice and none of the restores fails; and it takes nothing out of the timeline or the store.
pub proof fn law_restores_reach_their_targets(
    i: Image,
    targets: Seq<(Seq<char>, Option<Seq<char>>)>,
    times: Seq<(i64, i64)>,
)
    requires
        super::bulk::paths_of(targets).no_duplicates(),
    ensures
        ({
            let run = super::bulk::restoring_all(i, targets, times);
            let j = crate::image::replay(i, run.0);
            &&& run.1 is None ==> forall|k: int|
                0 <= k < targets.len() ==> brought(j, (#[trigger] targets[k]).0, targets[k].1)
            &&& continues(i.events, j.events)
            &&& i.objects.submap_of(j.objects)
            &&& forall|p: Seq<char>|
                !(#[trigger] super::bulk::paths_of(targets).contains(p)) ==> same_at(i, j, p)
            &&& i.sessions == j.sessions
            &&& i.pins == j.pins
            &&& i.marker == j.marker
        }),
    decreases targets.len(),
{
    let run = super::bulk::restoring_all(i, targets, times);
    if targets.len() == 0 {
        assert(i.events.take(i.events.len() as int) =~= i.events);
    } else {
        let fewer = targets.drop_last();
        let paths = super::bulk::paths_of(targets);
        assert(super::bulk::paths_of(fewer) =~= paths.drop_last());
        law_restores_reach_their_targets(i, fewer, times);
        let done = super::bulk::restoring_all(i, fewer, times);
        let middle = crate::image::replay(i, done.0);
        assert forall|p: Seq<char>| super::bulk::paths_of(fewer).contains(p) implies paths.contains(
            p,
        ) by {
            let k = choose|k: int|
                0 <= k < fewer.len() && super::bulk::paths_of(fewer)[k] == p;
            assert(paths[k] == p);
        }
        if done.1 is None {
            let t = targets.last();
            let time = times[targets.len() - 1];
            let more = super::restoring(middle, t.0, t.1, time.0, time.1);
            let j = crate::image::replay(middle, more.0);
            crate::image::lemma_replay_concat(i, done.0, more.0);
            law_restore_reaches_its_target(middle, t.0, t.1, time.0, time.1);
            assert(j.events.take(i.events.len() as int) =~= middle.events.take(
                i.events.len() as int,
            ));
            vstd::map_lib::lemma_submap_of_trans(i.objects, middle.objects, j.objects);
            assert(paths[targets.len() - 1] == t.0);
            assert forall|p: Seq<char>| !(#[trigger] paths.contains(p)) implies same_at(i, j, p) by {
                assert(!super::bulk::paths_of(fewer).contains(p));
                lemma_spares_others(middle, j, t.0, p);
            }
            if more.1 is None {
                assert forall|k: int| 0 <= k < targets.len() implies brought(
                    j,
                    (#[trigger] targets[k]).0,
                    targets[k].1,
                ) by {
                    if k < fewer.len() {
                        assert(fewer[k] == targets[k]);
                        assert(paths[k] == targets[k].0);
                        assert(paths[k] != paths[targets.len() - 1]);
                        lemma_spares_others(middle, j, t.0, targets[k].0);
                    }
                }
            }
        }
    }
}

/// The first event of each file in a list is one that no event of the file precedes.
pub(crate) proof fn lemma_earliest(events: Seq<EventRowView>)
    ensures
        super::bulk::earliest(events).dom().finite(),
        forall|p: Seq<char>| #[trigger]
            super::bulk::earliest(events).contains_key(p) ==> exists|m: int|
                is_first_at(events, p, m) && super::bulk::earliest(events)[p] == #[trigger] events[m],
        forall|k: int|
            0 <= k < events.len() ==> super::bulk::earliest(events).contains_key(
                (#[trigger] events[k]).path,
            ),
    decreases events.len(),
{
    let all = super::bulk::earliest(events);
    if events.len() > 0 {
        let fewer = events.drop_last();
        lemma_earliest(fewer);
        let m = super::bulk::earliest(fewer);
        assert forall|k: int| 0 <= k < events.len() implies all.contains_key(
            (#[trigger] events[k]).path,
        ) by {
            if k < fewer.len() {
                assert(fewer[k] == events[k]);
            }
        }
        assert forall|p: Seq<char>| #[trigger] all.contains_key(p) implies exists|n: int|
            is_first_at(events, p, n) && all[p] == #[trigger] events[n] by {
            if m.contains_key(p) {
                let n = choose|n: int| is_first_at(fewer, p, n) && m[p] == #[trigger] fewer[n];
                assert(events[n] == fewer[n]);
                assert(is_first_at(events, p, n)) by {
                    assert forall|o: int| 0 <= o < n implies (#[trigger] events[o]).path != p by {
                        assert(fewer[o] == events[o]);
                    }
                }
            } else {
                let n = events.len() - 1;
                assert(events[n] == events.last());
                assert forall|o: int| 0 <= o < n implies (#[trigger] events[o]).path != p by {
                    assert(fewer[o] == events[o]);
                }
                assert(is_first_at(events, p, n));
            }
        }
    }
}

/// Whether the event at a place in a list is the first of a file.
pub open spec fn is_first_at(events: Seq<EventRowView>, path: Seq<char>, m: int) -> bool {
    &&& 0 <= m < events.len()
    &&& events[m].path == path
    &&& forall|n: int| 0 <= n < m ==> (#[trigger] events[n]).path != path
}

/// Rolling back what a plan names brings each of its files to its content before its event.
proof fn lemma_plan_brought(i: Image, m: Map<Seq<char>, EventRowView>, times: Seq<(i64, i64)>)
    requires
        m.dom().finite(),
    ensures
        ({
            let targets = super::bulk::undone(crate::table::listing(m));
            let run = super::bulk::restoring_all(i, targets, times);
            let j = crate::image::replay(i, run.0);
            &&& super::bulk::paths_of(targets).no_duplicates()
            &&& run.1 is None ==> forall|p: Seq<char>| #[trigger]
                m.contains_key(p) ==> brought(j, p, m[p].before_hash)
        }),
{
    let plan = crate::table::listing(m);
    let targets = super::bulk::undone(plan);
    crate::table::lemma_listing_exists(m);
    assert(super::bulk::paths_of(targets) =~= crate::table::keys_of(plan));
    crate::table::lemma_increasing_distinct(crate::table::keys_of(plan));
    law_restores_reach_their_targets(i, targets, times);
    let run = super::bulk::restoring_all(i, targets, times);
    let j = crate::image::replay(i, run.0);
    if run.1 is None {
        assert forall|p: Seq<char>| #[trigger] m.contains_key(p) implies brought(
            j,
            p,
            m[p].before_hash,
        ) by {
            assert(m.dom().contains(p));
            assert(crate::table::keys_of(plan).contains(p));
            let k = choose|k: int|
                0 <= k < plan.len() && crate::table::keys_of(plan)[k] == p;
            assert(plan[k].0 == p);
            assert(m[plan[k].0] == plan[k].1);
            assert(targets[k] == (p, m[p].before_hash));
        }
    }
}

/// Rolling a session back is all or nothing: either every file that the session touched is brought
/// to its content before the first event of the session there, or nothing at all has changed.
pub proof fn law_session_is_rolled_back(
    i: Image,
    session_id: Seq<char>,
    times: Seq<(i64, i64)>,
    path: Seq<char>,
)
    requires
        exists|k: int|
            0 <= k < crate::timeline::session_events(i, session_id).len()
                && (#[trigger] crate::timeline::session_events(i, session_id)[k]).path == path,
    ensures
        ({
            let events = crate::timeline::session_events(i, session_id);
            let run = super::bulk::restoring_together(
                i,
                super::bulk::session_targets(i, session_id),
                times,
            );
            let j = crate::image::replay(i, run.0);
            match run.1 {
                None => exists|m: int|
                    is_first_at(events, path, m) && brought(
                        j,
                        path,
                        (#[trigger] events[m]).before_hash,
                    ),
                Some(_) => j == i,
            }
        }),
{
    let events = crate::timeline::session_events(i, session_id);
    let k = choose|k: int| 0 <= k < events.len() && (#[trigger] events[k]).path == path;
    lemma_earliest(events);
    let first = super::bulk::earliest(events);
    lemma_plan_brought(i, first, times);
    assert(first.contains_key(events[k].path));
    let m = choose|m: int| is_first_at(events, path, m) && first[path] == #[trigger] events[m];
    assert(events[m].path == path);
}

/// What is known of the files after an event is finite.
pub(crate) proof fn lemma_snapshot_finite(events: Seq<crate::rows::EventRecordView>, id: i64)
    ensures
        crate::timeline::snapshot(events, id).dom().finite(),
    decreases events.len(),
{
    if events.len() > 0 {
        lemma_snapshot_finite(events.drop_last(), id);
    }
}

/// Restoring a pin is all or nothing: either every known file is brought to its content after the
/// event of the pin, those that are tracked now and did not exist then being removed, or nothing
/// at all has changed. (That a store tracks finitely many files is
/// `Store::lemma_tracks_finitely_many`.)
pub proof fn law_pin_is_restored(
    i: Image,
    event_id: i64,
    times: Seq<(i64, i64)>,
    path: Seq<char>,
)
    requires
        i.file_states.dom().finite(),
        super::bulk::project_at(i, event_id).contains_key(path),
    ensures
        ({
            let run = super::bulk::restoring_together(
                i,
                super::bulk::pin_targets(i, event_id),
                times,
            );
            let j = crate::image::replay(i, run.0);
            match run.1 {
                None => brought(j, path, super::bulk::project_at(i, event_id)[path]),
                Some(_) => j == i,
            }
        }),
{
    let m = super::bulk::project_at(i, event_id);
    let known = crate::timeline::snapshot(i.events, event_id);
    lemma_snapshot_finite(i.events, event_id);
    assert(m.dom() =~= known.dom() + i.file_states.dom());
    crate::table::lemma_listing_exists(m);
    let targets = crate::table::listing(m);
    crate::table::lemma_increasing_distinct(crate::table::keys_of(targets));
    law_restores_reach_their_targets(i, targets, times);
    assert(m.dom().contains(path));
    assert(crate::table::keys_of(targets).contains(path));
    let k = choose|k: int|
        0 <= k < targets.len() && crate::table::keys_of(targets)[k] == path;
    assert(targets[k].0 == path);
    assert(m[targets[k].0] == targets[k].1);
}

// --- what is undone ----------------------------------------------------------------------------

/// The last event of each file in a list is an event of the list.
proof fn lemma_latest(events: Seq<EventRowView>)
    ensures
        super::bulk::latest(events).dom().finite(),
        forall|p: Seq<char>| #[trigger]
            super::bulk::latest(events).contains_key(p) ==> events.contains(
                super::bulk::latest(events)[p],
            ) && super::bulk::latest(events)[p].path == p,
    decreases events.len(),
{
    if events.len() > 0 {
        let fewer = events.drop_last();
        lemma_latest(fewer);
        assert forall|p: Seq<char>| #[trigger]
            super::bulk::latest(events).contains_key(p) implies events.contains(
            super::bulk::latest(events)[p],
        ) && super::bulk::latest(events)[p].path == p by {
            if p == events.last().path {
                assert(events[events.len() - 1] == events.last());
            } else {
                let e = super::bulk::latest(fewer)[p];
                let k = choose|k: int| 0 <= k < fewer.len() && fewer[k] == e;
                assert(events[k] == e);
            }
        }
    }
}

/// A burst is made of events of the list.
proof fn lemma_burst(events: Seq<EventRowView>, cutoff: int)
    ensures
        forall|k: int|
            0 <= k < super::bulk::burst(events, cutoff).len() ==> events.contains(
                #[trigger] super::bulk::burst(events, cutoff)[k],
            ) && super::bulk::burst(events, cutoff)[k].ts_ns >= cutoff,
    decreases events.len(),
{
    if events.len() > 0 && events[0].ts_ns >= cutoff {
        let rest = events.drop_first();
        lemma_burst(rest, cutoff);
        let b = super::bulk::burst(events, cutoff);
        assert forall|k: int| 0 <= k < b.len() implies events.contains(#[trigger] b[k]) && b[k].ts_ns
            >= cutoff by {
            if k == 0 {
                assert(b[0] == events[0]);
            } else {
                let e = super::bulk::burst(rest, cutoff)[k - 1];
                assert(b[k] == e);
                let n = choose|n: int| 0 <= n < rest.len() && rest[n] == e;
                assert(events[n + 1] == e);
            }
        }
    }
}

/// The newest event of a file that a user or an agent caused is not one that a restore or the
/// first scan recorded: a restore walks past its own traces.
pub proof fn law_restores_are_walked_past(i: Image, path: Seq<char>)
    ensures
        crate::timeline::latest_user_at(i, path) matches Some(e) ==> e.path == path
            && !crate::timeline::is_bookkeeping(e.attribution),
        crate::timeline::latest_user(i) matches Some(e) ==> !crate::timeline::is_bookkeeping(
            e.attribution,
        ),
{
    let s = crate::timeline::rows(i.events);
    let f = crate::timeline::by_user_at(path);
    if s.filter(f).len() > 0 {
        s.lemma_filter_pred(f, s.filter(f).len() - 1);
    }
    let g = crate::timeline::by_user();
    if s.filter(g).len() > 0 {
        s.lemma_filter_pred(g, s.filter(g).len() - 1);
    }
}

/// An `oops` never undoes the traces of a restore, it names each file once, and where it works it
/// brings each file to its content before the event that it names.
pub proof fn law_oops_undoes_what_it_plans(i: Image, window_ns: i64, times: Seq<(i64, i64)>, k: int)
    requires
        0 <= k < super::bulk::oops_of(i, window_ns).len(),
    ensures
        ({
            let plan = super::bulk::oops_of(i, window_ns);
            let run = super::bulk::restoring_all(i, super::bulk::undone(plan), times);
            let j = crate::image::replay(i, run.0);
            &&& plan[k].1.path == plan[k].0
            &&& !crate::timeline::is_restore(plan[k].1.attribution)
            &&& super::bulk::paths_of(plan).no_duplicates()
            &&& run.1 is None ==> brought(j, plan[k].0, plan[k].1.before_hash)
        }),
{
    let plan = super::bulk::oops_of(i, window_ns);
    let recent = crate::timeline::recent(i, super::bulk::OOPS_REACH as nat);
    let undoable = recent.filter(crate::timeline::by_user());
    let in_session = undoable[0].session_id is Some && crate::timeline::session_events(
        i,
        undoable[0].session_id->0,
    ).len() > 0;
    let m = if in_session {
        super::bulk::earliest(crate::timeline::session_events(i, undoable[0].session_id->0))
    } else {
        super::bulk::latest(super::bulk::burst(undoable, undoable[0].ts_ns - window_ns))
    };
    if in_session {
        let id = undoable[0].session_id->0;
        let events = crate::timeline::session_events(i, id);
        lemma_earliest(events);
        lemma_plan_brought(i, m, times);
        crate::table::lemma_listing_exists(m);
        assert(crate::table::keys_of(plan)[k] == plan[k].0);
        assert(m.dom().contains(plan[k].0));
        let p = plan[k].0;
        let n = choose|n: int| is_first_at(events, p, n) && m[p] == #[trigger] events[n];
        law_session_events_belong(i, id, n);
        assert(m[plan[k].0] == plan[k].1);
    } else {
        let b = super::bulk::burst(undoable, undoable[0].ts_ns - window_ns);
        lemma_burst(undoable, undoable[0].ts_ns - window_ns);
        lemma_latest(b);
        lemma_plan_brought(i, m, times);
        crate::table::lemma_listing_exists(m);
        assert(crate::table::keys_of(plan)[k] == plan[k].0);
        assert(m.dom().contains(plan[k].0));
        assert(m[plan[k].0] == plan[k].1);
        let e = plan[k].1;
        assert(b.contains(e));
        let n = choose|n: int| 0 <= n < b.len() && b[n] == e;
        assert(undoable.contains(e));
        let o = choose|o: int| 0 <= o < undoable.len() && undoable[o] == e;
        recent.lemma_filter_pred(crate::timeline::by_user(), o);
    }
    assert(super::bulk::paths_of(super::bulk::undone(plan)) =~= super::bulk::paths_of(plan));
}

/// The events of a session are its own, in the order of their time stamps, and none of them is
/// the trace of a restore.
pub proof fn law_session_events_belong(i: Image, session_id: Seq<char>, k: int)
    requires
        0 <= k < crate::timeline::session_events(i, session_id).len(),
    ensures
        ({
            let events = crate::timeline::session_events(i, session_id);
            &&& events[k].session_id == Some(session_id)
            &&& !crate::timeline::is_restore(events[k].attribution)
            &&& crate::timeline::rows(i.events).contains(events[k])
            &&& k > 0 ==> events[k - 1].ts_ns <= events[k].ts_ns
        }),
{
    broadcast use vstd::seq_lib::group_to_multiset_ensures;

    let all = crate::timeline::rows(i.events);
    let f = crate::timeline::in_session(session_id);
    let s = all.filter(f);
    let key = |e: EventRowView| e.ts_ns as int;
    let events = crate::timeline::session_events(i, session_id);
    crate::timeline::lemma_sorted(s, key);
    assert(events.contains(events[k]));
    assert(events.to_multiset().count(events[k]) > 0);
    assert(s.to_multiset().count(events[k]) > 0);
    assert(s.contains(events[k]));
    let n = choose|n: int| 0 <= n < s.len() && s[n] == events[k];
    all.lemma_filter_pred(f, n);
    all.lemma_filter_contains_rev(f, events[k]);
    if k > 0 {
        assert(key(events[k - 1]) <= key(events[k]));
    }
}

/// A restore that works leaves the tracked files in step with the timeline.
pub proof fn law_restore_keeps_step(
    i: Image,
    path: Seq<char>,
    target: Option<Seq<char>>,
    ts_ns: i64,
    after_ts: i64,
)
    requires
        crate::store::laws::in_step(i),
        super::restoring(i, path, target, ts_ns, after_ts).1 is None,
    ensures
        crate::store::laws::in_step(
            crate::image::replay(i, super::restoring(i, path, target, ts_ns, after_ts).0),
        ),
{
    let run = super::restoring(i, path, target, ts_ns, after_ts);
    let j = crate::image::replay(i, run.0);
    let first = super::snapshotting(i, path, ts_ns);
    let middle = crate::image::replay(i, first);
    let m = super::mark(super::current(i, path));
    lemma_snapshotting(i, path, ts_ns);
    lemma_applying(middle, path, m, target, after_ts);
    let second = super::applying(middle, path, m, target, after_ts);
    crate::image::lemma_replay_concat(i, first, second.0);
    law_restore_reaches_its_target(i, path, target, ts_ns, after_ts);
    lemma_spares_both(i, middle, j, path);
    let n = i.events.len() as int;
    assert(middle.events =~= i.events.push(middle.events[n])) by {
        assert(middle.events.take(n)[0] == middle.events.take(n)[0]);
        assert forall|k: int| 0 <= k < n implies middle.events[k] == i.events[k] by {
            assert(middle.events.take(n)[k] == middle.events[k]);
        }
    }
    assert(j.events =~= middle.events.push(j.events[n + 1])) by {
        assert forall|k: int| 0 <= k < n + 1 implies j.events[k] == middle.events[k] by {
            assert(j.events.take(n + 1)[k] == j.events[k]);
        }
    }
    crate::store::laws::lemma_latest_known_push(i.events, middle.events[n]);
    crate::store::laws::lemma_latest_known_push(middle.events, j.events[n + 1]);
    assert forall|p: Seq<char>|
        {
            let known = crate::store::laws::latest_known(j.events);
            &&& #[trigger] j.file_states.contains_key(p) <==> known.contains_key(p)
                && known[p] is Some
            &&& j.file_states.contains_key(p) ==> Some(j.file_states[p].latest_hash) == known[p]
        } by {
        if p != path {
            lemma_spares_others(i, j, path, p);
            assert(i.file_states.contains_key(p) == j.file_states.contains_key(p));
        }
    }
}

/// Where the newest event that a user or an agent caused belongs to a session, an `oops` rolls
/// that session back, however long ago it began.
pub proof fn law_oops_prefers_the_session(i: Image, window_ns: i64)
    requires
        crate::timeline::latest_user(i) is Some,
        crate::timeline::latest_user(i)->0.session_id is Some,
        crate::timeline::recent(i, super::bulk::OOPS_REACH as nat).contains(
            crate::timeline::latest_user(i)->0,
        ),
        crate::store::sound(i),
    ensures
        super::bulk::undone(super::bulk::oops_of(i, window_ns)) == super::bulk::session_targets(
            i,
            crate::timeline::latest_user(i)->0.session_id->0,
        ),
{
    broadcast use vstd::seq_lib::group_to_multiset_ensures;

    let all = crate::timeline::rows(i.events);
    let f = crate::timeline::by_user();
    let newest = crate::timeline::latest_user(i)->0;
    let reach = super::bulk::OOPS_REACH as nat;
    let recent = crate::timeline::recent(i, reach);
    let undoable = recent.filter(f);
    let users = all.filter(f);
    all.lemma_filter_pred(f, users.len() - 1);
    assert(users.contains(newest)) by {
        assert(users[users.len() - 1] == newest);
    }
    all.lemma_filter_contains_rev(f, newest);
    let at = choose|at: int| 0 <= at < all.len() && all[at] == newest;
    lemma_after_last_of_filter(all, f, at);
    let r = choose|r: int| 0 <= r < recent.len() && recent[r] == newest;
    assert(recent[r] == all[all.len() - 1 - r]);
    // Numbers are distinct, so `newest` stands in one place only.
    assert(all.len() - 1 - r == at) by {
        let k = all.len() - 1 - r;
        assert(all[k].id == i.events[k].row.id);
        assert(all[at].id == i.events[at].row.id);
        if k < at {
            assert(i.events[k].row.id < i.events[at].row.id);
        } else if at < k {
            assert(i.events[at].row.id < i.events[k].row.id);
        }
    }
    assert(undoable[0] == newest) by {
        let before = recent.take(r);
        assert forall|k: int| 0 <= k < before.len() implies !f(#[trigger] before[k]) by {
            assert(before[k] == all[all.len() - 1 - k]);
        }
        before.lemma_all_neg_filter_empty(f);
        crate::timeline::lemma_filter_next(recent, f, r);
        assert(before.filter(f) =~= Seq::<EventRowView>::empty());
        lemma_filter_prefix(recent, f, r + 1);
        let shown = recent.take(r + 1).filter(f);
        assert(f(recent[r]));
        assert(shown =~= seq![newest]);
        assert(undoable.take(1)[0] == shown[0]);
    }
    let id = newest.session_id->0;
    let g = crate::timeline::in_session(id);
    let own = all.filter(g);
    all.lemma_filter_contains(g, at);
    assert(own.len() > 0);
    let key = |e: EventRowView| e.ts_ns as int;
    crate::timeline::lemma_sorted(own, key);
    assert(crate::timeline::session_events(i, id) == crate::timeline::sorted(own, key));
    recent.lemma_filter_contains(f, r);
    assert(undoable.len() > 0);
    assert(super::bulk::oops_of(i, window_ns) == crate::table::listing(
        super::bulk::earliest(crate::timeline::session_events(i, id)),
    ));
}

/// No item behind the last that a filter lets through is let through.
proof fn lemma_after_last_of_filter<T>(s: Seq<T>, f: spec_fn(T) -> bool, at: int)
    requires
        0 <= at < s.len(),
        f(s[at]),
        s.filter(f).len() > 0,
        s.filter(f).last() == s[at],
        forall|a: int, b: int| 0 <= a < b < s.len() ==> s[a] != s[b],
    ensures
        forall|k: int| at < k < s.len() ==> !f(#[trigger] s[k]),
    decreases s.len(),
{
    reveal(Seq::filter);
    let t = s.drop_last();
    if f(s.last()) {
        assert(s[s.len() - 1] == s[at]);
    } else {
        assert(at < t.len());
        assert(t[at] == s[at]);
        assert forall|a: int, b: int| 0 <= a < b < t.len() implies t[a] != t[b] by {
            assert(s[a] != s[b]);
        }
        lemma_after_last_of_filter(t, f, at);
        assert forall|k: int| at < k < s.len() implies !f(#[trigger] s[k]) by {
            if k < t.len() {
                assert(t[k] == s[k]);
            }
        }
    }
}

/// Filtering the beginning of a list gives the beginning of the filtered list.
proof fn lemma_filter_prefix<T>(s: Seq<T>, f: spec_fn(T) -> bool, n: int)
    requires
        0 <= n <= s.len(),
    ensures
        s.take(n).filter(f).len() <= s.filter(f).len(),
        s.filter(f).take(s.take(n).filter(f).len() as int) == s.take(n).filter(f),
{
    assert(s =~= s.take(n) + s.skip(n));
    Seq::filter_distributes_over_add(s.take(n), s.skip(n), f);
    assert(s.filter(f).take(s.take(n).filter(f).len() as int) =~= s.take(n).filter(f));
}

/// A plan for a session, carried out, restores what rolling the session back restores.
pub proof fn law_session_plan_restores_the_session(i: Image, session_id: Seq<char>)
    requires
        super::plan::planning(i, super::plan::session_wants(i, session_id)) is Ok,
    ensures
        super::plan::plan_targets(
            super::plan::planning(i, super::plan::session_wants(i, session_id))->Ok_0,
        ) == super::bulk::session_targets(i, session_id),
{
    let wanted = super::plan::session_wants(i, session_id);
    lemma_planning(i, wanted);
    assert(super::plan::plan_targets(super::plan::planning(i, wanted)->Ok_0)
        =~= super::bulk::session_targets(i, session_id));
}

/// A plan has an item for each file that is wanted.
proof fn lemma_planning(i: Image, wanted: Seq<super::plan::WantedView>)
    requires
        super::plan::planning(i, wanted) is Ok,
    ensures
        ({
            let items = super::plan::planning(i, wanted)->Ok_0;
            &&& items.len() == wanted.len()
            &&& forall|k: int|
                0 <= k < items.len() ==> (#[trigger] items[k]).path == wanted[k].path
                    && items[k].target_hash == wanted[k].target_hash && super::plan::planning_one(
                    i,
                    wanted[k],
                ) == Ok::<_, crate::failure::FailureView>(items[k])
        }),
    decreases wanted.len(),
{
    if wanted.len() > 0 {
        lemma_planning(i, wanted.drop_last());
    }
}

/// The content that a target stands for: `None` where it means that there is no file.
pub open spec fn meant(i: Image, target: Option<Seq<char>>) -> Option<Seq<u8>> {
    match target {
        Some(hash) => crate::store::changes::blob(i, hash),
        None => None,
    }
}

/// The plan for a pin names the known files that are not as they were when it was made, an empty
/// file being another thing than none; but for those that are missing and still tracked, of which
/// nothing says that they were deleted.
pub proof fn law_pin_plan_names_what_differs(i: Image, event_id: i64, k: int)
    requires
        i.file_states.dom().finite(),
        super::plan::planning_pin(i, event_id) is Ok,
        0 <= k < super::bulk::pin_targets(i, event_id).len(),
    ensures
        ({
            let plan = super::plan::planning_pin(i, event_id)->Ok_0;
            let t = super::bulk::pin_targets(i, event_id)[k];
            (exists|n: int| 0 <= n < plan.len() && (#[trigger] plan[n]).path == t.0) <==> {
                &&& super::current(i, t.0) != meant(i, t.1)
                &&& !(super::current(i, t.0) is None && i.file_states.contains_key(t.0))
            }
        }),
{
    let targets = super::bulk::pin_targets(i, event_id);
    let wanted = super::plan::pin_wants(i, event_id);
    let items = super::plan::planning(i, wanted)->Ok_0;
    let f = super::plan::worth(i);
    let plan = super::plan::planning_pin(i, event_id)->Ok_0;
    let t = targets[k];
    lemma_planning(i, wanted);
    lemma_pin_targets_once(i, event_id);
    assert(wanted[k].path == t.0);
    assert(items[k].path == t.0);
    if f(items[k]) {
        items.lemma_filter_contains(f, k);
        let n = choose|n: int| 0 <= n < plan.len() && plan[n] == items[k];
        assert(plan[n].path == t.0);
    }
    if exists|n: int| 0 <= n < plan.len() && (#[trigger] plan[n]).path == t.0 {
        let n = choose|n: int| 0 <= n < plan.len() && (#[trigger] plan[n]).path == t.0;
        items.lemma_filter_pred(f, n);
        assert(plan.contains(plan[n]));
        items.lemma_filter_contains_rev(f, plan[n]);
        let m = choose|m: int| 0 <= m < items.len() && items[m] == plan[n];
        assert(items[m].path == wanted[m].path);
        let paths = super::bulk::paths_of(targets);
        assert(paths[m] == paths[k]);
        assert(m == k);
    }
}

// --- again -------------------------------------------------------------------------------------

/// Whether a timeline continues another by traces of restores alone.
pub open spec fn traced(i: Image, j: Image) -> bool {
    &&& continues(i.events, j.events)
    &&& forall|k: int|
        i.events.len() <= k < j.events.len() ==> crate::timeline::is_restore(
            (#[trigger] j.events[k]).row.attribution,
        )
}

/// Restores add traces alone to the timeline.
pub(crate) proof fn lemma_restores_leave_traces(
    i: Image,
    targets: Seq<(Seq<char>, Option<Seq<char>>)>,
    times: Seq<(i64, i64)>,
)
    ensures
        traced(
            i,
            crate::image::replay(i, super::bulk::restoring_all(i, targets, times).0),
        ),
    decreases targets.len(),
{
    let run = super::bulk::restoring_all(i, targets, times);
    if targets.len() == 0 {
        assert(i.events.take(i.events.len() as int) =~= i.events);
    } else {
        lemma_restores_leave_traces(i, targets.drop_last(), times);
        let done = super::bulk::restoring_all(i, targets.drop_last(), times);
        if done.1 is None {
            let middle = crate::image::replay(i, done.0);
            let t = targets.last();
            let time = times[targets.len() - 1];
            let more = super::restoring(middle, t.0, t.1, time.0, time.1);
            let j = crate::image::replay(middle, more.0);
            crate::image::lemma_replay_concat(i, done.0, more.0);
            law_restore_reaches_its_target(middle, t.0, t.1, time.0, time.1);
            assert(j.events.take(i.events.len() as int) =~= middle.events.take(
                i.events.len() as int,
            ));
            assert forall|k: int| i.events.len() <= k < j.events.len() implies crate::timeline::is_restore(
                (#[trigger] j.events[k]).row.attribution,
            ) by {
                if k < middle.events.len() {
                    assert(j.events.take(middle.events.len() as int)[k] == middle.events[k]);
                }
            }
        }
    }
}

/// A question that passes over the traces of restores has one answer before and after them.
proof fn lemma_traces_are_passed_over(i: Image, j: Image, f: spec_fn(EventRowView) -> bool)
    requires
        traced(i, j),
        forall|e: EventRowView|
            crate::timeline::is_restore(e.attribution) ==> !(#[trigger] f(e)),
    ensures
        crate::timeline::rows(j.events).filter(f) == crate::timeline::rows(i.events).filter(f),
        crate::timeline::rows(j.events).reverse().filter(f) == crate::timeline::rows(
            i.events,
        ).reverse().filter(f),
{
    let a = crate::timeline::rows(i.events);
    let b = crate::timeline::rows(j.events);
    let n = a.len() as int;
    let c = b.skip(n);
    assert(b =~= a + c) by {
        assert forall|k: int| 0 <= k < n implies b[k] == a[k] by {
            assert(j.events.take(n)[k] == i.events[k]);
        }
    }
    assert forall|k: int| 0 <= k < c.len() implies !f(#[trigger] c[k]) by {
        assert(c[k] == j.events[n + k].row);
    }
    let d = c.reverse();
    assert forall|k: int| 0 <= k < d.len() implies !f(#[trigger] d[k]) by {
        assert(d[k] == c[c.len() - 1 - k]);
    }
    crate::store::laws::lemma_filter_none(c, f);
    crate::store::laws::lemma_filter_none(d, f);
    assert(b.reverse() =~= d + a.reverse());
    Seq::filter_distributes_over_add(a, c, f);
    Seq::filter_distributes_over_add(d, a.reverse(), f);
    assert(a.filter(f) + Seq::<EventRowView>::empty() =~= a.filter(f));
    assert(Seq::<EventRowView>::empty() + a.reverse().filter(f) =~= a.reverse().filter(f));
}

/// Restoring the latest change to a file twice is restoring it once: the second restore finds the
/// same change, cannot fail for want of its content, and leaves the file with the same content.
pub proof fn law_restoring_the_latest_change_again(
    i: Image,
    path: Seq<char>,
    ts_ns: i64,
    after_ts: i64,
    later: i64,
    later_after: i64,
)
    requires
        crate::timeline::latest_user_at(i, path) is Some,
        super::restoring(
            i,
            path,
            crate::timeline::latest_user_at(i, path)->0.before_hash,
            ts_ns,
            after_ts,
        ).1 is None,
    ensures
        ({
            let e = crate::timeline::latest_user_at(i, path)->0;
            let j = crate::image::replay(
                i,
                super::restoring(i, path, e.before_hash, ts_ns, after_ts).0,
            );
            let again = super::restoring(j, path, e.before_hash, later, later_after);
            let k = crate::image::replay(j, again.0);
            &&& crate::timeline::latest_user_at(j, path) == Some(e)
            &&& again.1 matches Some(f) ==> f is Encode || f is Full
            &&& again.1 is None ==> super::current(k, path) == super::current(j, path)
        }),
{
    let e = crate::timeline::latest_user_at(i, path)->0;
    let j = crate::image::replay(i, super::restoring(i, path, e.before_hash, ts_ns, after_ts).0);
    law_restore_reaches_its_target(i, path, e.before_hash, ts_ns, after_ts);
    law_restore_reaches_its_target(j, path, e.before_hash, later, later_after);
    assert(traced(i, j));
    lemma_traces_are_passed_over(i, j, crate::timeline::by_user_at(path));
    if super::saving(j, path) is Some && j.last_event_id < i64::MAX {
        lemma_snapshotting(j, path, later);
    }
}

/// After an `oops`, whether it worked or not, another one would undo the same: its own traces are
/// passed over, as long as the timeline holds no more events than it looks at.
pub proof fn law_oops_plans_the_same_again(i: Image, window_ns: i64, times: Seq<(i64, i64)>)
    requires
        crate::image::replay(
            i,
            super::bulk::restoring_all(
                i,
                super::bulk::undone(super::bulk::oops_of(i, window_ns)),
                times,
            ).0,
        ).events.len() <= super::bulk::OOPS_REACH,
    ensures
        ({
            let targets = super::bulk::undone(super::bulk::oops_of(i, window_ns));
            let j = crate::image::replay(i, super::bulk::restoring_all(i, targets, times).0);
            super::bulk::oops_of(j, window_ns) == super::bulk::oops_of(i, window_ns)
        }),
{
    let targets = super::bulk::undone(super::bulk::oops_of(i, window_ns));
    let j = crate::image::replay(i, super::bulk::restoring_all(i, targets, times).0);
    lemma_restores_leave_traces(i, targets, times);
    lemma_traces_are_passed_over(i, j, crate::timeline::by_user());
    let recent = crate::timeline::recent(i, super::bulk::OOPS_REACH as nat);
    assert(recent == crate::timeline::rows(i.events).reverse());
    let undoable = recent.filter(crate::timeline::by_user());
    if undoable.len() > 0 && undoable[0].session_id is Some {
        let id = undoable[0].session_id->0;
        lemma_traces_are_passed_over(i, j, crate::timeline::in_session(id));
    }
}

} // verus!
