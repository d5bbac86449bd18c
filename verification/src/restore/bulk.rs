//! Restoring many files: a session, a pin, the last burst of changes.
use vstd::prelude::*;

use super::restore_file_at;
use crate::failure::{Failure, FailureView};
use crate::image::{EffectView, Image};
use crate::outside::now_ns;
use crate::rows::{EventRow, EventRowView};
use crate::store::Store;
use crate::table::{listed, TextMap};
use crate::timeline::is_restore_bookkeeping;

verus! {

broadcast use vstd::string::group_string_axioms;

/// What a list of restores changes, one file after the other up to the first that fails, and why
/// that one failed. The times are those of the steps of each restore.
pub open spec fn restoring_all(
    i: Image,
    targets: Seq<(Seq<char>, Option<Seq<char>>)>,
    times: Seq<(i64, i64)>,
) -> (Seq<EffectView>, Option<FailureView>)
    decreases targets.len(),
{
    if targets.len() == 0 {
        (Seq::empty(), None)
    } else {
        let done = restoring_all(i, targets.drop_last(), times);
        if done.1 is Some {
            done
        } else {
            let t = targets.last();
            let time = times[targets.len() - 1];
            let more = super::restoring(
                crate::image::replay(i, done.0),
                t.0,
                t.1,
                time.0,
                time.1,
            );
            (done.0 + more.0, more.1)
        }
    }
}

/// Whether a list of restores changed the store and came out as it should.
pub open spec fn restores_all(
    before: Store,
    after: Store,
    targets: Seq<(Seq<char>, Option<Seq<char>>)>,
    times: Seq<(i64, i64)>,
    outcome: Option<FailureView>,
) -> bool {
    let run = restoring_all(before.image(), targets, times);
    &&& Store::did(before, after, run.0)
    &&& outcome == run.1
}

/// Whether a list of restores, at whatever times, changed the store and came out as it should.
pub open spec fn restores_files(
    before: Store,
    after: Store,
    targets: Seq<(Seq<char>, Option<Seq<char>>)>,
    outcome: Option<FailureView>,
) -> bool {
    exists|times: Seq<(i64, i64)>|
        times.len() == targets.len() && #[trigger] restores_all(
            before,
            after,
            targets,
            times,
            outcome,
        )
}

/// Once a restore has failed, no later one is tried.
proof fn lemma_stops(
    i: Image,
    targets: Seq<(Seq<char>, Option<Seq<char>>)>,
    times: Seq<(i64, i64)>,
    n: int,
)
    requires
        0 <= n <= targets.len(),
        restoring_all(i, targets.take(n), times).1 is Some,
    ensures
        restoring_all(i, targets, times) == restoring_all(i, targets.take(n), times),
    decreases targets.len(),
{
    if n == targets.len() {
        assert(targets.take(n) =~= targets);
    } else {
        assert(targets.drop_last().take(n) =~= targets.take(n));
        lemma_stops(i, targets.drop_last(), times, n);
    }
}

/// Whether two files that both exist have one content where they have one hash.
pub open spec fn alike(i: Image, p: Seq<char>, q: Seq<char>) -> bool {
    match (super::current(i, p), super::current(i, q)) {
        (Some(a), Some(b)) => crate::outside::blake3_hex(a) == crate::outside::blake3_hex(b)
            ==> a == b,
        _ => true,
    }
}

/// Whether no other of the files has another content with the hash of the content of the one at
/// a place.
pub open spec fn is_lone(i: Image, targets: Seq<(Seq<char>, Option<Seq<char>>)>, k: int) -> bool {
    forall|m: int| 0 <= m < targets.len() ==> alike(i, targets[k].0, (#[trigger] targets[m]).0)
}

/// Whether what each of the files held before can be read back after, unless something else was
/// stored under its hash or another of the files has another content with that hash.
pub open spec fn all_rescued(
    before: Image,
    after: Image,
    targets: Seq<(Seq<char>, Option<Seq<char>>)>,
) -> bool {
    forall|k: int|
        0 <= k < targets.len() && is_lone(before, targets, k) ==> super::rescued(
            before,
            after,
            (#[trigger] targets[k]).0,
        )
}

/// How far a list of restores has come: those that are done have rescued what their files held,
/// and added no object but for that; the files of the others are as they were.
spec fn underway(
    i: Image,
    now: Image,
    targets: Seq<(Seq<char>, Option<Seq<char>>)>,
    done: int,
) -> bool {
    &&& i.objects.submap_of(now.objects)
    &&& forall|k: int|
        done <= k < targets.len() ==> super::current(now, (#[trigger] targets[k]).0)
            == super::current(i, targets[k].0)
    &&& forall|hash: Seq<char>| #[trigger]
        now.objects.contains_key(hash) && !i.objects.contains_key(hash) ==> exists|k: int|
            0 <= k < done && super::current(i, (#[trigger] targets[k]).0) is Some && hash
                == crate::outside::blake3_hex(super::current(i, targets[k].0)->0)
    &&& forall|k: int|
        0 <= k < done && is_lone(i, targets, k) ==> super::rescued(
            i,
            now,
            (#[trigger] targets[k]).0,
        )
}

/// What was rescued stays so as long as no object goes.
proof fn lemma_still_rescued(i: Image, now: Image, later: Image, path: Seq<char>)
    requires
        super::rescued(i, now, path),
        now.objects.submap_of(later.objects),
    ensures
        super::rescued(i, later, path),
{
    if let Some(bytes) = super::current(i, path) {
        let hash = crate::outside::blake3_hex(bytes);
        assert(now.objects.contains_key(hash) ==> later.objects.contains_key(hash)
            && later.objects[hash] == now.objects[hash]);
    }
}

/// One more restore.
proof fn lemma_underway(
    i: Image,
    now: Image,
    targets: Seq<(Seq<char>, Option<Seq<char>>)>,
    done: int,
    time: (i64, i64),
)
    requires
        0 <= done < targets.len(),
        paths_of(targets).no_duplicates(),
        underway(i, now, targets, done),
        ({
            let t = targets[done];
            let run = super::restoring(now, t.0, t.1, time.0, time.1);
            super::rescued(now, crate::image::replay(now, run.0), t.0)
        }),
    ensures
        ({
            let t = targets[done];
            let run = super::restoring(now, t.0, t.1, time.0, time.1);
            underway(i, crate::image::replay(now, run.0), targets, done + 1)
        }),
{
    let t = targets[done];
    let run = super::restoring(now, t.0, t.1, time.0, time.1);
    let later = crate::image::replay(now, run.0);
    let paths = paths_of(targets);
    super::laws::law_restore_reaches_its_target(now, t.0, t.1, time.0, time.1);
    super::laws::lemma_restore_adds(now, t.0, t.1, time.0, time.1);
    vstd::map_lib::lemma_submap_of_trans(i.objects, now.objects, later.objects);
    assert(super::current(now, t.0) == super::current(i, t.0));
    assert forall|k: int| done + 1 <= k < targets.len() implies super::current(
        later,
        (#[trigger] targets[k]).0,
    ) == super::current(i, targets[k].0) by {
        assert(paths[k] == targets[k].0 && paths[done] == t.0);
        super::laws::lemma_spares_others(now, later, t.0, targets[k].0);
    }
    assert forall|hash: Seq<char>| #[trigger] later.objects.contains_key(hash)
        && !i.objects.contains_key(hash) implies exists|k: int|
        0 <= k < done + 1 && super::current(i, (#[trigger] targets[k]).0) is Some && hash
            == crate::outside::blake3_hex(super::current(i, targets[k].0)->0) by {
        if now.objects.contains_key(hash) {
            let k = choose|k: int|
                0 <= k < done && super::current(i, (#[trigger] targets[k]).0) is Some && hash
                    == crate::outside::blake3_hex(super::current(i, targets[k].0)->0);
            assert(super::current(i, targets[k].0) is Some);
        } else {
            assert(super::current(i, targets[done].0) is Some);
        }
    }
    assert forall|k: int| 0 <= k < done + 1 && is_lone(i, targets, k) implies super::rescued(
        i,
        later,
        (#[trigger] targets[k]).0,
    ) by {
        if k < done {
            lemma_still_rescued(i, now, later, targets[k].0);
        } else if let Some(bytes) = super::current(i, t.0) {
            let hash = crate::outside::blake3_hex(bytes);
            if i.objects.contains_key(hash) {
                assert(now.objects[hash] == i.objects[hash]);
            } else if now.objects.contains_key(hash) {
                let m = choose|m: int|
                    0 <= m < done && super::current(i, (#[trigger] targets[m]).0) is Some && hash
                        == crate::outside::blake3_hex(super::current(i, targets[m].0)->0);
                assert(alike(i, targets[k].0, targets[m].0));
                assert(super::current(i, targets[m].0) == Some(bytes));
                assert(is_lone(i, targets, m)) by {
                    assert forall|n: int| 0 <= n < targets.len() implies alike(
                        i,
                        targets[m].0,
                        (#[trigger] targets[n]).0,
                    ) by {
                        assert(alike(i, targets[k].0, targets[n].0));
                    }
                }
                assert(super::rescued(i, now, targets[m].0));
            }
        }
    }
}

/// Brings files to the contents under hashes, or removes them, one after the other up to the
/// first that fails, at the given times.
pub fn restore_all_at(
    store: &mut Store,
    targets: &Vec<(String, Option<String>)>,
    times: &Vec<(i64, i64)>,
) -> (r: Result<(), Failure>)
    requires
        old(store).wf(),
        times.len() == targets.len(),
    ensures
        restores_all(
            *old(store),
            *final(store),
            targets.deep_view(),
            times@,
            crate::failure::outcome(r),
        ),
        r is Ok && paths_of(targets.deep_view()).no_duplicates() ==> all_rescued(
            old(store).image(),
            final(store).image(),
            targets.deep_view(),
        ),
{
    let ghost start = *store;
    let ghost i = store.image();
    let ghost d = targets.deep_view();
    let mut k: usize = 0;
    proof {
        Store::lemma_did_nothing(start);
        assert(d.take(0).len() == 0);
    }
    while k < targets.len()
        invariant
            k <= targets.len(),
            times.len() == targets.len(),
            d == targets.deep_view(),
            i == start.image(),
            start == *old(store),
            store.wf(),
            restoring_all(i, d.take(k as int), times@).1 is None,
            Store::did(start, *store, restoring_all(i, d.take(k as int), times@).0),
            paths_of(d).no_duplicates() ==> underway(i, store.image(), d, k as int),
        decreases targets.len() - k,
    {
        let ghost done = restoring_all(i, d.take(k as int), times@).0;
        let ghost before = *store;
        let path = targets[k].0.as_str();
        let target: Option<&str> = match &targets[k].1 {
            Some(hash) => Some(hash.as_str()),
            None => None,
        };
        let time: (i64, i64) = times[k];
        let ghost t = d[k as int];
        proof {
            assert(t == targets@[k as int].deep_view());
            assert(target.deep_view() == t.1);
            assert(d.take(k + 1).drop_last() =~= d.take(k as int));
            assert(d.take(k + 1).last() == t);
        }
        let r = restore_file_at(store, path, target, time.0, time.1);
        proof {
            let more = super::restoring(before.image(), t.0, t.1, time.0, time.1);
            Store::lemma_did_both(start, before, *store, done, more.0);
            if r is Ok && paths_of(d).no_duplicates() {
                assert(super::saving(before.image(), t.0) is Some);
                lemma_underway(i, before.image(), d, k as int, time);
            }
        }
        match r {
            Ok(()) => {},
            Err(f) => {
                proof {
                    lemma_stops(i, d, times@, k + 1);
                }
                return Err(f);
            },
        }
        k = k + 1;
    }
    assert(d.take(d.len() as int) =~= d);
    Ok(())
}

/// The times of the steps of so many restores.
fn stamps(n: usize) -> (r: Vec<(i64, i64)>)
    ensures
        r.len() == n,
{
    let mut out: Vec<(i64, i64)> = Vec::new();
    while out.len() < n
        invariant
            out.len() <= n,
        decreases n - out.len(),
    {
        let first: i64 = now_ns();
        let second: i64 = now_ns();
        out.push((first, second));
    }
    out
}

/// Brings files to the contents under hashes, or removes them, one after the other up to the
/// first that fails.
pub fn restore_all(store: &mut Store, targets: &Vec<(String, Option<String>)>) -> (r: Result<
    (),
    Failure,
>)
    requires
        old(store).wf(),
    ensures
        restores_files(
            *old(store),
            *final(store),
            targets.deep_view(),
            crate::failure::outcome(r),
        ),
        r is Ok && paths_of(targets.deep_view()).no_duplicates() ==> all_rescued(
            old(store).image(),
            final(store).image(),
            targets.deep_view(),
        ),
{
    let times = stamps(targets.len());
    assert(times@.len() == targets.deep_view().len());
    restore_all_at(store, targets, &times)
}

/// What restoring files together changes: what restoring one after the other changes, or nothing
/// where one of them fails.
pub open spec fn restoring_together(
    i: Image,
    targets: Seq<(Seq<char>, Option<Seq<char>>)>,
    times: Seq<(i64, i64)>,
) -> (Seq<EffectView>, Option<FailureView>) {
    let run = restoring_all(i, targets, times);
    if run.1 is None {
        run
    } else {
        (Seq::empty(), run.1)
    }
}

/// Whether files were restored together and came out as they should.
pub open spec fn restores_together_at(
    before: Store,
    after: Store,
    targets: Seq<(Seq<char>, Option<Seq<char>>)>,
    times: Seq<(i64, i64)>,
    outcome: Option<FailureView>,
) -> bool {
    let run = restoring_together(before.image(), targets, times);
    &&& Store::did(before, after, run.0)
    &&& outcome == run.1
}

/// Whether files were restored together, at whatever times, and came out as they should.
pub open spec fn restores_together(
    before: Store,
    after: Store,
    targets: Seq<(Seq<char>, Option<Seq<char>>)>,
    outcome: Option<FailureView>,
) -> bool {
    exists|times: Seq<(i64, i64)>|
        times.len() == targets.len() && #[trigger] restores_together_at(
            before,
            after,
            targets,
            times,
            outcome,
        )
}

/// Brings files to the contents under hashes, or removes them, all of them or, where one fails,
/// none, at the given times.
pub fn restore_together_at(
    store: &mut Store,
    targets: &Vec<(String, Option<String>)>,
    times: &Vec<(i64, i64)>,
) -> (r: Result<(), Failure>)
    requires
        old(store).wf(),
        times.len() == targets.len(),
    ensures
        restores_together_at(
            *old(store),
            *final(store),
            targets.deep_view(),
            times@,
            crate::failure::outcome(r),
        ),
        r is Ok && paths_of(targets.deep_view()).no_duplicates() ==> all_rescued(
            old(store).image(),
            final(store).image(),
            targets.deep_view(),
        ),
{
    let mut trial = store.copy();
    match restore_all_at(&mut trial, targets, times) {
        Ok(()) => {
            *store = trial;
            Ok(())
        },
        Err(f) => {
            proof {
                Store::lemma_did_nothing(*store);
            }
            Err(f)
        },
    }
}

/// Brings files to the contents under hashes, or removes them, all of them or, where one fails,
/// none.
pub fn restore_together(store: &mut Store, targets: &Vec<(String, Option<String>)>) -> (r: Result<
    (),
    Failure,
>)
    requires
        old(store).wf(),
    ensures
        restores_together(
            *old(store),
            *final(store),
            targets.deep_view(),
            crate::failure::outcome(r),
        ),
        r is Ok && paths_of(targets.deep_view()).no_duplicates() ==> all_rescued(
            old(store).image(),
            final(store).image(),
            targets.deep_view(),
        ),
{
    let times = stamps(targets.len());
    assert(times@.len() == targets.deep_view().len());
    restore_together_at(store, targets, &times)
}

// --- which files -------------------------------------------------------------------------------

/// The first event of each file in a list.
pub open spec fn earliest(events: Seq<EventRowView>) -> Map<Seq<char>, EventRowView>
    decreases events.len(),
{
    if events.len() == 0 {
        Map::empty()
    } else {
        let m = earliest(events.drop_last());
        let e = events.last();
        if m.contains_key(e.path) {
            m
        } else {
            m.insert(e.path, e)
        }
    }
}

/// The last event of each file in a list.
pub open spec fn latest(events: Seq<EventRowView>) -> Map<Seq<char>, EventRowView>
    decreases events.len(),
{
    if events.len() == 0 {
        Map::empty()
    } else {
        latest(events.drop_last()).insert(events.last().path, events.last())
    }
}

/// The first event of each file in a list, in the order of the paths.
pub fn earliest_per_file(events: &Vec<EventRow>) -> (r: Vec<(String, EventRow)>)
    ensures
        r.deep_view() == crate::table::listing(earliest(events.deep_view())),
{
    let ghost s = events.deep_view();
    let mut map: TextMap<EventRow> = TextMap::new();
    let mut i: usize = 0;
    assert(map.deep_view() =~= Map::<Seq<char>, EventRowView>::empty());
    while i < events.len()
        invariant
            i <= events.len(),
            s == events.deep_view(),
            map.wf(),
            map.deep_view() == earliest(s.take(i as int)),
        decreases events.len() - i,
    {
        let ghost before = map;
        let e = &events[i];
        proof {
            assert(s[i as int] == e.deep_view());
            assert(s.take(i + 1).drop_last() =~= s.take(i as int));
            assert(map.deep_view().contains_key(e.path@) == map@.contains_key(e.path@));
        }
        if !map.contains_key(e.path.as_str()) {
            let copy = e.clone();
            map.insert(e.path.clone(), copy);
            assert(map.deep_view() =~= before.deep_view().insert(e.path@, e.deep_view()));
        }
        i = i + 1;
    }
    assert(s.take(s.len() as int) =~= s);
    listed(map)
}

/// The last event of each file in a list, in the order of the paths.
fn latest_per_file(events: &Vec<EventRow>) -> (r: Vec<(String, EventRow)>)
    ensures
        r.deep_view() == crate::table::listing(latest(events.deep_view())),
{
    let ghost s = events.deep_view();
    let mut map: TextMap<EventRow> = TextMap::new();
    let mut i: usize = 0;
    assert(map.deep_view() =~= Map::<Seq<char>, EventRowView>::empty());
    while i < events.len()
        invariant
            i <= events.len(),
            s == events.deep_view(),
            map.wf(),
            map.deep_view() == latest(s.take(i as int)),
        decreases events.len() - i,
    {
        let ghost before = map;
        let e = &events[i];
        proof {
            assert(s[i as int] == e.deep_view());
            assert(s.take(i + 1).drop_last() =~= s.take(i as int));
        }
        let copy = e.clone();
        map.insert(e.path.clone(), copy);
        assert(map.deep_view() =~= before.deep_view().insert(e.path@, e.deep_view()));
        i = i + 1;
    }
    assert(s.take(s.len() as int) =~= s);
    listed(map)
}

/// Each file with the content that it had before its event.
pub open spec fn undone(plan: Seq<(Seq<char>, EventRowView)>) -> Seq<
    (Seq<char>, Option<Seq<char>>),
> {
    plan.map_values(|e: (Seq<char>, EventRowView)| (e.0, e.1.before_hash))
}

/// Each file with the content that it had before its event.
pub fn undo_targets(plan: &Vec<(String, EventRow)>) -> (r: Vec<(String, Option<String>)>)
    ensures
        r.deep_view() == undone(plan.deep_view()),
        r.len() == plan.len(),
{
    let mut out: Vec<(String, Option<String>)> = Vec::new();
    let mut i: usize = 0;
    while i < plan.len()
        invariant
            i <= plan.len(),
            out.len() == i,
            forall|j: int|
                0 <= j < i ==> (#[trigger] out@[j]).deep_view() == undone(plan.deep_view())[j],
        decreases plan.len() - i,
    {
        let hash = plan[i].1.before_hash.clone();
        out.push((plan[i].0.clone(), hash));
        assert(plan.deep_view()[i as int] == plan@[i as int].deep_view());
        i = i + 1;
    }
    assert(out.deep_view() =~= undone(plan.deep_view()));
    out
}

/// The paths of a list of restores.
pub open spec fn paths_of<T>(s: Seq<(Seq<char>, T)>) -> Seq<Seq<char>> {
    crate::table::keys_of(s)
}

fn target_paths(targets: &Vec<(String, Option<String>)>) -> (r: Vec<String>)
    ensures
        r.deep_view() == paths_of(targets.deep_view()),
{
    let mut out: Vec<String> = Vec::new();
    let mut i: usize = 0;
    while i < targets.len()
        invariant
            i <= targets.len(),
            out.len() == i,
            forall|j: int| 0 <= j < i ==> (#[trigger] out@[j])@ == targets@[j].0@,
        decreases targets.len() - i,
    {
        out.push(targets[i].0.clone());
        i = i + 1;
    }
    assert(out.deep_view() =~= paths_of(targets.deep_view()));
    out
}

// --- a session ---------------------------------------------------------------------------------

/// What rolling a session back restores: every file that the session touched, to its content
/// before the first event of the session there.
pub open spec fn session_targets(i: Image, session_id: Seq<char>) -> Seq<
    (Seq<char>, Option<Seq<char>>),
> {
    undone(crate::table::listing(earliest(crate::timeline::session_events(i, session_id))))
}

/// What rolling a session back restores (see `restore_session`).
pub fn targets_of_session(store: &Store, session_id: &str) -> (r: Vec<(String, Option<String>)>)
    requires
        store.wf(),
    ensures
        r.deep_view() == session_targets(store.image(), session_id@),
{
    let events = store.events_for_session(session_id);
    undo_targets(&earliest_per_file(&events))
}

/// Rolls a session back: brings every file that it touched to its content before the first event
/// of the session there, in the order of the paths. All of them are restored or, where one cannot
/// be, none.
pub fn restore_session(store: &mut Store, session_id: &str) -> (r: Result<Vec<String>, Failure>)
    requires
        old(store).wf(),
    ensures
        ({
            let targets = session_targets(old(store).image(), session_id@);
            &&& restores_together(
                *old(store),
                *final(store),
                targets,
                crate::failure::outcome(r),
            )
            &&& r matches Ok(paths) ==> paths.deep_view() == paths_of(targets)
            &&& r is Ok ==> all_rescued(old(store).image(), final(store).image(), targets)
        }),
{
    let targets = targets_of_session(store, session_id);
    proof {
        super::laws::lemma_session_targets_once(store.image(), session_id@);
    }
    match restore_together(store, &targets) {
        Ok(()) => Ok(target_paths(&targets)),
        Err(f) => Err(f),
    }
}

// --- the last change to a file -----------------------------------------------------------------

/// Brings a file to its content before the newest change there that a user or an agent made.
pub fn restore_latest_change_to_file(store: &mut Store, rel_path: &str) -> (r: Result<
    EventRow,
    Failure,
>)
    requires
        old(store).wf(),
    ensures
        match crate::timeline::latest_user_at(old(store).image(), rel_path@) {
            Some(e) => {
                &&& super::restores_file(
                    *old(store),
                    *final(store),
                    e.path,
                    e.before_hash,
                    crate::failure::outcome(r),
                )
                &&& r matches Ok(event) ==> event.deep_view() == e
                &&& r is Ok ==> super::rescued(
                    old(store).image(),
                    final(store).image(),
                    e.path,
                )
            },
            None => {
                &&& Store::did(*old(store), *final(store), Seq::empty())
                &&& crate::failure::failed(r, FailureView::NoUndoable { path: rel_path@ })
            },
        },
{
    match store.latest_user_event_for_file(rel_path) {
        Some(event) => match super::restore_to_event(store, &event) {
            Ok(()) => Ok(event),
            Err(f) => Err(f),
        },
        None => {
            proof {
                Store::lemma_did_nothing(*store);
            }
            Err(Failure::NoUndoable { path: rel_path.to_owned() })
        },
    }
}

// --- a pin -------------------------------------------------------------------------------------

/// The content of each known file after an event: a file that is tracked now and was not known
/// then did not exist.
pub open spec fn project_at(i: Image, event_id: i64) -> Map<Seq<char>, Option<Seq<char>>> {
    let known = crate::timeline::snapshot(i.events, event_id);
    Map::new(
        |p: Seq<char>| known.contains_key(p) || i.file_states.contains_key(p),
        |p: Seq<char>|
            if known.contains_key(p) {
                known[p]
            } else {
                None
            },
    )
}

/// What restoring a pin restores: every known file, to its content after the event of the pin.
pub open spec fn pin_targets(i: Image, event_id: i64) -> Seq<(Seq<char>, Option<Seq<char>>)> {
    crate::table::listing(project_at(i, event_id))
}

/// What restoring the state after an event restores (see `restore_pin`).
pub fn targets_of_pin(store: &Store, event_id: i64) -> (r: Vec<(String, Option<String>)>)
    requires
        store.wf(),
    ensures
        r.deep_view() == pin_targets(store.image(), event_id),
{
    let ghost i = store.image();
    let ghost known = crate::timeline::snapshot(i.events, event_id);
    let mut map: TextMap<Option<String>> = TextMap::new();
    let present = store.current_tracked_paths();
    let ghost d = present.deep_view();
    let mut k: usize = 0;
    assert(map.deep_view() =~= Map::<Seq<char>, Option<Seq<char>>>::empty());
    while k < present.len()
        invariant
            k <= present.len(),
            d == present.deep_view(),
            map.wf(),
            forall|p: Seq<char>| #[trigger]
                map.deep_view().contains_key(p) <==> d.take(k as int).contains(p),
            forall|p: Seq<char>| #[trigger]
                map.deep_view().contains_key(p) ==> map.deep_view()[p] is None,
        decreases present.len() - k,
    {
        let ghost before = map.deep_view();
        let none: Option<String> = None;
        map.insert(present[k].clone(), none);
        proof {
            let path = present@[k as int]@;
            assert(map.deep_view() =~= before.insert(path, None));
            assert(d[k as int] == path);
            assert(d.take(k + 1) =~= d.take(k as int).push(path));
            lemma_push_contains(d.take(k as int), path);
        }
        k = k + 1;
    }
    assert(d.take(d.len() as int) =~= d);
    let entries = store.file_state_at_event(event_id);
    let ghost s = entries.deep_view();
    let ghost keys = crate::table::keys_of(s);
    let mut n: usize = 0;
    assert(map.deep_view().dom() =~= i.file_states.dom());
    while n < entries.len()
        invariant
            n <= entries.len(),
            s == entries.deep_view(),
            keys == crate::table::keys_of(s),
            crate::table::lists(s, known),
            map.wf(),
            forall|p: Seq<char>| #[trigger]
                map.deep_view().contains_key(p) <==> i.file_states.contains_key(p) || keys.take(
                    n as int,
                ).contains(p),
            forall|p: Seq<char>| #[trigger]
                map.deep_view().contains_key(p) ==> map.deep_view()[p] == (if keys.take(
                    n as int,
                ).contains(p) {
                    known[p]
                } else {
                    None
                }),
        decreases entries.len() - n,
    {
        let ghost before = map.deep_view();
        let hash = entries[n].1.clone();
        map.insert(entries[n].0.clone(), hash);
        proof {
            let e = s[n as int];
            assert(e == entries@[n as int].deep_view());
            assert(map.deep_view() =~= before.insert(e.0, e.1));
            assert(keys[n as int] == e.0);
            assert(keys.take(n + 1) =~= keys.take(n as int).push(e.0));
            lemma_push_contains(keys.take(n as int), e.0);
        }
        n = n + 1;
    }
    proof {
        assert(keys.take(keys.len() as int) =~= keys);
        assert forall|p: Seq<char>| known.contains_key(p) <==> keys.contains(p) by {
            assert(known.dom().contains(p) ==> keys.contains(p));
            if keys.contains(p) {
                let j = choose|j: int| 0 <= j < keys.len() && keys[j] == p;
                assert(known.dom().contains(keys[j]));
            }
        }
        assert(map.deep_view() =~= project_at(i, event_id));
    }
    listed(map)
}

proof fn lemma_push_contains<T>(s: Seq<T>, x: T)
    ensures
        forall|y: T| #[trigger] s.push(x).contains(y) <==> s.contains(y) || y == x,
{
    assert forall|y: T| #[trigger] s.push(x).contains(y) <==> s.contains(y) || y == x by {
        let t = s.push(x);
        if s.contains(y) {
            let j = choose|j: int| 0 <= j < s.len() && s[j] == y;
            assert(t[j] == y);
        }
        assert(t[s.len() as int] == x);
        if t.contains(y) && y != x {
            let j = choose|j: int| 0 <= j < t.len() && t[j] == y;
            assert(s[j] == y);
        }
    }
}

/// Whether restoring the pin with a label changed the store and came out as it should.
pub open spec fn restores_pin(
    before: Store,
    after: Store,
    label: Seq<char>,
    r: Result<Vec<String>, Failure>,
) -> bool {
    match crate::timeline::find_pin(before.image(), label) {
        Some(pin) => {
            let targets = pin_targets(before.image(), pin.event_id);
            &&& restores_together(before, after, targets, crate::failure::outcome(r))
            &&& r matches Ok(paths) ==> paths.deep_view() == paths_of(targets)
            &&& r is Ok ==> all_rescued(before.image(), after.image(), targets)
        },
        None => {
            &&& Store::did(before, after, Seq::empty())
            &&& crate::failure::failed(r, FailureView::NoPin { label })
        },
    }
}

/// Brings every known file to its content at the time a pin was made, in the order of the paths.
/// All of them are restored or, where one cannot be, none.
pub fn restore_pin(store: &mut Store, label: &str) -> (r: Result<Vec<String>, Failure>)
    requires
        old(store).wf(),
    ensures
        restores_pin(*old(store), *final(store), label@, r),
{
    match store.find_pin(label) {
        Some(pin) => {
            let targets = targets_of_pin(store, pin.event_id);
            proof {
                store.lemma_tracks_finitely_many();
                super::laws::lemma_pin_targets_once(store.image(), pin.event_id);
            }
            match restore_together(store, &targets) {
                Ok(()) => Ok(target_paths(&targets)),
                Err(f) => Err(f),
            }
        },
        None => {
            proof {
                Store::lemma_did_nothing(*store);
            }
            Err(Failure::NoPin { label: label.to_owned() })
        },
    }
}

// --- the last burst ----------------------------------------------------------------------------

/// How many of the newest events are looked at.
pub const OOPS_REACH: usize = 500;

/// The events at the beginning of a list that are not older than the cutoff.
pub open spec fn burst(events: Seq<EventRowView>, cutoff: int) -> Seq<EventRowView>
    decreases events.len(),
{
    if events.len() == 0 || events[0].ts_ns < cutoff {
        Seq::empty()
    } else {
        seq![events[0]] + burst(events.drop_first(), cutoff)
    }
}

/// What an `oops` undoes. Where the newest event that a user or an agent caused belongs to a
/// session, that is the session; otherwise the events up to `window_ns` before the newest one.
/// Of each file it is the oldest event, with the content before it.
pub open spec fn oops_of(i: Image, window_ns: i64) -> Seq<(Seq<char>, EventRowView)> {
    let undoable = crate::timeline::recent(i, OOPS_REACH as nat).filter(
        crate::timeline::by_user(),
    );
    if undoable.len() == 0 {
        Seq::empty()
    } else if undoable[0].session_id is Some && crate::timeline::session_events(
        i,
        undoable[0].session_id->0,
    ).len() > 0 {
        crate::table::listing(
            earliest(crate::timeline::session_events(i, undoable[0].session_id->0)),
        )
    } else {
        crate::table::listing(latest(burst(undoable, undoable[0].ts_ns - window_ns)))
    }
}

/// What an `oops` would undo (see `oops_of`), in the order of the paths.
pub fn oops_plan(store: &Store, window_ns: i64) -> (r: Vec<(String, EventRow)>)
    requires
        store.wf(),
    ensures
        r.deep_view() == oops_of(store.image(), window_ns),
{
    let ghost i = store.image();
    let events = store.recent_events(OOPS_REACH);
    let ghost s = events.deep_view();
    let ghost f = crate::timeline::by_user();
    let mut undoable: Vec<EventRow> = Vec::new();
    let mut k: usize = 0;
    assert(s.take(0).filter(f) =~= Seq::<EventRowView>::empty()) by {
        reveal(Seq::filter);
    }
    assert(undoable.deep_view() =~= Seq::<EventRowView>::empty());
    while k < events.len()
        invariant
            k <= events.len(),
            s == events.deep_view(),
            f == crate::timeline::by_user(),
            undoable.deep_view() == s.take(k as int).filter(f),
        decreases events.len() - k,
    {
        let e = &events[k];
        let ghost so_far = undoable.deep_view();
        proof {
            assert(s[k as int] == e.deep_view());
            crate::timeline::lemma_filter_next(s, f, k as int);
        }
        if !is_restore_bookkeeping(e.attribution.as_str()) {
            let copy = e.clone();
            undoable.push(copy);
            assert(undoable.deep_view() =~= so_far.push(copy.deep_view()));
        }
        k = k + 1;
    }
    assert(s.take(s.len() as int) =~= s);
    let ghost u = undoable.deep_view();
    if undoable.len() == 0 {
        let none: Vec<(String, EventRow)> = Vec::new();
        assert(u.len() == 0);
        assert(none.deep_view() =~= Seq::<(Seq<char>, EventRowView)>::empty());
        return none;
    }
    assert(u[0] == undoable@[0].deep_view());
    if let Some(session_id) = &undoable[0].session_id {
        let session_events = store.events_for_session(session_id.as_str());
        if session_events.len() > 0 {
            assert(session_events.deep_view().len() > 0);
            return earliest_per_file(&session_events);
        }
        assert(session_events.deep_view().len() == 0);
    }
    let cutoff: i128 = (undoable[0].ts_ns as i128) - (window_ns as i128);
    let mut recent: Vec<EventRow> = Vec::new();
    let mut n: usize = 0;
    assert(u.take(0) + burst(u.skip(0), cutoff as int) =~= burst(u, cutoff as int)) by {
        assert(u.skip(0) =~= u);
    }
    while n < undoable.len() && (undoable[n].ts_ns as i128) >= cutoff
        invariant
            n <= undoable.len(),
            u == undoable.deep_view(),
            recent.len() == n,
            forall|j: int| 0 <= j < n ==> (#[trigger] recent@[j]).deep_view() == u[j],
            u.take(n as int) + burst(u.skip(n as int), cutoff as int) == burst(u, cutoff as int),
        decreases undoable.len() - n,
    {
        let copy = undoable[n].clone();
        recent.push(copy);
        proof {
            assert(u[n as int] == undoable@[n as int].deep_view());
            let rest = u.skip(n as int);
            assert(rest[0] == u[n as int]);
            assert(rest.drop_first() =~= u.skip(n + 1));
            assert(u.take(n + 1) + burst(u.skip(n + 1), cutoff as int) =~= u.take(n as int)
                + burst(rest, cutoff as int));
        }
        n = n + 1;
    }
    proof {
        if n < undoable.len() {
            assert(u[n as int] == undoable@[n as int].deep_view());
            assert(u.skip(n as int)[0] == u[n as int]);
        }
        assert(burst(u.skip(n as int), cutoff as int).len() == 0);
        assert(recent.deep_view() =~= burst(u, cutoff as int));
    }
    latest_per_file(&recent)
}

/// Undoes the last burst of changes (see `oops_of`), and says what was undone.
pub fn oops(store: &mut Store, window_ns: i64) -> (r: Result<Vec<(String, EventRow)>, Failure>)
    requires
        old(store).wf(),
    ensures
        ({
            let plan = oops_of(old(store).image(), window_ns);
            &&& restores_files(
                *old(store),
                *final(store),
                undone(plan),
                crate::failure::outcome(r),
            )
            &&& r matches Ok(batch) ==> batch.deep_view() == plan
            &&& r is Ok ==> all_rescued(
                old(store).image(),
                final(store).image(),
                undone(plan),
            )
        }),
{
    let batch = oops_plan(store, window_ns);
    proof {
        super::laws::lemma_oops_once(store.image(), window_ns);
    }
    let targets = undo_targets(&batch);
    match restore_all(store, &targets) {
        Ok(()) => Ok(batch),
        Err(f) => Err(f),
    }
}

} // verus!
