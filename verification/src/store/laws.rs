//! What holds of the store as a whole.
use vstd::prelude::*;

use crate::image::{EffectView, Image};
use crate::rows::{EventRecordView, NewEventView, SessionRowView};

verus! {

/// Storing the same content again changes nothing.
pub proof fn law_blobs_are_stored_once(i: Image, bytes: Seq<u8>)
    requires
        super::changes::blob_effects(i, bytes) is Some,
    ensures
        super::changes::blob_effects(
            crate::image::replay(i, super::changes::blob_effects(i, bytes)->0),
            bytes,
        ) == Some(Seq::<EffectView>::empty()),
{
    let effects = super::changes::blob_effects(i, bytes)->0;
    if effects.len() > 0 {
        crate::image::lemma_replay_few(i, effects[0], effects[0]);
        assert(effects =~= seq![effects[0]]);
    }
}

/// An event gets a number above all numbers that were ever given, and the event under that number
/// is the one that was recorded.
pub proof fn law_recorded_is_found(i: Image, e: NewEventView)
    requires
        super::sound(i),
        i.last_event_id < i64::MAX,
    ensures
        ({
            let record = super::changes::recorded(i, e);
            let after = crate::image::apply(i, EffectView::RecordEvent(record));
            &&& super::sound(after)
            &&& forall|j: int| 0 <= j < i.events.len() ==> (#[trigger] i.events[j]).row.id
                < record.row.id
            &&& crate::timeline::find_event(after, record.row.id) == Some(record.row)
        }),
{
    let record = super::changes::recorded(i, e);
    let after = crate::image::apply(i, EffectView::RecordEvent(record));
    let s = crate::timeline::rows(after.events);
    let f = crate::timeline::with_id(record.row.id);
    let t = crate::timeline::rows(i.events);
    assert(s =~= t.push(record.row));
    assert forall|j: int| 0 <= j < t.len() implies !f(#[trigger] t[j]) by {
        assert(t[j] == i.events[j].row);
    }
    t.lemma_all_neg_filter_empty(f);
    reveal(Seq::filter);
    assert(s.drop_last() =~= t);
    assert(s.filter(f) =~= seq![record.row]);
}

/// Reporting a session a second time changes nothing more.
pub proof fn law_upsert_is_idempotent(i: Image, s: SessionRowView)
    requires
        super::sound(i),
    ensures
        ({
            let once = crate::image::apply(
                i,
                EffectView::PutSession(
                    super::changes::upserted(super::changes::session_with(i, s.id), s),
                ),
            );
            let twice = crate::image::apply(
                once,
                EffectView::PutSession(
                    super::changes::upserted(super::changes::session_with(once, s.id), s),
                ),
            );
            twice == once
        }),
{
    let known = super::changes::session_with(i, s.id);
    let row = super::changes::upserted(known, s);
    let once = crate::image::apply(i, EffectView::PutSession(row));
    assert(row.id == s.id);
    lemma_put_is_found(i.sessions, row);
    let j = choose|j: int|
        0 <= j < once.sessions.len() && (#[trigger] once.sessions[j]).id == s.id;
    assert(once.sessions[j] == row);
    assert(super::changes::session_with(once, s.id) == Some(row)) by {
        let k = choose|k: int| 0 <= k < once.sessions.len() && once.sessions[k].id == s.id;
        assert(once.sessions[k].id == s.id);
    }
    let again = super::changes::upserted(Some(row), s);
    assert(again == row);
    let twice = crate::image::apply(once, EffectView::PutSession(again));
    assert(twice.sessions =~= once.sessions);
    assert(twice =~= once);
}

/// After a session is put into a list, it is what stands under its id there.
pub(crate) proof fn lemma_put_is_found(sessions: Seq<SessionRowView>, row: SessionRowView)
    ensures
        ({
            let after = crate::image::put_session(sessions, row);
            &&& crate::image::has_session(after, row.id)
            &&& forall|k: int|
                0 <= k < after.len() && (#[trigger] after[k]).id == row.id ==> after[k] == row
        }),
{
    let after = crate::image::put_session(sessions, row);
    if crate::image::has_session(sessions, row.id) {
        let j = choose|j: int| 0 <= j < sessions.len() && (#[trigger] sessions[j]).id == row.id;
        assert(after[j].id == row.id);
    } else {
        assert(after[sessions.len() as int] == row);
        assert forall|k: int|
            0 <= k < after.len() && (#[trigger] after[k]).id == row.id implies after[k] == row by {
            if k < sessions.len() {
                assert(sessions[k].id == row.id);
            }
        }
    }
}

// --- garbage collection ------------------------------------------------------------------------

/// The changes of deleting some events.
proof fn lemma_replay_deletions(i: Image, gone: Seq<EventRecordView>)
    ensures
        ({
            let after = crate::image::replay(
                i,
                gone.map_values(super::collect::deletion()),
            );
            &&& after == (Image { events: after.events, ..i })
            &&& after.events == i.events.filter(
                |e: EventRecordView|
                    !exists|k: int| 0 <= k < gone.len() && (#[trigger] gone[k]).row.id == e.row.id,
            )
        }),
    decreases gone.len(),
{
    let effects = gone.map_values(super::collect::deletion());
    let f = |e: EventRecordView|
        !exists|k: int| 0 <= k < gone.len() && (#[trigger] gone[k]).row.id == e.row.id;
    if gone.len() == 0 {
        super::collect::lemma_filter_all(i.events, f);
    } else {
        let fewer = gone.drop_last();
        lemma_replay_deletions(i, fewer);
        assert(effects.drop_last() =~= fewer.map_values(super::collect::deletion()));
        let g = |e: EventRecordView|
            !exists|k: int| 0 <= k < fewer.len() && (#[trigger] fewer[k]).row.id == e.row.id;
        let id = gone.last().row.id;
        let h = |e: EventRecordView| e.row.id != id;
        lemma_filter_twice(i.events, g, h);
        let both = |e: EventRecordView| g(e) && h(e);
        assert forall|e: EventRecordView| #[trigger] both(e) == f(e) by {
            if !g(e) {
                let k = choose|k: int|
                    0 <= k < fewer.len() && (#[trigger] fewer[k]).row.id == e.row.id;
                assert(gone[k].row.id == e.row.id);
            }
            if !h(e) {
                assert(gone[gone.len() - 1].row.id == e.row.id);
            }
            if !f(e) {
                let k = choose|k: int|
                    0 <= k < gone.len() && (#[trigger] gone[k]).row.id == e.row.id;
                if k < fewer.len() {
                    assert(fewer[k].row.id == e.row.id);
                }
            }
        }
        assert(both =~= f);
    }
}

/// Filtering twice is filtering by both.
proof fn lemma_filter_twice<T>(s: Seq<T>, f: spec_fn(T) -> bool, g: spec_fn(T) -> bool)
    ensures
        s.filter(f).filter(g) == s.filter(|x: T| f(x) && g(x)),
    decreases s.len(),
{
    reveal(Seq::filter);
    if s.len() > 0 {
        let t = s.drop_last();
        lemma_filter_twice(t, f, g);
        if f(s.last()) {
            let u = t.filter(f);
            assert(u.push(s.last()).drop_last() =~= u);
        }
    }
}

/// Filters that agree on the items of a list.
pub(crate) proof fn lemma_filter_agree<T>(s: Seq<T>, f: spec_fn(T) -> bool, g: spec_fn(T) -> bool)
    requires
        forall|i: int| 0 <= i < s.len() ==> f(#[trigger] s[i]) == g(s[i]),
    ensures
        s.filter(f) == s.filter(g),
    decreases s.len(),
{
    reveal(Seq::filter);
    if s.len() > 0 {
        let t = s.drop_last();
        assert forall|i: int| 0 <= i < t.len() implies f(#[trigger] t[i]) == g(t[i]) by {
            assert(t[i] == s[i]);
        }
        lemma_filter_agree(t, f, g);
        assert(f(s[s.len() - 1]) == g(s[s.len() - 1]));
    }
}

/// The events that are left after the events that may go are deleted.
pub open spec fn survivors(i: Image, cutoff: int) -> Seq<EventRecordView> {
    i.events.filter(|e: EventRecordView| !super::collect::expired(i, cutoff)(e))
}

/// The changes of deleting the events that may go.
pub(crate) proof fn lemma_deletions(i: Image, cutoff: int)
    requires
        super::sound(i),
    ensures
        crate::image::replay(i, super::collect::deletions(i, cutoff)) == (Image {
            events: survivors(i, cutoff),
            ..i
        }),
{
    let f = super::collect::expired(i, cutoff);
    let gone = i.events.filter(f);
    lemma_replay_deletions(i, gone);
    let p = |e: EventRecordView|
        !exists|k: int| 0 <= k < gone.len() && (#[trigger] gone[k]).row.id == e.row.id;
    let q = |e: EventRecordView| !f(e);
    assert forall|k: int| 0 <= k < i.events.len() implies p(#[trigger] i.events[k]) == q(
        i.events[k],
    ) by {
        let e = i.events[k];
        if f(e) {
            i.events.lemma_filter_contains(f, k);
            let g = choose|g: int| 0 <= g < gone.len() && gone[g] == e;
            assert(gone[g].row.id == e.row.id);
        }
        if !p(e) {
            let g = choose|g: int|
                0 <= g < gone.len() && (#[trigger] gone[g]).row.id == e.row.id;
            i.events.lemma_filter_pred(f, g);
            assert(gone.contains(gone[g]));
            i.events.lemma_filter_contains_rev(f, gone[g]);
            let m = choose|m: int| 0 <= m < i.events.len() && i.events[m] == gone[g];
            if m < k {
                assert(i.events[m].row.id < i.events[k].row.id);
            } else if k < m {
                assert(i.events[k].row.id < i.events[m].row.id);
            }
        }
    }
    lemma_filter_agree(i.events, p, q);
}

/// The changes of removing objects.
pub(crate) proof fn lemma_sweeps(i: Image, names: Seq<Seq<char>>)
    ensures
        ({
            let after = crate::image::replay(i, names.map_values(super::collect::removal()));
            &&& after == (Image { objects: after.objects, ..i })
            &&& after.objects == i.objects.remove_keys(names.to_set())
        }),
    decreases names.len(),
{
    let effects = names.map_values(super::collect::removal());
    if names.len() == 0 {
        assert(i.objects.remove_keys(names.to_set()) =~= i.objects);
    } else {
        let fewer = names.drop_last();
        lemma_sweeps(i, fewer);
        assert(effects.drop_last() =~= fewer.map_values(super::collect::removal()));
        assert forall|h: Seq<char>| names.contains(h) <==> fewer.contains(h) || h
            == names.last() by {
            if fewer.contains(h) {
                let k = choose|k: int| 0 <= k < fewer.len() && fewer[k] == h;
                assert(names[k] == h);
            }
            if names.contains(h) {
                let k = choose|k: int| 0 <= k < names.len() && names[k] == h;
                if k < fewer.len() {
                    assert(fewer[k] == h);
                }
            }
            assert(names[names.len() - 1] == names.last());
        }
        assert(i.objects.remove_keys(names.to_set()) =~= i.objects.remove_keys(
            fewer.to_set(),
        ).remove(names.last()));
    }
}

/// A collection keeps every event that is the newest at its path, that was so when a pin was made,
/// or that is not older than the cutoff; the others go. It changes no pin, session, tracked file or working file.
pub proof fn law_collection_keeps_what_it_should(i: Image, cutoff: int, names: Seq<Seq<char>>)
    requires
        super::sound(i),
    ensures
        ({
            let after = crate::image::replay(i, super::collect::collected(i, cutoff, names));
            &&& after.events == survivors(i, cutoff)
            &&& forall|k: int|
                #![trigger i.events[k]]
                0 <= k < i.events.len() ==> (after.events.contains(i.events[k]) <==> {
                    ||| i.events[k].row.ts_ns >= cutoff
                    ||| super::collect::is_latest(i.events, i.events[k].row)
                    ||| super::collect::is_held(i, i.events[k].row)
                })
            &&& after == (Image { events: after.events, objects: after.objects, ..i })
        }),
{
    let gone = super::collect::deletions(i, cutoff);
    let middle = crate::image::replay(i, gone);
    lemma_deletions(i, cutoff);
    let orphans = names.filter(super::collect::orphaned(middle));
    lemma_sweeps(middle, orphans);
    crate::image::lemma_replay_concat(i, gone, super::collect::sweeps(middle, names));
    let f = super::collect::expired(i, cutoff);
    let q = |e: EventRecordView| !f(e);
    assert forall|k: int| #![trigger i.events[k]] 0 <= k < i.events.len() implies (survivors(
        i,
        cutoff,
    ).contains(i.events[k]) <==> {
        ||| i.events[k].row.ts_ns >= cutoff
        ||| super::collect::is_latest(i.events, i.events[k].row)
        ||| super::collect::is_held(i, i.events[k].row)
    }) by {
        let e = i.events[k];
        if q(e) {
            i.events.lemma_filter_contains(q, k);
        }
        if survivors(i, cutoff).contains(e) {
            let s = survivors(i, cutoff);
            let g = choose|g: int| 0 <= g < s.len() && s[g] == e;
            i.events.lemma_filter_pred(q, g);
        }
    }
}

/// A sweep removes those of the named objects that nothing refers to, and no other.
pub proof fn law_sweep_keeps_what_is_referenced(i: Image, names: Seq<Seq<char>>, hash: Seq<char>)
    ensures
        ({
            let after = crate::image::replay(i, super::collect::sweeps(i, names));
            &&& super::collect::is_referenced(i, hash) ==> super::changes::blob(after, hash)
                == super::changes::blob(i, hash)
            &&& !super::collect::is_referenced(i, hash) && names.contains(hash)
                ==> super::changes::blob(after, hash) is None
            &&& !names.contains(hash) ==> super::changes::blob(after, hash)
                == super::changes::blob(i, hash)
            &&& after == (Image { objects: after.objects, ..i })
        }),
{
    let f = super::collect::orphaned(i);
    let orphans = names.filter(f);
    lemma_sweeps(i, orphans);
    if orphans.contains(hash) {
        let k = choose|k: int| 0 <= k < orphans.len() && orphans[k] == hash;
        names.lemma_filter_pred(f, k);
        names.lemma_filter_contains_rev(f, hash);
    }
    if f(hash) && names.contains(hash) {
        let k = choose|k: int| 0 <= k < names.len() && names[k] == hash;
        names.lemma_filter_contains(f, k);
    }
}

/// Whether a list names each object once.
pub open spec fn names_objects(i: Image, names: Seq<Seq<char>>) -> bool {
    &&& names.no_duplicates()
    &&& forall|hash: Seq<char>| #[trigger]
        names.contains(hash) <==> i.objects.contains_key(hash)
}

/// A sweep over all objects leaves those that something refers to, says how many it removed, and
/// changes nothing else; and a second one finds nothing to remove.
pub proof fn law_sweep_leaves_what_is_referenced(
    i: Image,
    names: Seq<Seq<char>>,
    left: Seq<Seq<char>>,
)
    requires
        names_objects(i, names),
        names_objects(
            crate::image::replay(i, super::collect::sweeps(i, names)),
            left,
        ),
    ensures
        ({
            let after = crate::image::replay(i, super::collect::sweeps(i, names));
            &&& forall|hash: Seq<char>| #[trigger]
                after.objects.contains_key(hash) <==> i.objects.contains_key(hash)
                    && super::collect::is_referenced(i, hash)
            &&& after.objects.submap_of(i.objects)
            &&& after == (Image { objects: after.objects, ..i })
            &&& super::collect::sweeps(i, names).len() == names.len() - left.len()
            &&& super::collect::sweeps(after, left).len() == 0
        }),
{
    let f = super::collect::orphaned(i);
    let orphans = names.filter(f);
    let after = crate::image::replay(i, super::collect::sweeps(i, names));
    lemma_sweeps(i, orphans);
    assert forall|hash: Seq<char>| #[trigger] after.objects.contains_key(hash)
        <==> i.objects.contains_key(hash) && super::collect::is_referenced(i, hash) by {
        law_sweep_keeps_what_is_referenced(i, names, hash);
        assert(names.contains(hash) <==> i.objects.contains_key(hash));
    }
    let g = |hash: Seq<char>| !f(hash);
    let kept = names.filter(g);
    lemma_filter_parts(names, f);
    lemma_filter_once(names, g);
    assert(kept.to_set() =~= left.to_set()) by {
        assert forall|hash: Seq<char>| kept.contains(hash) <==> left.contains(hash) by {
            assert(names.contains(hash) <==> i.objects.contains_key(hash));
            assert(left.contains(hash) <==> after.objects.contains_key(hash));
            if kept.contains(hash) {
                let k = choose|k: int| 0 <= k < kept.len() && kept[k] == hash;
                names.lemma_filter_pred(g, k);
                names.lemma_filter_contains_rev(g, hash);
            }
            if left.contains(hash) {
                let k = choose|k: int| 0 <= k < names.len() && names[k] == hash;
                names.lemma_filter_contains(g, k);
            }
        }
    }
    kept.unique_seq_to_set();
    left.unique_seq_to_set();
    let h = super::collect::orphaned(after);
    assert forall|k: int| 0 <= k < left.len() implies !h(#[trigger] left[k]) by {
        assert(left.contains(left[k]));
        assert(super::collect::is_referenced(i, left[k]));
        assert(after.events == i.events && after.file_states == i.file_states);
        if exists|j: int|
            0 <= j < i.events.len() && super::collect::event_names(
                #[trigger] i.events[j].row,
                left[k],
            ) {
            let j = choose|j: int|
                0 <= j < i.events.len() && super::collect::event_names(
                    #[trigger] i.events[j].row,
                    left[k],
                );
            assert(super::collect::event_names(after.events[j].row, left[k]));
        } else {
            let p = choose|p: Seq<char>| #[trigger]
                i.file_states.contains_key(p) && i.file_states[p].latest_hash == left[k];
            assert(after.file_states.contains_key(p));
        }
    }
    lemma_filter_none(left, h);
}

/// A filter and its opposite share the items among them.
pub(crate) proof fn lemma_filter_parts<T>(s: Seq<T>, f: spec_fn(T) -> bool)
    ensures
        s.filter(f).len() + s.filter(|x: T| !f(x)).len() == s.len(),
    decreases s.len(),
{
    reveal(Seq::filter);
    if s.len() > 0 {
        lemma_filter_parts(s.drop_last(), f);
    }
}

/// A filter that refuses everything.
pub(crate) proof fn lemma_filter_none<T>(s: Seq<T>, f: spec_fn(T) -> bool)
    requires
        forall|k: int| 0 <= k < s.len() ==> !f(#[trigger] s[k]),
    ensures
        s.filter(f) == Seq::<T>::empty(),
    decreases s.len(),
{
    reveal(Seq::filter);
    if s.len() > 0 {
        let t = s.drop_last();
        assert forall|k: int| 0 <= k < t.len() implies !f(#[trigger] t[k]) by {
            assert(t[k] == s[k]);
        }
        lemma_filter_none(t, f);
        assert(s[s.len() - 1] == s.last());
    }
}

/// What stands in a list once stands at most once in what a filter leaves.
proof fn lemma_filter_once<T>(s: Seq<T>, f: spec_fn(T) -> bool)
    requires
        s.no_duplicates(),
    ensures
        s.filter(f).no_duplicates(),
    decreases s.len(),
{
    reveal(Seq::filter);
    if s.len() > 0 {
        let t = s.drop_last();
        assert(t.no_duplicates()) by {
            assert forall|a: int, b: int| 0 <= a < t.len() && 0 <= b < t.len() && a
                != b implies t[a] != t[b] by {
                assert(s[a] != s[b]);
            }
        }
        lemma_filter_once(t, f);
        let u = t.filter(f);
        assert(!u.contains(s.last())) by {
            if u.contains(s.last()) {
                t.lemma_filter_contains_rev(f, s.last());
                let k = choose|k: int| 0 <= k < t.len() && t[k] == s.last();
                assert(s[k] != s[s.len() - 1]);
            }
        }
    }
}

/// A collection never loses a content that an event or a tracked file still refers to.
pub proof fn law_collection_keeps_referenced_blobs(
    i: Image,
    cutoff: int,
    names: Seq<Seq<char>>,
    hash: Seq<char>,
)
    requires
        super::sound(i),
    ensures
        ({
            let after = crate::image::replay(i, super::collect::collected(i, cutoff, names));
            super::collect::is_referenced(after, hash) ==> super::changes::blob(after, hash)
                == super::changes::blob(i, hash)
        }),
{
    let gone = super::collect::deletions(i, cutoff);
    let middle = crate::image::replay(i, gone);
    lemma_deletions(i, cutoff);
    law_sweep_keeps_what_is_referenced(middle, names, hash);
    crate::image::lemma_replay_concat(i, gone, super::collect::sweeps(middle, names));
    let after = crate::image::replay(i, super::collect::collected(i, cutoff, names));
    assert(after.events == middle.events && after.file_states == middle.file_states);
    assert(super::collect::is_referenced(after, hash) == super::collect::is_referenced(
        middle,
        hash,
    ));
}

// --- tracked files -----------------------------------------------------------------------------

/// The content of each file after all events.
pub open spec fn latest_known(events: Seq<EventRecordView>) -> Map<Seq<char>, Option<Seq<char>>> {
    crate::timeline::snapshot(events, i64::MAX)
}

/// Whether the tracked files are those that exist after all events, with the content that the
/// newest event at their path names.
pub open spec fn in_step(i: Image) -> bool {
    forall|p: Seq<char>|
        {
            let known = latest_known(i.events);
            &&& #[trigger] i.file_states.contains_key(p) <==> known.contains_key(p)
                && known[p] is Some
            &&& i.file_states.contains_key(p) ==> Some(i.file_states[p].latest_hash) == known[p]
        }
}

/// One more event after the others.
pub proof fn lemma_latest_known_push(events: Seq<EventRecordView>, r: EventRecordView)
    ensures
        latest_known(events.push(r)) == latest_known(events).insert(r.row.path, r.row.after_hash),
{
    assert(events.push(r).drop_last() =~= events);
}

/// Filtering keeps the order of the items: of two items that are left, the one that was first is
/// first.
pub(crate) proof fn lemma_survivors_numbered(i: Image, cutoff: int)
    requires
        super::sound(i),
    ensures
        super::numbered(survivors(i, cutoff), i.last_event_id),
{
    let q = |e: EventRecordView| !super::collect::expired(i, cutoff)(e);
    lemma_filter_numbered(i.events, q, i.last_event_id);
}

proof fn lemma_filter_numbered(
    events: Seq<EventRecordView>,
    q: spec_fn(EventRecordView) -> bool,
    last: i64,
)
    requires
        super::numbered(events, last),
    ensures
        super::numbered(events.filter(q), last),
    decreases events.len(),
{
    reveal(Seq::filter);
    if events.len() > 0 {
        let fewer = events.drop_last();
        assert(super::numbered(fewer, last)) by {
            assert forall|a: int| 0 <= a < fewer.len() implies 0 < (#[trigger] fewer[a]).row.id
                <= last by {
                assert(fewer[a] == events[a]);
            }
            assert forall|a: int, b: int| 0 <= a < b < fewer.len() implies (
            #[trigger] fewer[a]).row.id < (#[trigger] fewer[b]).row.id by {
                assert(fewer[a] == events[a]);
                assert(fewer[b] == events[b]);
            }
        }
        lemma_filter_numbered(fewer, q, last);
        let t = fewer.filter(q);
        let e = events.last();
        assert(events[events.len() - 1] == e);
        assert forall|a: int| 0 <= a < t.len() implies (#[trigger] t[a]).row.id < e.row.id by {
            assert(t.contains(t[a]));
            fewer.lemma_filter_contains_rev(q, t[a]);
            let k = choose|k: int| 0 <= k < fewer.len() && fewer[k] == t[a];
            assert(events[k] == t[a]);
        }
    }
}

/// A collection leaves what is known of the newest content of every file as it is; so tracked
/// files that were in step with the timeline stay so.
pub proof fn law_collection_keeps_the_newest_contents(
    i: Image,
    cutoff: int,
    names: Seq<Seq<char>>,
)
    requires
        super::sound(i),
    ensures
        ({
            let after = crate::image::replay(i, super::collect::collected(i, cutoff, names));
            &&& latest_known(after.events) == latest_known(i.events)
            &&& in_step(i) ==> in_step(after)
        }),
{
    law_collection_keeps_what_it_should(i, cutoff, names);
    lemma_survivors_state(i, cutoff, i64::MAX);
}

/// A collection leaves the content that each file had when a pin was made as it is, so that a pin
/// that could be restored before can be restored after.
pub proof fn law_collection_keeps_pinned_states(
    i: Image,
    cutoff: int,
    names: Seq<Seq<char>>,
    k: int,
)
    requires
        super::sound(i),
        0 <= k < i.pins.len(),
    ensures
        ({
            let after = crate::image::replay(i, super::collect::collected(i, cutoff, names));
            &&& crate::timeline::snapshot(after.events, i.pins[k].event_id)
                == crate::timeline::snapshot(i.events, i.pins[k].event_id)
            &&& forall|path: Seq<char>, hash: Seq<char>|
                #![trigger crate::timeline::snapshot(i.events, i.pins[k].event_id)[path], super::changes::blob(i, hash)]
                crate::timeline::snapshot(i.events, i.pins[k].event_id).contains_key(path)
                    && crate::timeline::snapshot(i.events, i.pins[k].event_id)[path] == Some(hash)
                    ==> super::changes::blob(after, hash) == super::changes::blob(i, hash)
        }),
{
    let after = crate::image::replay(i, super::collect::collected(i, cutoff, names));
    let bound = i.pins[k].event_id;
    law_collection_keeps_what_it_should(i, cutoff, names);
    lemma_survivors_state(i, cutoff, bound);
    let known = crate::timeline::snapshot(after.events, bound);
    assert forall|path: Seq<char>, hash: Seq<char>|
        known.contains_key(path) && known[path] == Some(hash) implies super::changes::blob(
        after,
        hash,
    ) == super::changes::blob(i, hash) by {
        lemma_snapshot_names(after.events, bound, path);
        let m = choose|m: int| names_last(after.events, bound, path, m);
        assert(super::collect::event_names(after.events[m].row, hash));
        law_collection_keeps_referenced_blobs(i, cutoff, names, hash);
    }
}

/// Whether the event at a place is the last at a path among those numbered up to `bound`, and
/// names what is known of the path.
pub open spec fn names_last(events: Seq<EventRecordView>, bound: i64, path: Seq<char>, m: int) -> bool {
    &&& 0 <= m < events.len()
    &&& events[m].row.path == path
    &&& events[m].row.id <= bound
    &&& crate::timeline::snapshot(events, bound)[path] == events[m].row.after_hash
    &&& forall|n: int|
        m < n < events.len() && events[n].row.id <= bound ==> (#[trigger] events[n]).row.path
            != path
}

/// What is known of a path after the events numbered up to `bound` is what the last of them at
/// that path names.
pub(crate) proof fn lemma_snapshot_names(events: Seq<EventRecordView>, bound: i64, path: Seq<char>)
    ensures
        crate::timeline::snapshot(events, bound).contains_key(path) ==> exists|m: int|
            names_last(events, bound, path, m),
        (exists|m: int|
            0 <= m < events.len() && (#[trigger] events[m]).row.path == path && events[m].row.id
                <= bound) ==> crate::timeline::snapshot(events, bound).contains_key(path),
    decreases events.len(),
{
    if events.len() > 0 {
        let fewer = events.drop_last();
        lemma_snapshot_names(fewer, bound, path);
        let last = events.len() - 1;
        if events[last].row.path == path && events[last].row.id <= bound {
            assert(names_last(events, bound, path, last));
        } else {
            if crate::timeline::snapshot(events, bound).contains_key(path) {
                let m = choose|m: int| names_last(fewer, bound, path, m);
                assert(forall|n: int| 0 <= n < last ==> #[trigger] events[n] == fewer[n]);
                assert(names_last(events, bound, path, m));
            }
            if exists|m: int|
                0 <= m < events.len() && (#[trigger] events[m]).row.path == path
                    && events[m].row.id <= bound {
                let m = choose|m: int|
                    0 <= m < events.len() && (#[trigger] events[m]).row.path == path
                        && events[m].row.id <= bound;
                assert(fewer[m].row.path == path);
            }
        }
    }
}

/// What is known of every file after the events numbered up to `bound`, where those that were
/// then the newest stay.
proof fn lemma_survivors_state(i: Image, cutoff: int, bound: i64)
    requires
        super::sound(i),
        bound == i64::MAX || exists|k: int|
            0 <= k < i.pins.len() && (#[trigger] i.pins[k]).event_id == bound,
    ensures
        crate::timeline::snapshot(survivors(i, cutoff), bound) == crate::timeline::snapshot(
            i.events,
            bound,
        ),
{
    let a = crate::timeline::snapshot(i.events, bound);
    let b = crate::timeline::snapshot(survivors(i, cutoff), bound);
    assert forall|p: Seq<char>| #[trigger] a.contains_key(p) == b.contains_key(p) by {
        lemma_survivors_know(i, cutoff, bound, p);
    }
    assert forall|p: Seq<char>| #[trigger] a.contains_key(p) implies a[p] == b[p] by {
        lemma_survivors_know(i, cutoff, bound, p);
    }
    assert(a =~= b);
}

/// An event that was the newest at its path when a pin was made, or is so now, stays.
proof fn lemma_newest_stays(i: Image, cutoff: int, bound: i64, p: Seq<char>, m: int)
    requires
        super::sound(i),
        bound == i64::MAX || exists|k: int|
            0 <= k < i.pins.len() && (#[trigger] i.pins[k]).event_id == bound,
        names_last(i.events, bound, p, m),
    ensures
        survivors(i, cutoff).contains(i.events[m]),
{
    let e = i.events[m];
    let q = |e: EventRecordView| !super::collect::expired(i, cutoff)(e);
    assert(super::collect::is_newest_by(i.events, e.row, bound)) by {
        assert forall|j: int|
            0 <= j < i.events.len() && (#[trigger] i.events[j]).row.path == e.row.path
                && i.events[j].row.id <= bound implies i.events[j].row.id <= e.row.id by {
            if j < m {
                assert(i.events[j].row.id < i.events[m].row.id);
            }
        }
    }
    if bound == i64::MAX {
        assert(super::collect::is_latest(i.events, e.row));
    } else {
        assert(super::collect::is_held(i, e.row));
    }
    i.events.lemma_filter_contains(q, m);
}

/// What is known of a file after the events numbered up to `bound`, where the one that was then
/// the newest stays.
proof fn lemma_survivors_know(i: Image, cutoff: int, bound: i64, p: Seq<char>)
    requires
        super::sound(i),
        bound == i64::MAX || exists|k: int|
            0 <= k < i.pins.len() && (#[trigger] i.pins[k]).event_id == bound,
    ensures
        ({
            let a = crate::timeline::snapshot(i.events, bound);
            let b = crate::timeline::snapshot(survivors(i, cutoff), bound);
            a.contains_key(p) == b.contains_key(p) && (a.contains_key(p) ==> a[p] == b[p])
        }),
{
    let s = survivors(i, cutoff);
    let a = crate::timeline::snapshot(i.events, bound);
    let b = crate::timeline::snapshot(s, bound);
    lemma_snapshot_names(i.events, bound, p);
    lemma_snapshot_names(s, bound, p);
    if b.contains_key(p) {
        let n = choose|n: int| names_last(s, bound, p, n);
        let o = lemma_survivor_was_there(i, cutoff, n);
        assert(i.events[o].row.path == p);
        assert(a.contains_key(p));
    }
    if a.contains_key(p) {
        let m = choose|m: int| names_last(i.events, bound, p, m);
        lemma_newest_stays(i, cutoff, bound, p, m);
        let k = choose|k: int| 0 <= k < s.len() && s[k] == i.events[m];
        assert(s[k].row.path == p);
        assert(b.contains_key(p));
        let n = choose|n: int| names_last(s, bound, p, n);
        assert(k <= n);
        let o = lemma_survivor_was_there(i, cutoff, n);
        assert(i.events[o].row.path == p);
        assert(o <= m);
        if k < n {
            lemma_survivors_numbered(i, cutoff);
            assert(s[k].row.id < s[n].row.id);
            if o < m {
                assert(i.events[o].row.id < i.events[m].row.id);
            }
        }
    }
}

/// An event that is left was there before.
pub(crate) proof fn lemma_survivor_was_there(i: Image, cutoff: int, n: int) -> (o: int)
    requires
        0 <= n < survivors(i, cutoff).len(),
    ensures
        0 <= o < i.events.len(),
        i.events[o] == survivors(i, cutoff)[n],
{
    let s = survivors(i, cutoff);
    let q = |e: EventRecordView| !super::collect::expired(i, cutoff)(e);
    assert(s.contains(s[n]));
    i.events.lemma_filter_contains_rev(q, s[n]);
    choose|o: int| 0 <= o < i.events.len() && i.events[o] == s[n]
}

} // verus!
