//! What the operations of the store come to, in terms of the rows that it holds.
use vstd::prelude::*;

use crate::image::{EffectView, Image};
use crate::rows::{EventRecordView, EventRowView, FileStateView, NewEventView, SessionRowView};

use super::Store;

verus! {

broadcast use vstd::string::group_string_axioms;

// --- loading -----------------------------------------------------------------------------------

/// A store that is opened holds the rows of its tables, all of them and as they are; a tracked
/// file has the state of its last row.
pub proof fn law_opening_loads_every_row(tables: super::Tables)
    ensures
        ({
            let i = super::loaded_image(tables);
            &&& i.events.len() == tables.events.len()
            &&& forall|k: int|
                0 <= k < tables.events.len() ==> (#[trigger] i.events[k])
                    == tables.events@[k].deep_view()
            &&& i.sessions.len() == tables.sessions.len()
            &&& forall|k: int|
                0 <= k < tables.sessions.len() ==> (#[trigger] i.sessions[k])
                    == tables.sessions@[k].deep_view()
            &&& i.pins.len() == tables.pins.len()
            &&& forall|k: int|
                0 <= k < tables.pins.len() ==> (#[trigger] i.pins[k])
                    == tables.pins@[k].deep_view()
            &&& i.last_event_id == tables.last_event_id
            &&& i.last_pin_id == tables.last_pin_id
            &&& forall|path: Seq<char>| #[trigger]
                i.file_states.contains_key(path) <==> exists|k: int|
                    0 <= k < tables.file_states.len() && (#[trigger] tables.file_states@[k]).0@
                        == path
            &&& forall|k: int|
                0 <= k < tables.file_states.len() && (forall|m: int|
                    k < m < tables.file_states.len() ==> (#[trigger] tables.file_states@[m]).0@
                        != tables.file_states@[k].0@) ==> i.file_states[(
                #[trigger] tables.file_states@[k]).0@] == tables.file_states@[k].1.deep_view()
            &&& i.files.dom().len() == 0
            &&& i.objects.dom().len() == 0
            &&& i.marker is Absent
        }),
{
    let i = super::loaded_image(tables);
    let s = tables.file_states.deep_view();
    lemma_map_of(s);
    assert(forall|k: int|
        0 <= k < s.len() ==> #[trigger] s[k] == (
            tables.file_states@[k].0@,
            tables.file_states@[k].1.deep_view(),
        ));
    assert forall|path: Seq<char>| #[trigger] i.file_states.contains_key(path) <==> exists|k: int|
        0 <= k < tables.file_states.len() && (#[trigger] tables.file_states@[k]).0@ == path by {
        if i.file_states.contains_key(path) {
            let k = choose|k: int| 0 <= k < s.len() && (#[trigger] s[k]).0 == path;
            assert(tables.file_states@[k].0@ == path);
        }
        if exists|k: int|
            0 <= k < tables.file_states.len() && (#[trigger] tables.file_states@[k]).0@ == path {
            let k = choose|k: int|
                0 <= k < tables.file_states.len() && (#[trigger] tables.file_states@[k]).0@ == path;
            assert(s[k].0 == path);
        }
    }
    assert forall|k: int|
        0 <= k < tables.file_states.len() && (forall|m: int|
            k < m < tables.file_states.len() ==> (#[trigger] tables.file_states@[m]).0@
                != tables.file_states@[k].0@) implies i.file_states[(
    #[trigger] tables.file_states@[k]).0@] == tables.file_states@[k].1.deep_view() by {
        assert forall|m: int| k < m < s.len() implies (#[trigger] s[m]).0 != s[k].0 by {
            assert(tables.file_states@[m].0@ != tables.file_states@[k].0@);
        }
    }
}

proof fn lemma_map_of(s: Seq<(Seq<char>, FileStateView)>)
    ensures
        forall|path: Seq<char>| #[trigger]
            super::map_of(s).contains_key(path) <==> exists|k: int|
                0 <= k < s.len() && (#[trigger] s[k]).0 == path,
        forall|k: int|
            0 <= k < s.len() && (forall|m: int| k < m < s.len() ==> (#[trigger] s[m]).0 != s[k].0)
                ==> super::map_of(s)[(#[trigger] s[k]).0] == s[k].1,
    decreases s.len(),
{
    if s.len() > 0 {
        let t = s.drop_last();
        let n = s.len() - 1;
        lemma_map_of(t);
        assert(forall|k: int| 0 <= k < n ==> #[trigger] t[k] == s[k]);
        assert forall|path: Seq<char>| #[trigger] super::map_of(s).contains_key(path)
            <==> exists|k: int| 0 <= k < s.len() && (#[trigger] s[k]).0 == path by {
            if super::map_of(t).contains_key(path) {
                let k = choose|k: int| 0 <= k < t.len() && (#[trigger] t[k]).0 == path;
                assert(s[k].0 == path);
            }
            if super::map_of(s).contains_key(path) && path == s[n].0 {
                assert(s[n].0 == path);
            }
            if exists|k: int| 0 <= k < s.len() && (#[trigger] s[k]).0 == path {
                let k = choose|k: int| 0 <= k < s.len() && (#[trigger] s[k]).0 == path;
                if k < n {
                    assert(t[k].0 == path);
                }
            }
        }
        assert forall|k: int|
            0 <= k < s.len() && (forall|m: int|
                k < m < s.len() ==> (#[trigger] s[m]).0 != s[k].0) implies super::map_of(s)[(
        #[trigger] s[k]).0] == s[k].1 by {
            if k < n {
                assert(s[n].0 != s[k].0);
                assert forall|m: int| k < m < t.len() implies (#[trigger] t[m]).0 != t[k].0 by {
                    assert(s[m].0 != s[k].0);
                }
                assert(super::map_of(t)[t[k].0] == t[k].1);
            }
        }
    }
}

// --- recording ---------------------------------------------------------------------------------

/// An event is recorded with everything that is reported of it, as the last one of the timeline
/// and under the number after the last that was given; nothing else changes.
pub proof fn law_an_event_is_recorded_as_reported(i: Image, e: NewEventView)
    requires
        i.last_event_id < i64::MAX,
    ensures
        crate::image::apply(i, EffectView::RecordEvent(super::changes::recorded(i, e))) == (Image {
            events: i.events.push(
                EventRecordView {
                    row: EventRowView {
                        id: (i.last_event_id + 1) as i64,
                        ts_ns: e.ts_ns,
                        path: e.path,
                        before_hash: e.before_hash,
                        after_hash: e.after_hash,
                        size_before: e.size_before,
                        size_after: e.size_after,
                        attribution: e.attribution,
                        session_id: e.session_id,
                    },
                    confidence: e.confidence,
                    pid: e.pid,
                    process_name: e.process_name,
                    tool_name: e.tool_name,
                },
            ),
            last_event_id: (i.last_event_id + 1) as i64,
            ..i
        }),
{
}

// --- contents ----------------------------------------------------------------------------------

/// Storing some content leaves an object under its hash: the one that was there, or the content
/// compressed. Nothing else changes. It fails only where there is none and the content cannot be
/// compressed.
pub proof fn law_a_content_is_stored_under_its_hash(i: Image, bytes: Seq<u8>)
    ensures
        ({
            let hash = crate::outside::blake3_hex(bytes);
            match super::changes::blob_effects(i, bytes) {
                Some(effects) => crate::image::replay(i, effects) == (Image {
                    objects: if i.objects.contains_key(hash) {
                        i.objects
                    } else {
                        i.objects.insert(hash, crate::outside::zstd_encoded(bytes)->0)
                    },
                    ..i
                }),
                None => !i.objects.contains_key(hash) && crate::outside::zstd_encoded(
                    bytes,
                ) is None,
            }
        }),
{
    if let Some(effects) = super::changes::blob_effects(i, bytes) {
        if effects.len() > 0 {
            crate::image::lemma_replay_few(i, effects[0], effects[0]);
            assert(effects =~= seq![effects[0]]);
        }
    }
}

/// What is read under a hash is what its object decompresses to, or the object as it is where it is
/// not compressed; there is nothing to read where there is no object.
pub proof fn law_a_content_is_read_from_its_object(i: Image, hash: Seq<char>)
    ensures
        super::changes::blob(i, hash) is Some <==> i.objects.contains_key(hash),
        i.objects.contains_key(hash) ==> super::changes::blob(i, hash)->0 == (
        match crate::outside::zstd_decoded(i.objects[hash]) {
            Some(bytes) => bytes,
            None => i.objects[hash],
        }),
{
}

// --- sessions ----------------------------------------------------------------------------------

/// A session that is reported is known under its id afterwards, and the other sessions are as they
/// were. The first report is taken as it is. A later one sets the agent, keeps the start, and
/// fills in what it says of the rest, leaving what it does not speak of.
pub proof fn law_a_session_is_known_as_reported(i: Image, s: SessionRowView)
    requires
        super::sound(i),
    ensures
        ({
            let known = super::changes::session_with(i, s.id);
            let j = crate::image::apply(
                i,
                EffectView::PutSession(super::changes::upserted(known, s)),
            );
            let row = super::changes::session_with(j, s.id)->0;
            &&& super::changes::session_with(j, s.id) is Some
            &&& row.id == s.id && row.agent == s.agent
            &&& known is None ==> row == s && j.sessions == i.sessions.push(s)
            &&& known matches Some(k) ==> {
                &&& row.started_at_ns == k.started_at_ns
                &&& row.ended_at_ns == (if s.ended_at_ns is Some {
                    s.ended_at_ns
                } else {
                    k.ended_at_ns
                })
                &&& row.prompt == (if s.prompt is Some {
                    s.prompt
                } else {
                    k.prompt
                })
                &&& row.model == (if s.model is Some {
                    s.model
                } else {
                    k.model
                })
                &&& row.metadata == (if s.metadata is Some {
                    s.metadata
                } else {
                    k.metadata
                })
                &&& row.prompt_output == (if s.prompt_output is Some {
                    s.prompt_output
                } else {
                    k.prompt_output
                })
                &&& j.sessions.len() == i.sessions.len()
            }
            &&& forall|k: int|
                0 <= k < i.sessions.len() && (#[trigger] i.sessions[k]).id != s.id
                    ==> j.sessions[k] == i.sessions[k]
            &&& j == (Image { sessions: j.sessions, ..i })
        }),
{
    let known = super::changes::session_with(i, s.id);
    let row = super::changes::upserted(known, s);
    let j = crate::image::apply(i, EffectView::PutSession(row));
    super::laws::lemma_put_is_found(i.sessions, row);
    crate::session::lemma_session_with(j, row);
}

/// A session is known under an id where one of the rows has it, and then it is that row.
pub proof fn law_a_session_is_found_by_id(i: Image, id: Seq<char>)
    requires
        super::sound(i),
    ensures
        super::changes::session_with(i, id) is Some <==> exists|k: int|
            0 <= k < i.sessions.len() && (#[trigger] i.sessions[k]).id == id,
        forall|k: int|
            0 <= k < i.sessions.len() && (#[trigger] i.sessions[k]).id == id
                ==> super::changes::session_with(i, id) == Some(i.sessions[k]),
{
    assert forall|k: int| 0 <= k < i.sessions.len() && (#[trigger] i.sessions[k]).id
        == id implies super::changes::session_with(i, id) == Some(i.sessions[k]) by {
        let j = choose|j: int| 0 <= j < i.sessions.len() && i.sessions[j].id == id;
        if j < k {
            assert(i.sessions[j].id != i.sessions[k].id);
        } else if k < j {
            assert(i.sessions[k].id != i.sessions[j].id);
        }
    }
}

/// Of the output of a prompt the beginning is kept: all of it, or its first 500 characters.
pub proof fn law_outputs_are_cut_at_their_end(output: Seq<char>)
    ensures
        ({
            let kept = super::changes::clipped(Some(output))->0;
            &&& super::changes::clipped(Some(output)) is Some
            &&& kept.len() == if output.len() < 500 {
                output.len()
            } else {
                500
            }
            &&& forall|k: int| 0 <= k < kept.len() ==> (#[trigger] kept[k]) == output[k]
        }),
        super::changes::clipped(None) is None,
{
}

/// A session that ends has ended at that time; its prompt, model and output are those that are
/// reported, or those that were known; its metadata is merged; its id, agent and start stay.
pub proof fn law_an_ended_session_keeps_what_is_known(
    known: SessionRowView,
    ts_ns: i64,
    prompt: Option<Seq<char>>,
    model: Option<Seq<char>>,
    output: Option<Seq<char>>,
    metadata: Option<Seq<char>>,
)
    ensures
        ({
            let row = super::changes::ended(known, ts_ns, prompt, model, output, metadata);
            &&& row.id == known.id
            &&& row.agent == known.agent
            &&& row.started_at_ns == known.started_at_ns
            &&& row.ended_at_ns == Some(ts_ns)
            &&& row.prompt == (if prompt is Some {
                prompt
            } else {
                known.prompt
            })
            &&& row.model == (if model is Some {
                model
            } else {
                known.model
            })
            &&& row.prompt_output == (if output is Some {
                output
            } else {
                known.prompt_output
            })
            &&& metadata is None ==> row.metadata == known.metadata
            &&& metadata is Some && known.metadata is None ==> row.metadata == metadata
            &&& metadata is Some && known.metadata is Some ==> row.metadata == Some(
                crate::json::merged_text(known.metadata->0, metadata->0),
            )
        }),
{
}

// --- pins --------------------------------------------------------------------------------------

/// A pin is made for the newest event, or for none where there is none, with its label and time,
/// as the last pin and under the number after the last that was given.
pub proof fn law_a_pin_marks_the_newest_event(i: Image, label: Seq<char>, ts_ns: i64)
    requires
        super::sound(i),
        i.last_pin_id < i64::MAX,
    ensures
        ({
            let pin = super::changes::pinned(i, label, ts_ns);
            let j = crate::image::apply(i, EffectView::AddPin(pin));
            &&& pin.label == label
            &&& pin.created_at_ns == ts_ns
            &&& pin.id == i.last_pin_id + 1
            &&& forall|k: int|
                0 <= k < i.events.len() ==> (#[trigger] i.events[k]).row.id <= pin.event_id
            &&& i.events.len() == 0 ==> pin.event_id == 0
            &&& i.events.len() > 0 ==> exists|k: int|
                0 <= k < i.events.len() && (#[trigger] i.events[k]).row.id == pin.event_id
            &&& j == (Image { pins: i.pins.push(pin), last_pin_id: pin.id, ..i })
        }),
{
    let n = i.events.len() as int;
    assert forall|k: int| 0 <= k < n implies (#[trigger] i.events[k]).row.id
        <= super::changes::newest_id(i) by {
        if k < n - 1 {
            assert(i.events[k].row.id < i.events[n - 1].row.id);
        }
    }
    if n > 0 {
        assert(i.events[n - 1].row.id == super::changes::newest_id(i));
    }
}

/// A pin and the state at it: right after a pin was made, the state up to its event is what is
/// known of all files.
pub proof fn law_a_pin_holds_all_that_is_known(i: Image, label: Seq<char>, ts_ns: i64)
    requires
        super::sound(i),
    ensures
        crate::timeline::snapshot(i.events, super::changes::pinned(i, label, ts_ns).event_id)
            == crate::timeline::snapshot(i.events, i64::MAX),
{
    let bound = super::changes::pinned(i, label, ts_ns).event_id;
    let n = i.events.len() as int;
    assert forall|k: int| 0 <= k < n implies (#[trigger] i.events[k]).row.id <= bound by {
        if k < n - 1 {
            assert(i.events[k].row.id < i.events[n - 1].row.id);
        }
    }
    lemma_bound_is_enough(i.events, bound);
}

proof fn lemma_bound_is_enough(events: Seq<EventRecordView>, bound: i64)
    requires
        forall|k: int| 0 <= k < events.len() ==> (#[trigger] events[k]).row.id <= bound,
    ensures
        crate::timeline::snapshot(events, bound) == crate::timeline::snapshot(events, i64::MAX),
    decreases events.len(),
{
    if events.len() > 0 {
        let fewer = events.drop_last();
        assert forall|k: int| 0 <= k < fewer.len() implies (#[trigger] fewer[k]).row.id
            <= bound by {
            assert(fewer[k] == events[k]);
        }
        lemma_bound_is_enough(fewer, bound);
        assert(events[events.len() - 1] == events.last());
    }
}

// --- collection --------------------------------------------------------------------------------

/// Whether a newer event stands at the path of the event at a place.
pub open spec fn is_superseded(i: Image, k: int) -> bool {
    exists|m: int|
        0 <= m < i.events.len() && (#[trigger] i.events[m]).row.path == i.events[k].row.path
            && i.events[m].row.id > i.events[k].row.id
}

/// Whether the state at some pin needs the event at a place: it lies up to the pin, and every newer
/// event at its path lies beyond.
pub open spec fn a_pin_needs(i: Image, k: int) -> bool {
    exists|p: int|
        0 <= p < i.pins.len() && i.events[k].row.id <= (#[trigger] i.pins[p]).event_id && forall|
            m: int,
        |
            0 <= m < i.events.len() && (#[trigger] i.events[m]).row.path == i.events[k].row.path
                && i.events[m].row.id > i.events[k].row.id ==> i.events[m].row.id
                > i.pins[p].event_id
}

/// Whether an event or a tracked file names a hash.
pub open spec fn is_mentioned(i: Image, hash: Seq<char>) -> bool {
    ||| exists|k: int|
        0 <= k < i.events.len() && ((#[trigger] i.events[k]).row.before_hash == Some(hash)
            || i.events[k].row.after_hash == Some(hash))
    ||| exists|p: Seq<char>| #[trigger]
        i.file_states.contains_key(p) && i.file_states[p].latest_hash == hash
}

/// A collection removes the events that are older than the cutoff, superseded at their path, and
/// that no pin needs, and no others; the rest stay in their order. Then it removes those of the
/// named objects that nothing mentions any more, and no others. It says how many events went.
pub proof fn law_collection_removes_what_nothing_needs(
    i: Image,
    cutoff: int,
    names: Seq<Seq<char>>,
)
    requires
        super::sound(i),
    ensures
        ({
            let j = crate::image::replay(i, super::collect::collected(i, cutoff, names));
            &&& forall|k: int|
                #![trigger i.events[k]]
                0 <= k < i.events.len() ==> (j.events.contains(i.events[k]) <==> {
                    ||| i.events[k].row.ts_ns >= cutoff
                    ||| !is_superseded(i, k)
                    ||| a_pin_needs(i, k)
                })
            &&& forall|n: int|
                0 <= n < j.events.len() ==> i.events.contains(#[trigger] j.events[n])
            &&& super::numbered(j.events, i.last_event_id)
            &&& super::collect::deletions(i, cutoff).len() == i.events.len() - j.events.len()
            &&& forall|hash: Seq<char>| #[trigger]
                j.objects.contains_key(hash) <==> i.objects.contains_key(hash) && (!names.contains(
                    hash,
                ) || is_mentioned(j, hash))
            &&& j.objects.submap_of(i.objects)
            &&& j == (Image { events: j.events, objects: j.objects, ..i })
        }),
{
    let j = crate::image::replay(i, super::collect::collected(i, cutoff, names));
    super::laws::law_collection_keeps_what_it_should(i, cutoff, names);
    super::laws::lemma_survivors_numbered(i, cutoff);
    assert forall|k: int| #![trigger i.events[k]] 0 <= k < i.events.len() implies (j.events.contains(
        i.events[k],
    ) <==> {
        ||| i.events[k].row.ts_ns >= cutoff
        ||| !is_superseded(i, k)
        ||| a_pin_needs(i, k)
    }) by {
        assert(super::collect::is_latest(i.events, i.events[k].row) == !is_superseded(i, k));
        if super::collect::is_held(i, i.events[k].row) {
            let p = choose|p: int|
                0 <= p < i.pins.len() && super::collect::is_newest_by(
                    i.events,
                    i.events[k].row,
                    (#[trigger] i.pins[p]).event_id,
                );
            assert(i.events[k].row.id <= i.pins[p].event_id);
            assert(a_pin_needs(i, k));
        }
        if a_pin_needs(i, k) {
            let p = choose|p: int|
                0 <= p < i.pins.len() && i.events[k].row.id <= (#[trigger] i.pins[p]).event_id
                    && forall|m: int|
                    0 <= m < i.events.len() && (#[trigger] i.events[m]).row.path
                        == i.events[k].row.path && i.events[m].row.id > i.events[k].row.id
                        ==> i.events[m].row.id > i.pins[p].event_id;
            assert(super::collect::is_newest_by(
                i.events,
                i.events[k].row,
                i.pins[p].event_id,
            ));
        }
    }
    assert forall|n: int| 0 <= n < j.events.len() implies i.events.contains(
        #[trigger] j.events[n],
    ) by {
        let o = super::laws::lemma_survivor_was_there(i, cutoff, n);
        assert(i.events[o] == j.events[n]);
    }
    let f = super::collect::expired(i, cutoff);
    super::laws::lemma_filter_parts(i.events, f);
    let gone = super::collect::deletions(i, cutoff);
    let middle = crate::image::replay(i, gone);
    super::laws::lemma_deletions(i, cutoff);
    crate::image::lemma_replay_concat(i, gone, super::collect::sweeps(middle, names));
    assert(j.events == middle.events && j.file_states == middle.file_states);
    let orphans = names.filter(super::collect::orphaned(middle));
    super::laws::lemma_sweeps(middle, orphans);
    assert forall|hash: Seq<char>| #[trigger] j.objects.contains_key(hash)
        <==> i.objects.contains_key(hash) && (!names.contains(hash) || is_mentioned(j, hash)) by {
        super::laws::law_sweep_keeps_what_is_referenced(middle, names, hash);
        lemma_mentioned(middle, hash);
        lemma_mentioned(j, hash);
        assert(super::collect::is_referenced(middle, hash) == super::collect::is_referenced(
            j,
            hash,
        ));
    }
}

proof fn lemma_mentioned(i: Image, hash: Seq<char>)
    ensures
        super::collect::is_referenced(i, hash) == is_mentioned(i, hash),
{
    if exists|j: int|
        0 <= j < i.events.len() && super::collect::event_names(#[trigger] i.events[j].row, hash) {
        let j = choose|j: int|
            0 <= j < i.events.len() && super::collect::event_names(
                #[trigger] i.events[j].row,
                hash,
            );
        assert(i.events[j].row.before_hash == Some(hash) || i.events[j].row.after_hash == Some(
            hash,
        ));
    }
    if exists|k: int|
        0 <= k < i.events.len() && ((#[trigger] i.events[k]).row.before_hash == Some(hash)
            || i.events[k].row.after_hash == Some(hash)) {
        let k = choose|k: int|
            0 <= k < i.events.len() && ((#[trigger] i.events[k]).row.before_hash == Some(hash)
                || i.events[k].row.after_hash == Some(hash));
        assert(super::collect::event_names(i.events[k].row, hash));
    }
}

// --- stores ------------------------------------------------------------------------------------

/// After a collection: every event is there or gone as it must be, and so is every object. What is
/// reported are the number of events that went, and the number of the named objects that nothing
/// mentions any more.
pub proof fn law_after_a_collection(
    before: Store,
    after: Store,
    cutoff: int,
    names: Seq<Seq<char>>,
    r: (usize, usize),
    k: int,
)
    requires
        before.wf(),
        super::collect::collects(before, after, cutoff, names, r),
        0 <= k < before.image().events.len(),
    ensures
        ({
            let i = before.image();
            let j = after.image();
            &&& j.events.contains(i.events[k]) <==> {
                ||| i.events[k].row.ts_ns >= cutoff
                ||| !is_superseded(i, k)
                ||| a_pin_needs(i, k)
            }
            &&& r.0 == i.events.len() - j.events.len()
            &&& r.1 == names.filter(|hash: Seq<char>| !is_mentioned(j, hash)).len()
            &&& forall|hash: Seq<char>| #[trigger]
                j.objects.contains_key(hash) <==> i.objects.contains_key(hash) && (!names.contains(
                    hash,
                ) || is_mentioned(j, hash))
            &&& j == (Image { events: j.events, objects: j.objects, ..i })
        }),
{
    let i = before.image();
    let j = after.image();
    law_collection_removes_what_nothing_needs(i, cutoff, names);
    let gone = super::collect::deletions(i, cutoff);
    let middle = crate::image::replay(i, gone);
    super::laws::lemma_deletions(i, cutoff);
    crate::image::lemma_replay_concat(i, gone, super::collect::sweeps(middle, names));
    super::laws::lemma_sweeps(middle, names.filter(super::collect::orphaned(middle)));
    assert(j.events == middle.events && j.file_states == middle.file_states);
    let f = super::collect::orphaned(middle);
    let g = |hash: Seq<char>| !is_mentioned(j, hash);
    assert forall|n: int| 0 <= n < names.len() implies f(#[trigger] names[n]) == g(names[n]) by {
        lemma_mentioned(middle, names[n]);
        assert(is_mentioned(middle, names[n]) == is_mentioned(j, names[n])) by {
            lemma_mentioned(j, names[n]);
            assert(super::collect::is_referenced(middle, names[n]) == super::collect::is_referenced(
                j,
                names[n],
            ));
        }
    }
    super::laws::lemma_filter_agree(names, f, g);
}

/// After a pin was made: it is the last one, with its label and its time, and it stands for the
/// newest event.
pub proof fn law_after_a_pin_is_made(
    before: Store,
    after: Store,
    label: Seq<char>,
    ts_ns: i64,
    r: Result<i64, crate::failure::Failure>,
)
    requires
        before.wf(),
        super::changes::pins_at(before, after, label, ts_ns, r),
    ensures
        ({
            let i = before.image();
            let j = after.image();
            &&& r is Ok <==> i.last_pin_id < i64::MAX
            &&& r matches Ok(id) ==> {
                &&& j == (Image { pins: j.pins, last_pin_id: id, ..i })
                &&& j.pins.len() == i.pins.len() + 1
                &&& j.pins.drop_last() == i.pins
                &&& j.pins.last().id == id
                &&& j.pins.last().label == label
                &&& j.pins.last().created_at_ns == ts_ns
                &&& forall|k: int|
                    0 <= k < i.events.len() ==> (#[trigger] i.events[k]).row.id
                        <= j.pins.last().event_id
                &&& i.events.len() > 0 ==> exists|k: int|
                    0 <= k < i.events.len() && (#[trigger] i.events[k]).row.id
                        == j.pins.last().event_id
                &&& i.events.len() == 0 ==> j.pins.last().event_id == 0
            }
            &&& r is Err ==> j == i
        }),
{
    let i = before.image();
    let pin = super::changes::pinned(i, label, ts_ns);
    if i.last_pin_id < i64::MAX {
        law_a_pin_marks_the_newest_event(i, label, ts_ns);
        let e = EffectView::AddPin(pin);
        crate::image::lemma_replay_few(i, e, e);
        assert(after.image().pins.drop_last() =~= i.pins);
    } else {
        assert(after.image() == i);
    }
}

} // verus!
