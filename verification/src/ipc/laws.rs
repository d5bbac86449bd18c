//! What the requests to the daemon come to.
use vstd::prelude::*;

use super::{RequestView, Response, ResponseView};
use crate::failure::Failure;
use crate::image::MarkerView;
use crate::store::Store;

verus! {

broadcast use vstd::string::group_string_axioms;

/// A request to undo an event brings its file to its state before the event and answers with the
/// event; without such an event it fails and changes nothing.
pub proof fn law_undoing_an_event_by_request(
    before: Store,
    after: Store,
    event_id: i64,
    blame: Option<Seq<char>>,
    r: Result<Response, Failure>,
    k: int,
)
    requires
        before.wf(),
        super::answers(before, after, RequestView::RestoreEvent { event_id }, blame, r),
    ensures
        ({
            let i = before.image();
            let j = after.image();
            &&& 0 <= k < i.events.len() && i.events[k].row.id == event_id && r is Ok ==> {
                &&& crate::restore::outcomes::is_left_with(
                    j,
                    i.events[k].row.path,
                    i.events[k].row.before_hash,
                )
                &&& i.files.remove(i.events[k].row.path) == j.files.remove(i.events[k].row.path)
                &&& crate::restore::outcomes::only_restored(i, j)
                &&& super::is_answer(r, ResponseView::Event { event: i.events[k].row })
            }
            &&& (forall|m: int|
                0 <= m < i.events.len() ==> (#[trigger] i.events[m]).row.id != event_id) ==> r is Err
                && j == i
        }),
{
    let i = before.image();
    crate::timeline::laws::law_event_is_found_by_number(i, event_id);
    match crate::timeline::find_event(i, event_id) {
        Some(e) => {
            crate::restore::outcomes::law_after_a_restore(
                before,
                after,
                e.path,
                e.before_hash,
                crate::failure::outcome(r),
            );
            let m = choose|m: int| 0 <= m < i.events.len() && (#[trigger] i.events[m]).row == e;
            assert(i.events[m].row.id == event_id);
        },
        None => {
            assert(after.image() == i);
        },
    }
}

/// A request to undo the latest change to a file brings it to its state before the newest event
/// there that a user or an agent caused, and answers with that event; without such an event it
/// fails and changes nothing.
pub proof fn law_undoing_the_latest_change_by_request(
    before: Store,
    after: Store,
    path: Seq<char>,
    blame: Option<Seq<char>>,
    r: Result<Response, Failure>,
    k: int,
)
    requires
        before.wf(),
        super::answers(before, after, RequestView::RestoreFile { path }, blame, r),
    ensures
        ({
            let i = before.image();
            let j = after.image();
            let newest = crate::timeline::laws::is_users(i, k) && i.events[k].row.path == path
                && forall|m: int|
                crate::timeline::laws::is_users(i, m) && (#[trigger] i.events[m]).row.path == path
                    ==> m <= k;
            &&& newest && r is Ok ==> {
                &&& crate::restore::outcomes::is_left_with(j, path, i.events[k].row.before_hash)
                &&& i.files.remove(path) == j.files.remove(path)
                &&& crate::restore::outcomes::only_restored(i, j)
                &&& super::is_answer(r, ResponseView::Event { event: i.events[k].row })
            }
            &&& (forall|m: int|
                crate::timeline::laws::is_users(i, m) ==> (#[trigger] i.events[m]).row.path != path)
                ==> r is Err && j == i
        }),
{
    let i = before.image();
    crate::timeline::laws::law_latest_change_to_a_file(i, path);
    match crate::timeline::latest_user_at(i, path) {
        Some(e) => {
            let m = choose|m: int|
                crate::timeline::laws::is_users(i, m) && (#[trigger] i.events[m]).row.path == path
                    && i.events[m].row == e;
            crate::restore::outcomes::law_after_a_restore(
                before,
                after,
                e.path,
                e.before_hash,
                crate::failure::outcome(r),
            );
            assert(i.events[m].row.path == path);
            if crate::timeline::laws::is_users(i, k) && i.events[k].row.path == path && m < k {
                assert(i.events[m].row.id < i.events[k].row.id);
            }
        },
        None => {
            assert(after.image() == i);
        },
    }
}

/// A request to roll a session back leaves every file that it touched as it was before the first
/// event of the session there, and answers with the paths of these files; where it fails, nothing
/// has changed.
pub proof fn law_rolling_a_session_back_by_request(
    before: Store,
    after: Store,
    session_id: Seq<char>,
    blame: Option<Seq<char>>,
    r: Result<Response, Failure>,
    path: Seq<char>,
)
    requires
        before.wf(),
        super::answers(before, after, RequestView::RestoreSession { session_id }, blame, r),
    ensures
        ({
            let i = before.image();
            let j = after.image();
            &&& r is Ok ==> {
                &&& forall|m: int| #[trigger]
                    crate::restore::outcomes::is_first_of_session(i, session_id, path, m)
                        ==> crate::restore::outcomes::is_left_with(
                        j,
                        path,
                        i.events[m].row.before_hash,
                    )
                &&& !crate::restore::outcomes::session_touches(i, session_id, path)
                    ==> crate::restore::outcomes::unchanged_at(i, j, path)
                &&& r->Ok_0.deep_view() is Paths
                &&& r->Ok_0.deep_view()->Paths_paths.contains(path)
                    <==> crate::restore::outcomes::session_touches(i, session_id, path)
            }
            &&& r is Err ==> j == i
        }),
{
    let i = before.image();
    crate::restore::outcomes::law_after_a_session_is_rolled_back(
        before,
        after,
        session_id,
        crate::failure::outcome(r),
        path,
    );
    crate::restore::outcomes::law_session_rollback_names_every_file(i, session_id);
}

/// A request to undo the last burst leaves each file that is named as it was before the event that
/// is named there, and answers with what a question for the plan would have answered.
pub proof fn law_undoing_the_last_burst_by_request(
    before: Store,
    after: Store,
    window_ns: i64,
    blame: Option<Seq<char>>,
    r: Result<Response, Failure>,
)
    requires
        before.wf(),
        super::answers(before, after, RequestView::OopsApply { window_ns }, blame, r),
    ensures
        ({
            let i = before.image();
            let j = after.image();
            let plan = crate::restore::bulk::oops_of(i, window_ns);
            &&& crate::restore::outcomes::only_restored(i, j)
            &&& r is Ok ==> {
                &&& super::is_answer(r, ResponseView::Plan { items: plan })
                &&& super::answer_of(before, RequestView::OopsPlan { window_ns }, blame) == Ok::<
                    ResponseView,
                    crate::failure::FailureView,
                >(ResponseView::Plan { items: plan })
                &&& forall|n: int|
                    0 <= n < plan.len() ==> crate::restore::outcomes::is_left_with(
                        j,
                        (#[trigger] plan[n]).0,
                        plan[n].1.before_hash,
                    )
            }
            &&& forall|path: Seq<char>|
                !(#[trigger] crate::restore::bulk::paths_of(plan).contains(path))
                    ==> crate::restore::outcomes::unchanged_at(i, j, path)
        }),
{
    let i = before.image();
    let plan = crate::restore::bulk::oops_of(i, window_ns);
    let targets = crate::restore::bulk::undone(plan);
    crate::restore::laws::lemma_oops_once(i, window_ns);
    crate::restore::outcomes::law_after_files_are_restored(
        before,
        after,
        targets,
        crate::failure::outcome(r),
    );
    assert(crate::restore::bulk::paths_of(targets) =~= crate::restore::bulk::paths_of(plan));
    if r is Ok {
        assert forall|n: int| 0 <= n < plan.len() implies crate::restore::outcomes::is_left_with(
            after.image(),
            (#[trigger] plan[n]).0,
            plan[n].1.before_hash,
        ) by {
            assert(targets[n] == (plan[n].0, plan[n].1.before_hash));
        }
    }
}

/// A request to restore a pin brings the state at the pin with the label that was made last back,
/// and answers with the paths of all known files; where it fails, or there is no such pin, nothing
/// has changed.
pub proof fn law_restoring_a_pin_by_request(
    before: Store,
    after: Store,
    label: Seq<char>,
    blame: Option<Seq<char>>,
    r: Result<Response, Failure>,
    p: int,
    path: Seq<char>,
)
    requires
        before.wf(),
        before.image().file_states.dom().finite(),
        super::answers(before, after, RequestView::RestorePin { label }, blame, r),
    ensures
        ({
            let i = before.image();
            let j = after.image();
            let newest = 0 <= p < i.pins.len() && i.pins[p].label == label && forall|q: int|
                0 <= q < i.pins.len() && (#[trigger] i.pins[q]).label == label && q != p
                    ==> i.pins[q].created_at_ns < i.pins[p].created_at_ns;
            &&& newest && r is Ok ==> {
                &&& forall|m: int| #[trigger]
                    crate::timeline::laws::is_newest_up_to(i, path, i.pins[p].event_id, m)
                        ==> crate::restore::outcomes::is_left_with(
                        j,
                        path,
                        i.events[m].row.after_hash,
                    )
                &&& crate::restore::outcomes::only_restored(i, j)
            }
            &&& (forall|q: int|
                0 <= q < i.pins.len() ==> (#[trigger] i.pins[q]).label != label) ==> r is Err
            &&& r is Err ==> j == i
        }),
{
    let i = before.image();
    crate::timeline::laws::law_label_means_the_newest_pin(i, label);
    match crate::timeline::find_pin(i, label) {
        Some(pin) => {
            let targets = crate::restore::bulk::pin_targets(i, pin.event_id);
            crate::restore::laws::lemma_pin_targets_once(i, pin.event_id);
            crate::restore::outcomes::law_after_files_are_restored_together(
                before,
                after,
                targets,
                crate::failure::outcome(r),
            );
            let times = choose|times: Seq<(i64, i64)>|
                times.len() == targets.len()
                    && #[trigger] crate::restore::bulk::restores_together_at(
                    before,
                    after,
                    targets,
                    times,
                    crate::failure::outcome(r),
                );
            crate::restore::outcomes::law_pin_brings_its_state_back(i, pin.event_id, times);
            let q = choose|q: int| 0 <= q < i.pins.len() && i.pins[q] == pin;
            assert(i.pins[q].label == label);
            if 0 <= p < i.pins.len() && i.pins[p].label == label {
                assert(i.pins[p].created_at_ns <= pin.created_at_ns);
            }
        },
        None => {
            assert(after.image() == i);
        },
    }
}

/// A request to start a session starts it for the agent that is named, with what its metadata
/// says, makes it the active one, and answers with its id: the one that the metadata names, where
/// it names one. Metadata that cannot be read is refused and changes nothing.
pub proof fn law_starting_a_session_by_request(
    before: Store,
    after: Store,
    agent: Seq<char>,
    metadata: Option<Seq<char>>,
    blame: Option<Seq<char>>,
    r: Result<Response, Failure>,
)
    requires
        before.wf(),
        super::answers(before, after, RequestView::SessionStart { agent, metadata }, blame, r),
    ensures
        ({
            let i = before.image();
            let j = after.image();
            &&& r is Ok <==> crate::session::metadata_read(metadata) is Some
            &&& r is Err ==> j == i
            &&& r matches Ok(x) ==> {
                let id = x.deep_view()->SessionStarted_session_id;
                let m = crate::session::metadata_read(metadata)->0;
                &&& x.deep_view() is SessionStarted
                &&& m.session_id is Some ==> Some(id) == m.session_id
                &&& crate::store::changes::session_with(j, id) is Some
                &&& (crate::store::changes::session_with(j, id)->0).agent == agent
                &&& j.marker is Active
                &&& j.marker->Active_0.session_id == id
                &&& j.marker->Active_0.agent == agent
                &&& j.marker->Active_0.tool_name == m.tool_name
                &&& j.marker->Active_0.intended_file == m.intended_file
                &&& j.events == i.events
            }
        }),
{
    let i = before.image();
    match crate::session::metadata_read(metadata) {
        Some(m) => {
            let s = super::requested_start(agent, m);
            let id = choose|id: Seq<char>| #[trigger]
                crate::session::starts(before, after, s, id) && super::is_answer(
                    r,
                    ResponseView::SessionStarted { session_id: id },
                );
            let ts_ns = choose|ts_ns: i64|
                Store::did(before, after, #[trigger] crate::session::starting(i, s, id, ts_ns));
            crate::session::law_a_session_starts_as_asked_for(i, s, id, ts_ns);
            let fresh = choose|fresh: Seq<char>| #[trigger]
                crate::outside::is_hex_text(fresh, 32) && id == crate::session::starting_id(
                    s,
                    fresh,
                );
        },
        None => {
            assert(after.image() == i);
        },
    }
}

/// A request to end a session leaves it known as ended, with what its metadata reports, and removes
/// the marker where it names that session.
pub proof fn law_ending_a_session_by_request(
    before: Store,
    after: Store,
    session_id: Seq<char>,
    metadata: Option<Seq<char>>,
    blame: Option<Seq<char>>,
    r: Result<Response, Failure>,
)
    requires
        before.wf(),
        super::answers(before, after, RequestView::SessionEnd { session_id, metadata }, blame, r),
        crate::store::changes::session_with(before.image(), session_id) is Some,
        before.image().marker is Active,
        before.image().marker->Active_0.session_id == session_id,
    ensures
        ({
            let i = before.image();
            let j = after.image();
            let known = crate::store::changes::session_with(i, session_id)->0;
            let row = crate::store::changes::session_with(j, session_id)->0;
            &&& r is Ok <==> crate::session::metadata_read(metadata) is Some
            &&& r is Err ==> j == i
            &&& r is Ok ==> {
                &&& super::is_answer(r, ResponseView::SessionEnded)
                &&& j.marker == MarkerView::Absent
                &&& crate::store::changes::session_with(j, session_id) is Some
                &&& row.ended_at_ns is Some
                &&& row.agent == known.agent
                &&& row.started_at_ns == known.started_at_ns
                &&& j.events == i.events
            }
        }),
{
    let i = before.image();
    match crate::session::metadata_read(metadata) {
        Some(m) => {
            let place = crate::session::marker_place(before);
            let ts_ns = choose|ts_ns: i64| #[trigger]
                crate::session::ends_at(
                    before,
                    after,
                    session_id,
                    Some(m),
                    true,
                    ts_ns,
                    crate::failure::outcome(r),
                );
            crate::session::law_end_closes_the_active_session(i, session_id, Some(m), ts_ns, place);
            crate::session::law_ending_touches_one_session(
                i,
                session_id,
                Some(m),
                true,
                ts_ns,
                place,
            );
        },
        None => {
            assert(after.image() == i);
        },
    }
}

/// Questions on events, sessions and contents are answered with what the timeline and the store
/// give for them.
pub proof fn law_lookups_are_answered(
    before: Store,
    blame: Option<Seq<char>>,
    agent: Option<Seq<char>>,
    path_substring: Option<Seq<char>>,
    since_ns: Option<i64>,
    limit: usize,
    event_id: i64,
    show_before: bool,
    show_after: bool,
)
    ensures
        ({
            let i = before.image();
            let shown = super::answer_of(
                before,
                RequestView::ShowEvent { event_id, before: show_before, after: show_after },
                blame,
            );
            let compared = super::answer_of(before, RequestView::DiffEvent { event_id }, blame);
            &&& super::answer_of(before, RequestView::Sessions { limit }, blame) == Ok::<
                ResponseView,
                crate::failure::FailureView,
            >(
                ResponseView::Sessions {
                    sessions: crate::timeline::at_most(
                        crate::timeline::sessions_newest(i),
                        limit as nat,
                    ),
                },
            )
            &&& super::answer_of(
                before,
                RequestView::FilteredEvents { agent, path_substring, since_ns, limit },
                blame,
            ) == Ok::<ResponseView, crate::failure::FailureView>(
                ResponseView::Events {
                    events: crate::timeline::filtered(
                        i,
                        agent,
                        path_substring,
                        since_ns,
                        limit as nat,
                    ),
                },
            )
            &&& crate::restore::preview::side_of(i, event_id, show_before, show_after) matches Ok(
                bytes,
            ) ==> shown == Ok::<ResponseView, crate::failure::FailureView>(
                ResponseView::Bytes { bytes },
            )
            &&& crate::restore::preview::side_of(i, event_id, show_before, show_after) is Err
                ==> shown is Err
            &&& crate::restore::preview::diff_of(i, event_id) matches Ok(content) ==> compared
                == Ok::<ResponseView, crate::failure::FailureView>(ResponseView::Text { content })
            &&& crate::restore::preview::diff_of(i, event_id) is Err ==> compared is Err
        }),
{
}

} // verus!
