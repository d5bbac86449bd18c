//! Undoing: what the commands that restore decide and print.
use vstd::prelude::*;

use super::reply::{asked_event, asked_paths, Asked, AskedView};
use super::{no_lines, push_line};
use crate::failure::{joined, Failure, FailureView};
use crate::image::Image;
use crate::ipc::{Request, RequestView, Response, ResponseView};
use crate::json::{empty_object, put, quoted, shown, texts_value};
use crate::restore::plan::PlanItemView;
use crate::restore::preview::RevertJsonOutputView;
use crate::restore::{
    apply_plan, format_plan, plan_event, plan_pin, plan_session, restore_latest_change_to_file,
    restore_session, restore_to_event, try_plan_to_json, PlanItem, RevertJsonOutput,
};
use crate::rows::{EventRow, EventRowView};
use crate::session::{SessionStart, SessionStartView};
use crate::store::Store;
use crate::text::{count_text, decimal_text, first_bytes, pad, same, signed_text};

verus! {

broadcast use vstd::string::group_string_axioms;

/// A path in a list.
pub open spec fn indented_line(path: Seq<char>) -> Seq<char> {
    "  "@ + path
}

fn indented_text(path: &str) -> (r: String)
    ensures
        r@ == indented_line(path@),
{
    let mut out = joined("  ", path);
    out
}

/// Paths as they are listed.
pub open spec fn indented(paths: Seq<Seq<char>>) -> Seq<Seq<char>> {
    paths.map_values(|p: Seq<char>| indented_line(p))
}

/// Puts the first `n` paths behind some lines.
fn push_paths(out: &mut Vec<String>, paths: &Vec<String>, n: usize)
    requires
        n <= paths.len(),
    ensures
        final(out).deep_view() == old(out).deep_view() + indented(
            paths.deep_view().take(n as int),
        ),
{
    let ghost before = out.deep_view();
    let ghost d = paths.deep_view();
    let mut i: usize = 0;
    assert(before + indented(d.take(0)) =~= before);
    while i < n
        invariant
            i <= n <= paths.len(),
            d == paths.deep_view(),
            out.deep_view() == before + indented(d.take(i as int)),
        decreases n - i,
    {
        assert(d[i as int] == paths@[i as int]@);
        push_line(out, indented_text(paths[i].as_str()));
        assert(before + indented(d.take(i + 1)) =~= (before + indented(d.take(i as int))).push(
            indented_line(d[i as int]),
        ));
        i = i + 1;
    }
}

/// What is asked before files are rolled back.
pub open spec fn question_line(n: nat) -> Seq<char> {
    "Roll back these "@ + crate::text::decimal(n) + " file(s)?"@
}

/// What is asked before files are rolled back.
pub fn question_text(n: usize) -> (r: String)
    ensures
        r@ == question_line(n as nat),
{
    let mut out = joined("Roll back these ", count_text(n).as_str());
    out.append(" file(s)?");
    out
}

/// What is said where the answer is no.
pub open spec fn aborted_line() -> Seq<char> {
    "aborted."@
}

/// What is said where the answer is no.
pub fn aborted_text() -> (r: String)
    ensures
        r@ == aborted_line(),
{
    "aborted.".to_owned()
}

// --- restoring ---------------------------------------------------------------------------------

/// What the command that restores does.
#[derive(Debug)]
#[allow(inconsistent_fields)]
pub enum RestoreStep {
    /// Undo an event.
    Event { id: u64 },
    /// Undo the last change to a file.
    File { path: String },
    /// Roll a session back.
    Session { id: String },
    /// Say how it is used.
    Usage,
}

/// What the command that restores does.
#[allow(inconsistent_fields)]
pub enum RestoreStepView {
    Event { id: u64 },
    File { path: Seq<char> },
    Session { id: Seq<char> },
    Usage,
}

impl DeepView for RestoreStep {
    type V = RestoreStepView;

    open spec fn deep_view(&self) -> RestoreStepView {
        match self {
            RestoreStep::Event { id } => RestoreStepView::Event { id: *id },
            RestoreStep::File { path } => RestoreStepView::File { path: path@ },
            RestoreStep::Session { id } => RestoreStepView::Session { id: id@ },
            RestoreStep::Usage => RestoreStepView::Usage,
        }
    }
}

/// What the command that restores does with its arguments: an event goes before a file, and a file
/// before a session.
pub open spec fn restore_choice(
    event_id: Option<u64>,
    file: Option<Seq<char>>,
    session: Option<Seq<char>>,
) -> RestoreStepView {
    match (event_id, file, session) {
        (Some(id), _, _) => RestoreStepView::Event { id },
        (None, Some(path), _) => RestoreStepView::File { path },
        (None, None, Some(id)) => RestoreStepView::Session { id },
        (None, None, None) => RestoreStepView::Usage,
    }
}

/// What the command that restores does with its arguments (see `restore_choice`).
pub fn choose_restore(event_id: Option<u64>, file: Option<String>, session: Option<String>) -> (r:
    RestoreStep)
    ensures
        r.deep_view() == restore_choice(event_id, file.deep_view(), session.deep_view()),
{
    match (event_id, file, session) {
        (Some(id), _, _) => RestoreStep::Event { id },
        (None, Some(path), _) => RestoreStep::File { path },
        (None, None, Some(id)) => RestoreStep::Session { id },
        (None, None, None) => RestoreStep::Usage,
    }
}

/// How the command that restores is used.
pub open spec fn restore_usage_line() -> Seq<char> {
    "usage: agent-undo restore <event-id>\n   or: agent-undo restore --file <path>\n   or: agent-undo restore --session <id>"@
}

/// How the command that restores is used.
pub fn restore_usage_text() -> (r: String)
    ensures
        r@ == restore_usage_line(),
{
    "usage: agent-undo restore <event-id>\n   or: agent-undo restore --file <path>\n   or: agent-undo restore --session <id>".to_owned()
}

/// What is said where there is no event with the number that was asked for.
pub open spec fn no_such_event_line(id: u64) -> Seq<char> {
    "no event #"@ + crate::text::decimal(id as nat)
}

/// What is said where there is no event with the number that was asked for.
pub fn no_such_event_text(id: u64) -> (r: String)
    ensures
        r@ == no_such_event_line(id),
{
    let mut out = joined("no event #", decimal_text(id).as_str());
    out
}

/// What is said of an event that was undone.
pub open spec fn restored_event_line(path: Seq<char>, id: i64, hash: Seq<char>) -> Seq<char> {
    "restored "@ + path + " to state before event #"@ + crate::text::decimal_int(id as int)
        + " ("@ + hash + ")"@
}

fn restored_event_text(path: &str, id: i64, hash: &str) -> (r: String)
    ensures
        r@ == restored_event_line(path@, id, hash@),
{
    let mut out = joined("restored ", path);
    out.append(" to state before event #");
    out.append(signed_text(id).as_str());
    out.append(" (");
    out.append(hash);
    out.append(")");
    out
}

/// What is said of a file whose last change was undone.
pub open spec fn restored_file_line(path: Seq<char>, id: i64, agent: Seq<char>) -> Seq<char> {
    "restored "@ + path + " — undid event #"@ + crate::text::decimal_int(id as int)
        + " (attribution: "@ + agent + ")"@
}

/// What is said of a file whose last change was undone.
pub fn restored_file_text(path: &str, id: i64, agent: &str) -> (r: String)
    ensures
        r@ == restored_file_line(path@, id, agent@),
{
    let mut out = joined("restored ", path);
    out.append(" — undid event #");
    out.append(signed_text(id).as_str());
    out.append(" (attribution: ");
    out.append(agent);
    out.append(")");
    out
}

/// What is said of a session without events.
pub open spec fn no_session_events_line(id: Seq<char>) -> Seq<char> {
    "no events found for session "@ + id
}

/// What is said of a session without events.
pub fn no_session_events_text(id: &str) -> (r: String)
    ensures
        r@ == no_session_events_line(id@),
{
    let mut out = joined("no events found for session ", id);
    out
}

/// What is said of a session that was rolled back.
pub open spec fn rolled_back_line(id: Seq<char>, n: nat) -> Seq<char> {
    "rolled back session "@ + id + " — restored "@ + crate::text::decimal(n) + " file(s):"@
}

fn rolled_back_text(id: &str, n: usize) -> (r: String)
    ensures
        r@ == rolled_back_line(id@, n as nat),
{
    let mut out = joined("rolled back session ", id);
    out.append(" — restored ");
    out.append(count_text(n).as_str());
    out.append(" file(s):");
    out
}

/// The beginning of the hash before an event as it is shown; `None` where it has no 12 bytes, or
/// the cut would fall inside a character.
pub open spec fn hash_before(e: EventRowView) -> Option<Seq<char>> {
    match e.before_hash {
        Some(h) => if crate::text::byte_len(h) < 12 {
            None
        } else {
            crate::text::head(h, 12)
        },
        None => Some("<did not exist>"@),
    }
}

/// What is said of an event that was undone; `None` where the hash before it cannot be shown.
pub fn undone_text(e: &EventRow) -> (r: Option<String>)
    ensures
        r.deep_view() == (match hash_before(e.deep_view()) {
            Some(hash) => Some(restored_event_line(e.path@, e.id, hash)),
            None => None,
        }),
{
    let hash: String = match &e.before_hash {
        Some(h) => {
            // A text of fewer than 12 bytes is its own first 11 bytes.
            if let Some(head) = first_bytes(h.as_str(), 11) {
                if same(head.as_str(), h.as_str()) {
                    proof {
                        lemma_own_head(h@, 11);
                    }
                    return None;
                }
            }
            proof {
                lemma_own_head(h@, 11);
            }
            match first_bytes(h.as_str(), 12) {
                Some(head) => head,
                None => {
                    return None;
                },
            }
        },
        None => "<did not exist>".to_owned(),
    };
    Some(restored_event_text(e.path.as_str(), e.id, hash.as_str()))
}

/// A text is its own beginning of `n` bytes where it has no more.
proof fn lemma_own_head(s: Seq<char>, n: nat)
    ensures
        crate::text::head(s, n) == Some(s) <==> crate::text::byte_len(s) <= n,
{
    if crate::text::byte_len(s) > n && crate::text::head(s, n) == Some(s) {
        let k = choose|k: int| #[trigger] crate::text::cut_at(s, n, k);
        assert(crate::text::cut_at(s, n, k));
        assert(s.take(k) == s);
    }
}

/// What is said of a session that was rolled back, or that has no events.
pub open spec fn rollback_report(id: Seq<char>, paths: Seq<Seq<char>>) -> Seq<Seq<char>> {
    if paths.len() == 0 {
        seq![no_session_events_line(id)]
    } else {
        seq![rolled_back_line(id, paths.len())] + indented(paths)
    }
}

/// What is said of a session that was rolled back, or that has no events.
pub fn rollback_lines(id: &str, paths: &Vec<String>) -> (r: Vec<String>)
    ensures
        r.deep_view() == rollback_report(id@, paths.deep_view()),
{
    let ghost d = paths.deep_view();
    let mut out = no_lines();
    if paths.len() == 0 {
        push_line(&mut out, no_session_events_text(id));
        assert(d.len() == 0);
        assert(out.deep_view() =~= rollback_report(id@, d));
    } else {
        push_line(&mut out, rolled_back_text(id, paths.len()));
        push_paths(&mut out, paths, paths.len());
        assert(d.take(d.len() as int) =~= d);
        assert(out.deep_view() =~= rollback_report(id@, d));
    }
    out
}

/// What a command comes to.
#[derive(Debug)]
pub enum Told {
    /// It is done, and this is printed.
    Lines(Vec<String>),
    /// It fails with this message.
    Failed(String),
    /// It is done, but the hash of an event cannot be shown: it has no 12 bytes, or the cut would
    /// fall inside a character.
    Unshown,
    /// The daemon cannot be reached: the command does the work itself.
    Alone,
}

/// What a command comes to.
pub enum ToldView {
    Lines(Seq<Seq<char>>),
    Failed(Seq<char>),
    Unshown,
    Alone,
}

impl DeepView for Told {
    type V = ToldView;

    open spec fn deep_view(&self) -> ToldView {
        match self {
            Told::Lines(lines) => ToldView::Lines(lines.deep_view()),
            Told::Failed(message) => ToldView::Failed(message@),
            Told::Unshown => ToldView::Unshown,
            Told::Alone => ToldView::Alone,
        }
    }
}

/// What the daemon is asked in order to restore; `None` where it is not asked.
pub open spec fn restore_asks(step: RestoreStepView) -> Option<RequestView> {
    match step {
        RestoreStepView::Event { id } => Some(RequestView::RestoreEvent { event_id: id as i64 }),
        RestoreStepView::File { path } => Some(RequestView::RestoreFile { path }),
        RestoreStepView::Session { id } => Some(RequestView::RestoreSession { session_id: id }),
        RestoreStepView::Usage => None,
    }
}

/// What the daemon is asked in order to restore; `None` where it is not asked.
pub fn restore_request(step: &RestoreStep) -> (r: Option<Request>)
    ensures
        r.deep_view() == restore_asks(step.deep_view()),
{
    match step {
        RestoreStep::Event { id } => Some(Request::RestoreEvent { event_id: *id as i64 }),
        RestoreStep::File { path } => Some(Request::RestoreFile { path: path.clone() }),
        RestoreStep::Session { id } => Some(Request::RestoreSession { session_id: id.clone() }),
        RestoreStep::Usage => None,
    }
}

/// What is said of an event that was undone.
pub open spec fn event_told(e: EventRowView) -> ToldView {
    match hash_before(e) {
        Some(hash) => ToldView::Lines(seq![restored_event_line(e.path, e.id, hash)]),
        None => ToldView::Unshown,
    }
}

fn tell_event(e: &EventRow) -> (r: Told)
    ensures
        r.deep_view() == event_told(e.deep_view()),
{
    match undone_text(e) {
        Some(line) => tell(line),
        None => Told::Unshown,
    }
}

fn tell(line: String) -> (r: Told)
    ensures
        r.deep_view() == ToldView::Lines(seq![line@]),
{
    let mut out = no_lines();
    push_line(&mut out, line);
    assert(out.deep_view() =~= seq![line@]);
    Told::Lines(out)
}

/// What is said of a file whose last change was undone; the event is that change.
pub open spec fn file_told(path: Seq<char>, e: EventRowView) -> ToldView {
    ToldView::Lines(seq![restored_file_line(path, e.id, e.attribution)])
}

/// What restoring comes to with the reply of the daemon.
pub open spec fn restore_answer(step: RestoreStepView, reply: Option<ResponseView>) -> ToldView {
    match step {
        RestoreStepView::Event { .. } => match super::reply::having_event(reply) {
            AskedView::Got(e) => event_told(e),
            AskedView::Refused(message) => ToldView::Failed(message),
            AskedView::Alone => ToldView::Alone,
        },
        RestoreStepView::File { path } => match super::reply::having_event(reply) {
            AskedView::Got(e) => file_told(path, e),
            AskedView::Refused(message) => ToldView::Failed(message),
            AskedView::Alone => ToldView::Alone,
        },
        RestoreStepView::Session { id } => match super::reply::having_paths(reply) {
            AskedView::Got(paths) => ToldView::Lines(rollback_report(id, paths)),
            AskedView::Refused(message) => ToldView::Failed(message),
            AskedView::Alone => ToldView::Alone,
        },
        RestoreStepView::Usage => ToldView::Lines(seq![restore_usage_line()]),
    }
}

/// What restoring comes to with the reply of the daemon (see `restore_answer`).
pub fn restore_told(step: &RestoreStep, reply: Option<Response>) -> (r: Told)
    ensures
        r.deep_view() == restore_answer(step.deep_view(), reply.deep_view()),
{
    match step {
        RestoreStep::Event { id: _ } => match asked_event(reply) {
            Asked::Got(e) => tell_event(&e),
            Asked::Refused(message) => Told::Failed(message),
            Asked::Alone => Told::Alone,
        },
        RestoreStep::File { path } => match asked_event(reply) {
            Asked::Got(e) => tell(
                restored_file_text(path.as_str(), e.id, e.attribution.as_str()),
            ),
            Asked::Refused(message) => Told::Failed(message),
            Asked::Alone => Told::Alone,
        },
        RestoreStep::Session { id } => match asked_paths(reply) {
            Asked::Got(paths) => Told::Lines(rollback_lines(id.as_str(), &paths)),
            Asked::Refused(message) => Told::Failed(message),
            Asked::Alone => Told::Alone,
        },
        RestoreStep::Usage => tell(restore_usage_text()),
    }
}

/// What is told of work that is done or has failed.
pub open spec fn told_of(outcome: Option<FailureView>, done: ToldView) -> ToldView {
    match outcome {
        None => done,
        Some(f) => ToldView::Failed(crate::failure::told(f)),
    }
}

/// Whether a file was restored, or could not be, and that is what is told.
pub open spec fn restores_and_tells(
    before: Store,
    after: Store,
    path: Seq<char>,
    target: Option<Seq<char>>,
    done: ToldView,
    told: ToldView,
) -> bool {
    exists|outcome: Option<FailureView>|
        #[trigger] crate::restore::restores_file(before, after, path, target, outcome) && told
            == told_of(outcome, done)
}

/// Whether files were restored together, or could not be, and that is what is told.
pub open spec fn restores_all_and_tells(
    before: Store,
    after: Store,
    targets: Seq<(Seq<char>, Option<Seq<char>>)>,
    done: ToldView,
    told: ToldView,
) -> bool {
    exists|outcome: Option<FailureView>|
        #[trigger] crate::restore::bulk::restores_together(before, after, targets, outcome) && told
            == told_of(outcome, done)
}

/// Restores without the daemon, and tells what it came to.
pub fn restore_here(store: &mut Store, step: &RestoreStep) -> (r: Told)
    requires
        old(store).wf(),
    ensures
        match step.deep_view() {
            RestoreStepView::Event { id } => match crate::timeline::find_event(
                old(store).image(),
                id as i64,
            ) {
                Some(e) => restores_and_tells(
                    *old(store),
                    *final(store),
                    e.path,
                    e.before_hash,
                    event_told(e),
                    r.deep_view(),
                ),
                None => *final(store) == *old(store) && r.deep_view() == ToldView::Failed(
                    no_such_event_line(id),
                ),
            },
            RestoreStepView::File { path } => match crate::timeline::latest_user_at(
                old(store).image(),
                path,
            ) {
                Some(e) => restores_and_tells(
                    *old(store),
                    *final(store),
                    e.path,
                    e.before_hash,
                    file_told(path, e),
                    r.deep_view(),
                ),
                None => Store::did(*old(store), *final(store), Seq::empty()) && r.deep_view()
                    == ToldView::Failed(crate::failure::told(FailureView::NoUndoable { path })),
            },
            RestoreStepView::Session { id } => {
                let targets = crate::restore::bulk::session_targets(old(store).image(), id);
                restores_all_and_tells(
                    *old(store),
                    *final(store),
                    targets,
                    ToldView::Lines(rollback_report(id, crate::restore::bulk::paths_of(targets))),
                    r.deep_view(),
                )
            },
            RestoreStepView::Usage => *final(store) == *old(store) && r.deep_view()
                == ToldView::Lines(seq![restore_usage_line()]),
        },
{
    match step {
        RestoreStep::Event { id } => match store.get_event(*id as i64) {
            Some(e) => match restore_to_event(store, &e) {
                Ok(()) => tell_event(&e),
                Err(f) => Told::Failed(f.message()),
            },
            None => Told::Failed(no_such_event_text(*id)),
        },
        RestoreStep::File { path } => match restore_latest_change_to_file(store, path.as_str()) {
            Ok(e) => tell(restored_file_text(path.as_str(), e.id, e.attribution.as_str())),
            Err(f) => Told::Failed(f.message()),
        },
        RestoreStep::Session { id } => match restore_session(store, id.as_str()) {
            Ok(paths) => Told::Lines(rollback_lines(id.as_str(), &paths)),
            Err(f) => Told::Failed(f.message()),
        },
        RestoreStep::Usage => tell(restore_usage_text()),
    }
}

// --- a pin -------------------------------------------------------------------------------------

/// What is said of a pin that has nothing to restore.
pub open spec fn pin_is_empty_line(label: Seq<char>) -> Seq<char> {
    "pin '"@ + label + "' has no recorded state to restore"@
}

fn pin_is_empty_text(label: &str) -> (r: String)
    ensures
        r@ == pin_is_empty_line(label@),
{
    let mut out = joined("pin '", label);
    out.append("' has no recorded state to restore");
    out
}

/// What is said of a pin that was restored.
pub open spec fn pin_restored_line(label: Seq<char>, n: nat) -> Seq<char> {
    "restored project to pin '"@ + label + "' — "@ + crate::text::decimal(n) + " file(s):"@
}

fn pin_restored_text(label: &str, n: usize) -> (r: String)
    ensures
        r@ == pin_restored_line(label@, n as nat),
{
    let mut out = joined("restored project to pin '", label);
    out.append("' — ");
    out.append(count_text(n).as_str());
    out.append(" file(s):");
    out
}

/// What is said of paths that are not listed.
pub open spec fn and_more_line(n: nat) -> Seq<char> {
    "  ... and "@ + crate::text::decimal(n) + " more"@
}

fn and_more_text(n: usize) -> (r: String)
    ensures
        r@ == and_more_line(n as nat),
{
    let mut out = joined("  ... and ", count_text(n).as_str());
    out.append(" more");
    out
}

/// How many paths are listed.
pub const LISTED_PATHS: usize = 20;

/// What is said of a pin that was restored.
pub open spec fn pin_report(label: Seq<char>, paths: Seq<Seq<char>>) -> Seq<Seq<char>> {
    if paths.len() == 0 {
        seq![pin_is_empty_line(label)]
    } else if paths.len() <= LISTED_PATHS {
        seq![pin_restored_line(label, paths.len())] + indented(paths)
    } else {
        seq![pin_restored_line(label, paths.len())] + indented(
            paths.take(LISTED_PATHS as int),
        ) + seq![and_more_line((paths.len() - LISTED_PATHS) as nat)]
    }
}

/// What is said of a pin that was restored.
pub fn unpin_lines(label: &str, paths: &Vec<String>) -> (r: Vec<String>)
    ensures
        r.deep_view() == pin_report(label@, paths.deep_view()),
{
    let ghost d = paths.deep_view();
    assert(d.len() == paths.len());
    let mut out = no_lines();
    if paths.len() == 0 {
        push_line(&mut out, pin_is_empty_text(label));
        assert(out.deep_view() =~= pin_report(label@, d));
        return out;
    }
    push_line(&mut out, pin_restored_text(label, paths.len()));
    if paths.len() <= LISTED_PATHS {
        push_paths(&mut out, paths, paths.len());
        assert(d.take(d.len() as int) =~= d);
        assert(out.deep_view() =~= pin_report(label@, d));
    } else {
        push_paths(&mut out, paths, LISTED_PATHS);
        push_line(&mut out, and_more_text(paths.len() - LISTED_PATHS));
        assert(out.deep_view() =~= pin_report(label@, d));
    }
    out
}

// --- the panic button --------------------------------------------------------------------------

/// How long before the newest change an `oops` reaches back: 30 seconds.
pub const OOPS_WINDOW_NS: i64 = 30_000_000_000;

/// What is said where there is nothing to undo.
pub open spec fn nothing_to_undo_line() -> Seq<char> {
    "nothing to undo — no recent user events."@
}

fn nothing_to_undo_text() -> (r: String)
    ensures
        r@ == nothing_to_undo_line(),
{
    "nothing to undo — no recent user events.".to_owned()
}

/// What is said before what an `oops` would undo.
pub open spec fn would_undo_line() -> Seq<char> {
    "agent-undo would undo the following:"@
}

fn would_undo_text() -> (r: String)
    ensures
        r@ == would_undo_line(),
{
    "agent-undo would undo the following:".to_owned()
}

/// The line of a file that an `oops` would undo.
pub open spec fn oops_item_line(
    kind: Seq<char>,
    path: Seq<char>,
    id: i64,
    agent: Seq<char>,
) -> Seq<char> {
    "  "@ + crate::text::padded(kind, 10) + "  "@ + path + "  (event #"@
        + crate::text::decimal_int(id as int) + ", agent: "@ + agent + ")"@
}

fn oops_item_text(kind: &str, path: &str, id: i64, agent: &str) -> (r: String)
    ensures
        r@ == oops_item_line(kind@, path@, id, agent@),
{
    let mut out = joined("  ", pad(kind, 10).as_str());
    out.append("  ");
    out.append(path);
    out.append("  (event #");
    out.append(signed_text(id).as_str());
    out.append(", agent: ");
    out.append(agent);
    out.append(")");
    out
}

/// What is said before the files that were restored.
pub open spec fn oops_done_line(n: nat) -> Seq<char> {
    "restored "@ + crate::text::decimal(n) + " file(s):"@
}

fn oops_done_text(n: usize) -> (r: String)
    ensures
        r@ == oops_done_line(n as nat),
{
    let mut out = joined("restored ", count_text(n).as_str());
    out.append(" file(s):");
    out
}

/// What is said after an `oops`.
pub open spec fn oops_tip_line() -> Seq<char> {
    "tip: run `agent-undo log` to see the restore events — undo-the-undo is always one command away."@
}

fn oops_tip_text() -> (r: String)
    ensures
        r@ == oops_tip_line(),
{
    "tip: run `agent-undo log` to see the restore events — undo-the-undo is always one command away.".to_owned()
}

/// The word for what an event did to its file.
pub open spec fn oops_word(e: EventRowView) -> Seq<char> {
    match (e.before_hash, e.after_hash) {
        (None, Some(_)) => "created"@,
        (Some(_), Some(_)) => "modified"@,
        (Some(_), None) => "deleted"@,
        (None, None) => "?"@,
    }
}

fn word_of(e: &EventRow) -> (r: &'static str)
    ensures
        r@ == oops_word(e.deep_view()),
{
    match (&e.before_hash, &e.after_hash) {
        (None, Some(_)) => "created",
        (Some(_), Some(_)) => "modified",
        (Some(_), None) => "deleted",
        (None, None) => "?",
    }
}

/// The line of a file that an `oops` would undo.
pub open spec fn oops_row() -> spec_fn((Seq<char>, EventRowView)) -> Seq<char> {
    |e: (Seq<char>, EventRowView)|
        oops_item_line(oops_word(e.1), e.0, e.1.id, e.1.attribution)
}

/// What is said of what an `oops` would undo.
pub open spec fn oops_preview(plan: Seq<(Seq<char>, EventRowView)>) -> Seq<Seq<char>> {
    if plan.len() == 0 {
        seq![nothing_to_undo_line()]
    } else {
        seq![would_undo_line(), ""@] + plan.map_values(oops_row()) + seq![""@]
    }
}

/// What is said of what an `oops` would undo.
pub fn oops_preview_lines(plan: &Vec<(String, EventRow)>) -> (r: Vec<String>)
    ensures
        r.deep_view() == oops_preview(plan.deep_view()),
{
    let ghost d = plan.deep_view();
    assert(d.len() == plan.len());
    let mut out = no_lines();
    if plan.len() == 0 {
        push_line(&mut out, nothing_to_undo_text());
        assert(out.deep_view() =~= oops_preview(d));
        return out;
    }
    push_line(&mut out, would_undo_text());
    push_line(&mut out, "".to_owned());
    let ghost head = out.deep_view();
    let ghost rows = d.map_values(oops_row());
    let mut i: usize = 0;
    assert(head + rows.take(0) =~= head);
    while i < plan.len()
        invariant
            i <= plan.len(),
            d == plan.deep_view(),
            rows == d.map_values(oops_row()),
            out.deep_view() == head + rows.take(i as int),
        decreases plan.len() - i,
    {
        let (path, e) = &plan[i];
        assert(d[i as int] == (path@, e.deep_view()));
        push_line(
            &mut out,
            oops_item_text(word_of(e), path.as_str(), e.id, e.attribution.as_str()),
        );
        assert(head + rows.take(i + 1) =~= (head + rows.take(i as int)).push(rows[i as int]));
        i = i + 1;
    }
    push_line(&mut out, "".to_owned());
    proof {
        assert(rows.take(rows.len() as int) =~= rows);
        assert(head =~= seq![would_undo_line(), ""@]);
        assert(out.deep_view() =~= oops_preview(d));
    }
    out
}

/// What is said of what an `oops` has undone.
pub open spec fn oops_report(done: Seq<(Seq<char>, EventRowView)>) -> Seq<Seq<char>> {
    seq![""@, oops_done_line(done.len())] + indented(
        crate::restore::bulk::paths_of(done),
    ) + seq![""@, oops_tip_line()]
}

/// What is said of what an `oops` has undone.
pub fn oops_done_lines(done: &Vec<(String, EventRow)>) -> (r: Vec<String>)
    ensures
        r.deep_view() == oops_report(done.deep_view()),
{
    let ghost d = done.deep_view();
    assert(d.len() == done.len());
    let mut paths: Vec<String> = Vec::new();
    let mut i: usize = 0;
    while i < done.len()
        invariant
            i <= done.len(),
            paths.len() == i,
            forall|j: int| 0 <= j < i ==> (#[trigger] paths@[j])@ == done@[j].0@,
        decreases done.len() - i,
    {
        paths.push(done[i].0.clone());
        i = i + 1;
    }
    assert(paths.deep_view() =~= crate::restore::bulk::paths_of(d));
    let mut out = no_lines();
    push_line(&mut out, "".to_owned());
    push_line(&mut out, oops_done_text(done.len()));
    push_paths(&mut out, &paths, paths.len());
    push_line(&mut out, "".to_owned());
    push_line(&mut out, oops_tip_text());
    proof {
        let ps = paths.deep_view();
        assert(ps.take(ps.len() as int) =~= ps);
        assert(out.deep_view() =~= oops_report(d));
    }
    out
}

// --- reverting ---------------------------------------------------------------------------------

/// How the command that reverts is used.
pub open spec fn revert_usage_line() -> Seq<char> {
    "usage: au revert --event [id] | --session [id] | --pin [label]\n\nPreview and restore with diff + confirmation.\n\nOptions:\n--event [id]    revert a single event (latest if omitted)\n--session [id]  revert an entire session (latest if omitted)\n--pin [label]   revert to a pin point (latest if omitted)\n--confirm       skip confirmation prompt (diff still shown)\n--json          output as JSON"@
}

/// How the command that reverts is used.
pub fn revert_usage_text() -> (r: String)
    ensures
        r@ == revert_usage_line(),
{
    "usage: au revert --event [id] | --session [id] | --pin [label]\n\nPreview and restore with diff + confirmation.\n\nOptions:\n--event [id]    revert a single event (latest if omitted)\n--session [id]  revert an entire session (latest if omitted)\n--pin [label]   revert to a pin point (latest if omitted)\n--confirm       skip confirmation prompt (diff still shown)\n--json          output as JSON".to_owned()
}

/// What is to be reverted.
#[derive(Debug)]
#[allow(inconsistent_fields)]
pub enum RevertTarget {
    Event { id: i64 },
    Session { id: String },
    Pin { label: String },
}

/// What is to be reverted.
#[allow(inconsistent_fields)]
pub enum RevertTargetView {
    Event { id: i64 },
    Session { id: Seq<char> },
    Pin { label: Seq<char> },
}

impl DeepView for RevertTarget {
    type V = RevertTargetView;

    open spec fn deep_view(&self) -> RevertTargetView {
        match self {
            RevertTarget::Event { id } => RevertTargetView::Event { id: *id },
            RevertTarget::Session { id } => RevertTargetView::Session { id: id@ },
            RevertTarget::Pin { label } => RevertTargetView::Pin { label: label@ },
        }
    }
}

/// What the command that reverts is asked to revert, or why it cannot be said; `None` where it is
/// asked for nothing. An event goes before a session, and a session before a pin; where one of
/// them is asked for but not named, it is the latest.
pub open spec fn revert_choice(
    i: Image,
    event: Option<Option<u64>>,
    session: Option<Option<Seq<char>>>,
    pin: Option<Option<Seq<char>>>,
) -> Option<Result<RevertTargetView, FailureView>> {
    match (event, session, pin) {
        (Some(Some(id)), _, _) => Some(Ok(RevertTargetView::Event { id: id as i64 })),
        (Some(None), _, _) => Some(
            match crate::timeline::latest_user(i) {
                Some(e) => Ok(RevertTargetView::Event { id: e.id }),
                None => Err(FailureView::NoRecentEvents),
            },
        ),
        (None, Some(Some(id)), _) => Some(Ok(RevertTargetView::Session { id })),
        (None, Some(None), _) => Some(
            match crate::timeline::first_of(crate::timeline::sessions_newest(i)) {
                Some(s) => Ok(RevertTargetView::Session { id: s.id }),
                None => Err(FailureView::NoSessions),
            },
        ),
        (None, None, Some(Some(label))) => Some(Ok(RevertTargetView::Pin { label })),
        (None, None, Some(None)) => Some(
            match crate::timeline::first_of(crate::timeline::pins_newest(i)) {
                Some(p) => Ok(RevertTargetView::Pin { label: p.label }),
                None => Err(FailureView::NoPins),
            },
        ),
        (None, None, None) => None,
    }
}

/// What the command that reverts is asked to revert (see `revert_choice`).
pub fn choose_revert(
    store: &Store,
    event: Option<Option<u64>>,
    session: Option<Option<String>>,
    pin: Option<Option<String>>,
) -> (r: Option<Result<RevertTarget, Failure>>)
    requires
        store.wf(),
    ensures
        match revert_choice(store.image(), event, session.deep_view(), pin.deep_view()) {
            Some(Ok(t)) => r matches Some(Ok(x)) && x.deep_view() == t,
            Some(Err(f)) => r matches Some(Err(e)) && e.deep_view() == f,
            None => r is None,
        },
{
    match (event, session, pin) {
        (Some(Some(id)), _, _) => Some(Ok(RevertTarget::Event { id: id as i64 })),
        (Some(None), _, _) => match store.latest_user_event() {
            Some(e) => Some(Ok(RevertTarget::Event { id: e.id })),
            None => Some(Err(Failure::NoRecentEvents)),
        },
        (None, Some(Some(id)), _) => Some(Ok(RevertTarget::Session { id })),
        (None, Some(None), _) => match store.latest_session() {
            Some(s) => Some(Ok(RevertTarget::Session { id: s.id })),
            None => Some(Err(Failure::NoSessions)),
        },
        (None, None, Some(Some(label))) => Some(Ok(RevertTarget::Pin { label })),
        (None, None, Some(None)) => match store.latest_pin() {
            Some(p) => Some(Ok(RevertTarget::Pin { label: p.label })),
            None => Some(Err(Failure::NoPins)),
        },
        (None, None, None) => None,
    }
}

/// The plan for what is to be reverted.
pub open spec fn revert_plan(i: Image, t: RevertTargetView) -> Result<
    Seq<PlanItemView>,
    FailureView,
> {
    match t {
        RevertTargetView::Event { id } => match crate::timeline::find_event(i, id) {
            Some(e) => crate::restore::plan::planning(i, seq![crate::restore::plan::wants(e)]),
            None => Err(FailureView::NoEvent { id }),
        },
        RevertTargetView::Session { id } => crate::restore::plan::planning(
            i,
            crate::restore::plan::session_wants(i, id),
        ),
        RevertTargetView::Pin { label } => match crate::timeline::find_pin(i, label) {
            Some(pin) => crate::restore::plan::planning_pin(i, pin.event_id),
            None => Err(FailureView::NoPin { label }),
        },
    }
}

/// The plan for what is to be reverted.
pub fn plan_revert(store: &Store, target: &RevertTarget) -> (r: Result<Vec<PlanItem>, Failure>)
    requires
        store.wf(),
    ensures
        crate::restore::plan::is_plan(r, revert_plan(store.image(), target.deep_view())),
{
    match target {
        RevertTarget::Event { id } => plan_event(store, *id),
        RevertTarget::Session { id } => plan_session(store, id.as_str()),
        RevertTarget::Pin { label } => plan_pin(store, label.as_str()),
    }
}

/// The word for a kind of target.
pub open spec fn target_kind(t: RevertTargetView) -> Seq<char> {
    match t {
        RevertTargetView::Event { .. } => "event"@,
        RevertTargetView::Session { .. } => "session"@,
        RevertTargetView::Pin { .. } => "pin"@,
    }
}

/// What names a target.
pub open spec fn target_name(t: RevertTargetView) -> Seq<char> {
    match t {
        RevertTargetView::Event { id } => crate::text::decimal_int(id as int),
        RevertTargetView::Session { id } => id,
        RevertTargetView::Pin { label } => label,
    }
}

/// How a target is spoken of.
pub open spec fn target_header(t: RevertTargetView) -> Seq<char> {
    match t {
        RevertTargetView::Event { id } => "event #"@ + target_name(t),
        RevertTargetView::Session { id } => "session "@ + target_name(t),
        RevertTargetView::Pin { label } => "to pin '"@ + target_name(t) + "'"@,
    }
}

impl RevertTarget {
    /// The word for the kind of target.
    pub fn kind(&self) -> (r: &'static str)
        ensures
            r@ == target_kind(self.deep_view()),
    {
        match self {
            RevertTarget::Event { id: _ } => "event",
            RevertTarget::Session { id: _ } => "session",
            RevertTarget::Pin { label: _ } => "pin",
        }
    }

    /// What names the target.
    pub fn name(&self) -> (r: String)
        ensures
            r@ == target_name(self.deep_view()),
    {
        match self {
            RevertTarget::Event { id } => signed_text(*id),
            RevertTarget::Session { id } => id.clone(),
            RevertTarget::Pin { label } => label.clone(),
        }
    }

    /// How the target is spoken of.
    pub fn header(&self) -> (r: String)
        ensures
            r@ == target_header(self.deep_view()),
    {
        let name = self.name();
        match self {
            RevertTarget::Event { id: _ } => joined("event #", name.as_str()),
            RevertTarget::Session { id: _ } => joined("session ", name.as_str()),
            RevertTarget::Pin { label: _ } => {
                let mut out = joined("to pin '", name.as_str());
                out.append("'");
                out
            },
        }
    }
}

/// What is said where there is nothing to revert.
pub open spec fn nothing_to_revert_line() -> Seq<char> {
    "nothing to revert"@
}

/// What is said where there is nothing to revert.
pub fn nothing_to_revert_text() -> (r: String)
    ensures
        r@ == nothing_to_revert_line(),
{
    "nothing to revert".to_owned()
}

/// What is said where there is nothing to revert, as a JSON document.
pub open spec fn empty_revert_line(kind: Seq<char>, target: Seq<char>) -> Seq<char> {
    "{\"revert_type\":\""@ + kind + "\",\"revert_target\":"@ + crate::json::json_shown(
        crate::json::JsonTree::Text(target),
    ) + ",\"file_count\":0}"@
}

/// What is said where there is nothing to revert, as a JSON document. A target that needs no
/// escapes stands between quotes as it is.
pub fn empty_revert_text(kind: &str, target: &str) -> (r: String)
    ensures
        r@ == empty_revert_line(kind@, target@),
        crate::json::is_unescaped(target@) ==> r@ == "{\"revert_type\":\""@ + kind@
            + "\",\"revert_target\":"@ + ("\""@ + target@ + "\""@) + ",\"file_count\":0}"@,
{
    let mut out = joined("{\"revert_type\":\"", kind);
    out.append("\",\"revert_target\":");
    out.append(quoted(target).as_str());
    out.append(",\"file_count\":0}");
    out
}

/// What is said of a revert that was reported as a JSON document.
pub open spec fn reverted_line(n: nat) -> Seq<char> {
    "restored "@ + crate::text::decimal(n) + " file(s)"@
}

/// What is said of a revert that was reported as a JSON document.
pub fn reverted_text(n: usize) -> (r: String)
    ensures
        r@ == reverted_line(n as nat),
{
    let mut out = joined("restored ", count_text(n).as_str());
    out.append(" file(s)");
    out
}

/// What is said after a revert.
pub open spec fn revert_tip_line() -> Seq<char> {
    "tip: run `au log` to see the restore events — undo-the-undo is always one command away."@
}

fn revert_tip_text() -> (r: String)
    ensures
        r@ == revert_tip_line(),
{
    "tip: run `au log` to see the restore events — undo-the-undo is always one command away.".to_owned()
}

/// What the command that reverts shows before it asks.
#[derive(Debug)]
pub enum RevertStep {
    /// Print this; there is nothing to ask.
    Say(String),
    /// Print this text, ask, and carry the plan out where the answer is yes.
    ShowText { text: String, prompt: String, plan: Vec<PlanItem> },
    /// Print this report, ask, and carry the plan out where the answer is yes.
    ShowReport { report: RevertJsonOutput, prompt: String, plan: Vec<PlanItem> },
    /// The plan changes more lines than can be counted.
    TooLarge,
}

/// What the command that reverts shows before it asks.
pub enum RevertStepView {
    Say(Seq<char>),
    ShowText { text: Seq<char>, prompt: Seq<char>, plan: Seq<PlanItemView> },
    ShowReport { report: RevertJsonOutputView, prompt: Seq<char>, plan: Seq<PlanItemView> },
    TooLarge,
}

impl DeepView for RevertStep {
    type V = RevertStepView;

    open spec fn deep_view(&self) -> RevertStepView {
        match self {
            RevertStep::Say(text) => RevertStepView::Say(text@),
            RevertStep::ShowText { text, prompt, plan } => RevertStepView::ShowText {
                text: text@,
                prompt: prompt@,
                plan: plan.deep_view(),
            },
            RevertStep::ShowReport { report, prompt, plan } => RevertStepView::ShowReport {
                report: report.deep_view(),
                prompt: prompt@,
                plan: plan.deep_view(),
            },
            RevertStep::TooLarge => RevertStepView::TooLarge,
        }
    }
}

/// What is shown of a plan for a target.
pub open spec fn plan_shown(t: RevertTargetView, plan: Seq<PlanItemView>, json: bool) -> RevertStepView {
    if plan.len() == 0 {
        RevertStepView::Say(
            if json {
                empty_revert_line(target_kind(t), target_name(t))
            } else {
                nothing_to_revert_line()
            },
        )
    } else if !json {
        RevertStepView::ShowText {
            text: crate::restore::preview::plan_text(plan, target_header(t)),
            prompt: question_line(plan.len()),
            plan,
        }
    } else if crate::restore::preview::plan_size(plan) <= usize::MAX {
        RevertStepView::ShowReport {
            report: crate::restore::preview::report(plan, target_kind(t), target_name(t)),
            prompt: question_line(plan.len()),
            plan,
        }
    } else {
        RevertStepView::TooLarge
    }
}

/// What the command that reverts shows before it asks, or why it fails.
pub open spec fn revert_shown(
    i: Image,
    event: Option<Option<u64>>,
    session: Option<Option<Seq<char>>>,
    pin: Option<Option<Seq<char>>>,
    json: bool,
) -> Result<RevertStepView, FailureView> {
    match revert_choice(i, event, session, pin) {
        None => Ok(RevertStepView::Say(revert_usage_line())),
        Some(Err(f)) => Err(f),
        Some(Ok(t)) => match revert_plan(i, t) {
            Ok(plan) => Ok(plan_shown(t, plan, json)),
            Err(f) => Err(f),
        },
    }
}

/// What the command that reverts shows before it asks (see `revert_shown`).
pub fn revert_preview(
    store: &Store,
    event: Option<Option<u64>>,
    session: Option<Option<String>>,
    pin: Option<Option<String>>,
    json: bool,
) -> (r: Result<RevertStep, Failure>)
    requires
        store.wf(),
    ensures
        match revert_shown(store.image(), event, session.deep_view(), pin.deep_view(), json) {
            Ok(step) => r matches Ok(x) && x.deep_view() == step,
            Err(f) => r matches Err(e) && e.deep_view() == f,
        },
{
    let target = match choose_revert(store, event, session, pin) {
        None => {
            return Ok(RevertStep::Say(revert_usage_text()));
        },
        Some(Err(f)) => {
            return Err(f);
        },
        Some(Ok(t)) => t,
    };
    let plan = match plan_revert(store, &target) {
        Ok(plan) => plan,
        Err(f) => {
            return Err(f);
        },
    };
    assert(plan.deep_view().len() == plan.len());
    if plan.len() == 0 {
        if json {
            Ok(RevertStep::Say(empty_revert_text(target.kind(), target.name().as_str())))
        } else {
            Ok(RevertStep::Say(nothing_to_revert_text()))
        }
    } else {
        let prompt = question_text(plan.len());
        if json {
            match try_plan_to_json(&plan, target.kind(), target.name().as_str()) {
                Some(report) => Ok(RevertStep::ShowReport { report, prompt, plan }),
                None => Ok(RevertStep::TooLarge),
            }
        } else {
            let text = format_plan(&plan, target.header().as_str());
            Ok(RevertStep::ShowText { text, prompt, plan })
        }
    }
}

/// What is said of a revert.
pub open spec fn revert_report(paths: Seq<Seq<char>>) -> Seq<Seq<char>> {
    seq![""@, oops_done_line(paths.len())] + indented(paths) + seq![""@, revert_tip_line()]
}

/// What is said of a revert.
pub fn revert_lines(paths: &Vec<String>) -> (r: Vec<String>)
    ensures
        r.deep_view() == revert_report(paths.deep_view()),
{
    let mut out = no_lines();
    push_line(&mut out, "".to_owned());
    push_line(&mut out, oops_done_text(paths.len()));
    push_paths(&mut out, paths, paths.len());
    push_line(&mut out, "".to_owned());
    push_line(&mut out, revert_tip_text());
    proof {
        let ps = paths.deep_view();
        assert(ps.take(ps.len() as int) =~= ps);
        assert(out.deep_view() =~= revert_report(ps));
    }
    out
}

/// Carries a plan out, and tells what it came to.
pub fn revert_apply(store: &mut Store, plan: &Vec<PlanItem>, json: bool) -> (r: Result<
    Vec<String>,
    Failure,
>)
    requires
        old(store).wf(),
    ensures
        crate::restore::bulk::restores_files(
            *old(store),
            *final(store),
            crate::restore::plan::plan_targets(plan.deep_view()),
            crate::failure::outcome(r),
        ),
        r matches Ok(lines) ==> lines.deep_view() == (if json {
            seq![reverted_line(plan.deep_view().len())]
        } else {
            revert_report(plan.deep_view().map_values(|x: PlanItemView| x.path))
        }),
{
    match apply_plan(store, plan) {
        Ok(paths) => {
            if json {
                let mut out = no_lines();
                assert(paths.deep_view().len() == paths.len());
                push_line(&mut out, reverted_text(paths.len()));
                assert(out.deep_view() =~= seq![reverted_line(plan.deep_view().len())]);
                Ok(out)
            } else {
                Ok(revert_lines(&paths))
            }
        },
        Err(f) => Err(f),
    }
}

// --- differences -------------------------------------------------------------------------------

/// What the command that shows differences does.
#[derive(Debug)]
#[allow(inconsistent_fields)]
pub enum DiffStep {
    /// Show the difference that an event made.
    Event { id: i64 },
    /// Show the differences that the events of a session made.
    Session { id: String },
    /// Say how it is used.
    Usage,
}

/// What the command that shows differences does with its arguments: an event goes before a
/// session.
pub fn choose_diff(event_id: Option<u64>, session: Option<String>) -> (r: DiffStep)
    ensures
        match (event_id, session) {
            (Some(n), _) => r matches DiffStep::Event { id } && id == n as i64,
            (None, Some(s)) => r matches DiffStep::Session { id } && id@ == s@,
            (None, None) => r is Usage,
        },
{
    match (event_id, session) {
        (Some(n), _) => DiffStep::Event { id: n as i64 },
        (None, Some(s)) => DiffStep::Session { id: s },
        (None, None) => DiffStep::Usage,
    }
}

/// How the command that shows differences is used.
pub open spec fn diff_usage_line() -> Seq<char> {
    "usage: agent-undo diff <event-id>  OR  agent-undo diff --session <id>"@
}

/// How the command that shows differences is used.
pub fn diff_usage_text() -> (r: String)
    ensures
        r@ == diff_usage_line(),
{
    "usage: agent-undo diff <event-id>  OR  agent-undo diff --session <id>".to_owned()
}

/// What is said before the differences of a session.
pub open spec fn diff_session_line(id: Seq<char>, n: nat) -> Seq<char> {
    "# session "@ + id + " — "@ + crate::text::decimal(n) + " event(s)"@
}

/// What is said before the differences of a session.
pub fn diff_session_text(id: &str, n: usize) -> (r: String)
    ensures
        r@ == diff_session_line(id@, n as nat),
{
    let mut out = joined("# session ", id);
    out.append(" — ");
    out.append(count_text(n).as_str());
    out.append(" event(s)");
    out
}

// --- collecting --------------------------------------------------------------------------------

/// What is said of a collection.
pub open spec fn collected_line(events: nat, blobs: nat, age: Seq<char>) -> Seq<char> {
    "gc: removed "@ + crate::text::decimal(events) + " event(s) and "@
        + crate::text::decimal(blobs) + " blob(s) older than "@ + age
}

fn collected_text(events: usize, blobs: usize, age: &str) -> (r: String)
    ensures
        r@ == collected_line(events as nat, blobs as nat, age@),
{
    let mut out = joined("gc: removed ", count_text(events).as_str());
    out.append(" event(s) and ");
    out.append(count_text(blobs).as_str());
    out.append(" blob(s) older than ");
    out.append(age);
    out
}

/// What is said of what a collection keeps.
pub open spec fn kept_line() -> Seq<char> {
    "    (pinned events and the latest event per file are always preserved)"@
}

fn kept_text() -> (r: String)
    ensures
        r@ == kept_line(),
{
    "    (pinned events and the latest event per file are always preserved)".to_owned()
}

/// What is said of a collection.
pub fn gc_lines(events: usize, blobs: usize, age: &str) -> (r: Vec<String>)
    ensures
        r.deep_view() == seq![collected_line(events as nat, blobs as nat, age@), kept_line()],
{
    let mut out = no_lines();
    push_line(&mut out, collected_text(events, blobs, age));
    push_line(&mut out, kept_text());
    assert(out.deep_view() =~= seq![
        collected_line(events as nat, blobs as nat, age@),
        kept_line(),
    ]);
    out
}

// --- running a command as an agent -------------------------------------------------------------

/// How the command that runs another is used.
pub open spec fn exec_usage_line() -> Seq<char> {
    "usage: agent-undo exec --agent <name> -- <command...>"@
}

/// How the command that runs another is used.
pub fn exec_usage_text() -> (r: String)
    ensures
        r@ == exec_usage_line(),
{
    "usage: agent-undo exec --agent <name> -- <command...>".to_owned()
}

/// What is said before a command is run.
pub open spec fn exec_begins_line(id: Seq<char>, agent: Seq<char>) -> Seq<char> {
    "agent-undo exec: running as session "@ + id + " (agent="@ + agent + ")"@
}

fn exec_begins_text(id: &str, agent: &str) -> (r: String)
    ensures
        r@ == exec_begins_line(id@, agent@),
{
    let mut out = joined("agent-undo exec: running as session ", id);
    out.append(" (agent=");
    out.append(agent);
    out.append(")");
    out
}

/// What is said after a command was run.
pub open spec fn exec_ends_line(id: Seq<char>) -> Seq<char> {
    "agent-undo exec: session closed ("@ + id + ")"@
}

fn exec_ends_text(id: &str) -> (r: String)
    ensures
        r@ == exec_ends_line(id@),
{
    let mut out = joined("agent-undo exec: session closed (", id);
    out.append(")");
    out
}

/// The note that the session of a command carries: the command.
pub open spec fn command_note(command: Seq<Seq<char>>) -> crate::json::JsonTree {
    crate::json::JsonTree::Object(
        Map::empty().insert("command"@, crate::json::texts_tree(command)),
    )
}

/// The session of a command that is run as an agent; `fresh` makes its id.
pub open spec fn command_session(
    agent: Seq<char>,
    label: Option<Seq<char>>,
    command: Seq<Seq<char>>,
    fresh: Seq<char>,
) -> SessionStartView {
    SessionStartView {
        session_id: Some("exec-"@ + fresh),
        agent,
        prompt: label,
        model: None,
        metadata: Some(crate::json::json_shown(command_note(command))),
        prompt_output: None,
        tool_name: None,
        intended_file: None,
        activate: true,
    }
}

/// The session of a command that is run as an agent; `fresh` makes its id.
pub fn exec_session(agent: String, label: Option<String>, command: &Vec<String>, fresh: &str) -> (r:
    SessionStart)
    ensures
        r.deep_view() == command_session(
            agent@,
            label.deep_view(),
            command.deep_view(),
            fresh@,
        ),
{
    let mut note = empty_object();
    put(&mut note, "command".to_owned(), texts_value(command));
    let r = SessionStart {
        session_id: Some(joined("exec-", fresh)),
        agent,
        prompt: label,
        model: None,
        metadata: Some(shown(&note)),
        prompt_output: None,
        tool_name: None,
        intended_file: None,
        activate: true,
    };
    r
}

/// Starts the session of a command that is run as an agent, and gives its id.
pub fn start_exec(store: &mut Store, agent: String, label: Option<String>, command: &Vec<String>) -> (r:
    String)
    requires
        old(store).wf(),
    ensures
        exists|fresh: Seq<char>|
            crate::outside::is_hex_text(fresh, 32) && #[trigger] crate::session::starts(
                *old(store),
                *final(store),
                command_session(agent@, label.deep_view(), command.deep_view(), fresh),
                r@,
            ),
{
    let fresh = crate::outside::random_hex();
    let s = exec_session(agent, label, command, fresh.as_str());
    crate::session::start(store, s)
}

/// What is said before a command is run as an agent.
pub fn exec_begin_text(session_id: &str, agent: &str) -> (r: Option<String>)
    ensures
        r.deep_view() == (match id_start(session_id@) {
            Some(id) => Some(exec_begins_line(id, agent@)),
            None => None,
        }),
{
    match short_id(session_id) {
        Some(id) => Some(exec_begins_text(id.as_str(), agent)),
        None => None,
    }
}

/// What is said after a command was run as an agent.
pub fn exec_end_text(session_id: &str) -> (r: Option<String>)
    ensures
        r.deep_view() == (match id_start(session_id@) {
            Some(id) => Some(exec_ends_line(id)),
            None => None,
        }),
{
    match short_id(session_id) {
        Some(id) => Some(exec_ends_text(id.as_str())),
        None => None,
    }
}

/// The first 16 bytes of an id; `None` where it has no 16 bytes, or the cut would fall inside a
/// character.
pub open spec fn id_start(id: Seq<char>) -> Option<Seq<char>> {
    if crate::text::byte_len(id) < 16 {
        None
    } else {
        crate::text::head(id, 16)
    }
}

fn short_id(id: &str) -> (r: Option<String>)
    ensures
        r.deep_view() == id_start(id@),
{
    proof {
        lemma_own_head(id@, 15);
    }
    if let Some(head) = first_bytes(id, 15) {
        if same(head.as_str(), id) {
            return None;
        }
    }
    first_bytes(id, 16)
}

} // verus!
