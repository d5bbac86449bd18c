//! What holds of the commands: which thing they take where several could be meant, and that what
//! they print leaves nothing out.
use vstd::prelude::*;

use super::control::{StopActionView, StopEventView, StopStateView};
use super::log::PinStepView;
use super::reply::AskedView;
use super::undo::{RestoreStepView, RevertStepView, RevertTargetView, ToldView};
use crate::image::Image;
use crate::ipc::{RequestView, ResponseView};
use crate::json::JsonTree;
use crate::restore::plan::PlanItemView;
use crate::rows::{ActiveSessionView, EventRowView, SessionRowView};
use crate::store::Store;

verus! {

broadcast use vstd::string::group_string_axioms;

// --- which thing is meant ----------------------------------------------------------------------

/// A restore takes what was named: an event before a file, and a file before a session.
pub proof fn law_restore_takes_what_was_named(
    event_id: Option<u64>,
    file: Option<Seq<char>>,
    session: Option<Seq<char>>,
)
    ensures
        ({
            let step = super::undo::restore_choice(event_id, file, session);
            &&& event_id matches Some(n) ==> (step matches RestoreStepView::Event { id } && id
                == n)
            &&& event_id is None ==> (file matches Some(p) ==> (step matches RestoreStepView::File {
                path,
            } && path == p))
            &&& event_id is None && file is None ==> (session matches Some(s) ==> (
            step matches RestoreStepView::Session { id } && id == s))
            &&& step is Usage <==> event_id is None && file is None && session is None
        }),
{
}

/// A revert takes what was named, an event before a session and a session before a pin. Where a
/// kind was named alone, it takes the newest of that kind: the event of the greatest number that a
/// user or an agent caused, the session that was started last, or the pin that was made last; and
/// it fails only where there is none.
pub proof fn law_revert_takes_the_newest(
    i: Image,
    event: Option<Option<u64>>,
    session: Option<Option<Seq<char>>>,
    pin: Option<Option<Seq<char>>>,
)
    requires
        crate::store::sound(i),
    ensures
        ({
            let r = super::undo::revert_choice(i, event, session, pin);
            &&& r is None <==> event is None && session is None && pin is None
            &&& event matches Some(Some(n)) ==> (r matches Some(Ok(RevertTargetView::Event { id }))
                && id == n as i64)
            &&& event == Some(None::<u64>) ==> {
                &&& r matches Some(Ok(t)) ==> (t matches RevertTargetView::Event { id } && forall|
                    k: int,
                | #[trigger]
                    crate::timeline::laws::is_users(i, k) ==> i.events[k].row.id <= id)
                &&& r matches Some(Ok(t)) ==> (t matches RevertTargetView::Event { id } && exists|
                    k: int,
                | #[trigger]
                    crate::timeline::laws::is_users(i, k) && i.events[k].row.id == id)
                &&& r matches Some(Err(_)) ==> forall|k: int|
                    !(#[trigger] crate::timeline::laws::is_users(i, k))
            }
            &&& event is None ==> (session matches Some(Some(s)) ==> (r matches Some(
                Ok(RevertTargetView::Session { id }),
            ) && id == s))
            &&& event is None && session == Some(None::<Seq<char>>) ==> {
                &&& r matches Some(Ok(t)) ==> (t matches RevertTargetView::Session { id }
                    && is_newest_session(i, id))
                &&& r matches Some(Err(_)) ==> i.sessions.len() == 0
            }
            &&& event is None && session is None ==> (pin matches Some(Some(l)) ==> (
            r matches Some(Ok(RevertTargetView::Pin { label })) && label == l))
            &&& event is None && session is None && pin == Some(None::<Seq<char>>) ==> {
                &&& r matches Some(Ok(t)) ==> (t matches RevertTargetView::Pin { label }
                    && is_newest_label(i, label))
                &&& r matches Some(Err(_)) ==> i.pins.len() == 0
            }
        }),
{
    crate::timeline::laws::law_latest_change(i);
    crate::timeline::laws::law_sessions_are_listed_newest_first(i);
    crate::timeline::laws::law_pins_are_listed_newest_first(i);
    if let Some(s) = crate::timeline::first_of(crate::timeline::sessions_newest(i)) {
        let k = choose|k: int| 0 <= k < i.sessions.len() && i.sessions[k] == s;
        assert(is_newest_session_at(i, s.id, k));
    }
    if let Some(p) = crate::timeline::first_of(crate::timeline::pins_newest(i)) {
        let k = choose|k: int| 0 <= k < i.pins.len() && i.pins[k] == p;
        assert(is_newest_pin_at(i, p.label, k));
    }
}

/// Whether the session at a place has an id, and none was started later.
pub open spec fn is_newest_session_at(i: Image, id: Seq<char>, k: int) -> bool {
    &&& 0 <= k < i.sessions.len()
    &&& i.sessions[k].id == id
    &&& forall|m: int|
        0 <= m < i.sessions.len() ==> (#[trigger] i.sessions[m]).started_at_ns
            <= i.sessions[k].started_at_ns
}

/// Whether an id is that of the session that was started last.
pub open spec fn is_newest_session(i: Image, id: Seq<char>) -> bool {
    exists|k: int| is_newest_session_at(i, id, k)
}

/// Whether the pin at a place has a label, and none was made later.
pub open spec fn is_newest_pin_at(i: Image, label: Seq<char>, k: int) -> bool {
    &&& 0 <= k < i.pins.len()
    &&& i.pins[k].label == label
    &&& forall|m: int|
        0 <= m < i.pins.len() ==> (#[trigger] i.pins[m]).created_at_ns <= i.pins[k].created_at_ns
}

/// Whether a label is that of the pin that was made last.
pub open spec fn is_newest_label(i: Image, label: Seq<char>) -> bool {
    exists|k: int| is_newest_pin_at(i, label, k)
}

/// A pin is made where a label is given alone, and pins are listed where that is asked for without
/// a label; everything else fails.
pub proof fn law_pins_are_made_or_listed(label: Option<Seq<char>>, list: bool, json: bool)
    ensures
        ({
            let step = super::log::pin_choice(label, list, json);
            &&& step is Create <==> label is Some && !list && !json
            &&& step matches PinStepView::Create { label: l } ==> label == Some(l)
            &&& step is List <==> label is None && list && !json
            &&& step is ListJson <==> label is None && list && json
        }),
{
}

// --- spans of time -----------------------------------------------------------------------------

/// A number and a unit are read as that many seconds, minutes, hours or days, in nanoseconds.
pub proof fn law_spans_are_read_by_their_unit(n: i64)
    ensures
        super::log::since_of(crate::text::decimal_int(n as int).push('s')) == Ok::<
            int,
            Seq<char>,
        >(n * 1_000_000_000),
        super::log::since_of(crate::text::decimal_int(n as int).push('m')) == Ok::<
            int,
            Seq<char>,
        >(n * 60 * 1_000_000_000),
        super::log::since_of(crate::text::decimal_int(n as int).push('h')) == Ok::<
            int,
            Seq<char>,
        >(n * 3600 * 1_000_000_000),
        super::log::since_of(crate::text::decimal_int(n as int).push('d')) == Ok::<
            int,
            Seq<char>,
        >(n * 86400 * 1_000_000_000),
{
    lemma_span(n, 's');
    lemma_span(n, 'm');
    lemma_span(n, 'h');
    lemma_span(n, 'd');
}

proof fn lemma_span(n: i64, unit: char)
    requires
        unit == 's' || unit == 'm' || unit == 'h' || unit == 'd',
    ensures
        ({
            let s = crate::text::decimal_int(n as int).push(unit);
            &&& crate::text::trimmed(s) == s
            &&& s.drop_last() == crate::text::decimal_int(n as int)
            &&& s.last() == unit
            &&& crate::text::number_i64(s.drop_last()) == Some(n)
        }),
{
    let d = crate::text::decimal_int(n as int);
    let s = d.push(unit);
    crate::text::laws::law_numbers_read_back(n);
    assert(s.drop_last() =~= d);
    assert(!crate::text::is_white(unit));
    assert(d.len() > 0) by {
        if d.len() == 0 {
            assert(crate::text::whole_number(d) is None);
        }
    }
    assert(!crate::text::is_white(d[0])) by {
        if n >= 0 {
            assert(crate::text::all_digits(d) || d[0] == '-' || d[0] == '+');
        }
    }
    assert(s[0] == d[0]);
}

/// What names another unit, or no number, is refused.
pub proof fn law_other_spans_are_refused(s: Seq<char>)
    requires
        crate::text::trimmed(s).len() == 0 || crate::text::whole_number(
            crate::text::trimmed(s).drop_last(),
        ) is None || !(crate::text::trimmed(s).last() == 's' || crate::text::trimmed(s).last()
            == 'm' || crate::text::trimmed(s).last() == 'h' || crate::text::trimmed(s).last()
            == 'd'),
    ensures
        super::log::since_of(s) is Err,
{
}

// --- what is printed ---------------------------------------------------------------------------

/// A rollback lists every path that was restored, in their order.
pub proof fn law_a_rollback_lists_every_path(id: Seq<char>, paths: Seq<Seq<char>>)
    requires
        paths.len() > 0,
    ensures
        super::undo::rollback_report(id, paths).len() == paths.len() + 1,
        crate::text::has_part(super::undo::rollback_report(id, paths)[0], id),
        crate::text::has_part(
            super::undo::rollback_report(id, paths)[0],
            crate::text::decimal(paths.len()),
        ),
        forall|k: int|
            0 <= k < paths.len() ==> (#[trigger] super::undo::rollback_report(id, paths)[k + 1])
                == "  "@ + paths[k],
{
    let line = super::undo::rollback_report(id, paths)[0];
    let front = "rolled back session "@;
    let rest = " — restored "@ + crate::text::decimal(paths.len()) + " file(s):"@;
    lemma_holds_itself(id);
    crate::text::laws::lemma_part_of_longer(front, id, rest, id);
    assert(line =~= front + id + rest);
    let n = crate::text::decimal(paths.len());
    lemma_holds_itself(n);
    crate::text::laws::lemma_part_of_longer(front + id + " — restored "@, n, " file(s):"@, n);
    assert(line =~= front + id + " — restored "@ + n + " file(s):"@);
}

proof fn lemma_holds_itself(s: Seq<char>)
    ensures
        crate::text::has_part(s, s),
{
    assert(s.subrange(0, s.len() as int) =~= s);
    assert(crate::text::occurs_at(s, s, 0));
}

/// What a restored pin prints lists the first 20 paths, or all where there are no more, and says
/// how many more there are.
pub proof fn law_a_pin_report_lists_its_paths(label: Seq<char>, paths: Seq<Seq<char>>)
    requires
        paths.len() > 0,
    ensures
        ({
            let r = super::undo::pin_report(label, paths);
            &&& paths.len() <= 20 ==> r.len() == paths.len() + 1
            &&& paths.len() > 20 ==> r.len() == 22 && r[21] == "  ... and "@
                + crate::text::decimal((paths.len() - 20) as nat) + " more"@
            &&& forall|k: int|
                0 <= k < paths.len() && k < 20 ==> (#[trigger] r[k + 1]) == "  "@ + paths[k]
        }),
{
}

/// What an `oops` would undo is listed file by file, each with its event and its agent.
pub proof fn law_an_oops_shows_its_whole_plan(plan: Seq<(Seq<char>, EventRowView)>)
    requires
        plan.len() > 0,
    ensures
        ({
            let r = super::undo::oops_preview(plan);
            let done = super::undo::oops_report(plan);
            &&& r.len() == plan.len() + 3
            &&& forall|k: int|
                0 <= k < plan.len() ==> {
                    let line = #[trigger] r[k + 2];
                    &&& crate::text::has_part(line, plan[k].0)
                    &&& crate::text::has_part(
                        line,
                        "(event #"@ + crate::text::decimal_int(plan[k].1.id as int)
                            + ", agent: "@ + plan[k].1.attribution + ")"@,
                    )
                    &&& crate::text::has_part(
                        line,
                        match (plan[k].1.before_hash, plan[k].1.after_hash) {
                            (None, Some(_)) => "created"@,
                            (Some(_), Some(_)) => "modified"@,
                            (Some(_), None) => "deleted"@,
                            (None, None) => "?"@,
                        },
                    )
                }
            &&& done.len() == plan.len() + 4
            &&& forall|k: int|
                0 <= k < plan.len() ==> (#[trigger] done[k + 2]) == "  "@ + plan[k].0
        }),
{
    let r = super::undo::oops_preview(plan);
    let done = super::undo::oops_report(plan);
    assert forall|k: int| 0 <= k < plan.len() implies {
        let line = #[trigger] r[k + 2];
        &&& crate::text::has_part(line, plan[k].0)
        &&& crate::text::has_part(
            line,
            "(event #"@ + crate::text::decimal_int(plan[k].1.id as int) + ", agent: "@
                + plan[k].1.attribution + ")"@,
        )
        &&& crate::text::has_part(
            line,
            match (plan[k].1.before_hash, plan[k].1.after_hash) {
                (None, Some(_)) => "created"@,
                (Some(_), Some(_)) => "modified"@,
                (Some(_), None) => "deleted"@,
                (None, None) => "?"@,
            },
        )
    } by {
        let e = plan[k].1;
        let path = plan[k].0;
        let kind = super::undo::oops_word(e);
        let line = super::undo::oops_row()(plan[k]);
        assert(r[k + 2] == line);
        let wide = crate::text::padded(kind, 10);
        let tail = "(event #"@ + crate::text::decimal_int(e.id as int) + ", agent: "@
            + e.attribution + ")"@;
        lemma_holds_itself(path);
        lemma_holds_itself(tail);
        lemma_holds_itself(kind);
        reveal_strlit("  (event #");
        reveal_strlit("(event #");
        reveal_strlit("  ");
        assert("  (event #"@ =~= "  "@ + "(event #"@);
        crate::text::laws::lemma_part_of_longer("  "@ + wide + "  "@, path, "  "@ + tail, path);
        assert(line =~= "  "@ + wide + "  "@ + path + ("  "@ + tail));
        crate::text::laws::lemma_part_of_longer(
            "  "@ + wide + "  "@ + path + "  "@,
            tail,
            Seq::empty(),
            tail,
        );
        assert(line =~= "  "@ + wide + "  "@ + path + "  "@ + tail + Seq::<char>::empty());
        let spaces = wide.skip(kind.len() as int);
        assert(wide =~= kind + spaces);
        crate::text::laws::lemma_part_of_longer(
            "  "@,
            kind,
            spaces + "  "@ + path + "  "@ + tail,
            kind,
        );
        assert(line =~= "  "@ + kind + (spaces + "  "@ + path + "  "@ + tail));
    }
    assert forall|k: int| 0 <= k < plan.len() implies (#[trigger] done[k + 2]) == "  "@
        + plan[k].0 by {
        assert(crate::restore::bulk::paths_of(plan)[k] == plan[k].0);
    }
}

/// What a revert prints lists every path that was restored, in their order.
pub proof fn law_a_revert_lists_every_path(paths: Seq<Seq<char>>)
    ensures
        super::undo::revert_report(paths).len() == paths.len() + 4,
        forall|k: int|
            0 <= k < paths.len() ==> (#[trigger] super::undo::revert_report(paths)[k + 2]) == "  "@
                + paths[k],
{
}

/// The log has a line for every event, the oldest first, with the number, the time, the path, the
/// agent and what happened.
pub proof fn law_the_log_shows_every_event(
    events: Seq<EventRowView>,
    whens: Seq<Seq<char>>,
    k: int,
)
    requires
        whens.len() == events.len(),
        0 <= k < events.len(),
    ensures
        ({
            let r = super::log::log_of(events, whens);
            let line = r[events.len() - 1 - k];
            let e = events[k];
            &&& r.len() == events.len()
            &&& crate::text::has_part(line, crate::text::decimal_int(e.id as int))
            &&& crate::text::has_part(line, whens[k])
            &&& crate::text::has_part(line, e.path + "  ["@ + e.attribution + "]"@)
            &&& crate::text::has_part(
                line,
                match (e.before_hash, e.after_hash) {
                    (None, Some(_)) => "create"@,
                    (Some(_), Some(_)) => "modify"@,
                    (Some(_), None) => "delete"@,
                    (None, None) => "?"@,
                },
            )
        }),
{
    let e = events[k];
    let when = whens[k];
    let line = super::log::log_line(e, when);
    let number = crate::text::decimal_int(e.id as int);
    let wide = crate::text::padded(number, 5);
    let spaces = wide.skip(number.len() as int);
    assert(wide =~= number + spaces);
    let kind = super::log::event_word(e, "?"@);
    let wide_kind = crate::text::padded(kind, 6);
    let gap = wide_kind.skip(kind.len() as int);
    assert(wide_kind =~= kind + gap);
    let hash = super::log::short_hash(e)->0;
    let what = e.path + "  ["@ + e.attribution + "]"@;
    reveal_strlit("]  ");
    reveal_strlit("]");
    reveal_strlit("  ");
    assert("]  "@ =~= "]"@ + "  "@);
    lemma_holds_itself(number);
    lemma_holds_itself(when);
    let end = "  "@ + wide_kind + " "@ + what + ("  "@ + hash);
    assert(line =~= "#"@ + wide + " "@ + when + end);
    assert(crate::text::has_part(line, number)) by {
        assert(line =~= "#"@ + number + (spaces + " "@ + when + end));
        crate::text::laws::lemma_part_of_longer(
            "#"@,
            number,
            spaces + " "@ + when + end,
            number,
        );
    }
    assert(crate::text::has_part(line, when)) by {
        crate::text::laws::lemma_part_of_longer("#"@ + wide + " "@, when, end, when);
    }
    let front = "#"@ + wide + " "@ + when;
    lemma_end_of_line(front, kind, gap, what, "  "@ + hash);
    assert(front + ("  "@ + (kind + gap) + " "@ + what + ("  "@ + hash)) =~= line);
}

proof fn lemma_end_of_line(
    front: Seq<char>,
    kind: Seq<char>,
    gap: Seq<char>,
    what: Seq<char>,
    back: Seq<char>,
)
    ensures
        ({
            let line = front + ("  "@ + (kind + gap) + " "@ + what + back);
            crate::text::has_part(line, kind) && crate::text::has_part(line, what)
        }),
{
    let line = front + ("  "@ + (kind + gap) + " "@ + what + back);
    lemma_holds_itself(kind);
    lemma_holds_itself(what);
    assert(crate::text::has_part(line, kind)) by {
        crate::text::laws::lemma_part_of_longer(
            front + "  "@,
            kind,
            gap + " "@ + what + back,
            kind,
        );
        assert(line =~= front + "  "@ + kind + (gap + " "@ + what + back));
    }
    assert(crate::text::has_part(line, what)) by {
        crate::text::laws::lemma_part_of_longer(
            front + "  "@ + kind + gap + " "@,
            what,
            back,
            what,
        );
        assert(line =~= front + "  "@ + kind + gap + " "@ + what + back);
    }
}

/// What is shown of a plan names every file with its event, and for 20 files or fewer shows each
/// comparison.
pub proof fn law_a_shown_plan_names_every_file(
    plan: Seq<PlanItemView>,
    header: Seq<char>,
    k: int,
)
    requires
        0 <= k < plan.len(),
    ensures
        crate::text::has_part(
            crate::restore::preview::plan_text(plan, header),
            plan[k].path + " (event #"@ + crate::text::decimal_int(plan[k].event_id as int) + ")"@,
        ),
        plan.len() <= 20 ==> crate::text::has_part(
            crate::restore::preview::plan_text(plan, header),
            "--- a/"@ + plan[k].path + " (current)\n+++ b/"@ + plan[k].path + " (target)\n"@,
        ),
        plan.len() <= 20 && !plan[k].old_content.contains(0u8) && !plan[k].new_content.contains(0u8)
            ==> crate::text::has_part(
            crate::restore::preview::plan_text(plan, header),
            crate::restore::preview::patch(
                crate::outside::line_changes(
                    crate::outside::utf8_lossy(plan[k].new_content),
                    crate::outside::utf8_lossy(plan[k].old_content),
                ),
            ),
        ),
{
    let x = plan[k];
    let lines = plan.map_values(crate::restore::preview::item_line());
    let sections = plan.map_values(crate::restore::preview::item_section());
    let whole = crate::restore::preview::plan_text(plan, header);
    let count = crate::text::decimal(plan.len());
    let head = "Would revert "@ + header + " ("@ + count + " file(s)):\n\n"@;
    let end = "Roll back these "@ + count + " file(s)?"@;
    let middle = if plan.len() <= 20 {
        crate::text::concat(sections)
    } else {
        "... (showing 20 of "@ + count + ", diff omitted for brevity)\n\n"@
    };
    let list = crate::text::concat(lines);
    assert(whole =~= head + list + ("\n"@ + middle + end));
    crate::text::laws::law_what_is_put_together_holds_its_parts(lines, k);
    let named = x.path + " (event #"@ + crate::text::decimal_int(x.event_id as int) + ")"@;
    let front = "  "@ + crate::text::padded(crate::restore::preview::kind_word(x.kind), 10) + " "@;
    let line = crate::restore::preview::item_line()(x);
    let back = line.skip((front.len() + named.len()) as int);
    assert(lines[k] == line);
    assert(line =~= front + named + back);
    lemma_holds_itself(named);
    crate::text::laws::lemma_part_of_longer(front, named, back, named);
    lemma_within(list, line, named);
    crate::text::laws::lemma_part_of_longer(head, list, "\n"@ + middle + end, named);
    if plan.len() <= 20 {
        let all = crate::text::concat(sections);
        let section = crate::restore::preview::item_section()(x);
        let top = "--- a/"@ + x.path + " (current)\n+++ b/"@ + x.path + " (target)\n"@;
        assert(sections[k] == section);
        crate::text::laws::law_what_is_put_together_holds_its_parts(sections, k);
        let rest = section.skip(top.len() as int);
        assert(section =~= Seq::<char>::empty() + top + rest);
        lemma_holds_itself(top);
        crate::text::laws::lemma_part_of_longer(Seq::empty(), top, rest, top);
        lemma_within(all, section, top);
        assert(whole =~= (head + list + "\n"@) + all + end);
        crate::text::laws::lemma_part_of_longer(head + list + "\n"@, all, end, top);
        if !x.old_content.contains(0u8) && !x.new_content.contains(0u8) {
            let shown = crate::restore::preview::patch(
                crate::outside::line_changes(
                    crate::outside::utf8_lossy(x.new_content),
                    crate::outside::utf8_lossy(x.old_content),
                ),
            );
            assert(section =~= top + shown + "\n"@);
            lemma_holds_itself(shown);
            crate::text::laws::lemma_part_of_longer(top, shown, "\n"@, shown);
            lemma_within(all, section, shown);
            crate::text::laws::lemma_part_of_longer(head + list + "\n"@, all, end, shown);
        }
    }
}

/// What a part of a text holds, the text holds.
proof fn lemma_within(whole: Seq<char>, part: Seq<char>, inner: Seq<char>)
    requires
        crate::text::has_part(whole, part),
        crate::text::has_part(part, inner),
    ensures
        crate::text::has_part(whole, inner),
{
    let at = choose|at: int| #[trigger] crate::text::occurs_at(whole, part, at);
    crate::text::laws::lemma_part_of_longer(
        whole.take(at),
        part,
        whole.skip(at + part.len()),
        inner,
    );
    assert(whole =~= whole.take(at) + part + whole.skip(at + part.len())) by {
        assert(whole.subrange(at, at + part.len()) == part);
    }
}

// --- the daemon --------------------------------------------------------------------------------

/// Stopping a daemon: where it agrees to end it is given time, and else its process is ended, with
/// the same time; it is over with success where the process is gone in time, and with a failure
/// where it lives on.
pub proof fn law_a_daemon_is_stopped_in_the_end(
    pid: u32,
    reply: Option<ResponseView>,
    left: u32,
    message: Seq<char>,
    file: bool,
    alive: bool,
)
    ensures
        reply == Some(ResponseView::ShutdownAccepted) ==> super::control::stopping(
            pid,
            StopStateView::Asking,
            StopEventView::Replied { reply },
        ) == (StopStateView::Agreed { left: 20 }, StopActionView::Look),
        reply != Some(ResponseView::ShutdownAccepted) ==> super::control::stopping(
            pid,
            StopStateView::Asking,
            StopEventView::Replied { reply },
        ).1 is Kill,
        left > 1 && file && alive ==> super::control::stopping(
            pid,
            StopStateView::Agreed { left },
            StopEventView::Looked { file, alive },
        ) == (StopStateView::Agreed { left: (left - 1) as u32 }, StopActionView::PauseAndLook),
        !(file && alive) ==> super::control::stopping(
            pid,
            StopStateView::AgreedLast,
            StopEventView::Looked { file, alive },
        ).1 is Finish,
        file && alive ==> super::control::stopping(
            pid,
            StopStateView::AgreedLast,
            StopEventView::Looked { file, alive },
        ).1 is Kill,
        super::control::stopping(pid, StopStateView::Ending, StopEventView::Killed { message })
            == (StopStateView::Ended { left: 20, message }, StopActionView::Look),
        !alive ==> (super::control::stopping(
            pid,
            StopStateView::EndedLast { message },
            StopEventView::Looked { file, alive },
        ).1 matches StopActionView::Finish { message: m, remove_file, remove_socket } && m
            == message && remove_file && remove_socket),
        alive ==> super::control::stopping(
            pid,
            StopStateView::EndedLast { message },
            StopEventView::Looked { file, alive },
        ).1 is Fail,
{
}

/// Stopping begins with a request where the process lives; a file that a dead process left is
/// removed, and without a file there is nothing to stop.
pub proof fn law_stopping_begins_with_a_request(pid: Option<u32>, alive: bool, root: Seq<char>)
    ensures
        pid is Some && alive ==> super::control::stopping_begins(pid, alive, root) == (
            StopStateView::Asking,
            StopActionView::Ask,
        ),
        pid is Some && !alive ==> (super::control::stopping_begins(
            pid,
            alive,
            root,
        ).1 matches StopActionView::Finish { remove_file, .. } && remove_file),
        pid is None ==> (super::control::stopping_begins(
            pid,
            alive,
            root,
        ).1 matches StopActionView::Finish { remove_file, .. } && !remove_file),
{
}

/// The number of a process reads back from its file, also with a line feed behind it.
pub proof fn law_process_numbers_read_back(n: u32)
    ensures
        super::control::pid_of(crate::text::decimal(n as nat)) == Some(n),
        super::control::pid_of(crate::text::decimal(n as nat).push('\n')) == Some(n),
{
    let d = crate::text::decimal(n as nat);
    crate::text::laws::law_numbers_read_back(n as i64);
    assert(d == crate::text::decimal_int(n as int));
    assert(d.len() > 0) by {
        if d.len() == 0 {
            assert(crate::text::whole_number(d) is None);
        }
    }
    assert(d[0] != '-') by {
        if d[0] == '-' {
            assert(d.skip(1).len() >= 0);
            assert(crate::text::whole_number(d) == Some(n as int));
            assert(crate::text::all_digits(d.skip(1)));
            assert(n == 0);
            assert(crate::text::decimal(0) =~= seq![crate::text::digit_char(0)]);
        }
    }
    crate::text::laws::lemma_decimal(n as nat);
    assert forall|k: int| 0 <= k < d.len() implies !crate::text::is_white(#[trigger] d[k]) by {
        assert(crate::text::is_digit(d[k]));
    }
    assert(crate::text::trimmed(d) == d);
    let e = d.push('\n');
    assert(e[0] == d[0]);
    assert(crate::text::trimmed_front(e) == e);
    assert(e.drop_last() =~= d);
    assert(crate::text::is_white('\n'));
    assert(e.last() == '\n');
    assert(crate::text::trimmed_back(e) == crate::text::trimmed_back(d));
}

// --- the check-up ------------------------------------------------------------------------------

/// A check-up changes something only where it is asked to mend: settings are written where there
/// are none, hooks are installed where the settings name none, and what a daemon left is removed
/// where it does not report and its process is gone.
pub proof fn law_a_check_up_mends_only_what_is_asked(
    keep_last: String,
    max_file_size_mb: u64,
    file: bool,
    settings: Option<Seq<char>>,
    pidfile: Option<Seq<char>>,
    alive: bool,
    reply: Option<ResponseView>,
    fix: bool,
)
    ensures
        super::doctor::writes_settings(
            super::doctor::Settings::Read { file, keep_last, max_file_size_mb },
            fix,
        ) <==> fix && !file,
        super::doctor::installs_hooks(settings, fix) <==> fix && settings is Some
            && !crate::text::has_part(settings->0, "au hook"@) && !crate::text::has_part(
            settings->0,
            "agent-undo hook"@,
        ),
        super::doctor::clears(pidfile, alive, reply, fix) <==> {
            &&& fix
            &&& pidfile is Some
            &&& !(reply matches Some(r) && r is Status)
            &&& !(alive && super::control::pid_of(pidfile->0) is Some && super::control::pid_of(
                pidfile->0,
            )->0 > 0)
        },
{
}

/// The agents that want a wrapper are those that were found and have none, in their order.
pub proof fn law_every_agent_without_a_wrapper_is_found(
    found: Seq<super::doctor::PresetView>,
    installed: Seq<Seq<char>>,
    k: int,
)
    requires
        0 <= k < found.len(),
    ensures
        super::doctor::unwrapped(found, installed).contains(found[k]) <==> !installed.contains(
            found[k].binary,
        ),
        forall|n: int|
            0 <= n < super::doctor::unwrapped(found, installed).len() ==> found.contains(
                #[trigger] super::doctor::unwrapped(found, installed)[n],
            ),
{
    let f = |p: super::doctor::PresetView| !installed.contains(p.binary);
    let r = super::doctor::unwrapped(found, installed);
    if f(found[k]) {
        found.lemma_filter_contains(f, k);
    }
    if r.contains(found[k]) {
        let n = choose|n: int| 0 <= n < r.len() && r[n] == found[k];
        found.lemma_filter_pred(f, n);
    }
    assert forall|n: int| 0 <= n < r.len() implies found.contains(#[trigger] r[n]) by {
        assert(r.contains(r[n]));
        found.lemma_filter_contains_rev(f, r[n]);
    }
}

/// The sessions are listed at the end of a check-up, each with its agent and its start.
pub proof fn law_a_check_up_lists_the_sessions(
    sessions: Seq<SessionRowView>,
    whens: Seq<Seq<char>>,
    fix: bool,
)
    requires
        sessions.len() > 0,
        whens.len() == sessions.len(),
    ensures
        super::doctor::end_report(sessions, whens, fix).len() == sessions.len() + 4,
        forall|k: int|
            0 <= k < sessions.len() ==> (#[trigger] super::doctor::end_report(
                sessions,
                whens,
                fix,
            )[k + 2]) == super::doctor::session_line(
                crate::text::head(sessions[k].id, 12)->0,
                sessions[k].agent,
                whens[k],
            ),
{
}

/// The agent of a wrapper is that of the preset or the one that is named, and its program the one
/// that is named, or that of the preset, or that of the agent.
pub proof fn law_a_wrapper_stands_for_what_was_asked(
    preset: super::doctor::Preset,
    agent: Option<Seq<char>>,
    binary: Option<Seq<char>>,
)
    ensures
        ({
            let known = super::wrap::wrapper_choice(
                super::wrap::Asked::Known(preset),
                agent,
                binary,
            );
            let unnamed = super::wrap::wrapper_choice(
                super::wrap::Asked::Unnamed,
                agent,
                binary,
            );
            &&& known is Ok && known->Ok_0.0 == preset.agent@
            &&& binary is Some ==> known->Ok_0.1 == binary->0
            &&& binary is None ==> known->Ok_0.1 == preset.binary@
            &&& unnamed is Ok <==> agent is Some
            &&& agent is Some ==> unnamed->Ok_0.0 == agent->0
            &&& agent is Some && binary is Some ==> unnamed->Ok_0.1 == binary->0
            &&& agent is Some && binary is None ==> unnamed->Ok_0.1 == agent->0
        }),
{
}

// --- documents ---------------------------------------------------------------------------------

/// The document on the state of a project says where it is, how many events it holds, whether the
/// daemon runs, and which session is active.
pub proof fn law_the_status_document_tells_the_state(
    paths: crate::paths::ProjectPathsView,
    events: i64,
    running: bool,
    active: Option<ActiveSessionView>,
)
    ensures
        ({
            let doc = super::control::status_document(paths, events, running, active);
            &&& crate::json::member(doc, "root"@) == Some(JsonTree::Text(paths.root))
            &&& crate::json::member(doc, "data"@) == Some(JsonTree::Text(paths.data_dir))
            &&& crate::json::member(doc, "database"@) == Some(JsonTree::Text(paths.db_path))
            &&& crate::json::member(doc, "events"@) == Some(
                JsonTree::Number(crate::text::decimal_int(events as int)),
            )
            &&& crate::json::member(doc, "daemon_running"@) == Some(JsonTree::Bool(running))
            &&& crate::json::member(doc, "socket_path"@) == Some(JsonTree::Text(paths.socket_path))
            &&& active is None ==> crate::json::member(doc, "active_session"@) == Some(
                JsonTree::Null,
            )
            &&& active matches Some(a) ==> crate::json::member(doc, "active_session"@) == Some(
                super::control::session_document(a),
            )
        }),
{
    reveal_strlit("root");
    reveal_strlit("data");
    reveal_strlit("database");
    reveal_strlit("events");
    reveal_strlit("daemon_running");
    reveal_strlit("socket_path");
    reveal_strlit("active_session");
    assert("root"@.len() == 4);
    assert("data"@.len() == 4);
    assert("database"@.len() == 8);
    assert("events"@.len() == 6);
    assert("daemon_running"@.len() == 14);
    assert("socket_path"@.len() == 11);
    assert("active_session"@.len() == 14);
    assert("root"@[0] != "data"@[0]);
    assert("daemon_running"@[0] != "active_session"@[0]);
}

/// The document on an event says all that the timeline has of it.
pub proof fn law_an_event_document_tells_the_event(e: EventRowView, stamp: Seq<char>)
    ensures
        ({
            let doc = super::log::event_document(e, stamp);
            &&& crate::json::member(doc, "id"@) == Some(
                JsonTree::Number(crate::text::decimal_int(e.id as int)),
            )
            &&& crate::json::member(doc, "ts_ns"@) == Some(
                JsonTree::Number(crate::text::decimal_int(e.ts_ns as int)),
            )
            &&& crate::json::member(doc, "timestamp"@) == Some(JsonTree::Text(stamp))
            &&& crate::json::member(doc, "path"@) == Some(JsonTree::Text(e.path))
            &&& crate::json::member(doc, "attribution"@) == Some(JsonTree::Text(e.attribution))
            &&& crate::json::member(doc, "kind"@) == Some(
                JsonTree::Text(
                    match (e.before_hash, e.after_hash) {
                        (None, Some(_)) => "create"@,
                        (Some(_), Some(_)) => "modify"@,
                        (Some(_), None) => "delete"@,
                        (None, None) => "unknown"@,
                    },
                ),
            )
            &&& crate::json::member(doc, "session_id"@) == Some(text_or_nothing(e.session_id))
            &&& crate::json::member(doc, "before_hash"@) == Some(text_or_nothing(e.before_hash))
            &&& crate::json::member(doc, "after_hash"@) == Some(text_or_nothing(e.after_hash))
        }),
{
    reveal_strlit("id");
    reveal_strlit("ts_ns");
    reveal_strlit("timestamp");
    reveal_strlit("kind");
    reveal_strlit("path");
    reveal_strlit("attribution");
    reveal_strlit("session_id");
    reveal_strlit("before_hash");
    reveal_strlit("after_hash");
    assert("id"@.len() == 2);
    assert("ts_ns"@.len() == 5);
    assert("timestamp"@.len() == 9);
    assert("kind"@.len() == 4);
    assert("path"@.len() == 4);
    assert("attribution"@.len() == 11);
    assert("session_id"@.len() == 10);
    assert("before_hash"@.len() == 11);
    assert("after_hash"@.len() == 10);
    assert("kind"@[0] != "path"@[0]);
    assert("attribution"@[0] != "before_hash"@[0]);
    assert("session_id"@[0] != "after_hash"@[0]);
}

/// A text as a document, or null.
pub open spec fn text_or_nothing(s: Option<Seq<char>>) -> JsonTree {
    match s {
        Some(t) => JsonTree::Text(t),
        None => JsonTree::Null,
    }
}

/// The document of a log has every event, the oldest first.
pub proof fn law_a_log_document_has_every_event(
    events: Seq<EventRowView>,
    stamps: Seq<Seq<char>>,
    k: int,
)
    requires
        0 <= k < events.len(),
        stamps.len() == events.len(),
    ensures
        ({
            let doc = super::log::log_document(events, stamps);
            &&& doc is Array
            &&& doc->Array_0.len() == events.len()
            &&& doc->Array_0[events.len() - 1 - k] == super::log::event_document(
                events[k],
                stamps[k],
            )
        }),
{
}

/// A command that is run as an agent has a session of its own for that agent, which is the active
/// one, with the label as its prompt.
pub proof fn law_a_command_runs_in_its_own_session(
    i: Image,
    agent: Seq<char>,
    label: Option<Seq<char>>,
    command: Seq<Seq<char>>,
    fresh: Seq<char>,
    other: Seq<char>,
    ts_ns: i64,
)
    requires
        crate::store::sound(i),
        crate::store::changes::session_with(i, "exec-"@ + fresh) is None,
    ensures
        ({
            let s = super::undo::command_session(agent, label, command, fresh);
            let id = "exec-"@ + fresh;
            let j = crate::image::replay(i, crate::session::starting(i, s, id, ts_ns));
            let row = crate::store::changes::session_with(j, id)->0;
            &&& crate::session::starting_id(s, other) == id
            &&& crate::store::changes::session_with(j, id) is Some
            &&& row.agent == agent && row.prompt == label && row.started_at_ns == ts_ns
            &&& j.marker is Active
            &&& j.marker->Active_0.session_id == id
            &&& j.marker->Active_0.agent == agent
        }),
{
    let s = super::undo::command_session(agent, label, command, fresh);
    crate::session::law_a_session_starts_as_asked_for(i, s, "exec-"@ + fresh, ts_ns);
}

// --- answers of the daemon ---------------------------------------------------------------------

/// A command asks for what it was asked to do.
pub proof fn law_a_restore_asks_for_what_was_named(id: u64, path: Seq<char>, session: Seq<char>)
    ensures
        super::undo::restore_asks(RestoreStepView::Event { id }) == Some(
            RequestView::RestoreEvent { event_id: id as i64 },
        ),
        super::undo::restore_asks(RestoreStepView::File { path }) == Some(
            RequestView::RestoreFile { path },
        ),
        super::undo::restore_asks(RestoreStepView::Session { id: session }) == Some(
            RequestView::RestoreSession { session_id: session },
        ),
        super::undo::restore_asks(RestoreStepView::Usage) is None,
{
}

/// A command does the work itself where no daemon answers, takes what it asked for, and fails with
/// what the daemon says where it refuses.
pub proof fn law_a_command_goes_by_the_answer(
    content: Seq<char>,
    bytes: Seq<u8>,
    event: EventRowView,
    paths: Seq<Seq<char>>,
    sessions: Seq<SessionRowView>,
    events: Seq<EventRowView>,
    items: Seq<(Seq<char>, EventRowView)>,
    message: Seq<char>,
)
    ensures
        super::reply::having_text(None) is Alone,
        super::reply::having_bytes(None) is Alone,
        super::reply::having_event(None) is Alone,
        super::reply::having_paths(None) is Alone,
        super::reply::having_sessions(None) is Alone,
        super::reply::having_events(None) is Alone,
        super::reply::having_started(None) is Alone,
        super::reply::having_oops(None) is Alone,
        super::reply::having_text(Some(ResponseView::Text { content })) == AskedView::Got(content),
        super::reply::having_bytes(Some(ResponseView::Bytes { bytes })) == AskedView::Got(bytes),
        super::reply::having_event(Some(ResponseView::Event { event })) == AskedView::Got(event),
        super::reply::having_paths(Some(ResponseView::Paths { paths })) == AskedView::Got(paths),
        super::reply::having_sessions(Some(ResponseView::Sessions { sessions }))
            == AskedView::Got(sessions),
        super::reply::having_events(Some(ResponseView::Events { events })) == AskedView::Got(
            events,
        ),
        super::reply::having_started(
            Some(ResponseView::SessionStarted { session_id: content }),
        ) == AskedView::Got(content),
        super::reply::having_oops(Some(ResponseView::Plan { items })) == AskedView::Got(items),
        super::reply::having_text(Some(ResponseView::Error { message })) == AskedView::<
            Seq<char>,
        >::Refused(message),
        super::reply::having_event(Some(ResponseView::Error { message })) == AskedView::<
            EventRowView,
        >::Refused(message),
        super::reply::having_paths(Some(ResponseView::Error { message })) == AskedView::<
            Seq<Seq<char>>,
        >::Refused(message),
        super::reply::having_events(Some(ResponseView::Error { message })) == AskedView::<
            Seq<EventRowView>,
        >::Refused(message),
{
}

/// What a restore says of the answer: the event that was undone, the paths that were restored, or
/// what the daemon refused with.
pub proof fn law_a_restore_tells_the_answer(
    id: Seq<char>,
    path: Seq<char>,
    paths: Seq<Seq<char>>,
    event: EventRowView,
    message: Seq<char>,
)
    ensures
        super::undo::restore_answer(
            RestoreStepView::Session { id },
            Some(ResponseView::Paths { paths }),
        ) == ToldView::Lines(super::undo::rollback_report(id, paths)),
        super::undo::restore_answer(
            RestoreStepView::File { path },
            Some(ResponseView::Event { event }),
        ) == ToldView::Lines(
            seq![
                "restored "@ + path + " — undid event #"@ + crate::text::decimal_int(
                    event.id as int,
                ) + " (attribution: "@ + event.attribution + ")"@,
            ],
        ),
        super::undo::restore_answer(
            RestoreStepView::Session { id },
            Some(ResponseView::Error { message }),
        ) == ToldView::Failed(message),
        super::undo::restore_answer(
            RestoreStepView::File { path },
            Some(ResponseView::Error { message }),
        ) == ToldView::Failed(message),
        super::undo::restore_answer(RestoreStepView::Session { id }, None) is Alone,
        super::undo::restore_answer(RestoreStepView::File { path }, None) is Alone,
{
}

/// What a restore without a daemon tells: what was done, where the restore worked, and else why it
/// failed.
pub proof fn law_a_restore_here_tells_what_came_of_it(
    before: Store,
    after: Store,
    path: Seq<char>,
    target: Option<Seq<char>>,
    done: ToldView,
    told: ToldView,
)
    requires
        before.wf(),
        done is Lines,
        super::undo::restores_and_tells(before, after, path, target, done, told),
    ensures
        told == done || told is Failed,
        told == done ==> crate::restore::outcomes::is_left_with(after.image(), path, target)
            && crate::restore::outcomes::only_restored(before.image(), after.image()),
        told is Failed && before.image().last_event_id + 2 <= i64::MAX ==> after.image().files
            == before.image().files,
{
    let outcome = choose|outcome: Option<crate::failure::FailureView>|
        #[trigger] crate::restore::restores_file(before, after, path, target, outcome) && told
            == super::undo::told_of(outcome, done);
    crate::restore::outcomes::law_after_a_restore(before, after, path, target, outcome);
}

/// A collection at a time takes what lies further back than the given span.
pub proof fn law_a_collection_goes_by_the_span(
    before: Store,
    after: Store,
    now: i64,
    older_than_ns: i64,
    names: Seq<Seq<char>>,
    r: (usize, usize),
    k: int,
)
    requires
        before.wf(),
        crate::store::collect::collects_from(before, after, now, older_than_ns, names, r),
        0 <= k < before.image().events.len(),
    ensures
        now - before.image().events[k].row.ts_ns <= older_than_ns ==> after.image().events.contains(
            before.image().events[k],
        ),
        now - before.image().events[k].row.ts_ns > older_than_ns
            && crate::store::outcomes::is_superseded(before.image(), k)
            && !crate::store::outcomes::a_pin_needs(before.image(), k)
            ==> !after.image().events.contains(before.image().events[k]),
        r.0 == before.image().events.len() - after.image().events.len(),
{
    crate::store::outcomes::law_after_a_collection(
        before,
        after,
        now - older_than_ns,
        names,
        r,
        k,
    );
}

// --- reports on a project ----------------------------------------------------------------------

/// The state of a project is told with its place and its events, and the daemon as it was found: it
/// answers, it runs without answering, or it is not there, with the place where it is expected.
pub proof fn law_the_status_tells_what_was_found(
    paths: crate::paths::ProjectPathsView,
    events: i64,
    answered: bool,
    running: bool,
    pid: Option<u32>,
    info: Option<Seq<char>>,
)
    ensures
        ({
            let r = super::control::status_report(paths, events, answered, running, pid, info);
            &&& r[0] == "root:     "@ + paths.root
            &&& r[1] == "data:     "@ + paths.data_dir
            &&& r[2] == "events:   "@ + crate::text::decimal_int(events as int)
            &&& r[3] == "database: "@ + paths.db_path
            &&& answered ==> r.len() == 5 && r[4] == "daemon:   running ("@ + paths.socket_path
                + ")"@
            &&& !answered && running ==> r.len() == 5
            &&& !answered && running && pid is Some ==> r[4] == "daemon:   running (pid "@
                + crate::text::decimal(pid->0 as nat) + ", socket unavailable)"@
            &&& !answered && !running ==> r.len() == 6 && r[4] == "daemon:   unavailable"@
            &&& !answered && !running && info is Some ==> r[5] == "socket:   expected at "@
                + crate::text::trimmed(info->0)
            &&& !answered && !running && info is None ==> r[5] == "socket:   "@ + paths.socket_path
        }),
{
}

/// A check-up tells of the daemon as it was found: what it reports where it answers, that it runs
/// where its process lives, that it left a file where it does not, and else that it is off.
pub proof fn law_a_check_up_tells_of_the_daemon(
    file: Option<Seq<char>>,
    alive: bool,
    reply: Option<ResponseView>,
    path: Seq<char>,
    socket: Seq<char>,
    expected: Seq<char>,
    fix: bool,
)
    ensures
        ({
            let r = super::doctor::daemon_report(file, alive, reply, path, socket, expected, fix);
            let pid = match file {
                Some(text) => match super::control::pid_of(text) {
                    Some(n) => n,
                    None => 0,
                },
                None => 0,
            };
            let number = crate::text::decimal(pid as nat);
            &&& file is Some ==> (reply matches Some(ResponseView::Status {
                events,
                active_session,
            }) ==> {
                &&& r[0] == "✓ daemon running (pid "@ + number + ", "@
                    + crate::text::decimal_int(events as int) + " events, socket "@ + socket
                    + ")"@
                &&& active_session is None ==> r.len() == 1
                &&& active_session matches Some(a) ==> r.len() == 2 && r[1]
                    == "  active session via daemon: "@ + a.agent + " ("@ + a.session_id + ")"@
            })
            &&& file is Some && !(reply is Some && reply->0 is Status) && pid > 0 && alive ==> r
                == seq![
                "✓ daemon running (pid "@ + number + ") but socket is unavailable at "@
                    + expected,
            ]
            &&& file is Some && !(reply is Some && reply->0 is Status) && !(pid > 0 && alive) ==> {
                &&& r.len() == 2
                &&& r[0] == "⚠ stale pidfile at "@ + path + " (pid "@ + number + " not alive)"@
                &&& fix ==> r[1] == "  fixed: removed stale pidfile"@
                &&& !fix ==> r[1] == "  → run `au stop` to clean up, then `au serve --daemon`"@
            }
            &&& file is None && reply is None ==> r.len() == 2 && r[0] == "⚠ daemon not running"@
            &&& file is None && reply is Some ==> r[0]
                == "✓ daemon control socket responding at "@ + socket
        }),
{
}

/// A check-up tells of the settings, the hooks and the wrappers as they were found.
pub proof fn law_a_check_up_tells_what_was_found(
    path: Seq<char>,
    keep_last: String,
    max_file_size_mb: u64,
    file: bool,
    fix: bool,
    title: Seq<char>,
    settings: Option<Seq<char>>,
    found: Seq<super::doctor::PresetView>,
    installed: Seq<Seq<char>>,
)
    ensures
        ({
            let r = super::doctor::settings_report(
                path,
                super::doctor::Settings::Read { file, keep_last, max_file_size_mb },
                fix,
            );
            &&& file ==> r == seq![
                "✓ config loaded from "@ + path + " (gc.keep_last="@ + keep_last@
                    + ", watch.max_file_size_mb="@ + crate::text::decimal(
                    max_file_size_mb as nat,
                ) + ")"@,
            ]
            &&& !file && fix ==> r == seq!["✓ wrote default config to "@ + path]
            &&& !file && !fix ==> r.len() == 2
        }),
        ({
            let r = super::doctor::hooks_report(title, path, settings, fix);
            &&& settings is None ==> r.len() == 2
            &&& settings is Some && (crate::text::has_part(settings->0, "au hook"@)
                || crate::text::has_part(settings->0, "agent-undo hook"@)) ==> r == seq![
                super::doctor::hooks_there_line(title, path),
            ]
            &&& settings is Some && !crate::text::has_part(settings->0, "au hook"@)
                && !crate::text::has_part(settings->0, "agent-undo hook"@) ==> r[0]
                == super::doctor::hooks_lacking_line(title)
        }),
        ({
            let missing = super::doctor::unwrapped(found, installed);
            let r = super::doctor::wrapped_report(found, missing, fix);
            &&& found.len() == 0 ==> r.len() == 0
            &&& found.len() > 0 && missing.len() == 0 ==> r == seq![
                super::doctor::all_wrapped_line(),
            ]
            &&& found.len() > 0 && missing.len() > 0 && fix ==> r == seq![
                super::doctor::now_wrapped_line(
                    super::doctor::listing(super::doctor::binaries(missing)),
                ),
            ]
            &&& found.len() > 0 && missing.len() > 0 && !fix ==> r.len() == 2 && r[0]
                == super::doctor::wrappers_wanting_line(
                super::doctor::listing(super::doctor::binaries(missing)),
            )
        }),
{
}

/// A list that is written out holds each of its texts, and names and programs stand in the order of
/// the agents.
pub proof fn law_lists_are_written_out(texts: Seq<Seq<char>>, found: Seq<
    super::doctor::PresetView,
>, k: int)
    ensures
        0 <= k < texts.len() ==> crate::text::has_part(super::doctor::listing(texts), texts[k]),
        super::doctor::names(found).len() == found.len(),
        super::doctor::binaries(found).len() == found.len(),
        0 <= k < found.len() ==> super::doctor::names(found)[k] == found[k].name
            && super::doctor::binaries(found)[k] == found[k].binary,
    decreases texts.len(),
{
    if 0 <= k < texts.len() {
        let word = texts[k];
        lemma_holds_itself(word);
        if texts.len() > 1 {
            let fewer = texts.drop_last();
            let front = super::doctor::listing(fewer);
            if k < fewer.len() {
                law_lists_are_written_out(fewer, found, k);
                assert(fewer[k] == word);
                crate::text::laws::lemma_part_of_longer(
                    Seq::empty(),
                    front,
                    ", "@ + texts.last(),
                    word,
                );
                assert(super::doctor::listing(texts) =~= Seq::<char>::empty() + front + (", "@
                    + texts.last()));
            } else {
                crate::text::laws::lemma_part_of_longer(front + ", "@, word, Seq::empty(), word);
                assert(super::doctor::listing(texts) =~= front + ", "@ + word + Seq::<
                    char,
                >::empty());
            }
        }
    }
}

/// The document of a check-up says where the project is, how many events it holds, and what was
/// found of its settings, its wrappers, its daemon, its marker and its hooks.
pub proof fn law_the_check_up_document_tells_what_was_found(
    paths: crate::paths::ProjectPathsView,
    f: super::doctor::FindingsView,
    fix: bool,
)
    ensures
        ({
            let doc = super::doctor::doctor_document(paths, f, fix);
            &&& crate::json::member(doc, "root"@) == Some(JsonTree::Text(paths.root))
            &&& crate::json::member(doc, "data_dir"@) == Some(JsonTree::Text(paths.data_dir))
            &&& crate::json::member(doc, "database"@) == Some(JsonTree::Text(paths.db_path))
            &&& crate::json::member(doc, "events"@) == Some(
                JsonTree::Number(crate::text::decimal_int(f.events as int)),
            )
            &&& crate::json::member(doc, "config"@) == Some(
                super::doctor::settings_document(paths.config_path, f.settings),
            )
            &&& crate::json::member(doc, "wrappers"@) == Some(
                super::doctor::wrappers_document(paths.bin_dir, f),
            )
            &&& crate::json::member(doc, "daemon"@) == Some(
                super::doctor::daemon_document(paths, f),
            )
            &&& crate::json::member(doc, "fix"@) == Some(
                super::doctor::mending_document(fix, f.swept),
            )
        }),
{
    reveal_strlit("root");
    reveal_strlit("data_dir");
    reveal_strlit("database");
    reveal_strlit("events");
    reveal_strlit("config");
    reveal_strlit("wrappers");
    reveal_strlit("daemon");
    reveal_strlit("active_session_marker");
    reveal_strlit("claude_hooks");
    reveal_strlit("fix");
    assert("root"@.len() == 4);
    assert("data_dir"@.len() == 8);
    assert("database"@.len() == 8);
    assert("events"@.len() == 6);
    assert("config"@.len() == 6);
    assert("wrappers"@.len() == 8);
    assert("daemon"@.len() == 6);
    assert("active_session_marker"@.len() == 21);
    assert("claude_hooks"@.len() == 12);
    assert("fix"@.len() == 3);
    assert("data_dir"@[4] != "database"@[4]);
    assert("data_dir"@[0] != "wrappers"@[0]);
    assert("database"@[0] != "wrappers"@[0]);
    assert("events"@[0] != "config"@[0]);
    assert("events"@[0] != "daemon"@[0]);
    assert("config"@[0] != "daemon"@[0]);
}

/// The document on the daemon says its number, whether its process lives, and where it answers.
pub proof fn law_the_daemon_document_tells_what_was_found(
    paths: crate::paths::ProjectPathsView,
    f: super::doctor::FindingsView,
)
    ensures
        ({
            let doc = super::doctor::daemon_document(paths, f);
            &&& f.pid matches Some((n, alive)) ==> {
                &&& crate::json::member(doc, "pid"@) == Some(
                    JsonTree::Number(crate::text::decimal(n as nat)),
                )
                &&& crate::json::member(doc, "pid_alive"@) == Some(JsonTree::Bool(alive))
            }
            &&& f.pid is None ==> crate::json::member(doc, "pid"@) == Some(JsonTree::Null)
                && crate::json::member(doc, "pid_alive"@) == Some(JsonTree::Null)
            &&& crate::json::member(doc, "socket_path"@) == Some(JsonTree::Text(paths.socket_path))
            &&& crate::json::member(doc, "status"@) == Some(super::doctor::state_document(f))
        }),
{
    reveal_strlit("pidfile");
    reveal_strlit("pid");
    reveal_strlit("pid_alive");
    reveal_strlit("socket_path");
    reveal_strlit("socket_info_path");
    reveal_strlit("socket_hint");
    reveal_strlit("status");
    assert("pidfile"@.len() == 7);
    assert("pid"@.len() == 3);
    assert("pid_alive"@.len() == 9);
    assert("socket_path"@.len() == 11);
    assert("socket_info_path"@.len() == 16);
    assert("socket_hint"@.len() == 11);
    assert("status"@.len() == 6);
    assert("socket_path"@[7] != "socket_hint"@[7]);
}

/// The document on the state of the daemon says that it runs where it answers or its file tells so,
/// with the events that it reports or that the timeline holds, and the session that it reports.
pub proof fn law_the_state_document_tells_whether_it_runs(f: super::doctor::FindingsView)
    ensures
        ({
            let doc = super::doctor::state_document(f);
            &&& crate::json::member(doc, "running"@) == Some(
                JsonTree::Bool(f.reply is Some || f.running),
            )
            &&& f.reply matches Some(ResponseView::Status { events, active_session }) ==> {
                &&& crate::json::member(doc, "events"@) == Some(
                    JsonTree::Number(crate::text::decimal_int(events as int)),
                )
                &&& active_session is None ==> crate::json::member(doc, "active_session"@)
                    == Some(JsonTree::Null)
                &&& active_session matches Some(a) ==> crate::json::member(doc, "active_session"@)
                    == Some(super::control::session_document(a))
            }
            &&& !(f.reply is Some && f.reply->0 is Status) && (f.reply is Some || f.running)
                ==> crate::json::member(doc, "events"@) == Some(
                JsonTree::Number(crate::text::decimal_int(f.events as int)),
            )
        }),
{
    reveal_strlit("running");
    reveal_strlit("events");
    reveal_strlit("active_session");
    reveal_strlit("via");
    assert("running"@.len() == 7);
    assert("events"@.len() == 6);
    assert("active_session"@.len() == 14);
    assert("via"@.len() == 3);
}

/// The documents on the settings, the hooks, the wrappers, the marker and the mending say what was
/// found.
pub proof fn law_the_other_documents_tell_what_was_found(
    path: Seq<char>,
    s: Option<(Seq<char>, u64)>,
    present: bool,
    dir: Seq<char>,
    f: super::doctor::FindingsView,
    fix: bool,
    swept: Option<usize>,
)
    ensures
        crate::json::member(super::doctor::settings_document(path, s), "path"@) == Some(
            JsonTree::Text(path),
        ),
        crate::json::member(super::doctor::settings_document(path, s), "loaded"@) == Some(
            JsonTree::Bool(s is Some),
        ),
        s matches Some((keep, mb)) ==> crate::json::member(
            super::doctor::settings_document(path, s),
            "gc_keep_last"@,
        ) == Some(JsonTree::Text(keep)) && crate::json::member(
            super::doctor::settings_document(path, s),
            "watch_max_file_size_mb"@,
        ) == Some(JsonTree::Number(crate::text::decimal(mb as nat))),
        crate::json::member(super::doctor::marker_document(path, present), "present"@) == Some(
            JsonTree::Bool(present),
        ),
        crate::json::member(super::doctor::mending_document(fix, swept), "requested"@) == Some(
            JsonTree::Bool(fix),
        ),
        swept matches Some(n) ==> crate::json::member(
            super::doctor::mending_document(fix, swept),
            "orphan_blobs_removed"@,
        ) == Some(JsonTree::Number(crate::text::decimal(n as nat))),
        crate::json::member(super::doctor::hooks_document(f), "installed"@) == Some(
            JsonTree::Bool(
                f.hook_settings is Some && (crate::text::has_part(f.hook_settings->0, "au hook"@)
                    || crate::text::has_part(f.hook_settings->0, "agent-undo hook"@)),
            ),
        ),
        crate::json::member(super::doctor::wrappers_document(dir, f), "installed"@) == Some(
            crate::json::texts_tree(f.wrappers),
        ),
        crate::json::member(super::doctor::wrappers_document(dir, f), "missing_for_detected"@)
            == Some(
            crate::json::texts_tree(
                super::doctor::binaries(super::doctor::unwrapped(f.found, f.wrapped)),
            ),
        ),
{
    reveal_strlit("path");
    reveal_strlit("loaded");
    reveal_strlit("gc_keep_last");
    reveal_strlit("watch_max_file_size_mb");
    assert("path"@.len() == 4);
    assert("loaded"@.len() == 6);
    assert("gc_keep_last"@.len() == 12);
    assert("watch_max_file_size_mb"@.len() == 22);
    reveal_strlit("present");
    assert("present"@.len() == 7);
    reveal_strlit("requested");
    reveal_strlit("orphan_blobs_removed");
    assert("requested"@.len() == 9);
    assert("orphan_blobs_removed"@.len() == 20);
    reveal_strlit("settings_path");
    reveal_strlit("installed");
    assert("settings_path"@.len() == 13);
    assert("installed"@.len() == 9);
    reveal_strlit("bin_dir");
    reveal_strlit("detected_on_path");
    reveal_strlit("missing_for_detected");
    assert("bin_dir"@.len() == 7);
    assert("detected_on_path"@.len() == 16);
    assert("missing_for_detected"@.len() == 20);
}

/// The document on a session says all that its marker says.
pub proof fn law_a_session_document_tells_the_session(s: ActiveSessionView)
    ensures
        ({
            let doc = super::control::session_document(s);
            &&& crate::json::member(doc, "session_id"@) == Some(JsonTree::Text(s.session_id))
            &&& crate::json::member(doc, "agent"@) == Some(JsonTree::Text(s.agent))
            &&& crate::json::member(doc, "started_at_ns"@) == Some(
                JsonTree::Number(crate::text::decimal_int(s.started_at_ns as int)),
            )
            &&& crate::json::member(doc, "tool_name"@) == Some(text_or_nothing(s.tool_name))
            &&& crate::json::member(doc, "intended_file"@) == Some(
                text_or_nothing(s.intended_file),
            )
        }),
{
    reveal_strlit("session_id");
    reveal_strlit("agent");
    reveal_strlit("started_at_ns");
    reveal_strlit("tool_name");
    reveal_strlit("intended_file");
    assert("session_id"@.len() == 10);
    assert("agent"@.len() == 5);
    assert("started_at_ns"@.len() == 13);
    assert("tool_name"@.len() == 9);
    assert("intended_file"@.len() == 13);
    assert("started_at_ns"@[0] != "intended_file"@[0]);
}

/// A list of texts is a document with each of them in its place.
pub proof fn law_texts_stand_in_their_order(texts: Seq<Seq<char>>, k: int)
    requires
        0 <= k < texts.len(),
    ensures
        crate::json::texts_tree(texts) is Array,
        crate::json::texts_tree(texts)->Array_0.len() == texts.len(),
        crate::json::texts_tree(texts)->Array_0[k] == JsonTree::Text(texts[k]),
{
}

/// Where a part of a hash or of an id is shown it is a beginning of it: 12 bytes of a hash, of the
/// content after an event before that before it, and 16 bytes of an id.
pub proof fn law_shown_hashes_are_beginnings(e: EventRowView, id: Seq<char>)
    ensures
        e.before_hash is None ==> super::undo::hash_before(e) == Some("<did not exist>"@),
        e.before_hash matches Some(h) ==> (super::undo::hash_before(e) matches Some(s) ==> {
            &&& s.len() <= h.len() && h.take(s.len() as int) == s
            &&& crate::text::byte_len(s) == 12
        }),
        e.after_hash matches Some(h) ==> super::log::short_hash(e) == crate::text::head(h, 12),
        e.after_hash is None ==> (e.before_hash matches Some(h) ==> super::log::short_hash(e)
            == crate::text::head(h, 12)),
        e.after_hash is None && e.before_hash is None ==> super::log::short_hash(e) == Some("-"@),
        super::undo::id_start(id) matches Some(s) ==> {
            &&& s.len() <= id.len() && id.take(s.len() as int) == s
            &&& crate::text::byte_len(s) == 16
        },
{
    if let Some(h) = e.before_hash {
        crate::text::laws::law_first_bytes_are_a_beginning(h, 12);
        if crate::text::byte_len(h) == 12 {
            assert(crate::text::head(h, 12) == Some(h));
        }
    }
    crate::text::laws::law_first_bytes_are_a_beginning(id, 16);
}

/// A row of the list of pins shows the number, the time, the event and the label of its pin.
pub proof fn law_a_pin_row_shows_its_pin(
    id: i64,
    when: Seq<char>,
    event_id: i64,
    label: Seq<char>,
)
    ensures
        ({
            let line = super::log::pin_line(id, when, event_id, label);
            &&& crate::text::has_part(
                line,
                " "@ + when + "  event="@ + crate::text::decimal_int(event_id as int) + "  "@
                    + label,
            )
            &&& line.take(1) == "#"@
            &&& crate::text::has_part(line, crate::text::decimal_int(id as int))
        }),
{
    let line = super::log::pin_line(id, when, event_id, label);
    let number = crate::text::decimal_int(id as int);
    let wide = crate::text::padded(number, 5);
    let spaces = wide.skip(number.len() as int);
    let rest = " "@ + when + "  event="@ + crate::text::decimal_int(event_id as int) + "  "@
        + label;
    reveal_strlit("#");
    assert(line =~= "#"@ + wide + rest);
    assert(crate::text::has_part(line, rest)) by {
        lemma_holds_itself(rest);
        crate::text::laws::lemma_part_of_longer("#"@ + wide, rest, Seq::empty(), rest);
        assert(line =~= "#"@ + wide + rest + Seq::<char>::empty());
    }
    assert(crate::text::has_part(line, number)) by {
        lemma_holds_itself(number);
        assert(wide =~= number + spaces);
        crate::text::laws::lemma_part_of_longer("#"@, number, spaces + rest, number);
        assert("#"@ + number + (spaces + rest) =~= "#"@ + (number + spaces) + rest);
    }
    assert(line.take(1) =~= "#"@);
}

/// A row of the list of sessions shows the beginning of the id, the agent, the start and the end of
/// its session, or that it has not ended.
pub proof fn law_a_session_row_shows_its_session(
    id: Seq<char>,
    agent: Seq<char>,
    start: Seq<char>,
    end: Option<Seq<char>>,
)
    ensures
        super::log::session_line(id, agent, start, super::log::end_shown(end)) == id + "  "@
            + crate::text::padded(agent, 12) + "  "@ + start + " → "@ + (match end {
            Some(t) => t,
            None => "(open)"@,
        }),
{
}

/// The spans and counts that the commands go by where none is named.
pub proof fn law_usual_spans_and_counts()
    ensures
        super::undo::OOPS_WINDOW_NS == 30 * 1_000_000_000,
        crate::daemon::COALESCE_WINDOW_MS == 100,
        super::control::STOP_LOOKS * super::control::STOP_PAUSE_MS == 2_000,
        super::doctor::LISTED_SESSIONS == 5,
{
}

// --- reverting ---------------------------------------------------------------------------------

/// The plan for an event undoes that event and nothing else; there is none without the event or
/// without the content before it.
pub proof fn law_an_event_is_planned_alone(i: Image, k: int, id: i64)
    requires
        crate::store::sound(i),
    ensures
        0 <= k < i.events.len() && i.events[k].row.id == id ==> {
            let e = i.events[k].row;
            let r = super::undo::revert_plan(i, RevertTargetView::Event { id });
            &&& r is Ok <==> e.before_hash is None || i.objects.contains_key(e.before_hash->0)
            &&& r matches Ok(plan) ==> plan.len() == 1 && crate::restore::outcomes::is_item_for(
                i,
                plan[0],
                e.path,
                e.before_hash,
                e.id,
                e.attribution,
            )
        },
        (forall|m: int| 0 <= m < i.events.len() ==> (#[trigger] i.events[m]).row.id != id)
            ==> super::undo::revert_plan(i, RevertTargetView::Event { id }) is Err,
{
    crate::timeline::laws::law_event_is_found_by_number(i, id);
    if 0 <= k < i.events.len() && i.events[k].row.id == id {
        let wanted = seq![crate::restore::plan::wants(i.events[k].row)];
        crate::restore::outcomes::law_a_plan_says_what_would_change(i, wanted);
        assert(wanted[0] == crate::restore::plan::wants(i.events[k].row));
        if i.events[k].row.before_hash is None || i.objects.contains_key(
            i.events[k].row.before_hash->0,
        ) {
            assert forall|n: int|
                0 <= n < wanted.len() && (#[trigger] wanted[n]).target_hash
                    is Some implies i.objects.contains_key(wanted[n].target_hash->0) by {
                assert(n == 0);
            }
        }
        if let Ok(plan) = crate::restore::plan::planning(i, wanted) {
            assert(plan.len() == 1);
            assert(crate::restore::outcomes::is_item_for(
                i,
                plan[0],
                wanted[0].path,
                wanted[0].target_hash,
                wanted[0].event_id,
                wanted[0].attribution,
            ));
        }
    }
}

/// The plan for a session has an item for every file that the session touched, with what was there
/// before the first event of the session.
pub proof fn law_a_session_is_planned_whole(i: Image, id: Seq<char>, path: Seq<char>)
    requires
        crate::store::sound(i),
        super::undo::revert_plan(i, RevertTargetView::Session { id }) is Ok,
    ensures
        ({
            let plan = super::undo::revert_plan(i, RevertTargetView::Session { id })->Ok_0;
            &&& crate::restore::outcomes::session_touches(i, id, path) ==> exists|n: int|
                0 <= n < plan.len() && (#[trigger] plan[n]).path == path
            &&& forall|n: int|
                0 <= n < plan.len() ==> crate::restore::outcomes::was_before_session(
                    i,
                    id,
                    (#[trigger] plan[n]).path,
                    plan[n].target_hash,
                )
        }),
{
    let wanted = crate::restore::plan::session_wants(i, id);
    let plan = super::undo::revert_plan(i, RevertTargetView::Session { id })->Ok_0;
    crate::restore::outcomes::law_a_session_plan_wants_every_file(i, id);
    crate::restore::outcomes::law_a_plan_says_what_would_change(i, wanted);
    if crate::restore::outcomes::session_touches(i, id, path) {
        let n = choose|n: int| 0 <= n < wanted.len() && (#[trigger] wanted[n]).path == path;
        assert(plan[n].path == path);
    }
    assert forall|n: int| 0 <= n < plan.len() implies crate::restore::outcomes::was_before_session(
        i,
        id,
        (#[trigger] plan[n]).path,
        plan[n].target_hash,
    ) by {
        assert(crate::restore::outcomes::is_item_for(
            i,
            plan[n],
            wanted[n].path,
            wanted[n].target_hash,
            wanted[n].event_id,
            wanted[n].attribution,
        ));
        assert(crate::restore::outcomes::wants_session_start(i, id, wanted[n]));
        let m = choose|m: int| #[trigger]
            crate::restore::outcomes::is_first_of_session(i, id, wanted[n].path, m)
                && wanted[n].target_hash == i.events[m].row.before_hash && wanted[n].event_id
                == i.events[m].row.id && wanted[n].attribution == i.events[m].row.attribution;
        assert(crate::restore::outcomes::is_first_of_session(i, id, plan[n].path, m));
    }
}

/// The plan for a pin is that for the state at the pin with the label that was made last.
pub proof fn law_a_pin_is_planned_by_its_label(i: Image, label: Seq<char>, p: int)
    requires
        0 <= p < i.pins.len(),
        i.pins[p].label == label,
        forall|q: int|
            0 <= q < i.pins.len() && (#[trigger] i.pins[q]).label == label && q != p
                ==> i.pins[q].created_at_ns < i.pins[p].created_at_ns,
    ensures
        super::undo::revert_plan(i, RevertTargetView::Pin { label })
            == crate::restore::plan::planning_pin(i, i.pins[p].event_id),
{
    crate::timeline::laws::law_label_means_the_newest_pin(i, label);
    let pin = crate::timeline::find_pin(i, label)->0;
    let q = choose|q: int| 0 <= q < i.pins.len() && i.pins[q] == pin;
    assert(i.pins[q].label == label);
    assert(i.pins[p].created_at_ns <= pin.created_at_ns);
}

/// What is shown before a revert is the plan for what was chosen: as a text or as a report, with
/// the plan itself; or that there is nothing to revert.
pub proof fn law_a_revert_shows_its_plan(
    i: Image,
    event: Option<Option<u64>>,
    session: Option<Option<Seq<char>>>,
    pin: Option<Option<Seq<char>>>,
    json: bool,
    t: RevertTargetView,
)
    requires
        super::undo::revert_choice(i, event, session, pin) == Some(
            Ok::<RevertTargetView, crate::failure::FailureView>(t),
        ),
    ensures
        ({
            let r = super::undo::revert_shown(i, event, session, pin, json);
            let p = super::undo::revert_plan(i, t);
            &&& p is Err ==> r is Err
            &&& p matches Ok(plan) ==> {
                &&& r is Ok
                &&& plan.len() == 0 ==> r->Ok_0 is Say
                &&& plan.len() > 0 && !json ==> (r->Ok_0 matches RevertStepView::ShowText {
                    text,
                    plan: shown,
                    ..
                } && shown == plan && text == crate::restore::preview::plan_text(
                    plan,
                    match t {
                        RevertTargetView::Event { id } => "event #"@ + crate::text::decimal_int(
                            id as int,
                        ),
                        RevertTargetView::Session { id } => "session "@ + id,
                        RevertTargetView::Pin { label } => "to pin '"@ + label + "'"@,
                    },
                ))
                &&& plan.len() > 0 && json && crate::restore::preview::plan_size(plan)
                    <= usize::MAX ==> (r->Ok_0 matches RevertStepView::ShowReport {
                    report,
                    plan: shown,
                    ..
                } && shown == plan && report == crate::restore::preview::report(
                    plan,
                    match t {
                        RevertTargetView::Event { .. } => "event"@,
                        RevertTargetView::Session { .. } => "session"@,
                        RevertTargetView::Pin { .. } => "pin"@,
                    },
                    match t {
                        RevertTargetView::Event { id } => crate::text::decimal_int(id as int),
                        RevertTargetView::Session { id } => id,
                        RevertTargetView::Pin { label } => label,
                    },
                ))
            }
        }),
{
}

/// A span is accepted where it is a number with a unit that fits.
pub proof fn law_spans_that_fit_are_accepted(n: i64)
    ensures
        i64::MIN <= n * 1_000_000_000 <= i64::MAX ==> super::log::since_ok(
            crate::text::decimal_int(n as int).push('s'),
        ),
        i64::MIN <= n * 60_000_000_000 <= i64::MAX ==> super::log::since_ok(
            crate::text::decimal_int(n as int).push('m'),
        ),
        i64::MIN <= n * 3_600_000_000_000 <= i64::MAX ==> super::log::since_ok(
            crate::text::decimal_int(n as int).push('h'),
        ),
        i64::MIN <= n * 86_400_000_000_000 <= i64::MAX ==> super::log::since_ok(
            crate::text::decimal_int(n as int).push('d'),
        ),
{
    lemma_span(n, 's');
    lemma_span(n, 'm');
    lemma_span(n, 'h');
    lemma_span(n, 'd');
}

/// What a rollback without a daemon tells: what was done, where it worked, and then every file is
/// as its target says; or why it failed, and then nothing has changed.
pub proof fn law_a_rollback_here_tells_what_came_of_it(
    before: Store,
    after: Store,
    targets: Seq<(Seq<char>, Option<Seq<char>>)>,
    done: ToldView,
    told: ToldView,
)
    requires
        done is Lines,
        crate::restore::bulk::paths_of(targets).no_duplicates(),
        super::undo::restores_all_and_tells(before, after, targets, done, told),
    ensures
        told == done || told is Failed,
        told == done ==> forall|k: int|
            0 <= k < targets.len() ==> crate::restore::outcomes::is_left_with(
                after.image(),
                (#[trigger] targets[k]).0,
                targets[k].1,
            ),
        told is Failed ==> after.image() == before.image(),
{
    let outcome = choose|outcome: Option<crate::failure::FailureView>|
        #[trigger] crate::restore::bulk::restores_together(before, after, targets, outcome) && told
            == super::undo::told_of(outcome, done);
    crate::restore::outcomes::law_after_files_are_restored_together(
        before,
        after,
        targets,
        outcome,
    );
}

/// What a set-up, a check-up and a wrapper say goes by what was found.
pub proof fn law_set_ups_tell_what_was_done(
    title: Seq<char>,
    n: usize,
    reason: String,
    fresh: bool,
    hooks: bool,
    root: Seq<char>,
    answered: bool,
    marker: bool,
    path: Seq<char>,
    shellenv: Seq<char>,
    found: Seq<super::doctor::PresetView>,
)
    ensures
        super::control::removing_report(Ok(n), title).len() == 2,
        n > 1 ==> super::control::removing_report(Ok(n), title)[1] == super::control::hooks_out_line(
            n as nat,
            title,
        ),
        n == 1 ==> super::control::removing_report(Ok(n), title)[1]
            == super::control::hook_out_line(title),
        n == 0 ==> super::control::removing_report(Ok(n), title)[1]
            == super::control::no_hooks_line(title),
        super::control::removing_report(Err(reason), title)[1] == super::control::hooks_stay_line(
            title,
            reason@,
        ),
        !fresh ==> super::control::closing_report(fresh, hooks, title).len() == 0,
        fresh && hooks ==> super::control::closing_report(fresh, hooks, title).len() == 5,
        fresh && !hooks ==> super::control::closing_report(fresh, hooks, title).len() == 7,
        super::doctor::project_report(Some(root)).len() == 4,
        super::doctor::project_report(Some(root))[3] == super::doctor::project_at_line(root),
        super::doctor::project_report(None).len() == 5,
        super::doctor::marker_report(answered, marker, path).len() == if !answered && marker {
            2nat
        } else {
            0nat
        },
        n > 0 ==> super::doctor::wrappers_report(n as nat, path, shellenv)[0]
            == super::doctor::wrappers_line(n as nat, path),
        n == 0 ==> super::doctor::wrappers_report(n as nat, path, shellenv)[0]
            == super::doctor::no_wrappers_line(path),
        found.len() == 0 ==> super::doctor::found_report(found).len() == 0,
        found.len() > 0 ==> super::doctor::found_report(found) == seq![
            super::doctor::found_on_path_line(super::doctor::listing(super::doctor::names(found))),
        ],
{
}

} // verus!
