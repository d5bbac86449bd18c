//! Listing events, sessions and pins.
use vstd::prelude::*;

use super::push_line;
use crate::failure::joined;
use crate::json::{array_value, empty_object, number_value, opt_text_value, put, text_value};
use crate::rows::{EventRow, EventRowView, PinRow, SessionRow};
use crate::text::{chars_of, first_bytes, pad, parse_i64, signed_text, slice_text, trim};

verus! {

broadcast use vstd::string::group_string_axioms;

// --- how far back ------------------------------------------------------------------------------

/// How many nanoseconds a unit of time has.
pub open spec fn unit_ns(unit: char) -> Option<int> {
    if unit == 's' {
        Some(1_000_000_000)
    } else if unit == 'm' {
        Some(60_000_000_000)
    } else if unit == 'h' {
        Some(3_600_000_000_000)
    } else if unit == 'd' {
        Some(86_400_000_000_000)
    } else {
        None
    }
}

/// Whether a length of time can be made sense of at all: its unit is one byte, and it has no more
/// nanoseconds than can be counted.
pub open spec fn since_ok(s: Seq<char>) -> bool {
    let t = crate::text::trimmed(s);
    t.len() > 0 ==> {
        &&& crate::text::utf8_len(t.last()) == 1
        &&& crate::text::number_i64(t.drop_last()) is Some && unit_ns(t.last()) is Some
            ==> i64::MIN <= crate::text::number_i64(t.drop_last())->0 * unit_ns(t.last())->0
            <= i64::MAX
    }
}

/// What is said where no length of time is given.
pub open spec fn since_empty_line() -> Seq<char> {
    "--since cannot be empty (try '5m', '2h', '1d')"@
}

fn since_empty_text() -> (r: String)
    ensures
        r@ == since_empty_line(),
{
    "--since cannot be empty (try '5m', '2h', '1d')".to_owned()
}

/// What is said of a length of time that has no number.
pub open spec fn since_unread_line(s: Seq<char>) -> Seq<char> {
    "could not parse --since '"@ + s + "': try '5m', '2h', '1d'"@
}

fn since_unread_text(s: &str) -> (r: String)
    ensures
        r@ == since_unread_line(s@),
{
    let mut out = joined("could not parse --since '", s);
    out.append("': try '5m', '2h', '1d'");
    out
}

/// What is said of a length of time in an unknown unit.
pub open spec fn since_unit_line(unit: Seq<char>) -> Seq<char> {
    "unknown --since unit '"@ + unit + "', use s/m/h/d"@
}

fn since_unit_text(unit: &str) -> (r: String)
    ensures
        r@ == since_unit_line(unit@),
{
    let mut out = joined("unknown --since unit '", unit);
    out.append("', use s/m/h/d");
    out
}

/// The nanoseconds of a length of time such as `5m`, `2h` or `1d`, or what is said of any other
/// text.
pub open spec fn since_of(s: Seq<char>) -> Result<int, Seq<char>> {
    let t = crate::text::trimmed(s);
    if t.len() == 0 {
        Err(since_empty_line())
    } else {
        match (crate::text::number_i64(t.drop_last()), unit_ns(t.last())) {
            (None, _) => Err(since_unread_line(t)),
            (Some(_), None) => Err(since_unit_line(seq![t.last()])),
            (Some(n), Some(ns)) => Ok(n * ns),
        }
    }
}

/// The number and the unit of a length of time.
fn split_since(t: &str) -> (r: (String, char))
    requires
        t@.len() > 0,
    ensures
        r.0@ == t@.drop_last(),
        r.1 == t@.last(),
{
    let v = chars_of(t);
    let n: usize = v.len() - 1;
    let number = slice_text(&v, 0, n);
    assert(number@ =~= t@.drop_last());
    (number, v[n])
}

fn unit_of(unit: char) -> (r: Option<i64>)
    ensures
        match r {
            Some(ns) => unit_ns(unit) == Some(ns as int) && 0 < ns <= 86_400_000_000_000,
            None => unit_ns(unit) is None,
        },
{
    if unit == 's' {
        Some(1_000_000_000)
    } else if unit == 'm' {
        Some(60_000_000_000)
    } else if unit == 'h' {
        Some(3_600_000_000_000)
    } else if unit == 'd' {
        Some(86_400_000_000_000)
    } else {
        None
    }
}

fn product(n: i64, ns: i64) -> (r: i128)
    requires
        0 < ns <= 86_400_000_000_000,
    ensures
        r == n * ns,
{
    assert(-9223372036854775808 * 86_400_000_000_000 <= n * ns <= 9223372036854775807
        * 86_400_000_000_000) by (nonlinear_arith)
        requires
            -9223372036854775808 <= n <= 9223372036854775807,
            0 < ns <= 86_400_000_000_000,
    ;
    (n as i128) * (ns as i128)
}

/// Whether a length of time can be made sense of at all (see `since_ok`).
pub fn check_since(s: &str) -> (r: bool)
    ensures
        r == since_ok(s@),
{
    let t = trim(s);
    if t.as_str().is_empty() {
        return true;
    }
    let (number, unit) = split_since(t.as_str());
    if (unit as u32) >= 0x80 {
        return false;
    }
    match (parse_i64(number.as_str()), unit_of(unit)) {
        (Some(n), Some(ns)) => {
            let p: i128 = product(n, ns);
            -9223372036854775808 <= p && p <= 9223372036854775807
        },
        _ => true,
    }
}

/// The nanoseconds of a length of time such as `5m`, `2h` or `1d`.
pub fn parse_since(s: &str) -> (r: Result<i64, String>)
    requires
        since_ok(s@),
    ensures
        match since_of(s@) {
            Ok(ns) => r matches Ok(n) && n == ns,
            Err(message) => r matches Err(m) && m@ == message,
        },
{
    let t = trim(s);
    if t.as_str().is_empty() {
        return Err(since_empty_text());
    }
    let (number, unit) = split_since(t.as_str());
    match parse_i64(number.as_str()) {
        None => Err(since_unread_text(t.as_str())),
        Some(n) => match unit_of(unit) {
            Some(ns) => Ok(product(n, ns) as i64),
            None => {
                let mut u = String::new();
                u.push(unit);
                assert(u@ =~= seq![unit]);
                Err(since_unit_text(u.as_str()))
            },
        },
    }
}

/// The time stamp of a moment so many nanoseconds before another; `None` where there is none.
pub fn moment_before(now: i64, ns: i64) -> (r: Option<i64>)
    ensures
        match r {
            Some(t) => t == now - ns,
            None => !(i64::MIN <= now - ns <= i64::MAX),
        },
{
    let t: i128 = (now as i128) - (ns as i128);
    if -9223372036854775808 <= t && t <= 9223372036854775807 {
        Some(t as i64)
    } else {
        None
    }
}

// --- events ------------------------------------------------------------------------------------

/// The word for what an event did to its file.
pub open spec fn event_word(e: EventRowView, otherwise: Seq<char>) -> Seq<char> {
    match (e.before_hash, e.after_hash) {
        (None, Some(_)) => "create"@,
        (Some(_), Some(_)) => "modify"@,
        (Some(_), None) => "delete"@,
        (None, None) => otherwise,
    }
}

fn word_of<'a>(e: &EventRow, otherwise: &'a str) -> (r: &'a str)
    ensures
        r@ == event_word(e.deep_view(), otherwise@),
{
    match (&e.before_hash, &e.after_hash) {
        (None, Some(_)) => "create",
        (Some(_), Some(_)) => "modify",
        (Some(_), None) => "delete",
        (None, None) => otherwise,
    }
}

/// The hash that is shown of an event: that after it, or else that before it.
pub open spec fn shown_hash(e: EventRowView) -> Option<Seq<char>> {
    match e.after_hash {
        Some(h) => Some(h),
        None => e.before_hash,
    }
}

/// The first bytes of a hash, or a dash where there is none. `None` where the cut would fall inside
/// a character.
pub open spec fn short_hash(e: EventRowView) -> Option<Seq<char>> {
    match shown_hash(e) {
        Some(h) => crate::text::head(h, 12),
        None => Some("-"@),
    }
}

/// The line of an event in the log.
pub open spec fn event_line(
    id: i64,
    when: Seq<char>,
    kind: Seq<char>,
    path: Seq<char>,
    agent: Seq<char>,
    hash: Seq<char>,
) -> Seq<char> {
    "#"@ + crate::text::padded(crate::text::decimal_int(id as int), 5) + " "@ + when + "  "@
        + crate::text::padded(kind, 6) + " "@ + path + "  ["@ + agent + "]  "@ + hash
}

fn event_text(id: i64, when: &str, kind: &str, path: &str, agent: &str, hash: &str) -> (r: String)
    ensures
        r@ == event_line(id, when@, kind@, path@, agent@, hash@),
{
    let mut out = joined("#", pad(signed_text(id).as_str(), 5).as_str());
    out.append(" ");
    out.append(when);
    out.append("  ");
    out.append(pad(kind, 6).as_str());
    out.append(" ");
    out.append(path);
    out.append("  [");
    out.append(agent);
    out.append("]  ");
    out.append(hash);
    out
}

/// What is said where there are no events.
pub open spec fn no_events_line() -> Seq<char> {
    "no events yet. run `agent-undo serve` and edit a file."@
}

/// What is said where there are no events.
pub fn no_events_text() -> (r: String)
    ensures
        r@ == no_events_line(),
{
    "no events yet. run `agent-undo serve` and edit a file.".to_owned()
}

/// The line of an event in the log; `when` is its time.
pub open spec fn log_line(e: EventRowView, when: Seq<char>) -> Seq<char> {
    event_line(e.id, when, event_word(e, "?"@), e.path, e.attribution, short_hash(e)->0)
}

/// The lines of events in the log, the oldest first. The events are given the newest first, each
/// with its time.
pub open spec fn log_of(events: Seq<EventRowView>, whens: Seq<Seq<char>>) -> Seq<Seq<char>> {
    Seq::new(
        events.len(),
        |j: int| log_line(events[events.len() - 1 - j], whens[events.len() - 1 - j]),
    )
}

/// The lines of events in the log (see `log_of`).
pub fn log_lines(events: &Vec<EventRow>, whens: &Vec<String>) -> (r: Vec<String>)
    requires
        whens.len() == events.len(),
        forall|i: int|
            0 <= i < events.len() ==> short_hash((#[trigger] events.deep_view()[i])) is Some,
    ensures
        r.deep_view() == log_of(events.deep_view(), whens.deep_view()),
{
    let ghost d = events.deep_view();
    let ghost w = whens.deep_view();
    let mut out: Vec<String> = super::no_lines();
    let mut left: usize = events.len();
    while left > 0
        invariant
            left <= events.len(),
            whens.len() == events.len(),
            d == events.deep_view(),
            w == whens.deep_view(),
            forall|i: int| 0 <= i < d.len() ==> short_hash((#[trigger] d[i])) is Some,
            out.deep_view() == log_of(d, w).take(events.len() - left),
        decreases left,
    {
        left = left - 1;
        let e = &events[left];
        assert(d[left as int] == e.deep_view());
        assert(w[left as int] == whens@[left as int]@);
        let hash: &Option<String> = match &e.after_hash {
            Some(_) => &e.after_hash,
            None => &e.before_hash,
        };
        let short: String = match hash {
            Some(h) => match first_bytes(h.as_str(), 12) {
                Some(s) => s,
                None => String::new(),
            },
            None => "-".to_owned(),
        };
        assert(short_hash(d[left as int]) == Some(short@));
        let line = event_text(
            e.id,
            whens[left].as_str(),
            word_of(e, "?"),
            e.path.as_str(),
            e.attribution.as_str(),
            short.as_str(),
        );
        let ghost k = events.len() - left - 1;
        push_line(&mut out, line);
        proof {
            assert(log_of(d, w)[k] == line@);
            assert(log_of(d, w).take(k + 1) =~= log_of(d, w).take(k).push(log_of(d, w)[k]));
        }
    }
    assert(log_of(d, w).take(d.len() as int) =~= log_of(d, w));
    out
}

/// Whether the hashes of events can be shown: no cut falls inside a character.
pub fn hashes_shown(events: &Vec<EventRow>) -> (r: bool)
    ensures
        r == forall|i: int|
            0 <= i < events.len() ==> short_hash((#[trigger] events.deep_view()[i])) is Some,
{
    let ghost d = events.deep_view();
    let mut i: usize = 0;
    while i < events.len()
        invariant
            i <= events.len(),
            d == events.deep_view(),
            forall|j: int| 0 <= j < i ==> short_hash((#[trigger] d[j])) is Some,
        decreases events.len() - i,
    {
        let e = &events[i];
        assert(d[i as int] == e.deep_view());
        let hash: &Option<String> = match &e.after_hash {
            Some(_) => &e.after_hash,
            None => &e.before_hash,
        };
        if let Some(h) = hash {
            if first_bytes(h.as_str(), 12).is_none() {
                assert(short_hash(d[i as int]) is None);
                return false;
            }
        }
        i = i + 1;
    }
    true
}

/// What is told of an event as a JSON document.
pub open spec fn event_document(e: EventRowView, stamp: Seq<char>) -> crate::json::JsonTree {
    crate::json::JsonTree::Object(
        Map::empty().insert(
            "id"@,
            crate::json::JsonTree::Number(crate::text::decimal_int(e.id as int)),
        ).insert(
            "ts_ns"@,
            crate::json::JsonTree::Number(crate::text::decimal_int(e.ts_ns as int)),
        ).insert("timestamp"@, crate::json::JsonTree::Text(stamp)).insert(
            "kind"@,
            crate::json::JsonTree::Text(event_word(e, "unknown"@)),
        ).insert("path"@, crate::json::JsonTree::Text(e.path)).insert(
            "attribution"@,
            crate::json::JsonTree::Text(e.attribution),
        ).insert("session_id"@, crate::json::text_or_null(e.session_id)).insert(
            "before_hash"@,
            crate::json::text_or_null(e.before_hash),
        ).insert("after_hash"@, crate::json::text_or_null(e.after_hash)),
    )
}

/// What is told of events as a JSON document, the oldest first. The events are given the newest
/// first, each with its time.
pub open spec fn log_document(events: Seq<EventRowView>, stamps: Seq<Seq<char>>) -> crate::json::JsonTree {
    crate::json::JsonTree::Array(
        Seq::new(
            events.len(),
            |j: int| event_document(events[events.len() - 1 - j], stamps[events.len() - 1 - j]),
        ),
    )
}

fn event_json(e: &EventRow, stamp: &str) -> (r: serde_json::Value)
    ensures
        crate::json::tree(r) == event_document(e.deep_view(), stamp@),
{
    let mut doc = empty_object();
    put(&mut doc, "id".to_owned(), number_value(e.id));
    put(&mut doc, "ts_ns".to_owned(), number_value(e.ts_ns));
    put(&mut doc, "timestamp".to_owned(), text_value(stamp.to_owned()));
    put(&mut doc, "kind".to_owned(), text_value(word_of(e, "unknown").to_owned()));
    put(&mut doc, "path".to_owned(), text_value(e.path.clone()));
    put(&mut doc, "attribution".to_owned(), text_value(e.attribution.clone()));
    put(&mut doc, "session_id".to_owned(), opt_text_value(&e.session_id));
    put(&mut doc, "before_hash".to_owned(), opt_text_value(&e.before_hash));
    put(&mut doc, "after_hash".to_owned(), opt_text_value(&e.after_hash));
    doc
}

/// What is told of events as a JSON document (see `log_document`).
pub fn log_json(events: &Vec<EventRow>, stamps: &Vec<String>) -> (r: serde_json::Value)
    requires
        stamps.len() == events.len(),
    ensures
        crate::json::tree(r) == log_document(events.deep_view(), stamps.deep_view()),
{
    let ghost d = events.deep_view();
    let ghost w = stamps.deep_view();
    let ghost all = Seq::new(
        d.len(),
        |j: int| event_document(d[d.len() - 1 - j], w[d.len() - 1 - j]),
    );
    let mut out: Vec<serde_json::Value> = Vec::new();
    let mut left: usize = events.len();
    while left > 0
        invariant
            left <= events.len(),
            stamps.len() == events.len(),
            d == events.deep_view(),
            w == stamps.deep_view(),
            all == Seq::new(
                d.len(),
                |j: int| event_document(d[d.len() - 1 - j], w[d.len() - 1 - j]),
            ),
            out.len() == events.len() - left,
            forall|j: int| 0 <= j < out.len() ==> crate::json::tree(#[trigger] out@[j]) == all[j],
        decreases left,
    {
        left = left - 1;
        assert(d[left as int] == events@[left as int].deep_view());
        assert(w[left as int] == stamps@[left as int]@);
        out.push(event_json(&events[left], stamps[left].as_str()));
    }
    assert(out@.map_values(|v: serde_json::Value| crate::json::tree(v)) =~= all);
    array_value(out)
}

/// What the log comes to.
#[derive(Debug)]
pub enum LogOutput {
    /// Lines to be printed.
    Lines(Vec<String>),
    /// A document to be printed.
    Document(serde_json::Value),
    /// The hash of an event cannot be shown: the cut would fall inside a character.
    Unshown,
}

/// What the log of some events comes to; they are given the newest first, each with its time.
pub fn log_output(events: &Vec<EventRow>, whens: &Vec<String>, json: bool) -> (r: LogOutput)
    requires
        whens.len() == events.len(),
    ensures
        if events.len() == 0 {
            r matches LogOutput::Lines(lines) && lines.deep_view() == seq![
                if json {
                    "[]"@
                } else {
                    no_events_line()
                },
            ]
        } else if json {
            r matches LogOutput::Document(doc) && crate::json::tree(doc) == log_document(
                events.deep_view(),
                whens.deep_view(),
            )
        } else if forall|i: int|
            0 <= i < events.len() ==> short_hash((#[trigger] events.deep_view()[i])) is Some {
            r matches LogOutput::Lines(lines) && lines.deep_view() == log_of(
                events.deep_view(),
                whens.deep_view(),
            )
        } else {
            r is Unshown
        },
{
    if events.len() == 0 {
        let mut out = super::no_lines();
        if json {
            push_line(&mut out, "[]".to_owned());
        } else {
            push_line(&mut out, no_events_text());
        }
        assert(out.deep_view() =~= seq![
            if json {
                "[]"@
            } else {
                no_events_line()
            },
        ]);
        LogOutput::Lines(out)
    } else if json {
        LogOutput::Document(log_json(events, whens))
    } else if hashes_shown(events) {
        LogOutput::Lines(log_lines(events, whens))
    } else {
        LogOutput::Unshown
    }
}

// --- sessions ----------------------------------------------------------------------------------

/// The line of a session.
pub open spec fn session_line(
    id: Seq<char>,
    agent: Seq<char>,
    start: Seq<char>,
    end: Seq<char>,
) -> Seq<char> {
    id + "  "@ + crate::text::padded(agent, 12) + "  "@ + start + " → "@ + end
}

fn session_text(id: &str, agent: &str, start: &str, end: &str) -> (r: String)
    ensures
        r@ == session_line(id@, agent@, start@, end@),
{
    let mut out = joined(id, "  ");
    out.append(pad(agent, 12).as_str());
    out.append("  ");
    out.append(start);
    out.append(" → ");
    out.append(end);
    out
}

/// What is said where there are no sessions.
pub open spec fn no_sessions_line() -> Seq<char> {
    "no sessions recorded yet."@
}

/// What is said where there are no sessions.
pub fn no_sessions_text() -> (r: String)
    ensures
        r@ == no_sessions_line(),
{
    "no sessions recorded yet.".to_owned()
}

/// The end of a session as it is shown.
pub open spec fn end_shown(end: Option<Seq<char>>) -> Seq<char> {
    match end {
        Some(t) => t,
        None => "(open)"@,
    }
}

/// The line of a session with the times of its start and its end.
pub fn session_row_text(s: &SessionRow, start: &str, end: &Option<String>) -> (r: String)
    requires
        crate::text::head(s.id@, 12) is Some,
    ensures
        r@ == session_line(
            crate::text::head(s.id@, 12)->0,
            s.agent@,
            start@,
            end_shown(end.deep_view()),
        ),
{
    let id: String = match first_bytes(s.id.as_str(), 12) {
        Some(id) => id,
        None => String::new(),
    };
    let end: &str = match end {
        Some(t) => t.as_str(),
        None => "(open)",
    };
    session_text(id.as_str(), s.agent.as_str(), start, end)
}

/// What is said of a session that was ended.
pub open spec fn closed_session_line(id: Seq<char>) -> Seq<char> {
    "closed session "@ + id
}

fn closed_session_text(id: &str) -> (r: String)
    ensures
        r@ == closed_session_line(id@),
{
    let mut out = joined("closed session ", id);
    out
}

/// What is said of a session that was ended: the first bytes of its id.
pub fn closed_text(session_id: &str) -> (r: String)
    requires
        crate::text::head(session_id@, 16) is Some,
    ensures
        r@ == closed_session_line(crate::text::head(session_id@, 16)->0),
{
    match first_bytes(session_id, 16) {
        Some(id) => closed_session_text(id.as_str()),
        None => String::new(),
    }
}

// --- pins --------------------------------------------------------------------------------------

/// What the command for pins does.
#[derive(Debug)]
pub enum PinStep {
    /// List the pins.
    List,
    /// List the pins as a JSON document.
    ListJson,
    /// Make a pin.
    Create { label: String },
    /// Fail.
    Fail { message: String },
}

/// What the command for pins does.
pub enum PinStepView {
    List,
    ListJson,
    Create { label: Seq<char> },
    Fail { message: Seq<char> },
}

impl DeepView for PinStep {
    type V = PinStepView;

    open spec fn deep_view(&self) -> PinStepView {
        match self {
            PinStep::List => PinStepView::List,
            PinStep::ListJson => PinStepView::ListJson,
            PinStep::Create { label } => PinStepView::Create { label: label@ },
            PinStep::Fail { message } => PinStepView::Fail { message: message@ },
        }
    }
}

/// What the command for pins does with its arguments.
pub open spec fn pin_choice(label: Option<Seq<char>>, list: bool, json: bool) -> PinStepView {
    if list {
        if label is Some {
            PinStepView::Fail { message: "use `au pin --list` or `au pin <label>`, not both"@ }
        } else if json {
            PinStepView::ListJson
        } else {
            PinStepView::List
        }
    } else if json {
        PinStepView::Fail { message: "use `--json` with `au pin --list`"@ }
    } else {
        match label {
            Some(label) => PinStepView::Create { label },
            None => PinStepView::Fail {
                message: "usage: au pin <label>  OR  au pin --list"@,
            },
        }
    }
}

/// What the command for pins does with its arguments.
pub fn choose_pin(label: Option<String>, list: bool, json: bool) -> (r: PinStep)
    ensures
        r.deep_view() == pin_choice(label.deep_view(), list, json),
{
    if list {
        if label.is_some() {
            PinStep::Fail {
                message: "use `au pin --list` or `au pin <label>`, not both".to_owned(),
            }
        } else if json {
            PinStep::ListJson
        } else {
            PinStep::List
        }
    } else if json {
        PinStep::Fail { message: "use `--json` with `au pin --list`".to_owned() }
    } else {
        match label {
            Some(label) => PinStep::Create { label },
            None => PinStep::Fail {
                message: "usage: au pin <label>  OR  au pin --list".to_owned(),
            },
        }
    }
}

/// The line of a pin.
pub open spec fn pin_line(id: i64, when: Seq<char>, event_id: i64, label: Seq<char>) -> Seq<char> {
    "#"@ + crate::text::padded(crate::text::decimal_int(id as int), 5) + " "@ + when
        + "  event="@ + crate::text::decimal_int(event_id as int) + "  "@ + label
}

fn pin_text(id: i64, when: &str, event_id: i64, label: &str) -> (r: String)
    ensures
        r@ == pin_line(id, when@, event_id, label@),
{
    let mut out = joined("#", pad(signed_text(id).as_str(), 5).as_str());
    out.append(" ");
    out.append(when);
    out.append("  event=");
    out.append(signed_text(event_id).as_str());
    out.append("  ");
    out.append(label);
    out
}

/// What is said where there are no pins.
pub open spec fn no_pins_line() -> Seq<char> {
    "no pins yet."@
}

/// What is said where there are no pins.
pub fn no_pins_text() -> (r: String)
    ensures
        r@ == no_pins_line(),
{
    "no pins yet.".to_owned()
}

/// What is said of a pin that was made.
pub open spec fn pinned_line(id: i64, label: Seq<char>) -> Seq<char> {
    "pinned current state as #"@ + crate::text::decimal_int(id as int) + ": "@ + label
}

/// What is said of a pin that was made.
pub fn pinned_text(id: i64, label: &str) -> (r: String)
    ensures
        r@ == pinned_line(id, label@),
{
    let mut out = joined("pinned current state as #", signed_text(id).as_str());
    out.append(": ");
    out.append(label);
    out
}

/// The line of a pin with the time at which it was made.
pub fn pin_row_text(pin: &PinRow, when: &str) -> (r: String)
    ensures
        r@ == pin_line(pin.id, when@, pin.event_id, pin.label@),
{
    pin_text(pin.id, when, pin.event_id, pin.label.as_str())
}

} // verus!
