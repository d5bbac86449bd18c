//! Setting a project up, and starting, watching and stopping its daemon: what the commands decide
//! and print.
use vstd::prelude::*;

use super::{no_lines, push_line};
use crate::failure::joined;
use crate::ipc::{Response, ResponseView};
use crate::json::{
    bool_value, empty_object, null_value, number_value, opt_text_value, put, text_value,
};
use crate::paths::{ProjectPaths, ProjectPathsView};
use crate::rows::{ActiveSession, ActiveSessionView};
use crate::text::{count_text, decimal_text, parse_u32, signed_text, trim};

verus! {

broadcast use vstd::string::group_string_axioms;

// --- the file with the number of the daemon's process ------------------------------------------

/// The number that a file of one number holds.
pub open spec fn pid_of(text: Seq<char>) -> Option<u32> {
    crate::text::number_u32(crate::text::trimmed(text))
}

/// The number that a file of one number holds.
pub fn pid_in(text: &str) -> (r: Option<u32>)
    ensures
        r == pid_of(text@),
{
    parse_u32(trim(text).as_str())
}

// --- setting up --------------------------------------------------------------------------------

/// What is said where hooks are to be both installed and removed.
pub open spec fn one_of_two_line() -> Seq<char> {
    "choose only one of --install-hooks or --uninstall-hooks"@
}

fn one_of_two_text() -> (r: String)
    ensures
        r@ == one_of_two_line(),
{
    "choose only one of --install-hooks or --uninstall-hooks".to_owned()
}

/// Whether a set-up can go on: hooks can be installed or removed, not both.
pub fn check_init(install_hooks: bool, uninstall_hooks: bool) -> (r: Result<(), String>)
    ensures
        match r {
            Ok(_) => !(install_hooks && uninstall_hooks),
            Err(m) => install_hooks && uninstall_hooks && m@ == one_of_two_line(),
        },
{
    if install_hooks && uninstall_hooks {
        Err(one_of_two_text())
    } else {
        Ok(())
    }
}

/// What is said of a project that is set up.
pub open spec fn initializing_line(root: Seq<char>) -> Seq<char> {
    "Initializing agent-undo at "@ + root
}

/// What is said of a project that is set up.
pub fn initializing_text(root: &str) -> (r: String)
    ensures
        r@ == initializing_line(root@),
{
    let mut out = joined("Initializing agent-undo at ", root);
    out
}

/// What is said of a project that was set up before.
pub open spec fn already_line(dir: Seq<char>) -> Seq<char> {
    "agent-undo is already initialized at "@ + dir
}

/// What is said of a project that was set up before.
pub fn already_text(dir: &str) -> (r: String)
    ensures
        r@ == already_line(dir@),
{
    let mut out = joined("agent-undo is already initialized at ", dir);
    out
}

/// What is said of a file that was written.
pub open spec fn wrote_line(path: Seq<char>) -> Seq<char> {
    "  wrote "@ + path
}

/// What is said of a file that was written.
pub fn wrote_text(path: &str) -> (r: String)
    ensures
        r@ == wrote_line(path@),
{
    let mut out = joined("  wrote ", path);
    out
}

/// What is said before the files are scanned.
pub open spec fn scanning_line() -> Seq<char> {
    "Scanning project files..."@
}

/// What is said before the files are scanned.
pub fn scanning_text() -> (r: String)
    ensures
        r@ == scanning_line(),
{
    "Scanning project files...".to_owned()
}

/// What is said of the files that were scanned.
pub open spec fn scanned_line(n: nat) -> Seq<char> {
    "  snapshotted "@ + crate::text::decimal(n) + " files"@
}

/// What is said of the files that were scanned.
pub fn scanned_text(n: usize) -> (r: String)
    ensures
        r@ == scanned_line(n as nat),
{
    let mut out = joined("  snapshotted ", count_text(n).as_str());
    out.append(" files");
    out
}

/// What is said where the files are not scanned.
pub open spec fn unscanned_line() -> Seq<char> {
    "  (skipping initial scan — --no-scan)"@
}

/// What is said where the files are not scanned.
pub fn unscanned_text() -> (r: String)
    ensures
        r@ == unscanned_line(),
{
    "  (skipping initial scan — --no-scan)".to_owned()
}

/// What came of installing the hooks.
#[derive(Debug)]
pub enum Installing {
    /// They were written to the settings.
    Installed { path: String },
    /// They stood in the settings before.
    Present { path: String },
    /// They could not be installed.
    Failed { reason: String },
}

/// What is said of hooks that were installed.
pub open spec fn hooks_in_line(title: Seq<char>, path: Seq<char>) -> Seq<char> {
    "✓ installed "@ + title + " hooks into "@ + path
}

fn hooks_in_text(title: &str, path: &str) -> (r: String)
    ensures
        r@ == hooks_in_line(title@, path@),
{
    let mut out = joined("✓ installed ", title);
    out.append(" hooks into ");
    out.append(path);
    out
}

/// What hooks are for.
pub open spec fn hooks_help_line(title: Seq<char>) -> Seq<char> {
    "  "@ + title + " edits will now be attributed automatically."@
}

fn hooks_help_text(title: &str) -> (r: String)
    ensures
        r@ == hooks_help_line(title@),
{
    let mut out = joined("  ", title);
    out.append(" edits will now be attributed automatically.");
    out
}

/// When hooks take effect.
pub open spec fn hooks_restart_line(title: Seq<char>) -> Seq<char> {
    "  Restart any open "@ + title + " sessions to pick them up."@
}

fn hooks_restart_text(title: &str) -> (r: String)
    ensures
        r@ == hooks_restart_line(title@),
{
    let mut out = joined("  Restart any open ", title);
    out.append(" sessions to pick them up.");
    out
}

/// What is said of hooks that were there before.
pub open spec fn hooks_there_line(title: Seq<char>, path: Seq<char>) -> Seq<char> {
    "✓ "@ + title + " hooks already present in "@ + path
}

fn hooks_there_text(title: &str, path: &str) -> (r: String)
    ensures
        r@ == hooks_there_line(title@, path@),
{
    let mut out = joined("✓ ", title);
    out.append(" hooks already present in ");
    out.append(path);
    out
}

/// What is said of hooks that could not be installed.
pub open spec fn hooks_failed_line(title: Seq<char>, reason: Seq<char>) -> Seq<char> {
    "⚠ could not install "@ + title + " hooks: "@ + reason
}

fn hooks_failed_text(title: &str, reason: &str) -> (r: String)
    ensures
        r@ == hooks_failed_line(title@, reason@),
{
    let mut out = joined("⚠ could not install ", title);
    out.append(" hooks: ");
    out.append(reason);
    out
}

/// What becomes of a project without hooks.
pub open spec fn hooks_missed_line() -> Seq<char> {
    "  init still succeeded — attribution will fall back to 'unknown'."@
}

fn hooks_missed_text() -> (r: String)
    ensures
        r@ == hooks_missed_line(),
{
    "  init still succeeded — attribution will fall back to 'unknown'.".to_owned()
}

/// What is said of installing the hooks of the agent with a title.
pub open spec fn installing_report(what: Installing, title: Seq<char>) -> Seq<Seq<char>> {
    match what {
        Installing::Installed { path } => seq![
            ""@,
            hooks_in_line(title, path@),
            hooks_help_line(title),
            hooks_restart_line(title),
        ],
        Installing::Present { path } => seq![""@, hooks_there_line(title, path@)],
        Installing::Failed { reason } => seq![
            ""@,
            hooks_failed_line(title, reason@),
            hooks_missed_line(),
        ],
    }
}

/// What is said of installing the hooks of the agent with a title.
pub fn installing_lines(what: &Installing, title: &str) -> (r: Vec<String>)
    ensures
        r.deep_view() == installing_report(*what, title@),
{
    let mut out = no_lines();
    push_line(&mut out, "".to_owned());
    match what {
        Installing::Installed { path } => {
            push_line(&mut out, hooks_in_text(title, path.as_str()));
            push_line(&mut out, hooks_help_text(title));
            push_line(&mut out, hooks_restart_text(title));
        },
        Installing::Present { path } => {
            push_line(&mut out, hooks_there_text(title, path.as_str()));
        },
        Installing::Failed { reason } => {
            push_line(&mut out, hooks_failed_text(title, reason.as_str()));
            push_line(&mut out, hooks_missed_text());
        },
    }
    assert(out.deep_view() =~= installing_report(*what, title@));
    out
}

/// What is said of one hook that was removed.
pub open spec fn hook_out_line(title: Seq<char>) -> Seq<char> {
    "✓ removed 1 "@ + title + " hook entry from your settings"@
}

fn hook_out_text(title: &str) -> (r: String)
    ensures
        r@ == hook_out_line(title@),
{
    let mut out = joined("✓ removed 1 ", title);
    out.append(" hook entry from your settings");
    out
}

/// What is said of hooks that were removed.
pub open spec fn hooks_out_line(n: nat, title: Seq<char>) -> Seq<char> {
    "✓ removed "@ + crate::text::decimal(n) + " "@ + title + " hook entries from your settings"@
}

fn hooks_out_text(n: usize, title: &str) -> (r: String)
    ensures
        r@ == hooks_out_line(n as nat, title@),
{
    let mut out = joined("✓ removed ", count_text(n).as_str());
    out.append(" ");
    out.append(title);
    out.append(" hook entries from your settings");
    out
}

/// What is said where there was no hook to remove.
pub open spec fn no_hooks_line(title: Seq<char>) -> Seq<char> {
    "✓ no agent-undo "@ + title + " hooks were installed"@
}

fn no_hooks_text(title: &str) -> (r: String)
    ensures
        r@ == no_hooks_line(title@),
{
    let mut out = joined("✓ no agent-undo ", title);
    out.append(" hooks were installed");
    out
}

/// What is said of hooks that could not be removed.
pub open spec fn hooks_stay_line(title: Seq<char>, reason: Seq<char>) -> Seq<char> {
    "⚠ could not uninstall "@ + title + " hooks: "@ + reason
}

fn hooks_stay_text(title: &str, reason: &str) -> (r: String)
    ensures
        r@ == hooks_stay_line(title@, reason@),
{
    let mut out = joined("⚠ could not uninstall ", title);
    out.append(" hooks: ");
    out.append(reason);
    out
}

/// What is said of removing the hooks of the agent with a title: of how many were removed, or why
/// they were not.
pub open spec fn removing_report(what: Result<usize, String>, title: Seq<char>) -> Seq<Seq<char>> {
    match what {
        Ok(n) => if n == 0 {
            seq![""@, no_hooks_line(title)]
        } else if n == 1 {
            seq![""@, hook_out_line(title)]
        } else {
            seq![""@, hooks_out_line(n as nat, title)]
        },
        Err(reason) => seq![""@, hooks_stay_line(title, reason@)],
    }
}

/// What is said of removing the hooks (see `removing_report`).
pub fn removing_lines(what: &Result<usize, String>, title: &str) -> (r: Vec<String>)
    ensures
        r.deep_view() == removing_report(*what, title@),
{
    let mut out = no_lines();
    push_line(&mut out, "".to_owned());
    match what {
        Ok(n) => {
            if *n == 0 {
                push_line(&mut out, no_hooks_text(title));
            } else if *n == 1 {
                push_line(&mut out, hook_out_text(title));
            } else {
                push_line(&mut out, hooks_out_text(*n, title));
            }
        },
        Err(reason) => {
            push_line(&mut out, hooks_stay_text(title, reason.as_str()));
        },
    }
    assert(out.deep_view() =~= removing_report(*what, title@));
    out
}

/// What follows a set-up.
pub open spec fn next_line() -> Seq<char> {
    "Next:"@
}

fn next_text() -> (r: String)
    ensures
        r@ == next_line(),
{
    "Next:".to_owned()
}

/// How the daemon is started.
pub open spec fn next_serve_line() -> Seq<char> {
    "  au serve --daemon   # start the watcher in the background"@
}

fn next_serve_text() -> (r: String)
    ensures
        r@ == next_serve_line(),
{
    "  au serve --daemon   # start the watcher in the background".to_owned()
}

/// How events are listed.
pub open spec fn next_log_line() -> Seq<char> {
    "  au log              # see events as they happen"@
}

fn next_log_text() -> (r: String)
    ensures
        r@ == next_log_line(),
{
    "  au log              # see events as they happen".to_owned()
}

/// How the last action is undone.
pub open spec fn next_oops_line() -> Seq<char> {
    "  au oops             # panic button"@
}

fn next_oops_text() -> (r: String)
    ensures
        r@ == next_oops_line(),
{
    "  au oops             # panic button".to_owned()
}

/// How hooks are installed.
pub open spec fn next_hooks_line(title: Seq<char>) -> Seq<char> {
    "Tip: run `au init --install-hooks` to auto-attribute "@ + title + " edits."@
}

fn next_hooks_text(title: &str) -> (r: String)
    ensures
        r@ == next_hooks_line(title@),
{
    let mut out = joined("Tip: run `au init --install-hooks` to auto-attribute ", title);
    out.append(" edits.");
    out
}

/// What is said at the end of a set-up; the title is that of the agent whose tools call the hooks.
pub open spec fn closing_report(fresh: bool, install_hooks: bool, title: Seq<char>) -> Seq<Seq<char>> {
    if !fresh {
        seq![]
    } else {
        seq![""@, next_line(), next_serve_line(), next_log_line(), next_oops_line()] + (
        if install_hooks {
            seq![]
        } else {
            seq![""@, next_hooks_line(title)]
        })
    }
}

/// What is said at the end of a set-up; the title is that of the agent whose tools call the hooks.
pub fn closing_lines(fresh: bool, install_hooks: bool, title: &str) -> (r: Vec<String>)
    ensures
        r.deep_view() == closing_report(fresh, install_hooks, title@),
{
    let mut out = no_lines();
    if fresh {
        push_line(&mut out, "".to_owned());
        push_line(&mut out, next_text());
        push_line(&mut out, next_serve_text());
        push_line(&mut out, next_log_text());
        push_line(&mut out, next_oops_text());
        if !install_hooks {
            push_line(&mut out, "".to_owned());
            push_line(&mut out, next_hooks_text(title));
        }
    }
    assert(out.deep_view() =~= closing_report(fresh, install_hooks, title@));
    out
}

// --- status ------------------------------------------------------------------------------------

/// Where the project lies.
pub open spec fn root_is_line(path: Seq<char>) -> Seq<char> {
    "root:     "@ + path
}

fn root_is_text(path: &str) -> (r: String)
    ensures
        r@ == root_is_line(path@),
{
    let mut out = joined("root:     ", path);
    out
}

/// Where its data lie.
pub open spec fn data_is_line(path: Seq<char>) -> Seq<char> {
    "data:     "@ + path
}

fn data_is_text(path: &str) -> (r: String)
    ensures
        r@ == data_is_line(path@),
{
    let mut out = joined("data:     ", path);
    out
}

/// How many events it has.
pub open spec fn events_are_line(n: i64) -> Seq<char> {
    "events:   "@ + crate::text::decimal_int(n as int)
}

fn events_are_text(n: i64) -> (r: String)
    ensures
        r@ == events_are_line(n),
{
    let mut out = joined("events:   ", signed_text(n).as_str());
    out
}

/// Where its timeline lies.
pub open spec fn database_is_line(path: Seq<char>) -> Seq<char> {
    "database: "@ + path
}

fn database_is_text(path: &str) -> (r: String)
    ensures
        r@ == database_is_line(path@),
{
    let mut out = joined("database: ", path);
    out
}

/// That the daemon answers.
pub open spec fn answers_at_line(path: Seq<char>) -> Seq<char> {
    "daemon:   running ("@ + path + ")"@
}

fn answers_at_text(path: &str) -> (r: String)
    ensures
        r@ == answers_at_line(path@),
{
    let mut out = joined("daemon:   running (", path);
    out.append(")");
    out
}

/// That the daemon runs but does not answer.
pub open spec fn runs_as_line(pid: u32) -> Seq<char> {
    "daemon:   running (pid "@ + crate::text::decimal(pid as nat) + ", socket unavailable)"@
}

fn runs_as_text(pid: u32) -> (r: String)
    ensures
        r@ == runs_as_line(pid),
{
    let mut out = joined("daemon:   running (pid ", decimal_text(pid as u64).as_str());
    out.append(", socket unavailable)");
    out
}

/// That the daemon runs but does not answer.
pub open spec fn runs_line() -> Seq<char> {
    "daemon:   running (socket unavailable)"@
}

fn runs_text() -> (r: String)
    ensures
        r@ == runs_line(),
{
    "daemon:   running (socket unavailable)".to_owned()
}

/// That the daemon does not run.
pub open spec fn unavailable_line() -> Seq<char> {
    "daemon:   unavailable"@
}

fn unavailable_text() -> (r: String)
    ensures
        r@ == unavailable_line(),
{
    "daemon:   unavailable".to_owned()
}

/// Where the daemon would answer.
pub open spec fn expected_at_line(path: Seq<char>) -> Seq<char> {
    "socket:   expected at "@ + path
}

fn expected_at_text(path: &str) -> (r: String)
    ensures
        r@ == expected_at_line(path@),
{
    let mut out = joined("socket:   expected at ", path);
    out
}

/// Where the daemon would answer.
pub open spec fn socket_is_line(path: Seq<char>) -> Seq<char> {
    "socket:   "@ + path
}

fn socket_is_text(path: &str) -> (r: String)
    ensures
        r@ == socket_is_line(path@),
{
    let mut out = joined("socket:   ", path);
    out
}

/// What is said of the state of a project. `answered` tells whether the daemon answered,
/// `running` whether it runs, `pid` is the number that its file holds, and `info` is the note of
/// where it answers.
pub open spec fn status_report(
    paths: ProjectPathsView,
    events: i64,
    answered: bool,
    running: bool,
    pid: Option<u32>,
    info: Option<Seq<char>>,
) -> Seq<Seq<char>> {
    seq![
        root_is_line(paths.root),
        data_is_line(paths.data_dir),
        events_are_line(events),
        database_is_line(paths.db_path),
    ] + (if answered {
        seq![answers_at_line(paths.socket_path)]
    } else if running {
        seq![
            match pid {
                Some(n) => runs_as_line(n),
                None => runs_line(),
            },
        ]
    } else {
        seq![
            unavailable_line(),
            match info {
                Some(text) => expected_at_line(crate::text::trimmed(text)),
                None => socket_is_line(paths.socket_path),
            },
        ]
    })
}

/// What is said of the state of a project (see `status_report`).
pub fn status_lines(
    paths: &ProjectPaths,
    events: i64,
    answered: bool,
    running: bool,
    pid: Option<u32>,
    info: &Option<String>,
) -> (r: Vec<String>)
    ensures
        r.deep_view() == status_report(
            paths.deep_view(),
            events,
            answered,
            running,
            pid,
            info.deep_view(),
        ),
{
    let mut out = no_lines();
    push_line(&mut out, root_is_text(paths.root.as_str()));
    push_line(&mut out, data_is_text(paths.data_dir.as_str()));
    push_line(&mut out, events_are_text(events));
    push_line(&mut out, database_is_text(paths.db_path.as_str()));
    if answered {
        push_line(&mut out, answers_at_text(paths.socket_path.as_str()));
    } else if running {
        match pid {
            Some(n) => {
                push_line(&mut out, runs_as_text(n));
            },
            None => {
                push_line(&mut out, runs_text());
            },
        }
    } else {
        push_line(&mut out, unavailable_text());
        match info {
            Some(text) => {
                push_line(&mut out, expected_at_text(trim(text.as_str()).as_str()));
            },
            None => {
                push_line(&mut out, socket_is_text(paths.socket_path.as_str()));
            },
        }
    }
    assert(out.deep_view() =~= status_report(
        paths.deep_view(),
        events,
        answered,
        running,
        pid,
        info.deep_view(),
    ));
    out
}

/// A session as a JSON document.
pub open spec fn session_document(s: ActiveSessionView) -> crate::json::JsonTree {
    crate::json::JsonTree::Object(
        Map::empty().insert("session_id"@, crate::json::JsonTree::Text(s.session_id)).insert(
            "agent"@,
            crate::json::JsonTree::Text(s.agent),
        ).insert(
            "started_at_ns"@,
            crate::json::JsonTree::Number(crate::text::decimal_int(s.started_at_ns as int)),
        ).insert("tool_name"@, crate::json::text_or_null(s.tool_name)).insert(
            "intended_file"@,
            crate::json::text_or_null(s.intended_file),
        ),
    )
}

/// A session as a JSON document, or null.
pub open spec fn session_or_null(s: Option<ActiveSessionView>) -> crate::json::JsonTree {
    match s {
        Some(a) => session_document(a),
        None => crate::json::JsonTree::Null,
    }
}

/// A session as a JSON document, or null.
pub(crate) fn session_value(s: &Option<ActiveSession>) -> (r: serde_json::Value)
    ensures
        crate::json::tree(r) == session_or_null(s.deep_view()),
{
    match s {
        Some(a) => {
            let mut doc = empty_object();
            put(&mut doc, "session_id".to_owned(), text_value(a.session_id.clone()));
            put(&mut doc, "agent".to_owned(), text_value(a.agent.clone()));
            put(&mut doc, "started_at_ns".to_owned(), number_value(a.started_at_ns));
            put(&mut doc, "tool_name".to_owned(), opt_text_value(&a.tool_name));
            put(&mut doc, "intended_file".to_owned(), opt_text_value(&a.intended_file));
            doc
        },
        None => null_value(),
    }
}

/// The state of a project as a JSON document.
pub open spec fn status_document(
    paths: ProjectPathsView,
    events: i64,
    running: bool,
    active: Option<ActiveSessionView>,
) -> crate::json::JsonTree {
    crate::json::JsonTree::Object(
        Map::empty().insert("root"@, crate::json::JsonTree::Text(paths.root)).insert(
            "data"@,
            crate::json::JsonTree::Text(paths.data_dir),
        ).insert("database"@, crate::json::JsonTree::Text(paths.db_path)).insert(
            "events"@,
            crate::json::JsonTree::Number(crate::text::decimal_int(events as int)),
        ).insert("daemon_running"@, crate::json::JsonTree::Bool(running)).insert(
            "socket_path"@,
            crate::json::JsonTree::Text(paths.socket_path),
        ).insert("active_session"@, session_or_null(active)),
    )
}

/// The state of a project as a JSON document.
pub fn status_json(paths: &ProjectPaths, events: i64, running: bool, active: &Option<ActiveSession>) -> (r:
    serde_json::Value)
    ensures
        crate::json::tree(r) == status_document(
            paths.deep_view(),
            events,
            running,
            active.deep_view(),
        ),
{
    let mut doc = empty_object();
    put(&mut doc, "root".to_owned(), text_value(paths.root.clone()));
    put(&mut doc, "data".to_owned(), text_value(paths.data_dir.clone()));
    put(&mut doc, "database".to_owned(), text_value(paths.db_path.clone()));
    put(&mut doc, "events".to_owned(), number_value(events));
    put(&mut doc, "daemon_running".to_owned(), bool_value(running));
    put(&mut doc, "socket_path".to_owned(), text_value(paths.socket_path.clone()));
    put(&mut doc, "active_session".to_owned(), session_value(active));
    doc
}

// --- starting ----------------------------------------------------------------------------------

/// What is said where the daemon runs already.
pub open spec fn running_already_line(pid: u32) -> Seq<char> {
    "agent-undo daemon already running (pid "@ + crate::text::decimal(pid as nat)
        + "). Use `agent-undo stop` to stop it."@
}

fn running_already_text(pid: u32) -> (r: String)
    ensures
        r@ == running_already_line(pid),
{
    let mut out = joined("agent-undo daemon already running (pid ", decimal_text(pid as u64).as_str());
    out.append("). Use `agent-undo stop` to stop it.");
    out
}

/// What is said of a daemon that was started.
pub open spec fn started_line(pid: u32, log: Seq<char>) -> Seq<char> {
    "agent-undo daemon started (pid "@ + crate::text::decimal(pid as nat) + "). Logs: "@ + log
}

fn started_text(pid: u32, log: &str) -> (r: String)
    ensures
        r@ == started_line(pid, log@),
{
    let mut out = joined("agent-undo daemon started (pid ", decimal_text(pid as u64).as_str());
    out.append("). Logs: ");
    out.append(log);
    out
}

/// How the daemon is stopped.
pub open spec fn stop_with_line() -> Seq<char> {
    "Stop with: agent-undo stop"@
}

fn stop_with_text() -> (r: String)
    ensures
        r@ == stop_with_line(),
{
    "Stop with: agent-undo stop".to_owned()
}

/// What is done before a daemon is started.
#[derive(Debug)]
pub enum SpawnStep {
    /// One runs already: say so and start none.
    Running { message: String },
    /// The file names a process that is gone: remove it, then start one.
    Replace,
    /// Start one.
    Start,
}

/// What is done before a daemon is started, from the number that its file holds and whether that
/// process lives.
pub fn spawn_step(pid: Option<u32>, alive: bool) -> (r: SpawnStep)
    ensures
        match pid {
            Some(n) => if alive {
                r matches SpawnStep::Running { message } && message@ == running_already_line(n)
            } else {
                r is Replace
            },
            None => r is Start,
        },
{
    match pid {
        Some(n) => if alive {
            SpawnStep::Running { message: running_already_text(n) }
        } else {
            SpawnStep::Replace
        },
        None => SpawnStep::Start,
    }
}

/// What is said of a daemon that was started.
pub fn started_lines(pid: u32, log: &str) -> (r: Vec<String>)
    ensures
        r.deep_view() == seq![started_line(pid, log@), stop_with_line()],
{
    let mut out = no_lines();
    push_line(&mut out, started_text(pid, log));
    push_line(&mut out, stop_with_text());
    assert(out.deep_view() =~= seq![started_line(pid, log@), stop_with_line()]);
    out
}

// --- stopping ----------------------------------------------------------------------------------

/// What is said where no daemon runs.
pub open spec fn none_running_line(root: Seq<char>) -> Seq<char> {
    "no daemon running for "@ + root
}

fn none_running_text(root: &str) -> (r: String)
    ensures
        r@ == none_running_line(root@),
{
    let mut out = joined("no daemon running for ", root);
    out
}

/// What is said of a file that names a process that is gone.
pub open spec fn stale_line(pid: u32) -> Seq<char> {
    "stale pidfile for pid "@ + crate::text::decimal(pid as nat) + "; cleaning up"@
}

fn stale_text(pid: u32) -> (r: String)
    ensures
        r@ == stale_line(pid),
{
    let mut out = joined("stale pidfile for pid ", decimal_text(pid as u64).as_str());
    out.append("; cleaning up");
    out
}

/// What is said of a daemon that ended when it was asked to.
pub open spec fn asked_to_stop_line() -> Seq<char> {
    "requested daemon shutdown over control socket"@
}

fn asked_to_stop_text() -> (r: String)
    ensures
        r@ == asked_to_stop_line(),
{
    "requested daemon shutdown over control socket".to_owned()
}

/// What is said of a daemon that refuses to end.
pub open spec fn will_not_stop_line(message: Seq<char>) -> Seq<char> {
    "daemon shutdown request failed: "@ + message
}

fn will_not_stop_text(message: &str) -> (r: String)
    ensures
        r@ == will_not_stop_line(message@),
{
    let mut out = joined("daemon shutdown request failed: ", message);
    out
}

/// What is said of a daemon that does not end.
pub open spec fn still_running_line(pid: u32) -> Seq<char> {
    "agent-undo daemon still running after stop attempt (pid "@
        + crate::text::decimal(pid as nat) + ")"@
}

fn still_running_text(pid: u32) -> (r: String)
    ensures
        r@ == still_running_line(pid),
{
    let mut out = joined("agent-undo daemon still running after stop attempt (pid ", decimal_text(pid as u64).as_str());
    out.append(")");
    out
}

/// How often a daemon that is to end is looked at.
pub const STOP_LOOKS: u32 = 20;

/// How long is waited between two looks.
pub const STOP_PAUSE_MS: u64 = 100;

/// How far stopping a daemon has come.
#[derive(Debug)]
pub enum StopState {
    /// It was asked to end; its reply is awaited.
    Asking,
    /// It has agreed to end, and is looked at this many times more.
    Agreed { left: u32 },
    /// It has agreed to end, and is looked at a last time.
    AgreedLast,
    /// Its process is being ended.
    Ending,
    /// Its process was ended, and is looked at this many times more.
    Ended { left: u32, message: String },
    /// Its process was ended, and is looked at a last time.
    EndedLast { message: String },
    /// Nothing is left to do.
    Over,
}

/// How far stopping a daemon has come.
pub enum StopStateView {
    Asking,
    Agreed { left: u32 },
    AgreedLast,
    Ending,
    Ended { left: u32, message: Seq<char> },
    EndedLast { message: Seq<char> },
    Over,
}

impl DeepView for StopState {
    type V = StopStateView;

    open spec fn deep_view(&self) -> StopStateView {
        match self {
            StopState::Asking => StopStateView::Asking,
            StopState::Agreed { left } => StopStateView::Agreed { left: *left },
            StopState::AgreedLast => StopStateView::AgreedLast,
            StopState::Ending => StopStateView::Ending,
            StopState::Ended { left, message } => StopStateView::Ended {
                left: *left,
                message: message@,
            },
            StopState::EndedLast { message } => StopStateView::EndedLast { message: message@ },
            StopState::Over => StopStateView::Over,
        }
    }
}

/// What happens while a daemon is being stopped.
#[derive(Debug)]
pub enum StopEvent {
    /// The daemon replied, or could not be reached.
    Replied { reply: Option<Response> },
    /// Whether the file with its number is there, and whether its process lives.
    Looked { file: bool, alive: bool },
    /// Its process was ended; the message tells how.
    Killed { message: String },
}

/// What happens while a daemon is being stopped.
pub enum StopEventView {
    Replied { reply: Option<ResponseView> },
    Looked { file: bool, alive: bool },
    Killed { message: Seq<char> },
}

impl DeepView for StopEvent {
    type V = StopEventView;

    open spec fn deep_view(&self) -> StopEventView {
        match self {
            StopEvent::Replied { reply } => StopEventView::Replied { reply: reply.deep_view() },
            StopEvent::Looked { file, alive } => StopEventView::Looked {
                file: *file,
                alive: *alive,
            },
            StopEvent::Killed { message } => StopEventView::Killed { message: message@ },
        }
    }
}

/// What is to be done to stop a daemon.
#[derive(Debug)]
pub enum StopAction {
    /// Ask the daemon to end.
    Ask,
    /// Look whether its file is there and its process lives.
    Look,
    /// Wait a while, then look.
    PauseAndLook,
    /// Say the complaint, if there is one, and end its process.
    Kill { complaint: Option<String> },
    /// Say the message, and remove what is named.
    Finish { message: String, remove_file: bool, remove_socket: bool },
    /// Give up with the message.
    Fail { message: String },
    /// Nothing.
    Rest,
}

/// What is to be done to stop a daemon.
pub enum StopActionView {
    Ask,
    Look,
    PauseAndLook,
    Kill { complaint: Option<Seq<char>> },
    Finish { message: Seq<char>, remove_file: bool, remove_socket: bool },
    Fail { message: Seq<char> },
    Rest,
}

impl DeepView for StopAction {
    type V = StopActionView;

    open spec fn deep_view(&self) -> StopActionView {
        match self {
            StopAction::Ask => StopActionView::Ask,
            StopAction::Look => StopActionView::Look,
            StopAction::PauseAndLook => StopActionView::PauseAndLook,
            StopAction::Kill { complaint } => StopActionView::Kill {
                complaint: complaint.deep_view(),
            },
            StopAction::Finish { message, remove_file, remove_socket } => StopActionView::Finish {
                message: message@,
                remove_file: *remove_file,
                remove_socket: *remove_socket,
            },
            StopAction::Fail { message } => StopActionView::Fail { message: message@ },
            StopAction::Rest => StopActionView::Rest,
        }
    }
}

/// How stopping a daemon begins: without a number, or with that of a process that is gone, it is
/// over at once; else the daemon is asked to end.
pub open spec fn stopping_begins(pid: Option<u32>, alive: bool, root: Seq<char>) -> (
    StopStateView,
    StopActionView,
) {
    match pid {
        None => (
            StopStateView::Over,
            StopActionView::Finish {
                message: none_running_line(root),
                remove_file: false,
                remove_socket: false,
            },
        ),
        Some(n) => if alive {
            (StopStateView::Asking, StopActionView::Ask)
        } else {
            (
                StopStateView::Over,
                StopActionView::Finish {
                    message: stale_line(n),
                    remove_file: true,
                    remove_socket: false,
                },
            )
        },
    }
}

/// How stopping a daemon begins (see `stopping_begins`).
pub fn stop_start(pid: Option<u32>, alive: bool, root: &str) -> (r: (StopState, StopAction))
    ensures
        (r.0.deep_view(), r.1.deep_view()) == stopping_begins(pid, alive, root@),
{
    match pid {
        None => (
            StopState::Over,
            StopAction::Finish {
                message: none_running_text(root),
                remove_file: false,
                remove_socket: false,
            },
        ),
        Some(n) => if alive {
            (StopState::Asking, StopAction::Ask)
        } else {
            (
                StopState::Over,
                StopAction::Finish {
                    message: stale_text(n),
                    remove_file: true,
                    remove_socket: false,
                },
            )
        },
    }
}

/// What follows an event while the daemon with the number `pid` is being stopped. A daemon that
/// agrees to end is given time to do so; where it does not, refuses, or cannot be reached, its
/// process is ended, and is given the same time. An event that is not awaited changes nothing.
pub open spec fn stopping(pid: u32, state: StopStateView, event: StopEventView) -> (
    StopStateView,
    StopActionView,
) {
    match (state, event) {
        (StopStateView::Asking, StopEventView::Replied { reply }) => match reply {
            Some(ResponseView::ShutdownAccepted) => (
                StopStateView::Agreed { left: STOP_LOOKS },
                StopActionView::Look,
            ),
            Some(ResponseView::Error { message }) => (
                StopStateView::Ending,
                StopActionView::Kill { complaint: Some(will_not_stop_line(message)) },
            ),
            _ => (StopStateView::Ending, StopActionView::Kill { complaint: None }),
        },
        (StopStateView::Agreed { left }, StopEventView::Looked { file, alive }) => if !file
            || !alive {
            (StopStateView::AgreedLast, StopActionView::Look)
        } else if left <= 1 {
            (StopStateView::AgreedLast, StopActionView::PauseAndLook)
        } else {
            (StopStateView::Agreed { left: (left - 1) as u32 }, StopActionView::PauseAndLook)
        },
        (StopStateView::AgreedLast, StopEventView::Looked { file, alive }) => if !file || !alive {
            (
                StopStateView::Over,
                StopActionView::Finish {
                    message: asked_to_stop_line(),
                    remove_file: false,
                    remove_socket: true,
                },
            )
        } else {
            (StopStateView::Ending, StopActionView::Kill { complaint: None })
        },
        (StopStateView::Ending, StopEventView::Killed { message }) => (
            StopStateView::Ended { left: STOP_LOOKS, message },
            StopActionView::Look,
        ),
        (StopStateView::Ended { left, message }, StopEventView::Looked { file, alive }) => if !file
            || !alive {
            (StopStateView::EndedLast { message }, StopActionView::Look)
        } else if left <= 1 {
            (StopStateView::EndedLast { message }, StopActionView::PauseAndLook)
        } else {
            (
                StopStateView::Ended { left: (left - 1) as u32, message },
                StopActionView::PauseAndLook,
            )
        },
        (StopStateView::EndedLast { message }, StopEventView::Looked { file, alive }) => if alive {
            (StopStateView::Over, StopActionView::Fail { message: still_running_line(pid) })
        } else {
            (
                StopStateView::Over,
                StopActionView::Finish { message, remove_file: true, remove_socket: true },
            )
        },
        _ => (state, StopActionView::Rest),
    }
}

/// What follows an event while the daemon with the number `pid` is being stopped (see
/// `stopping`).
pub fn stop_step(pid: u32, state: StopState, event: StopEvent) -> (r: (StopState, StopAction))
    ensures
        (r.0.deep_view(), r.1.deep_view()) == stopping(pid, state.deep_view(), event.deep_view()),
{
    match (state, event) {
        (StopState::Asking, StopEvent::Replied { reply }) => match reply {
            Some(Response::ShutdownAccepted) => (
                StopState::Agreed { left: STOP_LOOKS },
                StopAction::Look,
            ),
            Some(Response::Error { message }) => (
                StopState::Ending,
                StopAction::Kill { complaint: Some(will_not_stop_text(message.as_str())) },
            ),
            _ => (StopState::Ending, StopAction::Kill { complaint: None }),
        },
        (StopState::Agreed { left }, StopEvent::Looked { file, alive }) => if !file || !alive {
            (StopState::AgreedLast, StopAction::Look)
        } else if left <= 1 {
            (StopState::AgreedLast, StopAction::PauseAndLook)
        } else {
            (StopState::Agreed { left: left - 1 }, StopAction::PauseAndLook)
        },
        (StopState::AgreedLast, StopEvent::Looked { file, alive }) => if !file || !alive {
            (
                StopState::Over,
                StopAction::Finish {
                    message: asked_to_stop_text(),
                    remove_file: false,
                    remove_socket: true,
                },
            )
        } else {
            (StopState::Ending, StopAction::Kill { complaint: None })
        },
        (StopState::Ending, StopEvent::Killed { message }) => (
            StopState::Ended { left: STOP_LOOKS, message },
            StopAction::Look,
        ),
        (StopState::Ended { left, message }, StopEvent::Looked { file, alive }) => if !file
            || !alive {
            (StopState::EndedLast { message }, StopAction::Look)
        } else if left <= 1 {
            (StopState::EndedLast { message }, StopAction::PauseAndLook)
        } else {
            (StopState::Ended { left: left - 1, message }, StopAction::PauseAndLook)
        },
        (StopState::EndedLast { message }, StopEvent::Looked { file: _, alive }) => if alive {
            (StopState::Over, StopAction::Fail { message: still_running_text(pid) })
        } else {
            (
                StopState::Over,
                StopAction::Finish { message, remove_file: true, remove_socket: true },
            )
        },
        (state, _) => (state, StopAction::Rest),
    }
}

/// The process of a daemon is ended only where it refused to end, could not be reached, or did not
/// end though it had agreed to.
pub proof fn law_a_daemon_is_asked_first(pid: u32, state: StopStateView, event: StopEventView)
    requires
        stopping(pid, state, event).1 is Kill,
    ensures
        match (state, event) {
            (StopStateView::Asking, StopEventView::Replied { reply }) => reply != Some(
                ResponseView::ShutdownAccepted,
            ),
            (StopStateView::AgreedLast, StopEventView::Looked { file, alive }) => file && alive,
            _ => false,
        },
{
}

/// A stop succeeds only where the process is gone, or the daemon, having agreed to end, has
/// removed its file.
pub proof fn law_a_stopped_daemon_is_gone(pid: u32, state: StopStateView, event: StopEventView)
    requires
        stopping(pid, state, event).1 is Finish,
    ensures
        event matches StopEventView::Looked { file, alive } && (!alive || (state is AgreedLast
            && !file)),
{
}

/// What is said of a process that was sent the signal to end.
pub open spec fn signalled_line(pid: u32) -> Seq<char> {
    "sent SIGTERM to agent-undo daemon (pid "@ + crate::text::decimal(pid as nat) + ")"@
}

/// What is said of a process that was sent the signal to end.
pub fn signalled_text(pid: u32) -> (r: String)
    ensures
        r@ == signalled_line(pid),
{
    let mut out = joined("sent SIGTERM to agent-undo daemon (pid ", decimal_text(pid as u64).as_str());
    out.append(")");
    out
}

/// What is said of a process that was ended.
pub open spec fn terminated_line(pid: u32) -> Seq<char> {
    "terminated agent-undo daemon on Windows (pid "@ + crate::text::decimal(pid as nat) + ")"@
}

/// What is said of a process that was ended.
pub fn terminated_text(pid: u32) -> (r: String)
    ensures
        r@ == terminated_line(pid),
{
    let mut out = joined("terminated agent-undo daemon on Windows (pid ", decimal_text(pid as u64).as_str());
    out.append(")");
    out
}

/// What is said where a process cannot be ended.
pub open spec fn unsupported_line(pid: u32) -> Seq<char> {
    "stop on this platform is not yet supported (kill pid "@
        + crate::text::decimal(pid as nat) + " manually)"@
}

/// What is said where a process cannot be ended.
pub fn unsupported_text(pid: u32) -> (r: String)
    ensures
        r@ == unsupported_line(pid),
{
    let mut out = joined("stop on this platform is not yet supported (kill pid ", decimal_text(pid as u64).as_str());
    out.append(" manually)");
    out
}

} // verus!
