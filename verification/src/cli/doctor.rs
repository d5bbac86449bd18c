//! The check-up of a project: what it finds, mends and prints.
use vstd::prelude::*;

use super::control::{pid_in, session_value};
use super::{no_lines, push_line};
use crate::failure::joined;
use crate::ipc::{Response, ResponseView};
use crate::json::{
    bool_value, count_value, empty_object, null_value, number_value, opt_text_value, put,
    text_value, texts_value,
};
use crate::paths::{ProjectPaths, ProjectPathsView};
use crate::rows::{ActiveSession, ActiveSessionView, SessionRow, SessionRowView};
use crate::text::{contains, count_text, decimal_text, first_bytes, same, signed_text, trim};

verus! {

broadcast use vstd::string::group_string_axioms;

// --- the project -------------------------------------------------------------------------------

/// The title of a check-up.
pub open spec fn title_line() -> Seq<char> {
    "agent-undo doctor"@
}

fn title_text() -> (r: String)
    ensures
        r@ == title_line(),
{
    "agent-undo doctor".to_owned()
}

/// The rule below the title.
pub open spec fn rule_line() -> Seq<char> {
    "================="@
}

fn rule_text() -> (r: String)
    ensures
        r@ == rule_line(),
{
    "=================".to_owned()
}

/// Where the project lies.
pub open spec fn project_at_line(root: Seq<char>) -> Seq<char> {
    "✓ project initialized at "@ + root
}

fn project_at_text(root: &str) -> (r: String)
    ensures
        r@ == project_at_line(root@),
{
    let mut out = joined("✓ project initialized at ", root);
    out
}

/// That there is no project.
pub open spec fn no_project_line() -> Seq<char> {
    "✗ no .agent-undo/ found in this directory or any parent"@
}

fn no_project_text() -> (r: String)
    ensures
        r@ == no_project_line(),
{
    "✗ no .agent-undo/ found in this directory or any parent".to_owned()
}

/// How a project is set up.
pub open spec fn set_up_line() -> Seq<char> {
    "  → run `agent-undo init` to set up"@
}

fn set_up_text() -> (r: String)
    ensures
        r@ == set_up_line(),
{
    "  → run `agent-undo init` to set up".to_owned()
}

/// What is said first: where the project lies, where there is one.
pub open spec fn project_report(root: Option<Seq<char>>) -> Seq<Seq<char>> {
    seq![title_line(), rule_line(), ""@] + (match root {
        Some(r) => seq![project_at_line(r)],
        None => seq![no_project_line(), set_up_line()],
    })
}

/// What is said first.
pub fn project_lines(root: &Option<String>) -> (r: Vec<String>)
    ensures
        r.deep_view() == project_report(root.deep_view()),
{
    let mut out = no_lines();
    push_line(&mut out, title_text());
    push_line(&mut out, rule_text());
    push_line(&mut out, "".to_owned());
    match root {
        Some(root) => {
            push_line(&mut out, project_at_text(root.as_str()));
        },
        None => {
            push_line(&mut out, no_project_text());
            push_line(&mut out, set_up_text());
        },
    }
    assert(out.deep_view() =~= project_report(root.deep_view()));
    out
}

/// That the timeline is open.
pub open spec fn database_open_line(n: i64) -> Seq<char> {
    "✓ timeline database open ("@ + crate::text::decimal_int(n as int) + " events)"@
}

/// That the timeline is open.
pub fn database_open_text(n: i64) -> (r: String)
    ensures
        r@ == database_open_line(n),
{
    let mut out = joined("✓ timeline database open (", signed_text(n).as_str());
    out.append(" events)");
    out
}

/// That the timeline cannot be opened.
pub open spec fn database_shut_line(reason: Seq<char>) -> Seq<char> {
    "✗ could not open timeline.db: "@ + reason
}

/// That the timeline cannot be opened.
pub fn database_shut_text(reason: &str) -> (r: String)
    ensures
        r@ == database_shut_line(reason@),
{
    let mut out = joined("✗ could not open timeline.db: ", reason);
    out
}

// --- the settings ------------------------------------------------------------------------------

/// The settings as they were found.
#[derive(Debug)]
pub enum Settings {
    /// They were read, from the file where there is one.
    Read { file: bool, keep_last: String, max_file_size_mb: u64 },
    /// They could not be read.
    Broken { reason: String },
}

/// That the settings were read.
pub open spec fn settings_read_line(path: Seq<char>, keep: Seq<char>, mb: u64) -> Seq<char> {
    "✓ config loaded from "@ + path + " (gc.keep_last="@ + keep
        + ", watch.max_file_size_mb="@ + crate::text::decimal(mb as nat) + ")"@
}

fn settings_read_text(path: &str, keep: &str, mb: u64) -> (r: String)
    ensures
        r@ == settings_read_line(path@, keep@, mb),
{
    let mut out = joined("✓ config loaded from ", path);
    out.append(" (gc.keep_last=");
    out.append(keep);
    out.append(", watch.max_file_size_mb=");
    out.append(decimal_text(mb).as_str());
    out.append(")");
    out
}

/// That the usual settings were written.
pub open spec fn settings_written_line(path: Seq<char>) -> Seq<char> {
    "✓ wrote default config to "@ + path
}

fn settings_written_text(path: &str) -> (r: String)
    ensures
        r@ == settings_written_line(path@),
{
    let mut out = joined("✓ wrote default config to ", path);
    out
}

/// That there are no settings.
pub open spec fn settings_missing_line(path: Seq<char>) -> Seq<char> {
    "⚠ config missing at "@ + path
}

fn settings_missing_text(path: &str) -> (r: String)
    ensures
        r@ == settings_missing_line(path@),
{
    let mut out = joined("⚠ config missing at ", path);
    out
}

/// How settings are made.
pub open spec fn settings_mend_line() -> Seq<char> {
    "  → run `au doctor --fix` to create a default config"@
}

fn settings_mend_text() -> (r: String)
    ensures
        r@ == settings_mend_line(),
{
    "  → run `au doctor --fix` to create a default config".to_owned()
}

/// That the settings cannot be read.
pub open spec fn settings_broken_line(path: Seq<char>, reason: Seq<char>) -> Seq<char> {
    "✗ could not parse config at "@ + path + ": "@ + reason
}

fn settings_broken_text(path: &str, reason: &str) -> (r: String)
    ensures
        r@ == settings_broken_line(path@, reason@),
{
    let mut out = joined("✗ could not parse config at ", path);
    out.append(": ");
    out.append(reason);
    out
}

/// Whether the usual settings are to be written.
pub open spec fn writes_settings(s: Settings, fix: bool) -> bool {
    fix && (s matches Settings::Read { file, .. } && !file)
}

/// What is said of the settings, after they were written where they are to be.
pub open spec fn settings_report(path: Seq<char>, s: Settings, fix: bool) -> Seq<Seq<char>> {
    match s {
        Settings::Read { file, keep_last, max_file_size_mb } => if file {
            seq![settings_read_line(path, keep_last@, max_file_size_mb)]
        } else if fix {
            seq![settings_written_line(path)]
        } else {
            seq![settings_missing_line(path), settings_mend_line()]
        },
        Settings::Broken { reason } => seq![settings_broken_line(path, reason@)],
    }
}

/// Whether the usual settings are to be written, and what is said after that.
pub fn settings_lines(path: &str, s: &Settings, fix: bool) -> (r: (bool, Vec<String>))
    ensures
        r.0 == writes_settings(*s, fix),
        r.1.deep_view() == settings_report(path@, *s, fix),
{
    let mut out = no_lines();
    let mut write: bool = false;
    match s {
        Settings::Read { file, keep_last, max_file_size_mb } => {
            if *file {
                push_line(
                    &mut out,
                    settings_read_text(path, keep_last.as_str(), *max_file_size_mb),
                );
            } else if fix {
                write = true;
                push_line(&mut out, settings_written_text(path));
            } else {
                push_line(&mut out, settings_missing_text(path));
                push_line(&mut out, settings_mend_text());
            }
        },
        Settings::Broken { reason } => {
            push_line(&mut out, settings_broken_text(path, reason.as_str()));
        },
    }
    assert(out.deep_view() =~= settings_report(path@, *s, fix));
    (write, out)
}

// --- objects and wrappers ----------------------------------------------------------------------

/// How many objects are stored.
pub open spec fn objects_line(n: nat, dir: Seq<char>) -> Seq<char> {
    "✓ "@ + crate::text::decimal(n) + " object(s) in CAS at "@ + dir
}

/// How many objects are stored.
pub fn objects_text(n: usize, dir: &str) -> (r: String)
    ensures
        r@ == objects_line(n as nat, dir@),
{
    let mut out = joined("✓ ", count_text(n).as_str());
    out.append(" object(s) in CAS at ");
    out.append(dir);
    out
}

/// How many wrappers are installed.
pub open spec fn wrappers_line(n: nat, dir: Seq<char>) -> Seq<char> {
    "✓ "@ + crate::text::decimal(n) + " wrapper(s) in "@ + dir
}

fn wrappers_text(n: usize, dir: &str) -> (r: String)
    ensures
        r@ == wrappers_line(n as nat, dir@),
{
    let mut out = joined("✓ ", count_text(n).as_str());
    out.append(" wrapper(s) in ");
    out.append(dir);
    out
}

/// How wrappers are put to use.
pub open spec fn shellenv_line(text: Seq<char>) -> Seq<char> {
    "  shellenv: "@ + text
}

fn shellenv_text(text: &str) -> (r: String)
    ensures
        r@ == shellenv_line(text@),
{
    let mut out = joined("  shellenv: ", text);
    out
}

/// That no wrapper is installed.
pub open spec fn no_wrappers_line(dir: Seq<char>) -> Seq<char> {
    "ℹ no project-local wrappers installed in "@ + dir
}

fn no_wrappers_text(dir: &str) -> (r: String)
    ensures
        r@ == no_wrappers_line(dir@),
{
    let mut out = joined("ℹ no project-local wrappers installed in ", dir);
    out
}

/// How wrappers are installed.
pub open spec fn wrap_with_line() -> Seq<char> {
    "  → use `au wrap auto` or `au wrap install --preset codex`"@
}

fn wrap_with_text() -> (r: String)
    ensures
        r@ == wrap_with_line(),
{
    "  → use `au wrap auto` or `au wrap install --preset codex`".to_owned()
}

/// How wrappers are put to use.
pub open spec fn wrap_then_line() -> Seq<char> {
    "  → then run `eval \"$(au wrap shellenv)\"`"@
}

fn wrap_then_text() -> (r: String)
    ensures
        r@ == wrap_then_line(),
{
    "  → then run `eval \"$(au wrap shellenv)\"`".to_owned()
}

/// What is said of the wrappers that are installed.
pub open spec fn wrappers_report(n: nat, dir: Seq<char>, shellenv: Seq<char>) -> Seq<Seq<char>> {
    if n > 0 {
        seq![wrappers_line(n, dir), shellenv_line(shellenv)]
    } else {
        seq![no_wrappers_line(dir), wrap_with_line(), wrap_then_line()]
    }
}

/// What is said of the wrappers that are installed.
pub fn wrappers_lines(n: usize, dir: &str, shellenv: &str) -> (r: Vec<String>)
    ensures
        r.deep_view() == wrappers_report(n as nat, dir@, shellenv@),
{
    let mut out = no_lines();
    if n > 0 {
        push_line(&mut out, wrappers_text(n, dir));
        push_line(&mut out, shellenv_text(shellenv));
    } else {
        push_line(&mut out, no_wrappers_text(dir));
        push_line(&mut out, wrap_with_text());
        push_line(&mut out, wrap_then_text());
    }
    assert(out.deep_view() =~= wrappers_report(n as nat, dir@, shellenv@));
    out
}

/// A terminal agent that wrappers are known for.
#[derive(Debug)]
pub struct Preset {
    pub name: String,
    pub agent: String,
    pub binary: String,
}

/// What `Preset` holds.
#[verifier::ext_equal]
pub struct PresetView {
    pub name: Seq<char>,
    pub agent: Seq<char>,
    pub binary: Seq<char>,
}

impl DeepView for Preset {
    type V = PresetView;

    open spec fn deep_view(&self) -> PresetView {
        PresetView { name: self.name@, agent: self.agent@, binary: self.binary@ }
    }
}

impl Clone for Preset {
    fn clone(&self) -> (r: Self)
        ensures
            r.deep_view() == self.deep_view(),
    {
        Preset {
            name: self.name.clone(),
            agent: self.agent.clone(),
            binary: self.binary.clone(),
        }
    }
}

/// The agents that were found and have no wrapper.
pub open spec fn unwrapped(found: Seq<PresetView>, installed: Seq<Seq<char>>) -> Seq<PresetView> {
    found.filter(|p: PresetView| !installed.contains(p.binary))
}

fn is_listed(names: &Vec<String>, name: &str) -> (r: bool)
    ensures
        r == names.deep_view().contains(name@),
{
    let ghost d = names.deep_view();
    let mut i: usize = 0;
    while i < names.len()
        invariant
            i <= names.len(),
            d == names.deep_view(),
            forall|j: int| 0 <= j < i ==> (#[trigger] d[j]) != name@,
        decreases names.len() - i,
    {
        assert(d[i as int] == names@[i as int]@);
        if same(names[i].as_str(), name) {
            return true;
        }
        i = i + 1;
    }
    false
}

/// The agents that were found and have no wrapper.
pub fn missing_wrappers(found: &Vec<Preset>, installed: &Vec<String>) -> (r: Vec<Preset>)
    ensures
        r.deep_view() == unwrapped(found.deep_view(), installed.deep_view()),
{
    let ghost d = found.deep_view();
    let ghost have = installed.deep_view();
    let ghost lacks = |p: PresetView| !have.contains(p.binary);
    let mut out: Vec<Preset> = Vec::new();
    let mut i: usize = 0;
    proof {
        reveal(Seq::filter);
        assert(out.deep_view() =~= d.take(0).filter(lacks));
    }
    while i < found.len()
        invariant
            i <= found.len(),
            d == found.deep_view(),
            have == installed.deep_view(),
            lacks == (|p: PresetView| !have.contains(p.binary)),
            out.deep_view() == d.take(i as int).filter(lacks),
        decreases found.len() - i,
    {
        let ghost before = out.deep_view();
        assert(d[i as int] == found@[i as int].deep_view());
        proof {
            reveal(Seq::filter);
            assert(d.take(i + 1).drop_last() =~= d.take(i as int));
            assert(d.take(i + 1).last() == d[i as int]);
        }
        if !is_listed(installed, found[i].binary.as_str()) {
            out.push(found[i].clone());
            assert(out.deep_view() =~= before.push(d[i as int]));
        }
        i = i + 1;
    }
    assert(d.take(d.len() as int) =~= d);
    out
}

/// Texts with a comma and a space between them.
pub open spec fn listing(texts: Seq<Seq<char>>) -> Seq<char>
    decreases texts.len(),
{
    if texts.len() == 0 {
        seq![]
    } else if texts.len() == 1 {
        texts[0]
    } else {
        listing(texts.drop_last()) + ", "@ + texts.last()
    }
}

/// The names of agents.
pub open spec fn names(presets: Seq<PresetView>) -> Seq<Seq<char>> {
    presets.map_values(|p: PresetView| p.name)
}

/// The programs of agents.
pub open spec fn binaries(presets: Seq<PresetView>) -> Seq<Seq<char>> {
    presets.map_values(|p: PresetView| p.binary)
}

/// The names of agents.
pub fn preset_names(presets: &Vec<Preset>) -> (r: Vec<String>)
    ensures
        r.deep_view() == names(presets.deep_view()),
{
    let mut out: Vec<String> = Vec::new();
    let mut i: usize = 0;
    while i < presets.len()
        invariant
            i <= presets.len(),
            out.len() == i,
            forall|j: int| 0 <= j < i ==> (#[trigger] out@[j])@ == presets@[j].name@,
        decreases presets.len() - i,
    {
        out.push(presets[i].name.clone());
        i = i + 1;
    }
    assert(out.deep_view() =~= names(presets.deep_view()));
    out
}

/// The programs of agents.
pub fn preset_binaries(presets: &Vec<Preset>) -> (r: Vec<String>)
    ensures
        r.deep_view() == binaries(presets.deep_view()),
{
    let mut out: Vec<String> = Vec::new();
    let mut i: usize = 0;
    while i < presets.len()
        invariant
            i <= presets.len(),
            out.len() == i,
            forall|j: int| 0 <= j < i ==> (#[trigger] out@[j])@ == presets@[j].binary@,
        decreases presets.len() - i,
    {
        out.push(presets[i].binary.clone());
        i = i + 1;
    }
    assert(out.deep_view() =~= binaries(presets.deep_view()));
    out
}

fn listed(texts: &Vec<String>) -> (r: String)
    ensures
        r@ == listing(texts.deep_view()),
{
    let ghost d = texts.deep_view();
    let mut out = String::new();
    let mut i: usize = 0;
    assert(out@ =~= listing(d.take(0)));
    while i < texts.len()
        invariant
            i <= texts.len(),
            d == texts.deep_view(),
            out@ == listing(d.take(i as int)),
        decreases texts.len() - i,
    {
        assert(d[i as int] == texts@[i as int]@);
        assert(d.take(i + 1).drop_last() =~= d.take(i as int));
        let ghost before = out@;
        if i > 0 {
            out.append(", ");
        }
        out.append(texts[i].as_str());
        assert(i == 0 ==> out@ =~= d[0]);
        assert(out@ =~= listing(d.take(i + 1)));
        i = i + 1;
    }
    assert(d.take(d.len() as int) =~= d);
    out
}

/// The terminal agents that were found.
pub open spec fn found_on_path_line(names: Seq<char>) -> Seq<char> {
    "✓ detected terminal-agent CLI(s) on PATH: "@ + names
}

fn found_on_path_text(names: &str) -> (r: String)
    ensures
        r@ == found_on_path_line(names@),
{
    let mut out = joined("✓ detected terminal-agent CLI(s) on PATH: ", names);
    out
}

/// That all of them have wrappers.
pub open spec fn all_wrapped_line() -> Seq<char> {
    "  all detected CLIs already have project-local wrappers"@
}

fn all_wrapped_text() -> (r: String)
    ensures
        r@ == all_wrapped_line(),
{
    "  all detected CLIs already have project-local wrappers".to_owned()
}

/// That wrappers were installed.
pub open spec fn now_wrapped_line(names: Seq<char>) -> Seq<char> {
    "  fixed: installed wrapper(s) for "@ + names
}

fn now_wrapped_text(names: &str) -> (r: String)
    ensures
        r@ == now_wrapped_line(names@),
{
    let mut out = joined("  fixed: installed wrapper(s) for ", names);
    out
}

/// Which wrappers are missing.
pub open spec fn wrappers_wanting_line(names: Seq<char>) -> Seq<char> {
    "  → wrappers missing for: "@ + names
}

fn wrappers_wanting_text(names: &str) -> (r: String)
    ensures
        r@ == wrappers_wanting_line(names@),
{
    let mut out = joined("  → wrappers missing for: ", names);
    out
}

/// How missing wrappers are installed.
pub open spec fn wrappers_mend_line() -> Seq<char> {
    "  → run `au wrap auto` or `au doctor --fix` to install them"@
}

fn wrappers_mend_text() -> (r: String)
    ensures
        r@ == wrappers_mend_line(),
{
    "  → run `au wrap auto` or `au doctor --fix` to install them".to_owned()
}

/// What is said, done and said again about the terminal agents that were found.
#[derive(Debug)]
pub struct WrapStep {
    /// What is said first.
    pub before: Vec<String>,
    /// The agents that wrappers are installed for.
    pub install: Vec<Preset>,
    /// What is said then.
    pub after: Vec<String>,
}

/// What is said first of the terminal agents that were found.
pub open spec fn found_report(found: Seq<PresetView>) -> Seq<Seq<char>> {
    if found.len() == 0 {
        seq![]
    } else {
        seq![found_on_path_line(listing(names(found)))]
    }
}

/// What is said of the wrappers of the terminal agents that were found, after those that are
/// missing were installed where they are to be.
pub open spec fn wrapped_report(found: Seq<PresetView>, missing: Seq<PresetView>, fix: bool) -> Seq<
    Seq<char>,
> {
    if found.len() == 0 {
        seq![]
    } else if missing.len() == 0 {
        seq![all_wrapped_line()]
    } else if fix {
        seq![now_wrapped_line(listing(binaries(missing)))]
    } else {
        seq![wrappers_wanting_line(listing(binaries(missing))), wrappers_mend_line()]
    }
}

/// What is said and done about the terminal agents that were found: where `fix` is set, a wrapper
/// is installed for each that has none.
pub fn wrap_step(found: &Vec<Preset>, installed: &Vec<String>, fix: bool) -> (r: WrapStep)
    ensures
        r.before.deep_view() == found_report(found.deep_view()),
        r.install.deep_view() == (if fix {
            unwrapped(found.deep_view(), installed.deep_view())
        } else {
            seq![]
        }),
        r.after.deep_view() == wrapped_report(
            found.deep_view(),
            unwrapped(found.deep_view(), installed.deep_view()),
            fix,
        ),
{
    let missing = missing_wrappers(found, installed);
    let ghost m = unwrapped(found.deep_view(), installed.deep_view());
    let mut before = no_lines();
    let mut after = no_lines();
    if found.len() > 0 {
        push_line(&mut before, found_on_path_text(listed(&preset_names(found)).as_str()));
        if missing.len() == 0 {
            push_line(&mut after, all_wrapped_text());
        } else if fix {
            push_line(
                &mut after,
                now_wrapped_text(listed(&preset_binaries(&missing)).as_str()),
            );
        } else {
            push_line(
                &mut after,
                wrappers_wanting_text(listed(&preset_binaries(&missing)).as_str()),
            );
            push_line(&mut after, wrappers_mend_text());
        }
    }
    proof {
        assert(missing.deep_view().len() == missing.len());
        assert(found.deep_view().len() == found.len());
        assert(before.deep_view() =~= found_report(found.deep_view()));
        assert(after.deep_view() =~= wrapped_report(found.deep_view(), m, fix));
    }
    let install: Vec<Preset> = if fix {
        missing
    } else {
        Vec::new()
    };
    assert(!fix ==> install.deep_view() =~= seq![]);
    WrapStep { before, install, after }
}

// --- the daemon --------------------------------------------------------------------------------

/// Where the daemon is expected to answer: where a note says, or at the usual place.
pub open spec fn hint(info: Option<Seq<char>>, socket: Seq<char>) -> Seq<char> {
    match info {
        Some(text) => crate::text::trimmed(text),
        None => socket,
    }
}

/// Where the daemon is expected to answer.
pub fn socket_hint(info: &Option<String>, socket: &str) -> (r: String)
    ensures
        r@ == hint(info.deep_view(), socket@),
{
    match info {
        Some(text) => trim(text.as_str()),
        None => socket.to_owned(),
    }
}

/// That the daemon runs and answers.
pub open spec fn daemon_answers_line(pid: u32, events: i64, socket: Seq<char>) -> Seq<char> {
    "✓ daemon running (pid "@ + crate::text::decimal(pid as nat) + ", "@
        + crate::text::decimal_int(events as int) + " events, socket "@ + socket + ")"@
}

fn daemon_answers_text(pid: u32, events: i64, socket: &str) -> (r: String)
    ensures
        r@ == daemon_answers_line(pid, events, socket@),
{
    let mut out = joined("✓ daemon running (pid ", decimal_text(pid as u64).as_str());
    out.append(", ");
    out.append(signed_text(events).as_str());
    out.append(" events, socket ");
    out.append(socket);
    out.append(")");
    out
}

/// Which session the daemon reports.
pub open spec fn daemon_session_line(agent: Seq<char>, id: Seq<char>) -> Seq<char> {
    "  active session via daemon: "@ + agent + " ("@ + id + ")"@
}

fn daemon_session_text(agent: &str, id: &str) -> (r: String)
    ensures
        r@ == daemon_session_line(agent@, id@),
{
    let mut out = joined("  active session via daemon: ", agent);
    out.append(" (");
    out.append(id);
    out.append(")");
    out
}

/// That the daemon runs and does not answer.
pub open spec fn daemon_silent_line(pid: u32, socket: Seq<char>) -> Seq<char> {
    "✓ daemon running (pid "@ + crate::text::decimal(pid as nat)
        + ") but socket is unavailable at "@ + socket
}

fn daemon_silent_text(pid: u32, socket: &str) -> (r: String)
    ensures
        r@ == daemon_silent_line(pid, socket@),
{
    let mut out = joined("✓ daemon running (pid ", decimal_text(pid as u64).as_str());
    out.append(") but socket is unavailable at ");
    out.append(socket);
    out
}

/// That the process of the daemon is gone.
pub open spec fn daemon_gone_line(file: Seq<char>, pid: u32) -> Seq<char> {
    "⚠ stale pidfile at "@ + file + " (pid "@ + crate::text::decimal(pid as nat)
        + " not alive)"@
}

fn daemon_gone_text(file: &str, pid: u32) -> (r: String)
    ensures
        r@ == daemon_gone_line(file@, pid),
{
    let mut out = joined("⚠ stale pidfile at ", file);
    out.append(" (pid ");
    out.append(decimal_text(pid as u64).as_str());
    out.append(" not alive)");
    out
}

/// That what a daemon left was removed.
pub open spec fn daemon_cleared_line() -> Seq<char> {
    "  fixed: removed stale pidfile"@
}

fn daemon_cleared_text() -> (r: String)
    ensures
        r@ == daemon_cleared_line(),
{
    "  fixed: removed stale pidfile".to_owned()
}

/// How what a daemon left is removed.
pub open spec fn daemon_clear_line() -> Seq<char> {
    "  → run `au stop` to clean up, then `au serve --daemon`"@
}

fn daemon_clear_text() -> (r: String)
    ensures
        r@ == daemon_clear_line(),
{
    "  → run `au stop` to clean up, then `au serve --daemon`".to_owned()
}

/// That a daemon answers.
pub open spec fn socket_answers_line(socket: Seq<char>) -> Seq<char> {
    "✓ daemon control socket responding at "@ + socket
}

fn socket_answers_text(socket: &str) -> (r: String)
    ensures
        r@ == socket_answers_line(socket@),
{
    let mut out = joined("✓ daemon control socket responding at ", socket);
    out
}

/// How many events the daemon reports.
pub open spec fn daemon_events_line(events: i64) -> Seq<char> {
    "  daemon reports "@ + crate::text::decimal_int(events as int) + " event(s)"@
}

fn daemon_events_text(events: i64) -> (r: String)
    ensures
        r@ == daemon_events_line(events),
{
    let mut out = joined("  daemon reports ", signed_text(events).as_str());
    out.append(" event(s)");
    out
}

/// That the daemon does not run.
pub open spec fn daemon_off_line() -> Seq<char> {
    "⚠ daemon not running"@
}

fn daemon_off_text() -> (r: String)
    ensures
        r@ == daemon_off_line(),
{
    "⚠ daemon not running".to_owned()
}

/// How the daemon is started.
pub open spec fn daemon_start_line() -> Seq<char> {
    "  → start it with `au serve --daemon`"@
}

fn daemon_start_text() -> (r: String)
    ensures
        r@ == daemon_start_line(),
{
    "  → start it with `au serve --daemon`".to_owned()
}

/// The number in the file of the daemon, or 0 where it holds none.
pub open spec fn pid_or_zero(text: Seq<char>) -> u32 {
    match super::control::pid_of(text) {
        Some(n) => n,
        None => 0,
    }
}

/// The number in the file of the daemon, or 0 where it holds none.
pub fn pid_or_none(text: &str) -> (r: u32)
    ensures
        r == pid_or_zero(text@),
{
    match pid_in(text) {
        Some(n) => n,
        None => 0,
    }
}

/// What is said of the session that the daemon reports.
pub open spec fn active_report(active: Option<ActiveSessionView>) -> Seq<Seq<char>> {
    match active {
        Some(a) => seq![daemon_session_line(a.agent, a.session_id)],
        None => seq![],
    }
}

/// Whether what a daemon left is to be removed: it left a file, does not report, and its process
/// is gone.
pub open spec fn clears(
    file: Option<Seq<char>>,
    alive: bool,
    reply: Option<ResponseView>,
    fix: bool,
) -> bool {
    &&& fix
    &&& file is Some
    &&& super::reply::status_in(reply) is None
    &&& !(pid_or_zero(file->0) > 0 && alive)
}

/// What is said of the daemon. `file` is the text of the file with its number, where there is
/// one, `alive` tells whether that process lives, `path` is where that file lies, and `expected`
/// is where the daemon is expected to answer.
pub open spec fn daemon_report(
    file: Option<Seq<char>>,
    alive: bool,
    reply: Option<ResponseView>,
    path: Seq<char>,
    socket: Seq<char>,
    expected: Seq<char>,
    fix: bool,
) -> Seq<Seq<char>> {
    match (file, super::reply::status_in(reply)) {
        (Some(text), Some((events, active))) => seq![
            daemon_answers_line(pid_or_zero(text), events, socket),
        ] + active_report(active),
        (Some(text), None) => if pid_or_zero(text) > 0 && alive {
            seq![daemon_silent_line(pid_or_zero(text), expected)]
        } else {
            seq![
                daemon_gone_line(path, pid_or_zero(text)),
                if fix {
                    daemon_cleared_line()
                } else {
                    daemon_clear_line()
                },
            ]
        },
        (None, Some((events, active))) => seq![
            socket_answers_line(socket),
            daemon_events_line(events),
        ] + active_report(active),
        (None, None) => if reply is Some {
            seq![socket_answers_line(socket)]
        } else {
            seq![daemon_off_line(), daemon_start_line()]
        },
    }
}

fn status_of(reply: &Option<Response>) -> (r: Option<(i64, Option<ActiveSession>)>)
    ensures
        r.deep_view() == super::reply::status_in(reply.deep_view()),
{
    match reply {
        Some(Response::Status { events, active_session }) => {
            let active: Option<ActiveSession> = match active_session {
                Some(a) => Some(a.clone()),
                None => None,
            };
            Some((*events, active))
        },
        _ => None,
    }
}

fn push_active(out: &mut Vec<String>, active: &Option<ActiveSession>)
    ensures
        final(out).deep_view() == old(out).deep_view() + active_report(active.deep_view()),
{
    let ghost before = out.deep_view();
    if let Some(a) = active {
        push_line(out, daemon_session_text(a.agent.as_str(), a.session_id.as_str()));
    }
    assert(out.deep_view() =~= before + active_report(active.deep_view()));
}

/// Whether what a daemon left is to be removed, and what is said of the daemon (see `clears` and
/// `daemon_report`).
pub fn daemon_lines(
    file: &Option<String>,
    alive: bool,
    reply: &Option<Response>,
    path: &str,
    socket: &str,
    expected: &str,
    fix: bool,
) -> (r: (bool, Vec<String>))
    ensures
        r.0 == clears(file.deep_view(), alive, reply.deep_view(), fix),
        r.1.deep_view() == daemon_report(
            file.deep_view(),
            alive,
            reply.deep_view(),
            path@,
            socket@,
            expected@,
            fix,
        ),
{
    let mut out = no_lines();
    let mut clear: bool = false;
    let status = status_of(reply);
    match file {
        Some(text) => {
            let pid: u32 = pid_or_none(text.as_str());
            match &status {
                Some((events, active)) => {
                    push_line(&mut out, daemon_answers_text(pid, *events, socket));
                    push_active(&mut out, active);
                },
                None => {
                    if pid > 0 && alive {
                        push_line(&mut out, daemon_silent_text(pid, expected));
                    } else {
                        push_line(&mut out, daemon_gone_text(path, pid));
                        if fix {
                            clear = true;
                            push_line(&mut out, daemon_cleared_text());
                        } else {
                            push_line(&mut out, daemon_clear_text());
                        }
                    }
                },
            }
        },
        None => {
            match &status {
                Some((events, active)) => {
                    push_line(&mut out, socket_answers_text(socket));
                    push_line(&mut out, daemon_events_text(*events));
                    push_active(&mut out, active);
                },
                None => {
                    if reply.is_some() {
                        push_line(&mut out, socket_answers_text(socket));
                    } else {
                        push_line(&mut out, daemon_off_text());
                        push_line(&mut out, daemon_start_text());
                    }
                },
            }
        },
    }
    assert(out.deep_view() =~= daemon_report(
        file.deep_view(),
        alive,
        reply.deep_view(),
        path@,
        socket@,
        expected@,
        fix,
    ));
    (clear, out)
}

/// What a daemon left is never removed while its process lives.
pub proof fn law_a_live_daemon_is_left_alone(
    file: Seq<char>,
    reply: Option<ResponseView>,
    fix: bool,
)
    requires
        pid_or_zero(file) > 0,
    ensures
        !clears(Some(file), true, reply, fix),
{
}

// --- the marker and the hooks ------------------------------------------------------------------

/// That there is a marker of an active session.
pub open spec fn marker_there_line(path: Seq<char>) -> Seq<char> {
    "ℹ active session marker present at "@ + path
}

fn marker_there_text(path: &str) -> (r: String)
    ensures
        r@ == marker_there_line(path@),
{
    let mut out = joined("ℹ active session marker present at ", path);
    out
}

/// What the marker means.
pub open spec fn marker_means_line() -> Seq<char> {
    "  (this means an agent is currently making attributed edits)"@
}

fn marker_means_text() -> (r: String)
    ensures
        r@ == marker_means_line(),
{
    "  (this means an agent is currently making attributed edits)".to_owned()
}

/// What is said of the marker of the active session, where the daemon did not answer.
pub open spec fn marker_report(answered: bool, marker: bool, path: Seq<char>) -> Seq<Seq<char>> {
    if !answered && marker {
        seq![marker_there_line(path), marker_means_line()]
    } else {
        seq![]
    }
}

/// What is said of the marker of the active session.
pub fn marker_lines(answered: bool, marker: bool, path: &str) -> (r: Vec<String>)
    ensures
        r.deep_view() == marker_report(answered, marker, path@),
{
    let mut out = no_lines();
    if !answered && marker {
        push_line(&mut out, marker_there_text(path));
        push_line(&mut out, marker_means_text());
    }
    assert(out.deep_view() =~= marker_report(answered, marker, path@));
    out
}

/// Whether settings name a hook of this program.
pub open spec fn names_hook(settings: Seq<char>) -> bool {
    crate::text::has_part(settings, "au hook"@) || crate::text::has_part(
        settings,
        "agent-undo hook"@,
    )
}

/// Whether settings name a hook of this program.
pub fn has_hook(settings: &str) -> (r: bool)
    ensures
        r == names_hook(settings@),
{
    contains(settings, "au hook") || contains(settings, "agent-undo hook")
}

/// That the hooks are installed.
pub open spec fn hooks_there_line(title: Seq<char>, path: Seq<char>) -> Seq<char> {
    "✓ "@ + title + " hooks installed in "@ + path
}

fn hooks_there_text(title: &str, path: &str) -> (r: String)
    ensures
        r@ == hooks_there_line(title@, path@),
{
    let mut out = joined("✓ ", title);
    out.append(" hooks installed in ");
    out.append(path);
    out
}

/// That the settings name no hook.
pub open spec fn hooks_lacking_line(title: Seq<char>) -> Seq<char> {
    "⚠ "@ + title + " settings.json exists but no agent-undo hook found"@
}

fn hooks_lacking_text(title: &str) -> (r: String)
    ensures
        r@ == hooks_lacking_line(title@),
{
    let mut out = joined("⚠ ", title);
    out.append(" settings.json exists but no agent-undo hook found");
    out
}

/// How hooks are installed.
pub open spec fn hooks_mend_line() -> Seq<char> {
    "  → run `au init --install-hooks` to add them"@
}

fn hooks_mend_text() -> (r: String)
    ensures
        r@ == hooks_mend_line(),
{
    "  → run `au init --install-hooks` to add them".to_owned()
}

/// That there are no settings.
pub open spec fn hooks_unknown_line(title: Seq<char>, path: Seq<char>) -> Seq<char> {
    "ℹ "@ + title + " not detected (no "@ + path + " found)"@
}

fn hooks_unknown_text(title: &str, path: &str) -> (r: String)
    ensures
        r@ == hooks_unknown_line(title@, path@),
{
    let mut out = joined("ℹ ", title);
    out.append(" not detected (no ");
    out.append(path);
    out.append(" found)");
    out
}

/// How hooks are installed.
pub open spec fn hooks_if_line(title: Seq<char>) -> Seq<char> {
    "  → if you use "@ + title + ", run `au init --install-hooks`"@
}

fn hooks_if_text(title: &str) -> (r: String)
    ensures
        r@ == hooks_if_line(title@),
{
    let mut out = joined("  → if you use ", title);
    out.append(", run `au init --install-hooks`");
    out
}

/// That the hooks were installed.
pub open spec fn hooks_mended_line(short: Seq<char>) -> Seq<char> {
    "  fixed: installed agent-undo "@ + short + " hooks"@
}

fn hooks_mended_text(short: &str) -> (r: String)
    ensures
        r@ == hooks_mended_line(short@),
{
    let mut out = joined("  fixed: installed agent-undo ", short);
    out.append(" hooks");
    out
}

/// That the hooks could not be installed.
pub open spec fn hooks_unmended_line(reason: Seq<char>) -> Seq<char> {
    "  fix failed: "@ + reason
}

fn hooks_unmended_text(reason: &str) -> (r: String)
    ensures
        r@ == hooks_unmended_line(reason@),
{
    let mut out = joined("  fix failed: ", reason);
    out
}

/// Whether the hooks are to be installed: there are settings and they name none.
pub open spec fn installs_hooks(settings: Option<Seq<char>>, fix: bool) -> bool {
    fix && (settings matches Some(text) && !names_hook(text))
}

/// What is said of the hooks of the agent with a title, before they are installed where they are
/// to be.
pub open spec fn hooks_report(
    title: Seq<char>,
    path: Seq<char>,
    settings: Option<Seq<char>>,
    fix: bool,
) -> Seq<Seq<char>> {
    match settings {
        Some(text) => if names_hook(text) {
            seq![hooks_there_line(title, path)]
        } else if fix {
            seq![hooks_lacking_line(title)]
        } else {
            seq![hooks_lacking_line(title), hooks_mend_line()]
        },
        None => seq![hooks_unknown_line(title, path), hooks_if_line(title)],
    }
}

/// Whether the hooks are to be installed, and what is said before that.
pub fn hooks_lines(title: &str, path: &str, settings: &Option<String>, fix: bool) -> (r: (
    bool,
    Vec<String>,
))
    ensures
        r.0 == installs_hooks(settings.deep_view(), fix),
        r.1.deep_view() == hooks_report(title@, path@, settings.deep_view(), fix),
{
    let mut out = no_lines();
    let mut install: bool = false;
    match settings {
        Some(text) => {
            if has_hook(text.as_str()) {
                push_line(&mut out, hooks_there_text(title, path));
            } else {
                push_line(&mut out, hooks_lacking_text(title));
                if fix {
                    install = true;
                } else {
                    push_line(&mut out, hooks_mend_text());
                }
            }
        },
        None => {
            push_line(&mut out, hooks_unknown_text(title, path));
            push_line(&mut out, hooks_if_text(title));
        },
    }
    assert(out.deep_view() =~= hooks_report(title@, path@, settings.deep_view(), fix));
    (install, out)
}

/// What is said after the hooks were to be installed.
pub fn hooks_outcome_text(short: &str, outcome: &Result<(), String>) -> (r: String)
    ensures
        r@ == (match outcome {
            Ok(_) => hooks_mended_line(short@),
            Err(reason) => hooks_unmended_line(reason@),
        }),
{
    match outcome {
        Ok(_) => hooks_mended_text(short),
        Err(reason) => hooks_unmended_text(reason.as_str()),
    }
}

// --- the end -----------------------------------------------------------------------------------

/// What is said of a sweep.
pub open spec fn swept_line(n: nat) -> Seq<char> {
    "✓ orphan blob sweep complete ("@ + crate::text::decimal(n) + " removed)"@
}

/// What is said of a sweep.
pub fn swept_text(n: usize) -> (r: String)
    ensures
        r@ == swept_line(n as nat),
{
    let mut out = joined("✓ orphan blob sweep complete (", count_text(n).as_str());
    out.append(" removed)");
    out
}

/// That there are no sessions.
pub open spec fn no_sessions_line() -> Seq<char> {
    "no agent sessions recorded yet."@
}

fn no_sessions_text() -> (r: String)
    ensures
        r@ == no_sessions_line(),
{
    "no agent sessions recorded yet.".to_owned()
}

/// What stands before the sessions.
pub open spec fn sessions_line() -> Seq<char> {
    "recent sessions:"@
}

fn sessions_text() -> (r: String)
    ensures
        r@ == sessions_line(),
{
    "recent sessions:".to_owned()
}

/// The line of a session.
pub open spec fn session_line(id: Seq<char>, agent: Seq<char>, when: Seq<char>) -> Seq<char> {
    "  "@ + id + " "@ + agent + " — "@ + when
}

fn session_text(id: &str, agent: &str, when: &str) -> (r: String)
    ensures
        r@ == session_line(id@, agent@, when@),
{
    let mut out = joined("  ", id);
    out.append(" ");
    out.append(agent);
    out.append(" — ");
    out.append(when);
    out
}

/// What is said after a check-up that mends.
pub open spec fn repaired_line() -> Seq<char> {
    "repair pass complete. try `au log` to see what's happening."@
}

fn repaired_text() -> (r: String)
    ensures
        r@ == repaired_line(),
{
    "repair pass complete. try `au log` to see what's happening.".to_owned()
}

/// What is said after a check-up.
pub open spec fn healthy_line() -> Seq<char> {
    "everything looks healthy. try `au log` to see what's happening."@
}

fn healthy_text() -> (r: String)
    ensures
        r@ == healthy_line(),
{
    "everything looks healthy. try `au log` to see what's happening.".to_owned()
}

/// How many sessions are listed.
pub const LISTED_SESSIONS: usize = 5;

/// Whether the id of each session can be cut after 12 bytes.
pub open spec fn ids_can_be_cut(sessions: Seq<SessionRowView>) -> bool {
    forall|j: int|
        0 <= j < sessions.len() ==> crate::text::head((#[trigger] sessions[j]).id, 12) is Some
}

/// The lines of sessions, each with the time of its start.
pub open spec fn session_rows(sessions: Seq<SessionRowView>, whens: Seq<Seq<char>>) -> Seq<
    Seq<char>,
> {
    Seq::new(
        sessions.len(),
        |j: int|
            session_line(
                crate::text::head(sessions[j].id, 12)->0,
                sessions[j].agent,
                whens[j],
            ),
    )
}

/// What is said at the end.
pub open spec fn end_report(sessions: Seq<SessionRowView>, whens: Seq<Seq<char>>, fix: bool) -> Seq<
    Seq<char>,
> {
    (if sessions.len() == 0 {
        seq![""@, no_sessions_line()]
    } else {
        seq![""@, sessions_line()] + session_rows(sessions, whens)
    }) + seq![
        ""@,
        if fix {
            repaired_line()
        } else {
            healthy_line()
        },
    ]
}

/// What is said at the end; `None` where the id of a session cannot be cut after 12 bytes.
pub fn end_lines(sessions: &Vec<SessionRow>, whens: &Vec<String>, fix: bool) -> (r: Option<
    Vec<String>,
>)
    requires
        whens.len() == sessions.len(),
    ensures
        match r {
            Some(lines) => ids_can_be_cut(sessions.deep_view()) && lines.deep_view() == end_report(
                sessions.deep_view(),
                whens.deep_view(),
                fix,
            ),
            None => !ids_can_be_cut(sessions.deep_view()),
        },
{
    let ghost d = sessions.deep_view();
    let ghost w = whens.deep_view();
    let ghost rows = session_rows(d, w);
    let mut out = no_lines();
    push_line(&mut out, "".to_owned());
    if sessions.len() == 0 {
        push_line(&mut out, no_sessions_text());
    } else {
        push_line(&mut out, sessions_text());
    }
    let ghost head = out.deep_view();
    let mut i: usize = 0;
    assert(head + rows.take(0) =~= head);
    while i < sessions.len()
        invariant
            i <= sessions.len(),
            whens.len() == sessions.len(),
            d == sessions.deep_view(),
            w == whens.deep_view(),
            rows == session_rows(d, w),
            forall|j: int| 0 <= j < i ==> crate::text::head((#[trigger] d[j]).id, 12) is Some,
            out.deep_view() == head + rows.take(i as int),
        decreases sessions.len() - i,
    {
        let s = &sessions[i];
        assert(d[i as int] == s.deep_view());
        assert(w[i as int] == whens@[i as int]@);
        match first_bytes(s.id.as_str(), 12) {
            Some(id) => {
                push_line(&mut out, session_text(id.as_str(), s.agent.as_str(), whens[i].as_str()));
                assert(head + rows.take(i + 1) =~= (head + rows.take(i as int)).push(
                    rows[i as int],
                ));
            },
            None => {
                return None;
            },
        }
        i = i + 1;
    }
    push_line(&mut out, "".to_owned());
    if fix {
        push_line(&mut out, repaired_text());
    } else {
        push_line(&mut out, healthy_text());
    }
    proof {
        assert(d.len() == sessions.len());
        assert(rows.take(rows.len() as int) =~= rows);
        assert(out.deep_view() =~= end_report(d, w, fix));
    }
    Some(out)
}

// --- as a JSON document ------------------------------------------------------------------------

/// What a check-up finds, beside where the project lies.
#[derive(Debug)]
pub struct Findings {
    /// How many events the timeline has.
    pub events: i64,
    /// How long events are kept and how large a watched file may be, where the settings could be
    /// read.
    pub settings: Option<(String, u64)>,
    /// The wrappers that are installed.
    pub wrappers: Vec<String>,
    /// The terminal agents that were found.
    pub found: Vec<Preset>,
    /// The programs that have a wrapper.
    pub wrapped: Vec<String>,
    /// The number in the file of the daemon, and whether that process lives.
    pub pid: Option<(u32, bool)>,
    /// What the daemon answered.
    pub reply: Option<Response>,
    /// Whether the daemon runs, as far as its file tells.
    pub running: bool,
    /// The note of where the daemon answers.
    pub info: Option<String>,
    /// Whether there is a marker of an active session.
    pub marker: bool,
    /// Where the settings of the hooks lie.
    pub hook_path: Option<String>,
    /// The settings of the hooks, where they could be read.
    pub hook_settings: Option<String>,
    /// How many objects were swept, where they were to be.
    pub swept: Option<usize>,
}

/// What `Findings` holds.
pub struct FindingsView {
    pub events: i64,
    pub settings: Option<(Seq<char>, u64)>,
    pub wrappers: Seq<Seq<char>>,
    pub found: Seq<PresetView>,
    pub wrapped: Seq<Seq<char>>,
    pub pid: Option<(u32, bool)>,
    pub reply: Option<ResponseView>,
    pub running: bool,
    pub info: Option<Seq<char>>,
    pub marker: bool,
    pub hook_path: Option<Seq<char>>,
    pub hook_settings: Option<Seq<char>>,
    pub swept: Option<usize>,
}

impl DeepView for Findings {
    type V = FindingsView;

    open spec fn deep_view(&self) -> FindingsView {
        FindingsView {
            events: self.events,
            settings: match self.settings {
                Some((keep, mb)) => Some((keep@, mb)),
                None => None,
            },
            wrappers: self.wrappers.deep_view(),
            found: self.found.deep_view(),
            wrapped: self.wrapped.deep_view(),
            pid: self.pid,
            reply: self.reply.deep_view(),
            running: self.running,
            info: self.info.deep_view(),
            marker: self.marker,
            hook_path: self.hook_path.deep_view(),
            hook_settings: self.hook_settings.deep_view(),
            swept: self.swept,
        }
    }
}

/// A text in a JSON document: `None` is null.
pub open spec fn keep_or_null(s: Option<(Seq<char>, u64)>) -> crate::json::JsonTree {
    match s {
        Some((keep, _)) => crate::json::JsonTree::Text(keep),
        None => crate::json::JsonTree::Null,
    }
}

fn keep_value(s: &Option<(String, u64)>) -> (r: serde_json::Value)
    ensures
        crate::json::tree(r) == keep_or_null(
            match s {
                Some((keep, mb)) => Some((keep@, *mb)),
                None => None,
            },
        ),
{
    match s {
        Some((keep, _)) => text_value(keep.clone()),
        None => null_value(),
    }
}

/// A number in a JSON document: `None` is null.
pub open spec fn number_or_null(n: Option<nat>) -> crate::json::JsonTree {
    match n {
        Some(k) => crate::json::JsonTree::Number(crate::text::decimal(k)),
        None => crate::json::JsonTree::Null,
    }
}

fn opt_count_value(n: Option<u64>) -> (r: serde_json::Value)
    ensures
        crate::json::tree(r) == number_or_null(
            match n {
                Some(k) => Some(k as nat),
                None => None,
            },
        ),
{
    match n {
        Some(k) => count_value(k),
        None => null_value(),
    }
}

/// The settings as a JSON document.
pub open spec fn settings_document(path: Seq<char>, s: Option<(Seq<char>, u64)>) -> crate::json::JsonTree {
    crate::json::JsonTree::Object(
        Map::empty()
            .insert("path"@, crate::json::JsonTree::Text(path))
            .insert("loaded"@, crate::json::JsonTree::Bool(s is Some))
            .insert("gc_keep_last"@, keep_or_null(s))
            .insert(
                "watch_max_file_size_mb"@,
                number_or_null(match s { Some((_, mb)) => Some(mb as nat), None => None }),
            ),
    )
}

fn settings_value(path: &str, s: &Option<(String, u64)>) -> (r: serde_json::Value)
    ensures
        crate::json::tree(r) == settings_document(path@, match s { Some((keep, mb)) => Some((keep@, *mb)), None => None }),
{
    let mut doc = empty_object();
    put(&mut doc, "path".to_owned(), text_value(path.to_owned()));
    put(&mut doc, "loaded".to_owned(), bool_value(s.is_some()));
    put(&mut doc, "gc_keep_last".to_owned(), keep_value(s));
    put(
        &mut doc,
        "watch_max_file_size_mb".to_owned(),
        opt_count_value(match s { Some((_, mb)) => Some(*mb), None => None }),
    );
    doc
}

/// The wrappers as a JSON document.
pub open spec fn wrappers_document(dir: Seq<char>, f: FindingsView) -> crate::json::JsonTree {
    crate::json::JsonTree::Object(
        Map::empty()
            .insert("bin_dir"@, crate::json::JsonTree::Text(dir))
            .insert("installed"@, crate::json::texts_tree(f.wrappers))
            .insert("detected_on_path"@, crate::json::texts_tree(names(f.found)))
            .insert(
                "missing_for_detected"@,
                crate::json::texts_tree(binaries(unwrapped(f.found, f.wrapped))),
            ),
    )
}

fn wrappers_value(dir: &str, f: &Findings) -> (r: serde_json::Value)
    ensures
        crate::json::tree(r) == wrappers_document(dir@, f.deep_view()),
{
    let mut doc = empty_object();
    put(&mut doc, "bin_dir".to_owned(), text_value(dir.to_owned()));
    put(&mut doc, "installed".to_owned(), texts_value(&f.wrappers));
    put(&mut doc, "detected_on_path".to_owned(), texts_value(&preset_names(&f.found)));
    put(
        &mut doc,
        "missing_for_detected".to_owned(),
        texts_value(&preset_binaries(&missing_wrappers(&f.found, &f.wrapped))),
    );
    doc
}

/// The state of the daemon as a JSON document.
pub open spec fn state_document(f: FindingsView) -> crate::json::JsonTree {
    match super::reply::status_in(f.reply) {
        Some((events, active)) => crate::json::JsonTree::Object(
            Map::empty().insert("running"@, crate::json::JsonTree::Bool(true)).insert(
                "events"@,
                crate::json::JsonTree::Number(crate::text::decimal_int(events as int)),
            ).insert("active_session"@, super::control::session_or_null(active)),
        ),
        None => if f.reply is Some || f.running {
            crate::json::JsonTree::Object(
                Map::empty().insert("running"@, crate::json::JsonTree::Bool(true)).insert(
                    "events"@,
                    crate::json::JsonTree::Number(crate::text::decimal_int(f.events as int)),
                ).insert("active_session"@, crate::json::JsonTree::Null).insert(
                    "via"@,
                    crate::json::JsonTree::Text("pidfile"@),
                ),
            )
        } else {
            crate::json::JsonTree::Object(
                Map::empty().insert("running"@, crate::json::JsonTree::Bool(false)),
            )
        },
    }
}

fn state_value(f: &Findings) -> (r: serde_json::Value)
    ensures
        crate::json::tree(r) == state_document(f.deep_view()),
{
    let mut doc = empty_object();
    match status_of(&f.reply) {
        Some((events, active)) => {
            put(&mut doc, "running".to_owned(), bool_value(true));
            put(&mut doc, "events".to_owned(), number_value(events));
            put(&mut doc, "active_session".to_owned(), session_value(&active));
        },
        None => {
            if f.reply.is_some() || f.running {
                put(&mut doc, "running".to_owned(), bool_value(true));
                put(&mut doc, "events".to_owned(), number_value(f.events));
                put(&mut doc, "active_session".to_owned(), null_value());
                put(&mut doc, "via".to_owned(), text_value("pidfile".to_owned()));
            } else {
                put(&mut doc, "running".to_owned(), bool_value(false));
            }
        },
    }
    doc
}

/// Whether the process of the daemon lives, or null where its number is not known.
pub open spec fn alive_or_null(pid: Option<(u32, bool)>) -> crate::json::JsonTree {
    match pid {
        Some((_, alive)) => crate::json::JsonTree::Bool(alive),
        None => crate::json::JsonTree::Null,
    }
}

fn alive_value(pid: Option<(u32, bool)>) -> (r: serde_json::Value)
    ensures
        crate::json::tree(r) == alive_or_null(pid),
{
    match pid {
        Some((_, alive)) => bool_value(alive),
        None => null_value(),
    }
}

/// The daemon as a JSON document.
pub open spec fn daemon_document(paths: ProjectPathsView, f: FindingsView) -> crate::json::JsonTree {
    crate::json::JsonTree::Object(
        Map::empty()
            .insert(
                "pidfile"@,
                crate::json::JsonTree::Text(crate::paths::joined(paths.data_dir, "daemon.pid"@)),
            )
            .insert(
                "pid"@,
                number_or_null(match f.pid { Some((n, _)) => Some(n as nat), None => None }),
            )
            .insert("pid_alive"@, alive_or_null(f.pid))
            .insert("socket_path"@, crate::json::JsonTree::Text(paths.socket_path))
            .insert("socket_info_path"@, crate::json::JsonTree::Text(paths.socket_info_path))
            .insert("socket_hint"@, crate::json::JsonTree::Text(hint(f.info, paths.socket_path)))
            .insert("status"@, state_document(f)),
    )
}

fn daemon_value(paths: &ProjectPaths, f: &Findings) -> (r: serde_json::Value)
    ensures
        crate::json::tree(r) == daemon_document(paths.deep_view(), f.deep_view()),
{
    let mut doc = empty_object();
    put(
        &mut doc,
        "pidfile".to_owned(),
        text_value(crate::paths::join(paths.data_dir.as_str(), "daemon.pid")),
    );
    put(
        &mut doc,
        "pid".to_owned(),
        opt_count_value(match f.pid { Some((n, _)) => Some(n as u64), None => None }),
    );
    put(&mut doc, "pid_alive".to_owned(), alive_value(f.pid));
    put(&mut doc, "socket_path".to_owned(), text_value(paths.socket_path.clone()));
    put(&mut doc, "socket_info_path".to_owned(), text_value(paths.socket_info_path.clone()));
    put(
        &mut doc,
        "socket_hint".to_owned(),
        text_value(socket_hint(&f.info, paths.socket_path.as_str())),
    );
    put(&mut doc, "status".to_owned(), state_value(f));
    doc
}

/// The marker as a JSON document.
pub open spec fn marker_document(path: Seq<char>, present: bool) -> crate::json::JsonTree {
    crate::json::JsonTree::Object(
        Map::empty()
            .insert("path"@, crate::json::JsonTree::Text(path))
            .insert("present"@, crate::json::JsonTree::Bool(present)),
    )
}

fn marker_value(path: String, present: bool) -> (r: serde_json::Value)
    ensures
        crate::json::tree(r) == marker_document(path@, present),
{
    let mut doc = empty_object();
    put(&mut doc, "path".to_owned(), text_value(path));
    put(&mut doc, "present".to_owned(), bool_value(present));
    doc
}

/// Whether the settings of the hooks name one of this program.
pub open spec fn hooked(settings: Option<Seq<char>>) -> bool {
    settings matches Some(text) && names_hook(text)
}

fn is_hooked(settings: &Option<String>) -> (r: bool)
    ensures
        r == hooked(settings.deep_view()),
{
    match settings {
        Some(text) => has_hook(text.as_str()),
        None => false,
    }
}

/// The hooks as a JSON document.
pub open spec fn hooks_document(f: FindingsView) -> crate::json::JsonTree {
    crate::json::JsonTree::Object(
        Map::empty()
            .insert("settings_path"@, crate::json::text_or_null(f.hook_path))
            .insert("installed"@, crate::json::JsonTree::Bool(hooked(f.hook_settings))),
    )
}

fn hooks_value(f: &Findings) -> (r: serde_json::Value)
    ensures
        crate::json::tree(r) == hooks_document(f.deep_view()),
{
    let mut doc = empty_object();
    put(&mut doc, "settings_path".to_owned(), opt_text_value(&f.hook_path));
    put(&mut doc, "installed".to_owned(), bool_value(is_hooked(&f.hook_settings)));
    doc
}

/// What was mended, as a JSON document.
pub open spec fn mending_document(fix: bool, swept: Option<usize>) -> crate::json::JsonTree {
    crate::json::JsonTree::Object(
        Map::empty()
            .insert("requested"@, crate::json::JsonTree::Bool(fix))
            .insert(
                "orphan_blobs_removed"@,
                number_or_null(match swept { Some(n) => Some(n as nat), None => None }),
            ),
    )
}

fn mending_value(fix: bool, swept: Option<usize>) -> (r: serde_json::Value)
    ensures
        crate::json::tree(r) == mending_document(fix, swept),
{
    let mut doc = empty_object();
    put(&mut doc, "requested".to_owned(), bool_value(fix));
    put(
        &mut doc,
        "orphan_blobs_removed".to_owned(),
        opt_count_value(match swept { Some(n) => Some(n as u64), None => None }),
    );
    doc
}

/// The check-up as a JSON document.
pub open spec fn doctor_document(paths: ProjectPathsView, f: FindingsView, fix: bool) -> crate::json::JsonTree {
    crate::json::JsonTree::Object(
        Map::empty()
            .insert("root"@, crate::json::JsonTree::Text(paths.root))
            .insert("data_dir"@, crate::json::JsonTree::Text(paths.data_dir))
            .insert("database"@, crate::json::JsonTree::Text(paths.db_path))
            .insert(
                "events"@,
                crate::json::JsonTree::Number(crate::text::decimal_int(f.events as int)),
            )
            .insert("config"@, settings_document(paths.config_path, f.settings))
            .insert("wrappers"@, wrappers_document(paths.bin_dir, f))
            .insert("daemon"@, daemon_document(paths, f))
            .insert(
                "active_session_marker"@,
                marker_document(crate::paths::joined(paths.data_dir, "active-session.json"@), f.marker),
            )
            .insert("claude_hooks"@, hooks_document(f))
            .insert("fix"@, mending_document(fix, f.swept)),
    )
}

/// The check-up as a JSON document.
pub fn doctor_json(paths: &ProjectPaths, f: &Findings, fix: bool) -> (r: serde_json::Value)
    ensures
        crate::json::tree(r) == doctor_document(paths.deep_view(), f.deep_view(), fix),
{
    let mut doc = empty_object();
    put(&mut doc, "root".to_owned(), text_value(paths.root.clone()));
    put(&mut doc, "data_dir".to_owned(), text_value(paths.data_dir.clone()));
    put(&mut doc, "database".to_owned(), text_value(paths.db_path.clone()));
    put(&mut doc, "events".to_owned(), number_value(f.events));
    put(&mut doc, "config".to_owned(), settings_value(paths.config_path.as_str(), &f.settings));
    put(&mut doc, "wrappers".to_owned(), wrappers_value(paths.bin_dir.as_str(), f));
    put(&mut doc, "daemon".to_owned(), daemon_value(paths, f));
    put(
        &mut doc,
        "active_session_marker".to_owned(),
        marker_value(crate::paths::active_session_path(paths), f.marker),
    );
    put(&mut doc, "claude_hooks".to_owned(), hooks_value(f));
    put(&mut doc, "fix".to_owned(), mending_value(fix, f.swept));
    doc
}

} // verus!
