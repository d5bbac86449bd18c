//! Wrappers around terminal agents: what the commands decide and print.
use vstd::prelude::*;

use super::doctor::Preset;
use super::{no_lines, push_line};
use crate::failure::joined;
use crate::text::pad;

verus! {

broadcast use vstd::string::group_string_axioms;

/// What is said of a preset that is not known.
pub open spec fn no_preset_line(name: Seq<char>) -> Seq<char> {
    "unknown preset `"@ + name + "`"@
}

fn no_preset_text(name: &str) -> (r: String)
    ensures
        r@ == no_preset_line(name@),
{
    let mut out = joined("unknown preset `", name);
    out.append("`");
    out
}

/// What is said where neither a preset nor an agent is named.
pub open spec fn no_agent_line() -> Seq<char> {
    "pass either --preset <name> or --agent <name>"@
}

fn no_agent_text() -> (r: String)
    ensures
        r@ == no_agent_line(),
{
    "pass either --preset <name> or --agent <name>".to_owned()
}

/// The preset that a wrapper is asked for by.
#[derive(Debug)]
pub enum Asked {
    /// None is named.
    Unnamed,
    /// The one that is named is known.
    Known(Preset),
    /// The one that is named is not known.
    Unknown(String),
}

/// The agent that a wrapper runs and the program that it stands for. With a preset the agent is
/// that of the preset; the program is the one that is named, that of the preset, or else the name
/// of the agent.
pub open spec fn wrapper_choice(
    asked: Asked,
    agent: Option<Seq<char>>,
    binary: Option<Seq<char>>,
) -> Result<(Seq<char>, Seq<char>), Seq<char>> {
    match asked {
        Asked::Unknown(name) => Err(no_preset_line(name@)),
        Asked::Known(p) => Ok(
            (
                p.deep_view().agent,
                match binary {
                    Some(b) => b,
                    None => p.deep_view().binary,
                },
            ),
        ),
        Asked::Unnamed => match agent {
            Some(a) => Ok(
                (
                    a,
                    match binary {
                        Some(b) => b,
                        None => a,
                    },
                ),
            ),
            None => Err(no_agent_line()),
        },
    }
}

/// The agent that a wrapper runs and the program that it stands for (see `wrapper_choice`).
pub fn choose_wrapper(asked: Asked, agent: Option<String>, binary: Option<String>) -> (r: Result<
    (String, String),
    String,
>)
    ensures
        match wrapper_choice(asked, agent.deep_view(), binary.deep_view()) {
            Ok((a, b)) => r matches Ok(x) && x.0@ == a && x.1@ == b,
            Err(m) => r matches Err(e) && e@ == m,
        },
{
    match asked {
        Asked::Unknown(name) => Err(no_preset_text(name.as_str())),
        Asked::Known(p) => {
            let b: String = match binary {
                Some(b) => b,
                None => p.binary,
            };
            Ok((p.agent, b))
        },
        Asked::Unnamed => match agent {
            Some(a) => {
                let b: String = match binary {
                    Some(b) => b,
                    None => a.clone(),
                };
                Ok((a, b))
            },
            None => Err(no_agent_text()),
        },
    }
}

/// What is said of a wrapper that was installed.
pub open spec fn wrapper_at_line(path: Seq<char>) -> Seq<char> {
    "installed wrapper: "@ + path
}

/// What is said of a wrapper that was installed.
pub fn wrapper_at_text(path: &str) -> (r: String)
    ensures
        r@ == wrapper_at_line(path@),
{
    let mut out = joined("installed wrapper: ", path);
    out
}

/// What follows the installation of a wrapper.
pub open spec fn next_line() -> Seq<char> {
    "next:"@
}

fn next_text() -> (r: String)
    ensures
        r@ == next_line(),
{
    "next:".to_owned()
}

/// How wrappers are put to use.
pub open spec fn next_eval_line() -> Seq<char> {
    "  eval \"$(au wrap shellenv)\""@
}

fn next_eval_text() -> (r: String)
    ensures
        r@ == next_eval_line(),
{
    "  eval \"$(au wrap shellenv)\"".to_owned()
}

/// How a wrapper is tried.
pub open spec fn next_help_line(binary: Seq<char>) -> Seq<char> {
    "  "@ + binary + " --help"@
}

fn next_help_text(binary: &str) -> (r: String)
    ensures
        r@ == next_help_line(binary@),
{
    let mut out = joined("  ", binary);
    out.append(" --help");
    out
}

/// What is said after the wrapper of one program was installed, or those of all that were found.
pub open spec fn next_report(binary: Option<Seq<char>>) -> Seq<Seq<char>> {
    match binary {
        Some(b) => seq![next_line(), next_eval_line(), next_help_line(b)],
        None => seq![next_line(), next_eval_line()],
    }
}

/// What is said after wrappers were installed (see `next_report`).
pub fn next_lines(binary: &Option<String>) -> (r: Vec<String>)
    ensures
        r.deep_view() == next_report(binary.deep_view()),
{
    let mut out = no_lines();
    push_line(&mut out, next_text());
    push_line(&mut out, next_eval_text());
    if let Some(b) = binary {
        push_line(&mut out, next_help_text(b.as_str()));
    }
    assert(out.deep_view() =~= next_report(binary.deep_view()));
    out
}

/// The line of a preset.
pub open spec fn preset_line(name: Seq<char>, agent: Seq<char>, binary: Seq<char>) -> Seq<char> {
    crate::text::padded(name, 10) + " agent="@ + agent + " binary="@ + binary
}

/// The line of a preset.
pub fn preset_text(name: &str, agent: &str, binary: &str) -> (r: String)
    ensures
        r@ == preset_line(name@, agent@, binary@),
{
    let mut out = joined(pad(name, 10).as_str(), " agent=");
    out.append(agent);
    out.append(" binary=");
    out.append(binary);
    out
}

/// What is said where no terminal agent was found.
pub open spec fn none_found_line() -> Seq<char> {
    "no known terminal-agent CLIs detected on PATH."@
}

/// What is said where no terminal agent was found.
pub fn none_found_text() -> (r: String)
    ensures
        r@ == none_found_line(),
{
    "no known terminal-agent CLIs detected on PATH.".to_owned()
}

/// What is said where no wrapper is installed.
pub open spec fn none_installed_line() -> Seq<char> {
    "no project-local wrappers installed."@
}

/// What is said where no wrapper is installed.
pub fn none_installed_text() -> (r: String)
    ensures
        r@ == none_installed_line(),
{
    "no project-local wrappers installed.".to_owned()
}

/// What is said of a wrapper that was removed.
pub open spec fn removed_line(path: Seq<char>) -> Seq<char> {
    "removed wrapper: "@ + path
}

/// What is said of a wrapper that was removed.
pub fn removed_text(path: &str) -> (r: String)
    ensures
        r@ == removed_line(path@),
{
    let mut out = joined("removed wrapper: ", path);
    out
}

/// What is said of a wrapper that was not there to be removed.
pub open spec fn not_installed_line(binary: Seq<char>) -> Seq<char> {
    "no wrapper installed for "@ + binary
}

/// What is said of a wrapper that was not there to be removed.
pub fn not_installed_text(binary: &str) -> (r: String)
    ensures
        r@ == not_installed_line(binary@),
{
    let mut out = joined("no wrapper installed for ", binary);
    out
}

} // verus!
