//! Who changed a file: the session whose marker stands, or else the running program that looks
//! most like an agent.
use vstd::prelude::*;

pub mod laws;

use crate::image::{Marker, MarkerView};
use crate::parts::is_under;
use crate::rows::{ActiveSession, ActiveSessionView};
use crate::store::Store;
use crate::text::{contains, same, to_lower};

verus! {

broadcast use vstd::string::group_string_axioms;

/// Who changed a file, and how sure that is.
#[derive(Debug)]
pub struct Attribution {
    pub agent: String,
    pub confidence: String,
    pub session_id: Option<String>,
    pub tool_name: Option<String>,
    pub pid: Option<i64>,
    pub process_name: Option<String>,
}

/// What `Attribution` holds.
#[verifier::ext_equal]
pub struct AttributionView {
    pub agent: Seq<char>,
    pub confidence: Seq<char>,
    pub session_id: Option<Seq<char>>,
    pub tool_name: Option<Seq<char>>,
    pub pid: Option<i64>,
    pub process_name: Option<Seq<char>>,
}

impl DeepView for Attribution {
    type V = AttributionView;

    open spec fn deep_view(&self) -> AttributionView {
        AttributionView {
            agent: self.agent@,
            confidence: self.confidence@,
            session_id: self.session_id.deep_view(),
            tool_name: self.tool_name.deep_view(),
            pid: self.pid,
            process_name: self.process_name.deep_view(),
        }
    }
}

impl Clone for Attribution {
    fn clone(&self) -> (r: Self)
        ensures
            r.deep_view() == self.deep_view(),
    {
        Attribution {
            agent: self.agent.clone(),
            confidence: self.confidence.clone(),
            session_id: self.session_id.clone(),
            tool_name: self.tool_name.clone(),
            pid: self.pid,
            process_name: self.process_name.clone(),
        }
    }
}

/// The agent whose tools call the hooks of this program.
#[derive(Debug)]
pub struct HookedAgent {
    /// What it is called.
    pub title: String,
    /// What it is called for short.
    pub short: String,
    /// The name that its changes are attributed to.
    pub id: String,
    /// The word by which its programs are known, in small letters.
    pub mark: String,
}

/// What `HookedAgent` holds.
#[verifier::ext_equal]
pub struct HookedAgentView {
    pub title: Seq<char>,
    pub short: Seq<char>,
    pub id: Seq<char>,
    pub mark: Seq<char>,
}

impl DeepView for HookedAgent {
    type V = HookedAgentView;

    open spec fn deep_view(&self) -> HookedAgentView {
        HookedAgentView {
            title: self.title@,
            short: self.short@,
            id: self.id@,
            mark: self.mark@,
        }
    }
}

/// A running program.
#[derive(Debug)]
pub struct ProcessInfo {
    pub pid: u32,
    pub name: String,
    pub exe: Option<String>,
    pub cmd: Vec<String>,
    pub cwd: Option<String>,
}

/// What `ProcessInfo` holds.
#[verifier::ext_equal]
pub struct ProcessInfoView {
    pub pid: u32,
    pub name: Seq<char>,
    pub exe: Option<Seq<char>>,
    pub cmd: Seq<Seq<char>>,
    pub cwd: Option<Seq<char>>,
}

impl DeepView for ProcessInfo {
    type V = ProcessInfoView;

    open spec fn deep_view(&self) -> ProcessInfoView {
        ProcessInfoView {
            pid: self.pid,
            name: self.name@,
            exe: self.exe.deep_view(),
            cmd: self.cmd.deep_view(),
            cwd: self.cwd.deep_view(),
        }
    }
}

/// A change by the active session.
pub open spec fn by_session(a: ActiveSessionView) -> AttributionView {
    AttributionView {
        agent: a.agent,
        confidence: "high"@,
        session_id: Some(a.session_id),
        tool_name: a.tool_name,
        pid: None,
        process_name: None,
    }
}

/// A change by the active session.
pub fn from_active(active: &ActiveSession) -> (r: Attribution)
    ensures
        r.deep_view() == by_session(active.deep_view()),
{
    Attribution {
        agent: active.agent.clone(),
        confidence: "high".to_owned(),
        session_id: Some(active.session_id.clone()),
        tool_name: active.tool_name.clone(),
        pid: None,
        process_name: None,
    }
}

/// Texts with a space between each two.
pub open spec fn spaced(words: Seq<Seq<char>>) -> Seq<char>
    decreases words.len(),
{
    if words.len() == 0 {
        Seq::empty()
    } else if words.len() == 1 {
        words[0]
    } else {
        spaced(words.drop_last()) + " "@ + words.last()
    }
}

fn join_words(words: &Vec<String>) -> (r: String)
    ensures
        r@ == spaced(words.deep_view()),
{
    let ghost d = words.deep_view();
    let mut out = String::new();
    let mut i: usize = 0;
    assert(out@ =~= spaced(d.take(0)));
    while i < words.len()
        invariant
            i <= words.len(),
            d == words.deep_view(),
            out@ == spaced(d.take(i as int)),
        decreases words.len() - i,
    {
        proof {
            assert(d[i as int] == words@[i as int]@);
            assert(d.take(i + 1).drop_last() =~= d.take(i as int));
            assert(d.take(i + 1).last() == d[i as int]);
            assert(i == 0 ==> out@ =~= Seq::<char>::empty());
        }
        if i > 0 {
            out.append(" ");
        }
        out.append(words[i].as_str());
        assert(i == 0 ==> out@ =~= d[0]);
        i = i + 1;
    }
    assert(d.take(d.len() as int) =~= d);
    out
}

/// What is known of a program, in small letters: its name, its file and its command line.
pub open spec fn looks_of(p: ProcessInfoView) -> Seq<char> {
    crate::text::lower(p.name) + " "@ + crate::text::lower(
        match p.exe {
            Some(exe) => exe,
            None => ""@,
        },
    ) + " "@ + crate::text::lower(spaced(p.cmd))
}

/// Whether a program is run by Node: its name or its file says so.
pub open spec fn runs_in_node(p: ProcessInfoView) -> bool {
    crate::text::has_part(
        crate::text::lower(p.name) + " "@ + crate::text::lower(
            match p.exe {
                Some(exe) => exe,
                None => ""@,
            },
        ),
        "node"@,
    )
}

/// Which agent a program looks like, and how much: what its name, its file or its command line
/// mentions, in this order; `hooked` is the agent whose tools call the hooks. Never this program
/// itself. The extension of the last agent counts only where Node runs it: its bare name is a word
/// of many command lines.
pub open spec fn fingerprint(
    p: ProcessInfoView,
    hooked: HookedAgentView,
) -> Option<(Seq<char>, u8)> {
    let name = crate::text::lower(p.name);
    let looks = looks_of(p);
    if name == "au"@ || crate::text::has_part(name, "agent-undo"@) {
        None
    } else if crate::text::has_part(looks, "cursor"@) {
        Some(("cursor"@, 40u8))
    } else if crate::text::has_part(looks, hooked.mark) {
        Some((hooked.id, 40u8))
    } else if crate::text::has_part(looks, "aider"@) {
        Some(("aider"@, 35u8))
    } else if crate::text::has_part(looks, "codex"@) {
        Some(("codex"@, 35u8))
    } else if crate::text::has_part(looks, "cline"@) {
        Some(("cline"@, 30u8))
    } else if crate::text::has_part(looks, "continue.continue"@) && runs_in_node(p) {
        Some(("continue"@, 30u8))
    } else {
        None
    }
}

/// Which agent a program looks like, and how much (see `fingerprint`).
pub fn fingerprint_process(process: &ProcessInfo, hooked: &HookedAgent) -> (r: Option<(String, u8)>)
    ensures
        r.deep_view() == fingerprint(process.deep_view(), hooked.deep_view()),
{
    let name = to_lower(process.name.as_str());
    if same(name.as_str(), "au") || contains(name.as_str(), "agent-undo") {
        return None;
    }
    let exe = match &process.exe {
        Some(exe) => to_lower(exe.as_str()),
        None => to_lower(""),
    };
    let cmd = to_lower(join_words(&process.cmd).as_str());
    let mut looks = name;
    looks.append(" ");
    looks.append(exe.as_str());
    let in_node = contains(looks.as_str(), "node");
    assert(in_node == runs_in_node(process.deep_view()));
    looks.append(" ");
    looks.append(cmd.as_str());
    assert(looks@ == looks_of(process.deep_view()));
    let h = looks.as_str();
    if contains(h, "cursor") {
        Some(("cursor".to_owned(), 40))
    } else if contains(h, hooked.mark.as_str()) {
        Some((hooked.id.clone(), 40))
    } else if contains(h, "aider") {
        Some(("aider".to_owned(), 35))
    } else if contains(h, "codex") {
        Some(("codex".to_owned(), 35))
    } else if contains(h, "cline") {
        Some(("cline".to_owned(), 30))
    } else if contains(h, "continue.continue") && in_node {
        Some(("continue".to_owned(), 30))
    } else {
        None
    }
}

/// What a program counts for as the one that changed a file of the project: nothing where it is
/// this program, works outside of the project, or looks like no agent.
pub open spec fn suspect(
    root: Seq<char>,
    self_pid: u32,
    hooked: HookedAgentView,
    p: ProcessInfoView,
) -> Option<(u8, AttributionView)> {
    if p.pid == self_pid || p.cwd is None || !crate::parts::lies_under(root, p.cwd->0) {
        None
    } else {
        match fingerprint(p, hooked) {
            Some((agent, score)) => Some(
                (
                    score,
                    AttributionView {
                        agent,
                        confidence: if score >= 30 {
                            "medium"@
                        } else {
                            "low"@
                        },
                        session_id: None,
                        tool_name: None,
                        pid: Some(p.pid as i64),
                        process_name: Some(p.name),
                    },
                ),
            ),
            None => None,
        }
    }
}

/// The first of the programs that look most like an agent, with how much it does.
pub open spec fn prime_suspect(
    root: Seq<char>,
    self_pid: u32,
    hooked: HookedAgentView,
    ps: Seq<ProcessInfoView>,
) -> Option<(u8, AttributionView)>
    decreases ps.len(),
{
    if ps.len() == 0 {
        None
    } else {
        let best = prime_suspect(root, self_pid, hooked, ps.drop_last());
        match (suspect(root, self_pid, hooked, ps.last()), best) {
            (Some(x), Some(b)) => if x.0 > b.0 {
                Some(x)
            } else {
                Some(b)
            },
            (Some(x), None) => Some(x),
            (None, b) => b,
        }
    }
}

/// Who the running programs say changed a file.
pub open spec fn by_programs(
    root: Seq<char>,
    self_pid: u32,
    hooked: HookedAgentView,
    ps: Seq<ProcessInfoView>,
) -> Option<AttributionView> {
    match prime_suspect(root, self_pid, hooked, ps) {
        Some((_, who)) => Some(who),
        None => None,
    }
}

fn suspicion(root: &str, self_pid: u32, hooked: &HookedAgent, p: &ProcessInfo) -> (r: Option<
    (u8, Attribution),
>)
    ensures
        r.deep_view() == suspect(root@, self_pid, hooked.deep_view(), p.deep_view()),
{
    if p.pid == self_pid {
        return None;
    }
    match &p.cwd {
        Some(cwd) => {
            if !is_under(root, cwd.as_str()) {
                return None;
            }
        },
        None => {
            return None;
        },
    }
    match fingerprint_process(p, hooked) {
        Some((agent, score)) => {
            let confidence = if score >= 30 {
                "medium"
            } else {
                "low"
            };
            Some(
                (
                    score,
                    Attribution {
                        agent,
                        confidence: confidence.to_owned(),
                        session_id: None,
                        tool_name: None,
                        pid: Some(p.pid as i64),
                        process_name: Some(p.name.clone()),
                    },
                ),
            )
        },
        None => None,
    }
}

/// Who the running programs say changed a file: the first of those that look most like an agent.
pub fn heuristic_attribution(
    root: &str,
    self_pid: u32,
    hooked: &HookedAgent,
    processes: &Vec<ProcessInfo>,
) -> (r: Option<Attribution>)
    ensures
        r.deep_view() == by_programs(root@, self_pid, hooked.deep_view(), processes.deep_view()),
{
    let ghost d = processes.deep_view();
    let mut best: Option<(u8, Attribution)> = None;
    let mut i: usize = 0;
    assert(d.take(0).len() == 0);
    while i < processes.len()
        invariant
            i <= processes.len(),
            d == processes.deep_view(),
            best.deep_view() == prime_suspect(root@, self_pid, hooked.deep_view(), d.take(i as int)),
        decreases processes.len() - i,
    {
        proof {
            assert(d[i as int] == processes@[i as int].deep_view());
            assert(d.take(i + 1).drop_last() =~= d.take(i as int));
            assert(d.take(i + 1).last() == d[i as int]);
        }
        if let Some(x) = suspicion(root, self_pid, hooked, &processes[i]) {
            let better = match &best {
                Some(b) => x.0 > b.0,
                None => true,
            };
            if better {
                best = Some(x);
            }
        }
        i = i + 1;
    }
    assert(d.take(d.len() as int) =~= d);
    match best {
        Some((_, who)) => Some(who),
        None => None,
    }
}

/// A change that nobody is known to have made.
pub open spec fn by_nobody() -> AttributionView {
    AttributionView {
        agent: "unknown"@,
        confidence: "none"@,
        session_id: None,
        tool_name: None,
        pid: None,
        process_name: None,
    }
}

/// Who changed a file: the active session, or else who the running programs say.
pub open spec fn culprit(
    marker: MarkerView,
    root: Seq<char>,
    self_pid: u32,
    hooked: HookedAgentView,
    ps: Seq<ProcessInfoView>,
) -> AttributionView {
    match marker {
        MarkerView::Active(a) => by_session(a),
        _ => match by_programs(root, self_pid, hooked, ps) {
            Some(who) => who,
            None => by_nobody(),
        },
    }
}

/// Who changed a file: the active session, or else who the running programs say.
pub fn resolve_attribution(
    store: &Store,
    self_pid: u32,
    hooked: &HookedAgent,
    processes: &Vec<ProcessInfo>,
) -> (r: Attribution)
    ensures
        r.deep_view() == culprit(
            store.image().marker,
            store.layout().root,
            self_pid,
            hooked.deep_view(),
            processes.deep_view(),
        ),
{
    if let Marker::Active(a) = store.marker() {
        return from_active(a);
    }
    match heuristic_attribution(store.paths().root.as_str(), self_pid, hooked, processes) {
        Some(who) => who,
        None => Attribution {
            agent: "unknown".to_owned(),
            confidence: "none".to_owned(),
            session_id: None,
            tool_name: None,
            pid: None,
            process_name: None,
        },
    }
}

/// No program of the project looks more like an agent than the one that is taken, and where one
/// looks like an agent at all, one is taken.
pub proof fn law_best_match_is_taken(
    root: Seq<char>,
    self_pid: u32,
    hooked: HookedAgentView,
    ps: Seq<ProcessInfoView>,
    k: int,
)
    requires
        0 <= k < ps.len(),
        suspect(root, self_pid, hooked, ps[k]) is Some,
    ensures
        prime_suspect(root, self_pid, hooked, ps) is Some,
        (suspect(root, self_pid, hooked, ps[k])->0).0 <= (prime_suspect(root, self_pid, hooked, ps)->0).0,
        exists|n: int|
            0 <= n < ps.len() && #[trigger] suspect(root, self_pid, hooked, ps[n]) == prime_suspect(
                root,
                self_pid,
                hooked,
                ps,
            ),
    decreases ps.len(),
{
    let fewer = ps.drop_last();
    if k < fewer.len() {
        assert(fewer[k] == ps[k]);
        law_best_match_is_taken(root, self_pid, hooked, fewer, k);
        let n = choose|n: int|
            0 <= n < fewer.len() && #[trigger] suspect(root, self_pid, hooked, fewer[n]) == prime_suspect(
                root,
                self_pid,
                hooked,
                fewer,
            );
        assert(suspect(root, self_pid, hooked, ps[n]) == prime_suspect(root, self_pid, hooked, fewer));
        assert(suspect(root, self_pid, hooked, ps[ps.len() - 1]) == suspect(root, self_pid, hooked, ps.last()));
    } else {
        if prime_suspect(root, self_pid, hooked, fewer) is Some {
            lemma_prime_is_one(root, self_pid, hooked, fewer);
            let n = choose|n: int|
                0 <= n < fewer.len() && #[trigger] suspect(root, self_pid, hooked, fewer[n])
                    == prime_suspect(root, self_pid, hooked, fewer);
            assert(suspect(root, self_pid, hooked, ps[n]) == prime_suspect(root, self_pid, hooked, fewer));
        }
        assert(suspect(root, self_pid, hooked, ps[ps.len() - 1]) == suspect(root, self_pid, hooked, ps.last()));
    }
}

proof fn lemma_prime_is_one(
    root: Seq<char>,
    self_pid: u32,
    hooked: HookedAgentView,
    ps: Seq<ProcessInfoView>,
)
    requires
        prime_suspect(root, self_pid, hooked, ps) is Some,
    ensures
        exists|n: int|
            0 <= n < ps.len() && #[trigger] suspect(root, self_pid, hooked, ps[n]) == prime_suspect(
                root,
                self_pid,
                hooked,
                ps,
            ),
    decreases ps.len(),
{
    let fewer = ps.drop_last();
    let last = ps.len() - 1;
    assert(suspect(root, self_pid, hooked, ps[last]) == suspect(root, self_pid, hooked, ps.last()));
    if prime_suspect(root, self_pid, hooked, fewer) is Some {
        lemma_prime_is_one(root, self_pid, hooked, fewer);
        let n = choose|n: int|
            0 <= n < fewer.len() && #[trigger] suspect(root, self_pid, hooked, fewer[n]) == prime_suspect(
                root,
                self_pid,
                hooked,
                fewer,
            );
        assert(suspect(root, self_pid, hooked, ps[n]) == prime_suspect(root, self_pid, hooked, fewer));
    }
}

} // verus!
