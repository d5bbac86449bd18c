//! What a change is put down to.
use vstd::prelude::*;

use super::{AttributionView, HookedAgentView, ProcessInfoView};
use crate::image::MarkerView;

verus! {

broadcast use vstd::string::group_string_axioms;

/// Whether the name, the file or the command line of a program mentions a word, in any case.
pub open spec fn mentions(p: ProcessInfoView, word: Seq<char>) -> bool {
    let exe = match p.exe {
        Some(exe) => exe,
        None => ""@,
    };
    crate::text::has_part(
        crate::text::lower(p.name) + " "@ + crate::text::lower(exe) + " "@ + crate::text::lower(
            super::spaced(p.cmd),
        ),
        word,
    )
}

/// Whether a program is this one.
pub open spec fn is_own(p: ProcessInfoView) -> bool {
    crate::text::lower(p.name) == "au"@ || crate::text::has_part(
        crate::text::lower(p.name),
        "agent-undo"@,
    )
}

/// A command line holds each of its words.
proof fn lemma_spaced_holds(words: Seq<Seq<char>>, k: int)
    requires
        0 <= k < words.len(),
    ensures
        crate::text::has_part(super::spaced(words), words[k]),
    decreases words.len(),
{
    let word = words[k];
    assert(word.subrange(0, word.len() as int) =~= word);
    assert(crate::text::occurs_at(word, word, 0));
    if words.len() > 1 {
        let fewer = words.drop_last();
        let front = super::spaced(fewer);
        if k < fewer.len() {
            lemma_spaced_holds(fewer, k);
            assert(fewer[k] == word);
            crate::text::laws::lemma_part_of_longer(
                Seq::empty(),
                front,
                " "@ + words.last(),
                word,
            );
            assert(super::spaced(words) =~= Seq::<char>::empty() + front + (" "@ + words.last()));
        } else {
            crate::text::laws::lemma_part_of_longer(front + " "@, word, Seq::empty(), word);
            assert(super::spaced(words) =~= front + " "@ + word + Seq::<char>::empty());
        }
    }
}

/// What a text holds, it holds in small letters too.
proof fn lemma_lower_holds(s: Seq<char>, part: Seq<char>)
    requires
        crate::text::has_part(s, part),
    ensures
        crate::text::has_part(crate::text::lower(s), crate::text::lower(part)),
{
    let at = choose|at: int| #[trigger] crate::text::occurs_at(s, part, at);
    let t = crate::text::lower(s);
    let q = crate::text::lower(part);
    assert(t.subrange(at, at + q.len()) =~= q) by {
        assert forall|k: int| 0 <= k < q.len() implies t.subrange(at, at + q.len())[k] == q[k] by {
            assert(s.subrange(at, at + part.len())[k] == part[k]);
        }
    }
    assert(crate::text::occurs_at(t, q, at));
}

/// A program mentions what its name holds, what its file holds, and every word of its command
/// line, in small letters.
pub proof fn law_a_program_mentions_what_it_is_called(p: ProcessInfoView, word: Seq<char>, k: int)
    ensures
        crate::text::has_part(crate::text::lower(p.name), word) ==> mentions(p, word),
        p.exe matches Some(exe) ==> crate::text::has_part(crate::text::lower(exe), word)
            ==> mentions(p, word),
        0 <= k < p.cmd.len() && crate::text::has_part(crate::text::lower(p.cmd[k]), word)
            ==> mentions(p, word),
{
    let exe = match p.exe {
        Some(exe) => exe,
        None => ""@,
    };
    let name = crate::text::lower(p.name);
    let file = crate::text::lower(exe);
    let line = crate::text::lower(super::spaced(p.cmd));
    let whole = name + " "@ + file + " "@ + line;
    if crate::text::has_part(name, word) {
        crate::text::laws::lemma_part_of_longer(
            Seq::empty(),
            name,
            " "@ + file + " "@ + line,
            word,
        );
        assert(whole =~= Seq::<char>::empty() + name + (" "@ + file + " "@ + line));
    }
    if crate::text::has_part(file, word) {
        crate::text::laws::lemma_part_of_longer(name + " "@, file, " "@ + line, word);
        assert(whole =~= name + " "@ + file + (" "@ + line));
    }
    if 0 <= k < p.cmd.len() && crate::text::has_part(crate::text::lower(p.cmd[k]), word) {
        lemma_spaced_holds(p.cmd, k);
        lemma_lower_holds(super::spaced(p.cmd), p.cmd[k]);
        let small = crate::text::lower(p.cmd[k]);
        let at = choose|at: int| #[trigger] crate::text::occurs_at(line, small, at);
        crate::text::laws::lemma_part_of_longer(
            line.take(at),
            small,
            line.skip(at + small.len()),
            word,
        );
        assert(line =~= line.take(at) + small + line.skip(at + small.len())) by {
            assert(line.subrange(at, at + small.len()) == small);
        }
        crate::text::laws::lemma_part_of_longer(
            name + " "@ + file + " "@,
            line,
            Seq::empty(),
            word,
        );
        assert(whole =~= name + " "@ + file + " "@ + line + Seq::<char>::empty());
    }
}

/// A program counts as the first agent of the list that it mentions, and as none where it mentions
/// none or is this program.
pub proof fn law_a_program_counts_as_the_agent_it_mentions(
    p: ProcessInfoView,
    hooked: HookedAgentView,
)
    ensures
        ({
            let f = super::fingerprint(p, hooked);
            &&& is_own(p) ==> f is None
            &&& !is_own(p) && mentions(p, "cursor"@) ==> f == Some(("cursor"@, 40u8))
            &&& !is_own(p) && !mentions(p, "cursor"@) && mentions(p, hooked.mark) ==> f == Some(
                (hooked.id, 40u8),
            )
            &&& !is_own(p) && !mentions(p, "cursor"@) && !mentions(p, hooked.mark) ==> {
                &&& mentions(p, "aider"@) ==> f == Some(("aider"@, 35u8))
                &&& !mentions(p, "aider"@) && mentions(p, "codex"@) ==> f == Some(
                    ("codex"@, 35u8),
                )
                &&& !mentions(p, "aider"@) && !mentions(p, "codex"@) && mentions(p, "cline"@)
                    ==> f == Some(("cline"@, 30u8))
                &&& f matches Some(x) ==> mentions(p, "aider"@) || mentions(p, "codex"@)
                    || mentions(p, "cline"@) || (mentions(p, "continue.continue"@) && x == (
                    "continue"@,
                    30u8,
                ))
                &&& mentions(p, "continue.continue"@) && (crate::text::has_part(
                    crate::text::lower(p.name),
                    "node"@,
                ) || (p.exe matches Some(exe) && crate::text::has_part(
                    crate::text::lower(exe),
                    "node"@,
                ))) ==> f is Some
                &&& !mentions(p, "aider"@) && !mentions(p, "codex"@) && !mentions(p, "cline"@)
                    && !crate::text::has_part(
                    crate::text::lower(p.name) + " "@ + crate::text::lower(
                        match p.exe {
                            Some(exe) => exe,
                            None => ""@,
                        },
                    ),
                    "node"@,
                ) ==> f is None
            }
        }),
{
    if crate::text::has_part(crate::text::lower(p.name), "node"@) {
        let name = crate::text::lower(p.name);
        let file = crate::text::lower(
            match p.exe {
                Some(exe) => exe,
                None => ""@,
            },
        );
        crate::text::laws::lemma_part_of_longer(Seq::empty(), name, " "@ + file, "node"@);
        assert(name + " "@ + file =~= Seq::<char>::empty() + name + (" "@ + file));
    }
    if let Some(exe) = p.exe {
        let name = crate::text::lower(p.name);
        let file = crate::text::lower(exe);
        if crate::text::has_part(file, "node"@) {
            crate::text::laws::lemma_part_of_longer(name + " "@, file, Seq::empty(), "node"@);
            assert(name + " "@ + file =~= name + " "@ + file + Seq::<char>::empty());
        }
    }
}

/// Whether a running program may have made a change: it is another one than this, it works at or
/// below the directory of the project, and it counts as an agent.
pub open spec fn may_have_done_it(
    root: Seq<char>,
    self_pid: u32,
    hooked: HookedAgentView,
    p: ProcessInfoView,
) -> bool {
    &&& p.pid != self_pid
    &&& p.cwd matches Some(cwd) && crate::parts::lies_under(root, cwd)
    &&& super::fingerprint(p, hooked) is Some
}

/// Whether the program at a place is the first of those that count most.
pub open spec fn is_first_of_the_best(
    root: Seq<char>,
    self_pid: u32,
    hooked: HookedAgentView,
    ps: Seq<ProcessInfoView>,
    n: int,
) -> bool {
    &&& 0 <= n < ps.len()
    &&& may_have_done_it(root, self_pid, hooked, ps[n])
    &&& forall|k: int|
        0 <= k < ps.len() && may_have_done_it(root, self_pid, hooked, #[trigger] ps[k]) ==> {
            let best = (super::fingerprint(ps[n], hooked)->0).1;
            let other = (super::fingerprint(ps[k], hooked)->0).1;
            other < best || (other == best && n <= k)
        }
}

/// What is said of a program that a change is put down to.
pub open spec fn is_put_down_to(
    p: ProcessInfoView,
    hooked: HookedAgentView,
    who: AttributionView,
) -> bool {
    &&& who.agent == (super::fingerprint(p, hooked)->0).0
    &&& who.pid == Some(p.pid as i64)
    &&& who.process_name == Some(p.name)
    &&& who.session_id is None
    &&& who.tool_name is None
    &&& who.confidence == (if (super::fingerprint(p, hooked)->0).1 >= 30 {
        "medium"@
    } else {
        "low"@
    })
}

proof fn lemma_prime(
    root: Seq<char>,
    self_pid: u32,
    hooked: HookedAgentView,
    ps: Seq<ProcessInfoView>,
) -> (n: int)
    ensures
        match super::prime_suspect(root, self_pid, hooked, ps) {
            Some((score, who)) => {
                &&& is_first_of_the_best(root, self_pid, hooked, ps, n)
                &&& is_put_down_to(ps[n], hooked, who)
                &&& score == (super::fingerprint(ps[n], hooked)->0).1
            },
            None => forall|k: int|
                0 <= k < ps.len() ==> !may_have_done_it(root, self_pid, hooked, #[trigger] ps[k]),
        },
    decreases ps.len(),
{
    if ps.len() == 0 {
        0
    } else {
        let fewer = ps.drop_last();
        let last = ps.len() - 1;
        let m = lemma_prime(root, self_pid, hooked, fewer);
        assert(forall|k: int| 0 <= k < last ==> #[trigger] ps[k] == fewer[k]);
        let best = super::prime_suspect(root, self_pid, hooked, fewer);
        let x = super::suspect(root, self_pid, hooked, ps[last]);
        assert(x is Some == may_have_done_it(root, self_pid, hooked, ps[last]));
        if best is Some && (x is None || (x->0).0 <= (best->0).0) {
            assert(fewer[m] == ps[m]);
            assert forall|k: int|
                0 <= k < ps.len() && may_have_done_it(
                    root,
                    self_pid,
                    hooked,
                    #[trigger] ps[k],
                ) implies {
                let top = (super::fingerprint(ps[m], hooked)->0).1;
                let other = (super::fingerprint(ps[k], hooked)->0).1;
                other < top || (other == top && m <= k)
            } by {
                if k < last {
                    assert(may_have_done_it(root, self_pid, hooked, fewer[k]));
                }
            }
            m
        } else {
            assert forall|k: int|
                0 <= k < last && may_have_done_it(
                    root,
                    self_pid,
                    hooked,
                    #[trigger] ps[k],
                ) implies best is Some && (super::fingerprint(ps[k], hooked)->0).1
                <= (best->0).0 by {
                assert(may_have_done_it(root, self_pid, hooked, fewer[k]));
            }
            last
        }
    }
}

/// A change is put down to the active session, where there is one. Otherwise it is put down to the
/// first of the running programs that count most as an agent, where one may have made it; and else
/// to nobody.
pub proof fn law_who_a_change_is_put_down_to(
    marker: MarkerView,
    root: Seq<char>,
    self_pid: u32,
    hooked: HookedAgentView,
    ps: Seq<ProcessInfoView>,
)
    ensures
        ({
            let who = super::culprit(marker, root, self_pid, hooked, ps);
            &&& marker matches MarkerView::Active(a) ==> {
                &&& who.agent == a.agent
                &&& who.confidence == "high"@
                &&& who.session_id == Some(a.session_id)
                &&& who.tool_name == a.tool_name
                &&& who.pid is None
                &&& who.process_name is None
            }
            &&& !(marker is Active) ==> forall|n: int| #[trigger]
                is_first_of_the_best(root, self_pid, hooked, ps, n) ==> is_put_down_to(
                    ps[n],
                    hooked,
                    who,
                )
            &&& !(marker is Active) && (forall|k: int|
                0 <= k < ps.len() ==> !may_have_done_it(root, self_pid, hooked, #[trigger] ps[k]))
                ==> who.agent == "unknown"@ && who.confidence == "none"@ && who.session_id is None
                && who.pid is None && who.process_name is None && who.tool_name is None
        }),
{
    let m = lemma_prime(root, self_pid, hooked, ps);
    assert forall|n: int| #[trigger]
        is_first_of_the_best(root, self_pid, hooked, ps, n) implies super::prime_suspect(
        root,
        self_pid,
        hooked,
        ps,
    ) is Some && n == m by {
        assert(may_have_done_it(root, self_pid, hooked, ps[n]));
        if super::prime_suspect(root, self_pid, hooked, ps) is Some {
            assert(may_have_done_it(root, self_pid, hooked, ps[m]));
        }
    }
}

} // verus!
