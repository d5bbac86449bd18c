//! The commands: what they ask, what they decide and what they print.
use vstd::prelude::*;

pub mod control;
pub mod doctor;
pub mod laws;
pub mod log;
pub mod reply;
pub mod undo;
pub mod wrap;

verus! {

broadcast use vstd::string::group_string_axioms;

/// One more line.
pub(crate) fn push_line(out: &mut Vec<String>, line: String)
    ensures
        final(out).deep_view() == old(out).deep_view().push(line@),
{
    let ghost before = out.deep_view();
    out.push(line);
    assert(out.deep_view() =~= before.push(line@));
}

/// No lines.
pub(crate) fn no_lines() -> (r: Vec<String>)
    ensures
        r.deep_view() == Seq::<Seq<char>>::empty(),
{
    let out: Vec<String> = Vec::new();
    assert(out.deep_view() =~= Seq::<Seq<char>>::empty());
    out
}

} // verus!
