//! Why an operation could not be carried out.
use vstd::prelude::*;

use crate::text::signed_text;

verus! {

broadcast use vstd::string::group_string_axioms;

/// Why an operation could not be carried out.
#[derive(Debug)]
pub enum Failure {
    /// Some content could not be compressed.
    Encode,
    /// The timeline has given out its last number.
    Full,
    /// There is no object under a hash.
    NoObject { hash: String },
    /// The content to restore is not there.
    NoBlob { hash: String },
    /// A directory stands where a file was to be restored.
    Directory { path: String },
    /// There is no event with a number.
    NoEvent { id: i64 },
    /// The event says that there was no content on the side that was asked for.
    NoContent { id: i64, before: bool },
    /// No user or agent has changed a file.
    NoUndoable { path: String },
    /// There is no pin with a label.
    NoPin { label: String },
    /// No user or agent has changed any file.
    NoRecentEvents,
    /// There is no session.
    NoSessions,
    /// There is no pin.
    NoPins,
    /// The metadata of a session is no JSON document.
    Metadata,
    /// The marker of the active session cannot be read.
    Marker { path: String },
    /// There is no report on the lines of a file.
    NoBlame { path: String },
}

/// Why an operation could not be carried out.
pub enum FailureView {
    Encode,
    Full,
    NoObject { hash: Seq<char> },
    NoBlob { hash: Seq<char> },
    Directory { path: Seq<char> },
    NoEvent { id: i64 },
    NoContent { id: i64, before: bool },
    NoUndoable { path: Seq<char> },
    NoPin { label: Seq<char> },
    NoRecentEvents,
    NoSessions,
    NoPins,
    Metadata,
    Marker { path: Seq<char> },
    NoBlame { path: Seq<char> },
}

impl DeepView for Failure {
    type V = FailureView;

    open spec fn deep_view(&self) -> FailureView {
        match self {
            Failure::Encode => FailureView::Encode,
            Failure::Full => FailureView::Full,
            Failure::NoObject { hash } => FailureView::NoObject { hash: hash@ },
            Failure::NoBlob { hash } => FailureView::NoBlob { hash: hash@ },
            Failure::Directory { path } => FailureView::Directory { path: path@ },
            Failure::NoEvent { id } => FailureView::NoEvent { id: *id },
            Failure::NoContent { id, before } => FailureView::NoContent {
                id: *id,
                before: *before,
            },
            Failure::NoUndoable { path } => FailureView::NoUndoable { path: path@ },
            Failure::NoPin { label } => FailureView::NoPin { label: label@ },
            Failure::NoRecentEvents => FailureView::NoRecentEvents,
            Failure::NoSessions => FailureView::NoSessions,
            Failure::NoPins => FailureView::NoPins,
            Failure::Metadata => FailureView::Metadata,
            Failure::Marker { path } => FailureView::Marker { path: path@ },
            Failure::NoBlame { path } => FailureView::NoBlame { path: path@ },
        }
    }
}

/// Whether an operation failed in the given way.
pub open spec fn failed<T>(r: Result<T, Failure>, f: FailureView) -> bool {
    r matches Err(e) && e.deep_view() == f
}

/// How an operation came out: the failure, or none.
pub open spec fn outcome<T>(r: Result<T, Failure>) -> Option<FailureView> {
    match r {
        Ok(_) => None,
        Err(e) => Some(e.deep_view()),
    }
}

/// What the user is told of a failure.
pub open spec fn told(f: FailureView) -> Seq<char> {
    match f {
        FailureView::Encode => "could not compress the content"@,
        FailureView::Full => "database or disk is full"@,
        FailureView::NoObject { hash } => "No such file or directory (os error 2)"@,
        FailureView::NoBlob { hash } => "reading blob "@ + hash,
        FailureView::Directory { path } => path + " is a directory"@,
        FailureView::NoEvent { id } => "no event #"@ + crate::text::decimal_int(id as int),
        FailureView::NoContent { id, before } => "event #"@ + crate::text::decimal_int(id as int)
            + (if before {
            " has no before content (file did not exist at this event)"@
        } else {
            " has no after content (file was deleted at this event)"@
        }),
        FailureView::NoUndoable { path } => "no undoable events for "@ + path,
        FailureView::NoPin { label } => "no pin labeled '"@ + label + "'"@,
        FailureView::NoRecentEvents => "no recent events"@,
        FailureView::NoSessions => "no sessions found"@,
        FailureView::NoPins => "no pins found"@,
        FailureView::Metadata =>
            "`--metadata` must be valid JSON, for example '{\"prompt\":\"refactor auth\"}'"@,
        FailureView::Marker { path } => "parsing "@ + path,
        FailureView::NoBlame { path } => "no line attribution for "@ + path,
    }
}

/// Two texts in one.
pub(crate) fn joined(a: &str, b: &str) -> (r: String)
    ensures
        r@ == a@ + b@,
{
    let mut out = a.to_owned();
    out.append(b);
    out
}

impl Failure {
    /// What the user is told.
    pub fn message(&self) -> (r: String)
        ensures
            r@ == told(self.deep_view()),
    {
        match self {
            Failure::Encode => "could not compress the content".to_owned(),
            Failure::Full => "database or disk is full".to_owned(),
            Failure::NoObject { hash: _ } => "No such file or directory (os error 2)".to_owned(),
            Failure::NoBlob { hash } => joined("reading blob ", hash.as_str()),
            Failure::Directory { path } => joined(path.as_str(), " is a directory"),
            Failure::NoEvent { id } => joined("no event #", signed_text(*id).as_str()),
            Failure::NoContent { id, before } => {
                let mut out = joined("event #", signed_text(*id).as_str());
                if *before {
                    out.append(" has no before content (file did not exist at this event)");
                } else {
                    out.append(" has no after content (file was deleted at this event)");
                }
                out
            },
            Failure::NoUndoable { path } => joined("no undoable events for ", path.as_str()),
            Failure::NoPin { label } => {
                let mut out = joined("no pin labeled '", label.as_str());
                out.append("'");
                out
            },
            Failure::NoRecentEvents => "no recent events".to_owned(),
            Failure::NoSessions => "no sessions found".to_owned(),
            Failure::NoPins => "no pins found".to_owned(),
            Failure::Metadata =>
                "`--metadata` must be valid JSON, for example '{\"prompt\":\"refactor auth\"}'".to_owned(),
            Failure::Marker { path } => joined("parsing ", path.as_str()),
            Failure::NoBlame { path } => joined("no line attribution for ", path.as_str()),
        }
    }
}

/// An outcome has no failure where the result is good, and else the failure of the result.
pub proof fn law_an_outcome_is_that_of_its_result<T>(r: Result<T, Failure>, f: FailureView)
    ensures
        outcome(r) is None <==> r is Ok,
        r matches Err(e) ==> outcome(r) == Some(e.deep_view()),
        failed(r, f) <==> (r matches Err(e) && e.deep_view() == f),
{
}

} // verus!
