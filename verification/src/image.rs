//! What a project holds, and the single changes that its operations are made of.
//!
//! An `Image` is the state of a project: the timeline, the object store, the working files and
//! the marker of the active session. An operation changes it by a list of effects, in order; the
//! same list, carried out on disk, brings the disk to the same state.
use vstd::prelude::*;

use crate::rows::{ActiveSession, EventRecord, FileState, PinRow, SessionRow};

verus! {

/// What stands at a path of the working tree.
#[derive(Debug)]
pub enum Entry {
    /// A regular file with its content.
    File(Vec<u8>),
    /// A directory.
    Directory,
    /// Anything else, such as a link to a directory.
    Special,
}

/// What stands at a path of the working tree.
pub enum EntryView {
    File(Seq<u8>),
    Directory,
    Special,
}

impl DeepView for Entry {
    type V = EntryView;

    open spec fn deep_view(&self) -> EntryView {
        match self {
            Entry::File(bytes) => EntryView::File(bytes@),
            Entry::Directory => EntryView::Directory,
            Entry::Special => EntryView::Special,
        }
    }
}

impl Clone for Entry {
    fn clone(&self) -> (r: Self)
        ensures
            r.deep_view() == self.deep_view(),
    {
        match self {
            Entry::File(bytes) => {
                let copy = bytes.clone();
                assert(copy@ =~= bytes@);
                Entry::File(copy)
            },
            Entry::Directory => Entry::Directory,
            Entry::Special => Entry::Special,
        }
    }
}

/// The marker that names the active session.
#[derive(Debug)]
pub enum Marker {
    /// There is no marker, or an empty one.
    Absent,
    /// There is a marker that cannot be read.
    Unreadable,
    /// The marker names a session.
    Active(ActiveSession),
}

/// The marker that names the active session.
pub enum MarkerView {
    Absent,
    Unreadable,
    Active(crate::rows::ActiveSessionView),
}

impl DeepView for Marker {
    type V = MarkerView;

    open spec fn deep_view(&self) -> MarkerView {
        match self {
            Marker::Absent => MarkerView::Absent,
            Marker::Unreadable => MarkerView::Unreadable,
            Marker::Active(a) => MarkerView::Active(a.deep_view()),
        }
    }
}

impl Clone for Marker {
    fn clone(&self) -> (r: Self)
        ensures
            r.deep_view() == self.deep_view(),
    {
        match self {
            Marker::Absent => Marker::Absent,
            Marker::Unreadable => Marker::Unreadable,
            Marker::Active(a) => Marker::Active(a.clone()),
        }
    }
}

/// One change to what a project holds.
#[derive(Debug)]
pub enum Effect {
    /// Append an event to the timeline.
    RecordEvent(EventRecord),
    /// Take an event out of the timeline.
    DeleteEvent(i64),
    /// Note the latest content of a tracked file.
    SetFileState { path: String, state: FileState },
    /// Stop tracking a file.
    DropFileState { path: String },
    /// Add a session, or replace the one with its id.
    PutSession(SessionRow),
    /// Add a pin.
    AddPin(PinRow),
    /// Store an object under its hash.
    PutObject { hash: String, stored: Vec<u8> },
    /// Remove the object under a hash.
    DropObject { hash: String },
    /// Write a working file.
    WriteFile { path: String, bytes: Vec<u8> },
    /// Remove a working file.
    RemoveFile { path: String },
    /// Write the marker of the active session.
    WriteMarker(ActiveSession),
    /// Remove the marker of the active session.
    ClearMarker,
}

/// One change to what a project holds.
pub enum EffectView {
    RecordEvent(crate::rows::EventRecordView),
    DeleteEvent(i64),
    SetFileState { path: Seq<char>, state: crate::rows::FileStateView },
    DropFileState { path: Seq<char> },
    PutSession(crate::rows::SessionRowView),
    AddPin(crate::rows::PinRowView),
    PutObject { hash: Seq<char>, stored: Seq<u8> },
    DropObject { hash: Seq<char> },
    WriteFile { path: Seq<char>, bytes: Seq<u8> },
    RemoveFile { path: Seq<char> },
    WriteMarker(crate::rows::ActiveSessionView),
    ClearMarker,
}

impl DeepView for Effect {
    type V = EffectView;

    open spec fn deep_view(&self) -> EffectView {
        match self {
            Effect::RecordEvent(r) => EffectView::RecordEvent(r.deep_view()),
            Effect::DeleteEvent(id) => EffectView::DeleteEvent(*id),
            Effect::SetFileState { path, state } => EffectView::SetFileState {
                path: path@,
                state: state.deep_view(),
            },
            Effect::DropFileState { path } => EffectView::DropFileState { path: path@ },
            Effect::PutSession(s) => EffectView::PutSession(s.deep_view()),
            Effect::AddPin(p) => EffectView::AddPin(p.deep_view()),
            Effect::PutObject { hash, stored } => EffectView::PutObject {
                hash: hash@,
                stored: stored@,
            },
            Effect::DropObject { hash } => EffectView::DropObject { hash: hash@ },
            Effect::WriteFile { path, bytes } => EffectView::WriteFile {
                path: path@,
                bytes: bytes@,
            },
            Effect::RemoveFile { path } => EffectView::RemoveFile { path: path@ },
            Effect::WriteMarker(a) => EffectView::WriteMarker(a.deep_view()),
            Effect::ClearMarker => EffectView::ClearMarker,
        }
    }
}

impl Clone for Effect {
    fn clone(&self) -> (r: Self)
        ensures
            r.deep_view() == self.deep_view(),
    {
        match self {
            Effect::RecordEvent(e) => Effect::RecordEvent(e.clone()),
            Effect::DeleteEvent(id) => Effect::DeleteEvent(*id),
            Effect::SetFileState { path, state } => Effect::SetFileState {
                path: path.clone(),
                state: state.clone(),
            },
            Effect::DropFileState { path } => Effect::DropFileState { path: path.clone() },
            Effect::PutSession(s) => Effect::PutSession(s.clone()),
            Effect::AddPin(p) => Effect::AddPin(p.clone()),
            Effect::PutObject { hash, stored } => {
                let copy = stored.clone();
                assert(copy@ =~= stored@);
                Effect::PutObject { hash: hash.clone(), stored: copy }
            },
            Effect::DropObject { hash } => Effect::DropObject { hash: hash.clone() },
            Effect::WriteFile { path, bytes } => {
                let copy = bytes.clone();
                assert(copy@ =~= bytes@);
                Effect::WriteFile { path: path.clone(), bytes: copy }
            },
            Effect::RemoveFile { path } => Effect::RemoveFile { path: path.clone() },
            Effect::WriteMarker(a) => Effect::WriteMarker(a.clone()),
            Effect::ClearMarker => Effect::ClearMarker,
        }
    }
}

/// What a project holds.
#[verifier::ext_equal]
pub struct Image {
    /// The events of the timeline, in the order in which they were recorded.
    pub events: Seq<crate::rows::EventRecordView>,
    /// The highest number that an event was ever given.
    pub last_event_id: i64,
    /// The sessions, in the order in which they were first seen.
    pub sessions: Seq<crate::rows::SessionRowView>,
    /// The pins, in the order in which they were made.
    pub pins: Seq<crate::rows::PinRowView>,
    /// The highest number that a pin was ever given.
    pub last_pin_id: i64,
    /// The latest known content of each tracked file.
    pub file_states: Map<Seq<char>, crate::rows::FileStateView>,
    /// The objects, by hash, as they are stored.
    pub objects: Map<Seq<char>, Seq<u8>>,
    /// The working tree, by path relative to the project root.
    pub files: Map<Seq<char>, EntryView>,
    /// The marker of the active session.
    pub marker: MarkerView,
}

/// A list of sessions with one session added, or put in the place of the one with its id.
pub open spec fn put_session(
    sessions: Seq<crate::rows::SessionRowView>,
    s: crate::rows::SessionRowView,
) -> Seq<crate::rows::SessionRowView> {
    if has_session(sessions, s.id) {
        sessions.map_values(|x: crate::rows::SessionRowView| if x.id == s.id { s } else { x })
    } else {
        sessions.push(s)
    }
}

/// Whether a list of sessions has one with the id.
pub open spec fn has_session(sessions: Seq<crate::rows::SessionRowView>, id: Seq<char>) -> bool {
    exists|i: int| 0 <= i < sessions.len() && (#[trigger] sessions[i]).id == id
}

/// The events other than the one with the number.
pub open spec fn without_event(
    events: Seq<crate::rows::EventRecordView>,
    id: i64,
) -> Seq<crate::rows::EventRecordView> {
    events.filter(|e: crate::rows::EventRecordView| e.row.id != id)
}

/// What a project holds after one change.
pub open spec fn apply(i: Image, e: EffectView) -> Image {
    match e {
        EffectView::RecordEvent(r) => Image {
            events: i.events.push(r),
            last_event_id: r.row.id,
            ..i
        },
        EffectView::DeleteEvent(id) => Image { events: without_event(i.events, id), ..i },
        EffectView::SetFileState { path, state } => Image {
            file_states: i.file_states.insert(path, state),
            ..i
        },
        EffectView::DropFileState { path } => Image {
            file_states: i.file_states.remove(path),
            ..i
        },
        EffectView::PutSession(s) => Image { sessions: put_session(i.sessions, s), ..i },
        EffectView::AddPin(p) => Image { pins: i.pins.push(p), last_pin_id: p.id, ..i },
        EffectView::PutObject { hash, stored } => Image {
            objects: i.objects.insert(hash, stored),
            ..i
        },
        EffectView::DropObject { hash } => Image { objects: i.objects.remove(hash), ..i },
        EffectView::WriteFile { path, bytes } => Image {
            files: i.files.insert(path, EntryView::File(bytes)),
            ..i
        },
        EffectView::RemoveFile { path } => Image { files: i.files.remove(path), ..i },
        EffectView::WriteMarker(a) => Image { marker: MarkerView::Active(a), ..i },
        EffectView::ClearMarker => Image { marker: MarkerView::Absent, ..i },
    }
}

/// What a project holds after a list of changes, in order.
pub open spec fn replay(i: Image, effects: Seq<EffectView>) -> Image
    decreases effects.len(),
{
    if effects.len() == 0 {
        i
    } else {
        apply(replay(i, effects.drop_last()), effects.last())
    }
}

/// Carrying out one list of changes and then another is carrying out both as one list.
pub proof fn lemma_replay_concat(i: Image, a: Seq<EffectView>, b: Seq<EffectView>)
    ensures
        replay(i, a + b) == replay(replay(i, a), b),
    decreases b.len(),
{
    if b.len() == 0 {
        assert(a + b =~= a);
    } else {
        lemma_replay_concat(i, a, b.drop_last());
        assert((a + b).drop_last() =~= a + b.drop_last());
        assert((a + b).last() == b.last());
    }
}

/// Carrying out one more change.
pub proof fn lemma_replay_push(i: Image, a: Seq<EffectView>, e: EffectView)
    ensures
        replay(i, a.push(e)) == apply(replay(i, a), e),
{
    assert(a.push(e).drop_last() =~= a);
}

/// Lists of no, one and two changes.
pub proof fn lemma_replay_few(i: Image, a: EffectView, b: EffectView)
    ensures
        replay(i, Seq::<EffectView>::empty()) == i,
        replay(i, seq![a]) == apply(i, a),
        replay(i, seq![a, b]) == apply(apply(i, a), b),
{
    assert(seq![a] =~= Seq::<EffectView>::empty().push(a));
    lemma_replay_push(i, Seq::<EffectView>::empty(), a);
    assert(seq![a, b] =~= seq![a].push(b));
    lemma_replay_push(i, seq![a], b);
}

} // verus!
