//! The store: the timeline, the objects and the working files of a project.
use vstd::prelude::*;

pub mod changes;
pub mod collect;
pub mod laws;
pub mod outcomes;
pub mod queries;

use crate::image::{Effect, EffectView, Entry, EntryView, Image, Marker, MarkerView};
use crate::paths::{ProjectPaths, ProjectPathsView};
use crate::rows::{
    ActiveSession, EventRecord, EventRecordView, FileState, FileStateView, PinRow, PinRowView,
    SessionRow, SessionRowView,
};
use crate::table::{copied, TextMap};

verus! {

broadcast use vstd::string::group_string_axioms;

/// The storage layer of a project: what it holds, and the changes to it that are still to be
/// carried out on disk.
pub struct Store {
    paths: ProjectPaths,
    events: Vec<EventRecord>,
    last_event_id: i64,
    sessions: Vec<SessionRow>,
    pins: Vec<PinRow>,
    last_pin_id: i64,
    file_states: TextMap<FileState>,
    objects: TextMap<Vec<u8>>,
    files: TextMap<Entry>,
    marker: Marker,
    effects: Vec<Effect>,
    base: Ghost<Image>,
}

/// Whether events are numbered in the order in which they were recorded, by numbers from 1 up to
/// `last`.
pub open spec fn numbered(events: Seq<EventRecordView>, last: i64) -> bool {
    &&& 0 <= last
    &&& forall|i: int|
        0 <= i < events.len() ==> 0 < (#[trigger] events[i]).row.id <= last
    &&& forall|i: int, j: int|
        0 <= i < j < events.len() ==> (#[trigger] events[i]).row.id < (#[trigger] events[j]).row.id
}

/// Whether pins are numbered in the order in which they were made, by numbers from 1 up to
/// `last`.
pub open spec fn pins_numbered(pins: Seq<PinRowView>, last: i64) -> bool {
    &&& 0 <= last
    &&& forall|i: int| 0 <= i < pins.len() ==> 0 < (#[trigger] pins[i]).id <= last
    &&& forall|i: int, j: int|
        0 <= i < j < pins.len() ==> (#[trigger] pins[i]).id < (#[trigger] pins[j]).id
}

/// Whether no two sessions have one id.
pub open spec fn sessions_distinct(sessions: Seq<SessionRowView>) -> bool {
    forall|i: int, j: int|
        0 <= i < j < sessions.len() ==> (#[trigger] sessions[i]).id != (#[trigger] sessions[j]).id
}

/// What holds of the state of every project.
pub open spec fn sound(i: Image) -> bool {
    &&& numbered(i.events, i.last_event_id)
    &&& pins_numbered(i.pins, i.last_pin_id)
    &&& sessions_distinct(i.sessions)
}

impl Store {
    /// What the project holds.
    pub closed spec fn image(&self) -> Image {
        Image {
            events: self.events.deep_view(),
            last_event_id: self.last_event_id,
            sessions: self.sessions.deep_view(),
            pins: self.pins.deep_view(),
            last_pin_id: self.last_pin_id,
            file_states: self.file_states.deep_view(),
            objects: self.objects@.map_values(|v: Vec<u8>| v@),
            files: self.files.deep_view(),
            marker: self.marker.deep_view(),
        }
    }

    /// A store tracks finitely many files.
    pub proof fn lemma_tracks_finitely_many(&self)
        ensures
            self.image().file_states.dom().finite(),
    {
        self.file_states.lemma_finite();
        assert(self.image().file_states.dom() =~= self.file_states@.dom());
    }

    /// Where the parts of the project lie.
    pub closed spec fn layout(&self) -> ProjectPathsView {
        self.paths.deep_view()
    }

    /// What the project held before the changes that are still to be carried out.
    pub closed spec fn base(&self) -> Image {
        self.base@
    }

    /// The changes that are still to be carried out on disk, in order.
    pub closed spec fn pending(&self) -> Seq<EffectView> {
        self.effects.deep_view()
    }

    /// The store is consistent, and carrying out the pending changes leads to what it holds.
    pub open spec fn wf(&self) -> bool {
        &&& self.tables_ok()
        &&& sound(self.image())
        &&& self.image() == crate::image::replay(self.base(), self.pending())
    }

    /// The tables of the store are consistent.
    pub closed spec fn tables_ok(&self) -> bool {
        &&& self.file_states.wf()
        &&& self.objects.wf()
        &&& self.files.wf()
    }

    /// What an operation that consists of the given changes does.
    pub open spec fn did(before: Store, after: Store, effects: Seq<EffectView>) -> bool {
        &&& after.wf()
        &&& after.layout() == before.layout()
        &&& after.base() == before.base()
        &&& after.pending() == before.pending() + effects
        &&& after.image() == crate::image::replay(before.image(), effects)
    }

    proof fn lemma_did_one(before: Store, after: Store, e: Effect)
        requires
            before.wf(),
            after.tables_ok(),
            sound(after.image()),
            after.paths == before.paths,
            after.base == before.base,
            after.effects@ == before.effects@.push(e),
            after.image() == crate::image::apply(before.image(), e.deep_view()),
        ensures
            Store::did(before, after, seq![e.deep_view()]),
    {
        let v = e.deep_view();
        assert(after.pending() =~= before.pending().push(v));
        assert(before.pending().push(v) =~= before.pending() + seq![v]);
        crate::image::lemma_replay_push(before.base(), before.pending(), v);
        crate::image::lemma_replay_few(before.image(), v, v);
    }

    /// An operation made of two operations.
    pub proof fn lemma_did_both(
        a: Store,
        b: Store,
        c: Store,
        first: Seq<EffectView>,
        second: Seq<EffectView>,
    )
        requires
            Store::did(a, b, first),
            Store::did(b, c, second),
        ensures
            Store::did(a, c, first + second),
    {
        crate::image::lemma_replay_concat(a.image(), first, second);
        assert(a.pending() + first + second =~= a.pending() + (first + second));
    }

    /// An operation that changes nothing.
    pub proof fn lemma_did_nothing(a: Store)
        requires
            a.wf(),
        ensures
            Store::did(a, a, Seq::empty()),
    {
        assert(a.pending() + Seq::<EffectView>::empty() =~= a.pending());
    }

    /// A store that holds the same and has the same changes still to be carried out.
    pub(crate) fn copy(&self) -> (r: Store)
        requires
            self.wf(),
        ensures
            r.wf(),
            r.image() == self.image(),
            r.layout() == self.layout(),
            r.base() == self.base(),
            r.pending() == self.pending(),
    {
        let objects = copied(&self.objects);
        let r = Store {
            paths: self.paths.clone(),
            events: self.events.clone(),
            last_event_id: self.last_event_id,
            sessions: self.sessions.clone(),
            pins: self.pins.clone(),
            last_pin_id: self.last_pin_id,
            file_states: copied(&self.file_states),
            objects,
            files: copied(&self.files),
            marker: self.marker.clone(),
            effects: self.effects.clone(),
            base: Ghost(self.base@),
        };
        proof {
            assert(r.events.deep_view() =~= self.events.deep_view());
            assert(r.sessions.deep_view() =~= self.sessions.deep_view());
            assert(r.pins.deep_view() =~= self.pins.deep_view());
            assert(r.effects.deep_view() =~= self.effects.deep_view());
            assert(r.image().objects =~= self.image().objects) by {
                let a = r.objects;
                let b = self.objects;
                assert(a.deep_view().dom() =~= b.deep_view().dom());
                assert(a@.dom() =~= a.deep_view().dom());
                assert(b@.dom() =~= b.deep_view().dom());
                assert forall|k: Seq<char>| #[trigger] a@.contains_key(k) implies a@[k]@ == b@[k]@ by {
                    assert(a.deep_view()[k] == b.deep_view()[k]);
                    assert(a@[k].deep_view() =~= a@[k]@);
                    assert(b@[k].deep_view() =~= b@[k]@);
                }
            }
            assert(r.image() =~= self.image());
        }
        r
    }

    // --- single changes --------------------------------------------------------------------

    fn append_event(&mut self, r: EventRecord)
        requires
            old(self).wf(),
            r.row.id > old(self).image().last_event_id,
        ensures
            Store::did(*old(self), *final(self), seq![EffectView::RecordEvent(r.deep_view())]),
    {
        let ghost before = *self;
        self.last_event_id = r.row.id;
        self.events.push(r.clone());
        let e = Effect::RecordEvent(r);
        self.effects.push(e);
        proof {
            assert(self.image().events =~= before.image().events.push(r.deep_view()));
            assert(self.image() =~= crate::image::apply(before.image(), e.deep_view()));
            Store::lemma_did_one(before, *self, e);
        }
    }

    fn put_file_state(&mut self, path: &str, state: FileState)
        requires
            old(self).wf(),
        ensures
            Store::did(
                *old(self),
                *final(self),
                seq![EffectView::SetFileState { path: path@, state: state.deep_view() }],
            ),
    {
        let ghost before = *self;
        self.file_states.insert(path.to_owned(), state.clone());
        let e = Effect::SetFileState { path: path.to_owned(), state };
        self.effects.push(e);
        proof {
            assert(self.image().file_states =~= before.image().file_states.insert(
                path@,
                state.deep_view(),
            ));
            assert(self.image() =~= crate::image::apply(before.image(), e.deep_view()));
            Store::lemma_did_one(before, *self, e);
        }
    }

    fn drop_file_state(&mut self, path: &str)
        requires
            old(self).wf(),
        ensures
            Store::did(
                *old(self),
                *final(self),
                seq![EffectView::DropFileState { path: path@ }],
            ),
    {
        let ghost before = *self;
        self.file_states.remove(path);
        let e = Effect::DropFileState { path: path.to_owned() };
        self.effects.push(e);
        proof {
            assert(self.image().file_states =~= before.image().file_states.remove(path@));
            assert(self.image() =~= crate::image::apply(before.image(), e.deep_view()));
            Store::lemma_did_one(before, *self, e);
        }
    }

    fn put_object(&mut self, hash: &str, stored: Vec<u8>)
        requires
            old(self).wf(),
        ensures
            Store::did(
                *old(self),
                *final(self),
                seq![EffectView::PutObject { hash: hash@, stored: stored@ }],
            ),
    {
        let ghost before = *self;
        let copy = stored.clone();
        assert(copy@ =~= stored@);
        self.objects.insert(hash.to_owned(), copy);
        let e = Effect::PutObject { hash: hash.to_owned(), stored };
        self.effects.push(e);
        proof {
            assert(self.image().objects =~= before.image().objects.insert(hash@, stored@));
            assert(self.image() =~= crate::image::apply(before.image(), e.deep_view()));
            Store::lemma_did_one(before, *self, e);
        }
    }

    fn drop_object(&mut self, hash: &str)
        requires
            old(self).wf(),
        ensures
            Store::did(
                *old(self),
                *final(self),
                seq![EffectView::DropObject { hash: hash@ }],
            ),
    {
        let ghost before = *self;
        self.objects.remove(hash);
        let e = Effect::DropObject { hash: hash.to_owned() };
        self.effects.push(e);
        proof {
            assert(self.image().objects =~= before.image().objects.remove(hash@));
            assert(self.image() =~= crate::image::apply(before.image(), e.deep_view()));
            Store::lemma_did_one(before, *self, e);
        }
    }

    /// Writes a working file.
    pub fn write_file(&mut self, path: &str, bytes: Vec<u8>)
        requires
            old(self).wf(),
        ensures
            Store::did(
                *old(self),
                *final(self),
                seq![EffectView::WriteFile { path: path@, bytes: bytes@ }],
            ),
    {
        let ghost before = *self;
        let copy = bytes.clone();
        assert(copy@ =~= bytes@);
        self.files.insert(path.to_owned(), Entry::File(copy));
        let e = Effect::WriteFile { path: path.to_owned(), bytes };
        self.effects.push(e);
        proof {
            assert(self.image().files =~= before.image().files.insert(
                path@,
                EntryView::File(bytes@),
            ));
            assert(self.image() =~= crate::image::apply(before.image(), e.deep_view()));
            Store::lemma_did_one(before, *self, e);
        }
    }

    /// Removes a working file.
    pub fn remove_file(&mut self, path: &str)
        requires
            old(self).wf(),
        ensures
            Store::did(
                *old(self),
                *final(self),
                seq![EffectView::RemoveFile { path: path@ }],
            ),
    {
        let ghost before = *self;
        self.files.remove(path);
        let e = Effect::RemoveFile { path: path.to_owned() };
        self.effects.push(e);
        proof {
            assert(self.image().files =~= before.image().files.remove(path@));
            assert(self.image() =~= crate::image::apply(before.image(), e.deep_view()));
            Store::lemma_did_one(before, *self, e);
        }
    }

    fn append_pin(&mut self, p: PinRow)
        requires
            old(self).wf(),
            p.id > old(self).image().last_pin_id,
        ensures
            Store::did(*old(self), *final(self), seq![EffectView::AddPin(p.deep_view())]),
    {
        let ghost before = *self;
        self.last_pin_id = p.id;
        self.pins.push(p.clone());
        let e = Effect::AddPin(p);
        self.effects.push(e);
        proof {
            assert(self.image().pins =~= before.image().pins.push(p.deep_view()));
            assert(self.image() =~= crate::image::apply(before.image(), e.deep_view()));
            Store::lemma_did_one(before, *self, e);
        }
    }

    /// Writes the marker of the active session.
    pub fn write_marker(&mut self, a: ActiveSession)
        requires
            old(self).wf(),
        ensures
            Store::did(*old(self), *final(self), seq![EffectView::WriteMarker(a.deep_view())]),
    {
        let ghost before = *self;
        self.marker = Marker::Active(a.clone());
        let e = Effect::WriteMarker(a);
        self.effects.push(e);
        proof {
            assert(self.image() =~= crate::image::apply(before.image(), e.deep_view()));
            Store::lemma_did_one(before, *self, e);
        }
    }

    /// Removes the marker of the active session.
    pub fn clear_marker(&mut self)
        requires
            old(self).wf(),
        ensures
            Store::did(*old(self), *final(self), seq![EffectView::ClearMarker]),
    {
        let ghost before = *self;
        self.marker = Marker::Absent;
        let e = Effect::ClearMarker;
        self.effects.push(e);
        proof {
            assert(self.image() =~= crate::image::apply(before.image(), e.deep_view()));
            Store::lemma_did_one(before, *self, e);
        }
    }

    // --- opening and loading ---------------------------------------------------------------

    /// Where the parts of the project lie.
    pub fn paths(&self) -> (r: &ProjectPaths)
        ensures
            r.deep_view() == self.layout(),
    {
        &self.paths
    }

    /// A store for a project that holds nothing yet.
    pub fn init(paths: ProjectPaths) -> (r: Store)
        ensures
            r.wf(),
            r.layout() == paths.deep_view(),
            r.pending().len() == 0,
            r.image() == empty_image(),
    {
        let r = Store {
            paths,
            events: Vec::new(),
            last_event_id: 0,
            sessions: Vec::new(),
            pins: Vec::new(),
            last_pin_id: 0,
            file_states: TextMap::new(),
            objects: TextMap::new(),
            files: TextMap::new(),
            marker: Marker::Absent,
            effects: Vec::new(),
            base: Ghost(empty_image()),
        };
        assert(r.image() =~= empty_image());
        assert(r.pending() =~= Seq::<EffectView>::empty());
        r
    }

    /// A store for a project whose timeline was read from disk; `None` where its rows are not
    /// numbered as a timeline is.
    pub fn open(paths: ProjectPaths, tables: Tables) -> (r: Option<Store>)
        ensures
            r is Some == sound(loaded_image(tables)),
            r matches Some(s) ==> {
                &&& s.wf()
                &&& s.layout() == paths.deep_view()
                &&& s.pending().len() == 0
                &&& s.image() == loaded_image(tables)
            },
    {
        if !events_are_numbered(&tables.events, tables.last_event_id) || !pins_are_numbered(
            &tables.pins,
            tables.last_pin_id,
        ) || !sessions_are_distinct(&tables.sessions) {
            return None;
        }
        let mut file_states: TextMap<FileState> = TextMap::new();
        let ghost listed = tables.file_states.deep_view();
        let mut i: usize = 0;
        assert(file_states.deep_view() =~= Map::<Seq<char>, FileStateView>::empty());
        while i < tables.file_states.len()
            invariant
                i <= tables.file_states.len(),
                listed == tables.file_states.deep_view(),
                file_states.wf(),
                file_states.deep_view() == map_of(listed.take(i as int)),
            decreases tables.file_states.len() - i,
        {
            let ghost so_far = file_states;
            let (path, state) = &tables.file_states[i];
            let copy = state.clone();
            file_states.insert(path.clone(), copy);
            i = i + 1;
            proof {
                assert(listed.take(i as int).drop_last() =~= listed.take(i - 1));
                assert(listed[i - 1] == (path@, state.deep_view()));
                assert(file_states.deep_view() =~= so_far.deep_view().insert(
                    path@,
                    state.deep_view(),
                ));
            }
        }
        assert(listed.take(listed.len() as int) =~= listed);
        let ghost base = loaded_image(tables);
        let r = Store {
            paths,
            events: tables.events,
            last_event_id: tables.last_event_id,
            sessions: tables.sessions,
            pins: tables.pins,
            last_pin_id: tables.last_pin_id,
            file_states,
            objects: TextMap::new(),
            files: TextMap::new(),
            marker: Marker::Absent,
            effects: Vec::new(),
            base: Ghost(base),
        };
        assert(r.image() =~= base);
        assert(r.pending() =~= Seq::<EffectView>::empty());
        Some(r)
    }

    /// Takes in what is stored on disk under a hash.
    pub fn load_object(&mut self, hash: &str, stored: Option<Vec<u8>>)
        requires
            old(self).wf(),
            old(self).pending().len() == 0,
        ensures
            final(self).wf(),
            final(self).layout() == old(self).layout(),
            final(self).pending().len() == 0,
            final(self).image() == (Image {
                objects: match stored {
                    Some(bytes) => old(self).image().objects.insert(hash@, bytes@),
                    None => old(self).image().objects.remove(hash@),
                },
                ..old(self).image()
            }),
    {
        let ghost before = self.image();
        match stored {
            Some(bytes) => {
                self.objects.insert(hash.to_owned(), bytes);
                assert(self.image().objects =~= before.objects.insert(hash@, bytes@));
            },
            None => {
                self.objects.remove(hash);
                assert(self.image().objects =~= before.objects.remove(hash@));
            },
        }
        self.base = Ghost(self.image());
    }

    /// Takes in what stands on disk at a path of the working tree.
    pub fn load_file(&mut self, path: &str, entry: Option<Entry>)
        requires
            old(self).wf(),
            old(self).pending().len() == 0,
        ensures
            final(self).wf(),
            final(self).layout() == old(self).layout(),
            final(self).pending().len() == 0,
            final(self).image() == (Image {
                files: match entry {
                    Some(e) => old(self).image().files.insert(path@, e.deep_view()),
                    None => old(self).image().files.remove(path@),
                },
                ..old(self).image()
            }),
    {
        let ghost before = self.image();
        match entry {
            Some(e) => {
                self.files.insert(path.to_owned(), e);
                assert(self.image().files =~= before.files.insert(path@, e.deep_view()));
            },
            None => {
                self.files.remove(path);
                assert(self.image().files =~= before.files.remove(path@));
            },
        }
        self.base = Ghost(self.image());
    }

    /// Takes in the marker of the active session as it stands on disk.
    pub fn load_marker(&mut self, marker: Marker)
        requires
            old(self).wf(),
            old(self).pending().len() == 0,
        ensures
            final(self).wf(),
            final(self).layout() == old(self).layout(),
            final(self).pending().len() == 0,
            final(self).image() == (Image { marker: marker.deep_view(), ..old(self).image() }),
    {
        self.marker = marker;
        self.base = Ghost(self.image());
    }

    /// Hands out the changes that are to be carried out on disk, in order.
    pub fn take_effects(&mut self) -> (r: Vec<Effect>)
        requires
            old(self).wf(),
        ensures
            final(self).wf(),
            final(self).layout() == old(self).layout(),
            final(self).image() == old(self).image(),
            final(self).pending().len() == 0,
            r.deep_view() == old(self).pending(),
            crate::image::replay(old(self).base(), r.deep_view()) == final(self).image(),
    {
        let mut out: Vec<Effect> = Vec::new();
        std::mem::swap(&mut out, &mut self.effects);
        self.base = Ghost(self.image());
        out
    }
}

/// The rows of a timeline, as they are read from disk.
pub struct Tables {
    pub events: Vec<EventRecord>,
    pub last_event_id: i64,
    pub sessions: Vec<SessionRow>,
    pub pins: Vec<PinRow>,
    pub last_pin_id: i64,
    pub file_states: Vec<(String, FileState)>,
}

/// A project that holds nothing.
pub open spec fn empty_image() -> Image {
    Image {
        events: Seq::empty(),
        last_event_id: 0,
        sessions: Seq::empty(),
        pins: Seq::empty(),
        last_pin_id: 0,
        file_states: Map::empty(),
        objects: Map::empty(),
        files: Map::empty(),
        marker: MarkerView::Absent,
    }
}

/// The map that a list of entries stands for; a later entry takes the place of an earlier one.
pub open spec fn map_of<T>(s: Seq<(Seq<char>, T)>) -> Map<Seq<char>, T>
    decreases s.len(),
{
    if s.len() == 0 {
        Map::empty()
    } else {
        map_of(s.drop_last()).insert(s.last().0, s.last().1)
    }
}

/// A project that holds a timeline, and of which no file has been read yet.
pub open spec fn loaded_image(tables: Tables) -> Image {
    Image {
        events: tables.events.deep_view(),
        last_event_id: tables.last_event_id,
        sessions: tables.sessions.deep_view(),
        pins: tables.pins.deep_view(),
        last_pin_id: tables.last_pin_id,
        file_states: map_of(tables.file_states.deep_view()),
        ..empty_image()
    }
}

fn events_are_numbered(events: &Vec<EventRecord>, last: i64) -> (r: bool)
    ensures
        r == numbered(events.deep_view(), last),
{
    let ghost s = events.deep_view();
    if last < 0 {
        return false;
    }
    let mut before: i64 = 0;
    let mut i: usize = 0;
    while i < events.len()
        invariant
            i <= events.len(),
            0 <= before <= last,
            s == events.deep_view(),
            forall|j: int| 0 <= j < i ==> 0 < (#[trigger] s[j]).row.id <= before,
            forall|j: int, k: int|
                0 <= j < k < i ==> (#[trigger] s[j]).row.id < (#[trigger] s[k]).row.id,
            i == 0 ==> before == 0,
            i > 0 ==> before == s[i - 1].row.id,
        decreases events.len() - i,
    {
        let id: i64 = events[i].row.id;
        assert(s[i as int].row.id == id);
        if id <= before || id > last {
            if i > 0 {
                assert(s[i - 1].row.id == before);
            }
            return false;
        }
        before = id;
        i = i + 1;
    }
    true
}

fn pins_are_numbered(pins: &Vec<PinRow>, last: i64) -> (r: bool)
    ensures
        r == pins_numbered(pins.deep_view(), last),
{
    let ghost s = pins.deep_view();
    if last < 0 {
        return false;
    }
    let mut before: i64 = 0;
    let mut i: usize = 0;
    while i < pins.len()
        invariant
            i <= pins.len(),
            0 <= before <= last,
            s == pins.deep_view(),
            forall|j: int| 0 <= j < i ==> 0 < (#[trigger] s[j]).id <= before,
            forall|j: int, k: int|
                0 <= j < k < i ==> (#[trigger] s[j]).id < (#[trigger] s[k]).id,
            i == 0 ==> before == 0,
            i > 0 ==> before == s[i - 1].id,
        decreases pins.len() - i,
    {
        let id: i64 = pins[i].id;
        assert(s[i as int].id == id);
        if id <= before || id > last {
            if i > 0 {
                assert(s[i - 1].id == before);
            }
            return false;
        }
        before = id;
        i = i + 1;
    }
    true
}

fn sessions_are_distinct(sessions: &Vec<SessionRow>) -> (r: bool)
    ensures
        r == sessions_distinct(sessions.deep_view()),
{
    let ghost s = sessions.deep_view();
    let mut seen: TextMap<bool> = TextMap::new();
    let mut i: usize = 0;
    while i < sessions.len()
        invariant
            i <= sessions.len(),
            s == sessions.deep_view(),
            seen.wf(),
            forall|j: int| 0 <= j < i ==> seen@.contains_key((#[trigger] s[j]).id),
            forall|k: Seq<char>| #[trigger]
                seen@.contains_key(k) ==> exists|j: int| 0 <= j < i && (#[trigger] s[j]).id == k,
            forall|j: int, k: int|
                0 <= j < k < i ==> (#[trigger] s[j]).id != (#[trigger] s[k]).id,
        decreases sessions.len() - i,
    {
        let ghost before = seen@;
        assert(s[i as int].id == sessions@[i as int].id@);
        if seen.contains_key(sessions[i].id.as_str()) {
            let ghost j = choose|j: int| 0 <= j < i && (#[trigger] s[j]).id == s[i as int].id;
            assert(s[j].id == s[i as int].id);
            return false;
        }
        seen.insert(sessions[i].id.clone(), true);
        assert forall|k: Seq<char>| #[trigger] seen@.contains_key(k) implies exists|j: int|
            0 <= j < i + 1 && (#[trigger] s[j]).id == k by {
            if k == s[i as int].id {
                assert(s[i as int].id == k);
            } else {
                assert(before.contains_key(k));
                let j = choose|j: int| 0 <= j < i && (#[trigger] s[j]).id == k;
                assert(s[j].id == k);
            }
        }
        i = i + 1;
    }
    true
}

} // verus!
