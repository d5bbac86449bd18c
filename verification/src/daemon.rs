//! The watcher: what is recorded when the first scan or a later change meets a file.
use vstd::prelude::*;

pub mod laws;

pub use crate::attribution::{
    fingerprint_process, from_active, heuristic_attribution, resolve_attribution, Attribution,
    AttributionView, HookedAgent, ProcessInfo, ProcessInfoView,
};
pub use crate::ignoring::{build_ignorer, should_skip, should_skip_transient, Ignorer};
pub use crate::parts::relative_path;

use crate::failure::{Failure, FailureView};
use crate::image::{EffectView, Image};
use crate::outside::{hash_hex, now_ns};
use crate::parts::key_of_path;
use crate::rows::{FileStateView, NewEvent, NewEventView};
use crate::store::Store;
use crate::table::{listed, TextMap};
use crate::text::same;

verus! {

broadcast use vstd::string::group_string_axioms;

/// For how long the watcher waits for one more change before it looks at those that have come.
pub const COALESCE_WINDOW_MS: u64 = 100;

// --- recording ---------------------------------------------------------------------------------

/// The event for a change to a file.
pub open spec fn change_event(
    path: Seq<char>,
    before: Option<(Seq<char>, i64)>,
    after: Option<(Seq<char>, i64)>,
    who: AttributionView,
    ts_ns: i64,
) -> NewEventView {
    NewEventView {
        ts_ns,
        path,
        before_hash: match before {
            Some(m) => Some(m.0),
            None => None,
        },
        after_hash: match after {
            Some(m) => Some(m.0),
            None => None,
        },
        size_before: match before {
            Some(m) => Some(m.1),
            None => None,
        },
        size_after: match after {
            Some(m) => Some(m.1),
            None => None,
        },
        attribution: who.agent,
        confidence: who.confidence,
        session_id: who.session_id,
        pid: who.pid,
        process_name: who.process_name,
        tool_name: who.tool_name,
    }
}

fn event_for(
    path: &str,
    before: &Option<(String, i64)>,
    after: &Option<(String, i64)>,
    who: &Attribution,
    ts_ns: i64,
) -> (r: NewEvent)
    ensures
        r.deep_view() == change_event(
            path@,
            before.deep_view(),
            after.deep_view(),
            who.deep_view(),
            ts_ns,
        ),
{
    NewEvent {
        ts_ns,
        path: path.to_owned(),
        before_hash: match before {
            Some(m) => Some(m.0.clone()),
            None => None,
        },
        after_hash: match after {
            Some(m) => Some(m.0.clone()),
            None => None,
        },
        size_before: match before {
            Some(m) => Some(m.1),
            None => None,
        },
        size_after: match after {
            Some(m) => Some(m.1),
            None => None,
        },
        attribution: who.agent.clone(),
        confidence: who.confidence.clone(),
        session_id: who.session_id.clone(),
        pid: who.pid,
        process_name: who.process_name.clone(),
        tool_name: who.tool_name.clone(),
    }
}

/// What recording a written file changes, and why it failed: the content is stored, the event is
/// recorded, and the content becomes the latest known one.
pub open spec fn noting_write(
    i: Image,
    path: Seq<char>,
    bytes: Seq<u8>,
    before: Option<(Seq<char>, i64)>,
    who: AttributionView,
    ts_ns: i64,
) -> (Seq<EffectView>, Option<FailureView>) {
    let hash = crate::outside::blake3_hex(bytes);
    let size = bytes.len() as i64;
    match crate::store::changes::blob_effects(i, bytes) {
        None => (Seq::empty(), Some(FailureView::Encode)),
        Some(saved) => if i.last_event_id == i64::MAX {
            (saved, Some(FailureView::Full))
        } else {
            (
                saved.push(
                    EffectView::RecordEvent(
                        crate::store::changes::recorded(
                            i,
                            change_event(path, before, Some((hash, size)), who, ts_ns),
                        ),
                    ),
                ).push(
                    EffectView::SetFileState {
                        path,
                        state: FileStateView {
                            latest_hash: hash,
                            latest_size: size,
                            latest_ts_ns: ts_ns,
                        },
                    },
                ),
                None,
            )
        },
    }
}

/// What recording a deleted file changes, and why it failed.
pub open spec fn noting_deletion(
    i: Image,
    path: Seq<char>,
    before: (Seq<char>, i64),
    who: AttributionView,
    ts_ns: i64,
) -> (Seq<EffectView>, Option<FailureView>) {
    if i.last_event_id == i64::MAX {
        (Seq::empty(), Some(FailureView::Full))
    } else {
        (
            seq![
                EffectView::RecordEvent(
                    crate::store::changes::recorded(
                        i,
                        change_event(path, Some(before), None, who, ts_ns),
                    ),
                ),
                EffectView::DropFileState { path },
            ],
            None,
        )
    }
}

/// Whether an operation made the changes it should and came out as it should.
pub open spec fn ran(
    before: Store,
    after: Store,
    run: (Seq<EffectView>, Option<FailureView>),
    outcome: Option<FailureView>,
) -> bool {
    Store::did(before, after, run.0) && outcome == run.1
}

fn note_write(
    store: &mut Store,
    path: &str,
    bytes: &Vec<u8>,
    before: &Option<(String, i64)>,
    who: &Attribution,
    ts_ns: i64,
) -> (r: Result<(), Failure>)
    requires
        old(store).wf(),
    ensures
        ran(
            *old(store),
            *final(store),
            noting_write(
                old(store).image(),
                path@,
                bytes@,
                before.deep_view(),
                who.deep_view(),
                ts_ns,
            ),
            crate::failure::outcome(r),
        ),
        r is Ok && crate::store::changes::welcomes(old(store).image(), bytes@)
            ==> crate::store::changes::keeps(final(store).image(), bytes@),
{
    let ghost start = *store;
    let ghost i = store.image();
    let size: i64 = bytes.len() as i64;
    let hash = match store.write_blob(bytes.as_slice()) {
        Ok(hash) => hash,
        Err(f) => {
            return Err(f);
        },
    };
    let ghost stored = *store;
    let ghost saved = crate::store::changes::blob_effects(i, bytes@)->0;
    proof {
        if saved.len() > 0 {
            crate::image::lemma_replay_few(i, saved[0], saved[0]);
            assert(saved =~= seq![saved[0]]);
        }
        assert(stored.image().last_event_id == i.last_event_id);
    }
    let after: Option<(String, i64)> = Some((hash, size));
    let event = event_for(path, before, &after, who, ts_ns);
    let ghost note = EffectView::RecordEvent(
        crate::store::changes::recorded(i, event.deep_view()),
    );
    match store.record_event(&event) {
        Ok(_) => {},
        Err(f) => {
            proof {
                Store::lemma_did_both(start, stored, *store, saved, Seq::empty());
                assert(saved + Seq::<EffectView>::empty() =~= saved);
            }
            return Err(f);
        },
    }
    let ghost noted = *store;
    let known = match &after {
        Some(m) => m.0.clone(),
        None => String::new(),
    };
    store.upsert_file_state(path, known.as_str(), size, ts_ns);
    proof {
        let set = EffectView::SetFileState {
            path: path@,
            state: FileStateView { latest_hash: hash@, latest_size: size, latest_ts_ns: ts_ns },
        };
        Store::lemma_did_both(start, stored, noted, saved, seq![note]);
        Store::lemma_did_both(start, noted, *store, saved + seq![note], seq![set]);
        assert(saved + seq![note] + seq![set] =~= saved.push(note).push(set));
        crate::image::lemma_replay_few(stored.image(), note, set);
        crate::image::lemma_replay_few(noted.image(), set, set);
    }
    Ok(())
}

fn note_deletion(
    store: &mut Store,
    path: &str,
    before: (String, i64),
    who: &Attribution,
    ts_ns: i64,
) -> (r: Result<(), Failure>)
    requires
        old(store).wf(),
    ensures
        ran(
            *old(store),
            *final(store),
            noting_deletion(
                old(store).image(),
                path@,
                before.deep_view(),
                who.deep_view(),
                ts_ns,
            ),
            crate::failure::outcome(r),
        ),
{
    let ghost start = *store;
    let ghost i = store.image();
    let was: Option<(String, i64)> = Some(before);
    let event = event_for(path, &was, &None, who, ts_ns);
    let ghost note = EffectView::RecordEvent(
        crate::store::changes::recorded(i, event.deep_view()),
    );
    match store.record_event(&event) {
        Ok(_) => {},
        Err(f) => {
            return Err(f);
        },
    }
    let ghost noted = *store;
    store.delete_file_state(path);
    proof {
        let forget = EffectView::DropFileState { path: path@ };
        Store::lemma_did_both(start, noted, *store, seq![note], seq![forget]);
        assert(seq![note] + seq![forget] =~= seq![note, forget]);
    }
    Ok(())
}

// --- the first scan ----------------------------------------------------------------------------

/// A file that the first scan has met: its path, how long it is, and its content, which need not be
/// read where the file is too long.
#[derive(Debug)]
pub struct Scanned {
    pub path: String,
    pub len: u64,
    pub bytes: Vec<u8>,
}

/// What `Scanned` holds.
#[verifier::ext_equal]
pub struct ScannedView {
    pub path: Seq<char>,
    pub len: u64,
    pub bytes: Seq<u8>,
}

impl DeepView for Scanned {
    type V = ScannedView;

    open spec fn deep_view(&self) -> ScannedView {
        ScannedView {
            path: self.path@,
            len: self.len,
            bytes: self.bytes@,
        }
    }
}

/// What the first scan is recorded as.
pub open spec fn by_scan() -> AttributionView {
    AttributionView {
        agent: "initial-scan"@,
        confidence: "high"@,
        session_id: None,
        tool_name: None,
        pid: None,
        process_name: None,
    }
}

/// What the first scan changes, how many files it records, and why it failed: every file that is
/// not too long is recorded as it is, up to the first that cannot be.
pub open spec fn scanning(
    i: Image,
    root: Seq<char>,
    files: Seq<ScannedView>,
    max_len: u64,
    ts_ns: i64,
) -> (Seq<EffectView>, nat, Option<FailureView>)
    decreases files.len(),
{
    if files.len() == 0 {
        (Seq::empty(), 0, None)
    } else {
        let done = scanning(i, root, files.drop_last(), max_len, ts_ns);
        let file = files.last();
        if done.2 is Some || file.len > max_len {
            done
        } else {
            let more = noting_write(
                crate::image::replay(i, done.0),
                crate::parts::relative(root, file.path),
                file.bytes,
                None,
                by_scan(),
                ts_ns,
            );
            (
                done.0 + more.0,
                if more.1 is None {
                    done.1 + 1
                } else {
                    done.1
                },
                more.1,
            )
        }
    }
}

proof fn lemma_scan_stops(
    i: Image,
    root: Seq<char>,
    files: Seq<ScannedView>,
    max_len: u64,
    ts_ns: i64,
    n: int,
)
    requires
        0 <= n <= files.len(),
        scanning(i, root, files.take(n), max_len, ts_ns).2 is Some,
    ensures
        scanning(i, root, files, max_len, ts_ns) == scanning(
            i,
            root,
            files.take(n),
            max_len,
            ts_ns,
        ),
    decreases files.len(),
{
    if n == files.len() {
        assert(files.take(n) =~= files);
    } else {
        assert(files.drop_last().take(n) =~= files.take(n));
        lemma_scan_stops(i, root, files.drop_last(), max_len, ts_ns, n);
    }
}

/// Whether no other file that is scanned has another content with the hash of the content of the
/// one at a place.
pub open spec fn is_lone(files: Seq<ScannedView>, max_len: u64, k: int) -> bool {
    forall|m: int|
        0 <= m < files.len() && (#[trigger] files[m]).len <= max_len && crate::outside::blake3_hex(
            files[m].bytes,
        ) == crate::outside::blake3_hex(files[k].bytes) ==> files[m].bytes == files[k].bytes
}

/// Whether the content of each file that is not too long can be read back after a scan, unless
/// something else was stored under its hash or another of the files has another content with that
/// hash.
pub open spec fn all_stored(
    before: Image,
    after: Image,
    files: Seq<ScannedView>,
    max_len: u64,
) -> bool {
    forall|k: int|
        0 <= k < files.len() && (#[trigger] files[k]).len <= max_len && is_lone(files, max_len, k)
            && crate::store::changes::welcomes(before, files[k].bytes)
            ==> crate::store::changes::keeps(after, files[k].bytes)
}

/// How far a scan has come: what it has met can be read back, and it has added no object but for
/// that.
spec fn storing(i: Image, now: Image, files: Seq<ScannedView>, max_len: u64, done: int) -> bool {
    &&& i.objects.submap_of(now.objects)
    &&& forall|hash: Seq<char>| #[trigger]
        now.objects.contains_key(hash) && !i.objects.contains_key(hash) ==> exists|k: int|
            0 <= k < done && (#[trigger] files[k]).len <= max_len && hash
                == crate::outside::blake3_hex(files[k].bytes)
    &&& forall|k: int|
        0 <= k < done && (#[trigger] files[k]).len <= max_len && is_lone(files, max_len, k)
            && crate::store::changes::welcomes(i, files[k].bytes) ==> crate::store::changes::keeps(
            now,
            files[k].bytes,
        )
}

/// The objects that recording a written file adds: none but one for its content.
proof fn lemma_write_adds(
    i: Image,
    path: Seq<char>,
    bytes: Seq<u8>,
    before: Option<(Seq<char>, i64)>,
    who: AttributionView,
    ts_ns: i64,
)
    ensures
        ({
            let j = crate::image::replay(i, noting_write(i, path, bytes, before, who, ts_ns).0);
            &&& i.objects.submap_of(j.objects)
            &&& forall|hash: Seq<char>| #[trigger]
                j.objects.contains_key(hash) && !i.objects.contains_key(hash) ==> hash
                    == crate::outside::blake3_hex(bytes)
        }),
{
    let run = noting_write(i, path, bytes, before, who, ts_ns);
    if let Some(saved) = crate::store::changes::blob_effects(i, bytes) {
        if saved.len() > 0 {
            crate::image::lemma_replay_few(i, saved[0], saved[0]);
            assert(saved =~= seq![saved[0]]);
        }
        if run.1 is None {
            let note = run.0[saved.len() as int];
            let set = run.0[(saved.len() + 1) as int];
            assert(run.0 =~= saved.push(note).push(set));
            crate::image::lemma_replay_push(i, saved, note);
            crate::image::lemma_replay_push(i, saved.push(note), set);
        }
    }
}

/// One more file.
proof fn lemma_storing(
    i: Image,
    now: Image,
    later: Image,
    files: Seq<ScannedView>,
    max_len: u64,
    done: int,
)
    requires
        0 <= done < files.len(),
        files[done].len <= max_len,
        storing(i, now, files, max_len, done),
        now.objects.submap_of(later.objects),
        forall|hash: Seq<char>| #[trigger]
            later.objects.contains_key(hash) && !now.objects.contains_key(hash) ==> hash
                == crate::outside::blake3_hex(files[done].bytes),
        crate::store::changes::welcomes(now, files[done].bytes) ==> crate::store::changes::keeps(
            later,
            files[done].bytes,
        ),
    ensures
        storing(i, later, files, max_len, done + 1),
{
    vstd::map_lib::lemma_submap_of_trans(i.objects, now.objects, later.objects);
    assert forall|hash: Seq<char>| #[trigger] later.objects.contains_key(hash)
        && !i.objects.contains_key(hash) implies exists|k: int|
        0 <= k < done + 1 && (#[trigger] files[k]).len <= max_len && hash
            == crate::outside::blake3_hex(files[k].bytes) by {
        if now.objects.contains_key(hash) {
            let k = choose|k: int|
                0 <= k < done && (#[trigger] files[k]).len <= max_len && hash
                    == crate::outside::blake3_hex(files[k].bytes);
            assert(files[k].len <= max_len);
        } else {
            assert(files[done].len <= max_len);
        }
    }
    assert forall|k: int|
        0 <= k < done + 1 && (#[trigger] files[k]).len <= max_len && is_lone(files, max_len, k)
            && crate::store::changes::welcomes(
            i,
            files[k].bytes,
        ) implies crate::store::changes::keeps(later, files[k].bytes) by {
        let hash = crate::outside::blake3_hex(files[k].bytes);
        if k < done {
            assert(crate::store::changes::keeps(now, files[k].bytes));
            assert(now.objects.contains_key(hash) ==> later.objects.contains_key(hash)
                && later.objects[hash] == now.objects[hash]);
        } else if i.objects.contains_key(hash) {
            assert(now.objects[hash] == i.objects[hash]);
        } else if now.objects.contains_key(hash) {
            let m = choose|m: int|
                0 <= m < done && (#[trigger] files[m]).len <= max_len && hash
                    == crate::outside::blake3_hex(files[m].bytes);
            assert(files[m].bytes == files[k].bytes);
            assert(is_lone(files, max_len, m));
            assert(crate::store::changes::keeps(now, files[m].bytes));
        }
    }
}

/// Whether the first scan recorded what it should at a time, and said how much.
pub open spec fn scans_at(
    before: Store,
    after: Store,
    files: Seq<ScannedView>,
    max_len: u64,
    ts_ns: i64,
    r: Result<usize, Failure>,
) -> bool {
    let run = scanning(before.image(), before.layout().root, files, max_len, ts_ns);
    &&& Store::did(before, after, run.0)
    &&& crate::failure::outcome(r) == run.2
    &&& r matches Ok(n) ==> n == run.1
}

/// Records every file that is not too long, at a given time.
pub fn initial_scan_at(store: &mut Store, files: &Vec<Scanned>, max_len: u64, ts_ns: i64) -> (r:
    Result<usize, Failure>)
    requires
        old(store).wf(),
    ensures
        scans_at(*old(store), *final(store), files.deep_view(), max_len, ts_ns, r),
        r is Ok ==> all_stored(
            old(store).image(),
            final(store).image(),
            files.deep_view(),
            max_len,
        ),
{
    let ghost start = *store;
    let ghost i = store.image();
    let ghost root = store.layout().root;
    let ghost d = files.deep_view();
    let who = Attribution {
        agent: "initial-scan".to_owned(),
        confidence: "high".to_owned(),
        session_id: None,
        tool_name: None,
        pid: None,
        process_name: None,
    };
    let nothing: Option<(String, i64)> = None;
    let mut count: usize = 0;
    let mut k: usize = 0;
    proof {
        Store::lemma_did_nothing(start);
        assert(d.take(0).len() == 0);
    }
    while k < files.len()
        invariant
            k <= files.len(),
            d == files.deep_view(),
            start == *old(store),
            i == start.image(),
            root == start.layout().root,
            who.deep_view() == by_scan(),
            nothing is None,
            store.wf(),
            count <= k,
            scanning(i, root, d.take(k as int), max_len, ts_ns).2 is None,
            count == scanning(i, root, d.take(k as int), max_len, ts_ns).1,
            Store::did(start, *store, scanning(i, root, d.take(k as int), max_len, ts_ns).0),
            storing(i, store.image(), d, max_len, k as int),
        decreases files.len() - k,
    {
        let ghost done = scanning(i, root, d.take(k as int), max_len, ts_ns);
        let ghost before = *store;
        let file = &files[k];
        proof {
            assert(d[k as int] == file.deep_view());
            assert(d.take(k + 1).drop_last() =~= d.take(k as int));
            assert(d.take(k + 1).last() == d[k as int]);
        }
        if file.len <= max_len {
            let rel = relative_path(store.paths().root.as_str(), file.path.as_str());
            let r = note_write(store, rel.as_str(), &file.bytes, &nothing, &who, ts_ns);
            proof {
                let more = noting_write(
                    before.image(),
                    rel@,
                    file.bytes@,
                    None,
                    by_scan(),
                    ts_ns,
                );
                Store::lemma_did_both(start, before, *store, done.0, more.0);
                if r is Ok {
                    lemma_write_adds(
                        before.image(),
                        rel@,
                        file.bytes@,
                        None,
                        by_scan(),
                        ts_ns,
                    );
                    lemma_storing(i, before.image(), store.image(), d, max_len, k as int);
                }
            }
            match r {
                Ok(()) => {
                    count = count + 1;
                },
                Err(f) => {
                    proof {
                        lemma_scan_stops(i, root, d, max_len, ts_ns, k + 1);
                    }
                    return Err(f);
                },
            }
        }
        k = k + 1;
    }
    assert(d.take(d.len() as int) =~= d);
    Ok(count)
}

/// Records every file that is not too long, so that later changes have a state before them; says
/// how many there were.
pub fn initial_scan(store: &mut Store, files: &Vec<Scanned>, max_len: u64) -> (r: Result<
    usize,
    Failure,
>)
    requires
        old(store).wf(),
    ensures
        exists|ts_ns: i64| #[trigger]
            scans_at(*old(store), *final(store), files.deep_view(), max_len, ts_ns, r),
        r is Ok ==> all_stored(
            old(store).image(),
            final(store).image(),
            files.deep_view(),
            max_len,
        ),
{
    let ts_ns: i64 = now_ns();
    initial_scan_at(store, files, max_len, ts_ns)
}

// --- a change ----------------------------------------------------------------------------------

/// What the watcher finds at a path. The content need not be read where the file is too long.
#[derive(Debug)]
pub enum Found {
    Missing,
    Directory,
    File { len: u64, bytes: Vec<u8> },
}

/// What the watcher finds at a path.
pub enum FoundView {
    Missing,
    Directory,
    File { len: u64, bytes: Seq<u8> },
}

impl DeepView for Found {
    type V = FoundView;

    open spec fn deep_view(&self) -> FoundView {
        match self {
            Found::Missing => FoundView::Missing,
            Found::Directory => FoundView::Directory,
            Found::File { len, bytes } => FoundView::File { len: *len, bytes: bytes@ },
        }
    }
}

/// The latest known hash and size of a tracked file.
pub open spec fn known_at(i: Image, rel: Seq<char>) -> Option<(Seq<char>, i64)> {
    if i.file_states.contains_key(rel) {
        Some((i.file_states[rel].latest_hash, i.file_states[rel].latest_size))
    } else {
        None
    }
}

/// Whether what is found at a path is a change: a tracked file is gone, or a file that is not too
/// long has another content than the latest known one.
pub open spec fn is_change(i: Image, rel: Seq<char>, found: FoundView, max_len: u64) -> bool {
    match found {
        FoundView::Missing => known_at(i, rel) is Some,
        FoundView::Directory => false,
        FoundView::File { len, bytes } => len <= max_len && !(i.file_states.contains_key(rel)
            && i.file_states[rel].latest_hash == crate::outside::blake3_hex(bytes)),
    }
}

/// What looking at a path changes, and why it failed.
pub open spec fn processing(
    i: Image,
    rel: Seq<char>,
    found: FoundView,
    max_len: u64,
    who: AttributionView,
    ts_ns: i64,
) -> (Seq<EffectView>, Option<FailureView>) {
    if !is_change(i, rel, found, max_len) {
        (Seq::empty(), None)
    } else {
        match found {
            FoundView::File { bytes, .. } => noting_write(
                i,
                rel,
                bytes,
                known_at(i, rel),
                who,
                ts_ns,
            ),
            _ => noting_deletion(i, rel, known_at(i, rel)->0, who, ts_ns),
        }
    }
}

/// Whether what is found at a path is a change (see `is_change`), so that it matters who made it.
pub fn changed(store: &Store, path: &str, found: &Found, max_len: u64) -> (r: bool)
    requires
        store.wf(),
    ensures
        r == is_change(
            store.image(),
            crate::parts::relative(store.layout().root, path@),
            found.deep_view(),
            max_len,
        ),
{
    let rel = relative_path(store.paths().root.as_str(), path);
    match found {
        Found::Missing => store.get_file_state(rel.as_str()).is_some(),
        Found::Directory => false,
        Found::File { len, bytes } => {
            if *len > max_len {
                return false;
            }
            let hash = hash_hex(bytes.as_slice());
            match store.get_file_state(rel.as_str()) {
                Some(known) => !same(known.0.as_str(), hash.as_str()),
                None => true,
            }
        },
    }
}

/// Records what is found at a path, if it is a change, as one that `who` made at a given time.
pub fn process_path_at(
    store: &mut Store,
    path: &str,
    found: &Found,
    max_len: u64,
    who: &Attribution,
    ts_ns: i64,
) -> (r: Result<(), Failure>)
    requires
        old(store).wf(),
    ensures
        ran(
            *old(store),
            *final(store),
            processing(
                old(store).image(),
                crate::parts::relative(old(store).layout().root, path@),
                found.deep_view(),
                max_len,
                who.deep_view(),
                ts_ns,
            ),
            crate::failure::outcome(r),
        ),
        found matches Found::File { bytes, .. } ==> r is Ok && is_change(
            old(store).image(),
            crate::parts::relative(old(store).layout().root, path@),
            found.deep_view(),
            max_len,
        ) && crate::store::changes::welcomes(old(store).image(), bytes@)
            ==> crate::store::changes::keeps(final(store).image(), bytes@),
{
    if !changed(store, path, found, max_len) {
        proof {
            Store::lemma_did_nothing(*store);
        }
        return Ok(());
    }
    let rel = relative_path(store.paths().root.as_str(), path);
    let known = store.get_file_state(rel.as_str());
    assert(known.deep_view() == known_at(store.image(), rel@));
    match found {
        Found::File { len: _, bytes } => note_write(
            store,
            rel.as_str(),
            bytes,
            &known,
            who,
            ts_ns,
        ),
        _ => match known {
            Some(before) => note_deletion(store, rel.as_str(), before, who, ts_ns),
            None => {
                proof {
                    Store::lemma_did_nothing(*store);
                }
                Ok(())
            },
        },
    }
}

/// Whether a path was looked at, at whatever time, and came out as it should.
pub open spec fn processes(
    before: Store,
    after: Store,
    rel: Seq<char>,
    found: FoundView,
    max_len: u64,
    who: AttributionView,
    outcome: Option<FailureView>,
) -> bool {
    exists|ts_ns: i64|
        ran(
            before,
            after,
            #[trigger] processing(before.image(), rel, found, max_len, who, ts_ns),
            outcome,
        )
}

/// Records what is found at a path, if it is a change. It is attributed to the active session, or
/// else to the running program that looks most like an agent.
pub fn process_path(
    store: &mut Store,
    path: &str,
    found: &Found,
    max_len: u64,
    self_pid: u32,
    hooked: &HookedAgent,
    running: &Vec<ProcessInfo>,
) -> (r: Result<(), Failure>)
    requires
        old(store).wf(),
    ensures
        processes(
            *old(store),
            *final(store),
            crate::parts::relative(old(store).layout().root, path@),
            found.deep_view(),
            max_len,
            crate::attribution::culprit(
                old(store).image().marker,
                old(store).layout().root,
                self_pid,
                hooked.deep_view(),
                running.deep_view(),
            ),
            crate::failure::outcome(r),
        ),
        found matches Found::File { bytes, .. } ==> r is Ok && is_change(
            old(store).image(),
            crate::parts::relative(old(store).layout().root, path@),
            found.deep_view(),
            max_len,
        ) && crate::store::changes::welcomes(old(store).image(), bytes@)
            ==> crate::store::changes::keeps(final(store).image(), bytes@),
{
    let ts_ns: i64 = now_ns();
    let who = resolve_attribution(store, self_pid, hooked, running);
    process_path_at(store, path, found, max_len, &who, ts_ns)
}

// --- a batch of changes ------------------------------------------------------------------------

/// What kind of change the watcher was told of.
#[derive(Debug, Clone, Copy, PartialEq, Eq, Structural)]
pub enum WatchKind {
    Create,
    Modify,
    Remove,
    Other,
}

/// A path that the watcher was told of.
#[derive(Debug)]
pub struct WatchedPath {
    pub path: String,
    pub is_dir: bool,
}

/// What `WatchedPath` holds.
#[verifier::ext_equal]
pub struct WatchedPathView {
    pub path: Seq<char>,
    pub is_dir: bool,
}

impl DeepView for WatchedPath {
    type V = WatchedPathView;

    open spec fn deep_view(&self) -> WatchedPathView {
        WatchedPathView {
            path: self.path@,
            is_dir: self.is_dir,
        }
    }
}

/// A change that the watcher was told of.
#[derive(Debug)]
pub struct WatchEvent {
    pub kind: WatchKind,
    pub paths: Vec<WatchedPath>,
}

/// What `WatchEvent` holds.
#[verifier::ext_equal]
pub struct WatchEventView {
    pub kind: WatchKind,
    pub paths: Seq<WatchedPathView>,
}

impl DeepView for WatchEvent {
    type V = WatchEventView;

    open spec fn deep_view(&self) -> WatchEventView {
        WatchEventView {
            kind: self.kind,
            paths: self.paths.deep_view(),
        }
    }
}

/// Whether a path is to be looked at.
pub open spec fn is_candidate(
    i: Image,
    root: Seq<char>,
    ignorer: crate::ignoring::IgnorerView,
    p: WatchedPathView,
) -> bool {
    !crate::ignoring::skipped(ignorer, p.path, p.is_dir) && !crate::ignoring::transient(
        i,
        root,
        p.path,
    )
}

/// The paths of a batch of changes, in the order in which they came; events that are no change are
/// passed over.
pub open spec fn batch_paths(batch: Seq<WatchEventView>) -> Seq<WatchedPathView>
    decreases batch.len(),
{
    if batch.len() == 0 {
        Seq::empty()
    } else {
        let e = batch.last();
        batch_paths(batch.drop_last()) + if e.kind == WatchKind::Other {
            Seq::empty()
        } else {
            e.paths
        }
    }
}

/// The paths that are to be looked at, each once, by their place in the order of paths.
pub open spec fn candidates_among(
    i: Image,
    root: Seq<char>,
    ignorer: crate::ignoring::IgnorerView,
    paths: Seq<WatchedPathView>,
) -> Map<Seq<char>, Seq<char>>
    decreases paths.len(),
{
    if paths.len() == 0 {
        Map::empty()
    } else {
        let m = candidates_among(i, root, ignorer, paths.drop_last());
        let p = paths.last();
        let key = crate::parts::path_key(p.path);
        if is_candidate(i, root, ignorer, p) && !m.contains_key(key) {
            m.insert(key, p.path)
        } else {
            m
        }
    }
}

/// The values of a list of entries.
pub open spec fn values_of(s: Seq<(Seq<char>, Seq<char>)>) -> Seq<Seq<char>> {
    s.map_values(|e: (Seq<char>, Seq<char>)| e.1)
}

/// Adds those of some paths to a table that are to be looked at and do not stand in it yet.
fn gather(
    store: &Store,
    ignorer: &Ignorer,
    map: &mut TextMap<String>,
    paths: &Vec<WatchedPath>,
    Ghost(before): Ghost<Seq<WatchedPathView>>,
)
    requires
        store.wf(),
        old(map).wf(),
        old(map).deep_view() == candidates_among(
            store.image(),
            store.layout().root,
            ignorer.deep_view(),
            before,
        ),
    ensures
        final(map).wf(),
        final(map).deep_view() == candidates_among(
            store.image(),
            store.layout().root,
            ignorer.deep_view(),
            before + paths.deep_view(),
        ),
{
    let ghost i = store.image();
    let ghost root = store.layout().root;
    let ghost rules = ignorer.deep_view();
    let ghost ps = paths.deep_view();
    let mut n: usize = 0;
    assert(before + ps.take(0) =~= before);
    while n < paths.len()
        invariant
            n <= paths.len(),
            store.wf(),
            i == store.image(),
            root == store.layout().root,
            rules == ignorer.deep_view(),
            ps == paths.deep_view(),
            map.wf(),
            map.deep_view() == candidates_among(i, root, rules, before + ps.take(n as int)),
        decreases paths.len() - n,
    {
        let p = &paths[n];
        let ghost so_far = *map;
        proof {
            assert(ps[n as int] == p.deep_view());
            let longer = before + ps.take(n + 1);
            assert(longer.drop_last() =~= before + ps.take(n as int));
            assert(longer.last() == ps[n as int]);
        }
        if !should_skip(ignorer, p.path.as_str(), p.is_dir) && !should_skip_transient(
            store,
            p.path.as_str(),
        ) {
            let key = key_of_path(p.path.as_str());
            assert(map.deep_view().contains_key(key@) == map@.contains_key(key@));
            if !map.contains_key(key.as_str()) {
                map.insert(key, p.path.clone());
                assert(map.deep_view() =~= so_far.deep_view().insert(key@, p.path@));
            }
        }
        n = n + 1;
    }
    assert(ps.take(ps.len() as int) =~= ps);
}

/// The paths of a batch of changes that are to be looked at, each once, in the order of paths:
/// those that are neither left alone nor scratch files.
pub fn batch_candidates(
    store: &Store,
    ignorer: &Ignorer,
    batch: &Vec<WatchEvent>,
) -> (r: Vec<String>)
    requires
        store.wf(),
    ensures
        r.deep_view() == values_of(
            crate::table::listing(
                candidates_among(
                    store.image(),
                    store.layout().root,
                    ignorer.deep_view(),
                    batch_paths(batch.deep_view()),
                ),
            ),
        ),
{
    let ghost i = store.image();
    let ghost root = store.layout().root;
    let ghost rules = ignorer.deep_view();
    let ghost d = batch.deep_view();
    let mut map: TextMap<String> = TextMap::new();
    let mut k: usize = 0;
    proof {
        assert(d.take(0).len() == 0);
        assert(map.deep_view() =~= Map::<Seq<char>, Seq<char>>::empty());
    }
    while k < batch.len()
        invariant
            k <= batch.len(),
            store.wf(),
            i == store.image(),
            root == store.layout().root,
            rules == ignorer.deep_view(),
            d == batch.deep_view(),
            map.wf(),
            map.deep_view() == candidates_among(i, root, rules, batch_paths(d.take(k as int))),
        decreases batch.len() - k,
    {
        let event = &batch[k];
        let ghost before = batch_paths(d.take(k as int));
        proof {
            assert(d[k as int] == event.deep_view());
            assert(d.take(k + 1).drop_last() =~= d.take(k as int));
            assert(d.take(k + 1).last() == d[k as int]);
        }
        if event.kind == WatchKind::Other {
            assert(before + Seq::<WatchedPathView>::empty() =~= before);
        } else {
            gather(store, ignorer, &mut map, &event.paths, Ghost(before));
        }
        k = k + 1;
    }
    assert(d.take(d.len() as int) =~= d);
    let entries = listed(map);
    let ghost s = entries.deep_view();
    let mut out: Vec<String> = Vec::new();
    let mut m: usize = 0;
    while m < entries.len()
        invariant
            m <= entries.len(),
            s == entries.deep_view(),
            out.len() == m,
            forall|j: int| 0 <= j < m ==> (#[trigger] out@[j])@ == s[j].1,
        decreases entries.len() - m,
    {
        assert(s[m as int] == entries@[m as int].deep_view());
        out.push(entries[m].1.clone());
        m = m + 1;
    }
    assert(out.deep_view() =~= values_of(s));
    out
}

// --- the loop ----------------------------------------------------------------------------------

/// What came while the watcher waited.
#[derive(Debug, Clone, Copy, PartialEq, Eq, Structural)]
pub enum Arrival {
    /// A change.
    Change,
    /// Nothing, in the time that it waits.
    Quiet,
    /// Nothing, and nothing will come any more.
    Closed,
}

/// What the watcher does next.
#[derive(Debug, Clone, Copy, PartialEq, Eq, Structural)]
pub enum WatchStep {
    /// Wait for a first change.
    Wait,
    /// Keep the change and wait for one more.
    Gather,
    /// Look at the changes that were kept, and start anew.
    Process,
    /// Stop.
    Stop,
}

/// What the watcher does at the start of each round.
pub fn serve_start(stop: bool) -> (r: WatchStep)
    ensures
        r == (if stop {
            WatchStep::Stop
        } else {
            WatchStep::Wait
        }),
{
    if stop {
        WatchStep::Stop
    } else {
        WatchStep::Wait
    }
}

/// What the watcher does after it waited: it gathers changes until none comes in time, and then
/// looks at them. `gathering` tells whether it has any.
pub open spec fn step_after(gathering: bool, arrival: Arrival) -> WatchStep {
    match (gathering, arrival) {
        (_, Arrival::Change) => WatchStep::Gather,
        (true, _) => WatchStep::Process,
        (false, Arrival::Quiet) => WatchStep::Wait,
        (false, Arrival::Closed) => WatchStep::Stop,
    }
}

/// What the watcher does after it waited (see `step_after`).
pub fn serve_step(gathering: bool, arrival: Arrival) -> (r: WatchStep)
    ensures
        r == step_after(gathering, arrival),
{
    match arrival {
        Arrival::Change => WatchStep::Gather,
        Arrival::Quiet => if gathering {
            WatchStep::Process
        } else {
            WatchStep::Wait
        },
        Arrival::Closed => if gathering {
            WatchStep::Process
        } else {
            WatchStep::Stop
        },
    }
}

// --- laws --------------------------------------------------------------------------------------

/// Recording a written file leaves the tracked files in step with the timeline.
proof fn lemma_write_keeps_step(
    i: Image,
    path: Seq<char>,
    bytes: Seq<u8>,
    before: Option<(Seq<char>, i64)>,
    who: AttributionView,
    ts_ns: i64,
)
    requires
        crate::store::laws::in_step(i),
    ensures
        crate::store::laws::in_step(
            crate::image::replay(i, noting_write(i, path, bytes, before, who, ts_ns).0),
        ),
{
    let run = noting_write(i, path, bytes, before, who, ts_ns);
    let j = crate::image::replay(i, run.0);
    match crate::store::changes::blob_effects(i, bytes) {
        None => {},
        Some(saved) => {
            let k = crate::image::replay(i, saved);
            if saved.len() > 0 {
                crate::image::lemma_replay_few(i, saved[0], saved[0]);
                assert(saved =~= seq![saved[0]]);
            }
            assert(k.events == i.events && k.file_states == i.file_states);
            if run.1 is None {
                let note = run.0[saved.len() as int];
                let set = run.0[(saved.len() + 1) as int];
                assert(run.0 =~= saved.push(note).push(set));
                crate::image::lemma_replay_push(i, saved, note);
                crate::image::lemma_replay_push(i, saved.push(note), set);
                crate::store::laws::lemma_latest_known_push(i.events, note->RecordEvent_0);
                assert forall|p: Seq<char>|
                    {
                        let known = crate::store::laws::latest_known(j.events);
                        &&& #[trigger] j.file_states.contains_key(p) <==> known.contains_key(p)
                            && known[p] is Some
                        &&& j.file_states.contains_key(p) ==> Some(j.file_states[p].latest_hash)
                            == known[p]
                    } by {
                    assert(i.file_states.contains_key(p) || !i.file_states.contains_key(p));
                }
            } else {
                assert(j == k);
                assert forall|p: Seq<char>|
                    {
                        let known = crate::store::laws::latest_known(j.events);
                        &&& #[trigger] j.file_states.contains_key(p) <==> known.contains_key(p)
                            && known[p] is Some
                        &&& j.file_states.contains_key(p) ==> Some(j.file_states[p].latest_hash)
                            == known[p]
                    } by {
                    assert(i.file_states.contains_key(p) == j.file_states.contains_key(p));
                }
            }
        },
    }
}

/// Looking at a path leaves the tracked files in step with the timeline, whether it works or not.
pub proof fn law_watching_keeps_step(
    i: Image,
    rel: Seq<char>,
    found: FoundView,
    max_len: u64,
    who: AttributionView,
    ts_ns: i64,
)
    requires
        crate::store::laws::in_step(i),
    ensures
        crate::store::laws::in_step(
            crate::image::replay(i, processing(i, rel, found, max_len, who, ts_ns).0),
        ),
{
    let run = processing(i, rel, found, max_len, who, ts_ns);
    let j = crate::image::replay(i, run.0);
    if is_change(i, rel, found, max_len) {
        match found {
            FoundView::File { bytes, .. } => {
                lemma_write_keeps_step(i, rel, bytes, known_at(i, rel), who, ts_ns);
            },
            _ => {
                if run.1 is None {
                    crate::image::lemma_replay_few(i, run.0[0], run.0[1]);
                    assert(run.0 =~= seq![run.0[0], run.0[1]]);
                    crate::store::laws::lemma_latest_known_push(
                        i.events,
                        run.0[0]->RecordEvent_0,
                    );
                    assert forall|p: Seq<char>|
                        {
                            let known = crate::store::laws::latest_known(j.events);
                            &&& #[trigger] j.file_states.contains_key(p) <==> known.contains_key(p)
                                && known[p] is Some
                            &&& j.file_states.contains_key(p) ==> Some(
                                j.file_states[p].latest_hash,
                            ) == known[p]
                        } by {
                        assert(i.file_states.contains_key(p) || !i.file_states.contains_key(p));
                    }
                }
            },
        }
    }
}

/// The first scan leaves the tracked files in step with the timeline, whether it works or not.
pub proof fn law_scanning_keeps_step(
    i: Image,
    root: Seq<char>,
    files: Seq<ScannedView>,
    max_len: u64,
    ts_ns: i64,
)
    requires
        crate::store::laws::in_step(i),
    ensures
        crate::store::laws::in_step(
            crate::image::replay(i, scanning(i, root, files, max_len, ts_ns).0),
        ),
    decreases files.len(),
{
    if files.len() > 0 {
        let done = scanning(i, root, files.drop_last(), max_len, ts_ns);
        let middle = crate::image::replay(i, done.0);
        law_scanning_keeps_step(i, root, files.drop_last(), max_len, ts_ns);
        let file = files.last();
        if done.2 is None && file.len <= max_len {
            let rel = crate::parts::relative(root, file.path);
            let more = noting_write(middle, rel, file.bytes, None, by_scan(), ts_ns);
            lemma_write_keeps_step(middle, rel, file.bytes, None, by_scan(), ts_ns);
            crate::image::lemma_replay_concat(i, done.0, more.0);
        }
    }
}

/// A change that is recorded follows on what was known: the event names the latest known content
/// as the one before and the content that was found as the one after, and it is attributed to who
/// made it. From then on the content that was found is the latest known one, so that finding it
/// again is no change.
pub proof fn law_change_follows_on(
    i: Image,
    rel: Seq<char>,
    found: FoundView,
    max_len: u64,
    who: AttributionView,
    ts_ns: i64,
)
    requires
        is_change(i, rel, found, max_len),
        processing(i, rel, found, max_len, who, ts_ns).1 is None,
    ensures
        ({
            let j = crate::image::replay(i, processing(i, rel, found, max_len, who, ts_ns).0);
            let e = j.events.last().row;
            &&& j.events.len() == i.events.len() + 1
            &&& e.path == rel
            &&& e.attribution == who.agent
            &&& e.session_id == who.session_id
            &&& e.before_hash == (match known_at(i, rel) {
                Some(m) => Some(m.0),
                None => None,
            })
            &&& e.after_hash == (match found {
                FoundView::File { bytes, .. } => Some(crate::outside::blake3_hex(bytes)),
                _ => None,
            })
            &&& !is_change(j, rel, found, max_len)
        }),
{
    let run = processing(i, rel, found, max_len, who, ts_ns);
    let j = crate::image::replay(i, run.0);
    match found {
        FoundView::File { bytes, .. } => {
            let saved = crate::store::changes::blob_effects(i, bytes)->0;
            let k = crate::image::replay(i, saved);
            if saved.len() > 0 {
                crate::image::lemma_replay_few(i, saved[0], saved[0]);
                assert(saved =~= seq![saved[0]]);
            }
            let note = run.0[saved.len() as int];
            let set = run.0[(saved.len() + 1) as int];
            assert(run.0 =~= saved.push(note).push(set));
            crate::image::lemma_replay_push(i, saved, note);
            crate::image::lemma_replay_push(i, saved.push(note), set);
            assert(k.events == i.events);
        },
        _ => {
            crate::image::lemma_replay_few(i, run.0[0], run.0[1]);
            assert(run.0 =~= seq![run.0[0], run.0[1]]);
        },
    }
}

/// What a restore has written is no change to the watcher: the file that was restored has the
/// latest known content, where the store gave back the content of the hash that was restored, and
/// a file that was removed is not tracked.
pub proof fn law_restore_is_no_change(
    j: Image,
    rel: Seq<char>,
    target: Option<Seq<char>>,
    max_len: u64,
    len: u64,
)
    requires
        crate::restore::laws::brought(j, rel, target),
        target is Some ==> crate::outside::blake3_hex(crate::restore::current(j, rel)->0)
            == target->0,
    ensures
        !is_change(
            j,
            rel,
            match crate::restore::current(j, rel) {
                Some(bytes) => FoundView::File { len, bytes },
                None => FoundView::Missing,
            },
            max_len,
        ),
{
}

/// While the marker of a session stands, every change that is recorded, a deletion too, is
/// attributed to that session with high confidence, whatever programs run.
pub proof fn law_marker_decides(
    i: Image,
    a: crate::rows::ActiveSessionView,
    root: Seq<char>,
    self_pid: u32,
    hooked: crate::attribution::HookedAgentView,
    running: Seq<ProcessInfoView>,
    rel: Seq<char>,
    found: FoundView,
    max_len: u64,
    ts_ns: i64,
)
    requires
        i.marker == crate::image::MarkerView::Active(a),
        is_change(i, rel, found, max_len),
        processing(
            i,
            rel,
            found,
            max_len,
            crate::attribution::culprit(i.marker, root, self_pid, hooked, running),
            ts_ns,
        ).1 is None,
    ensures
        ({
            let who = crate::attribution::culprit(i.marker, root, self_pid, hooked, running);
            let j = crate::image::replay(i, processing(i, rel, found, max_len, who, ts_ns).0);
            let e = j.events.last();
            &&& e.row.attribution == a.agent
            &&& e.row.session_id == Some(a.session_id)
            &&& who.confidence == "high"@
        }),
{
    let who = crate::attribution::culprit(i.marker, root, self_pid, hooked, running);
    law_change_follows_on(i, rel, found, max_len, who, ts_ns);
}

} // verus!
