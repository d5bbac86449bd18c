//! What the watcher and the first scan come to, in terms of the timeline and the tracked files.
use vstd::prelude::*;

use super::{FoundView, ScannedView, WatchEventView, WatchKind};
use crate::attribution::AttributionView;
use crate::image::Image;
use crate::rows::{EventRecordView, EventRowView, FileStateView};
use crate::store::Store;

verus! {

broadcast use vstd::string::group_string_axioms;

/// The event of a change from one content to another.
pub open spec fn change_row(
    id: int,
    path: Seq<char>,
    before: Option<FileStateView>,
    after: Option<Seq<u8>>,
    who: AttributionView,
    ts_ns: i64,
) -> EventRecordView {
    EventRecordView {
        row: EventRowView {
            id: id as i64,
            ts_ns,
            path,
            before_hash: match before {
                Some(s) => Some(s.latest_hash),
                None => None,
            },
            after_hash: match after {
                Some(bytes) => Some(crate::outside::blake3_hex(bytes)),
                None => None,
            },
            size_before: match before {
                Some(s) => Some(s.latest_size),
                None => None,
            },
            size_after: match after {
                Some(bytes) => Some(bytes.len() as i64),
                None => None,
            },
            attribution: who.agent,
            session_id: who.session_id,
        },
        confidence: who.confidence,
        pid: who.pid,
        process_name: who.process_name,
        tool_name: who.tool_name,
    }
}

/// What is known of a file.
pub open spec fn known(i: Image, rel: Seq<char>) -> Option<FileStateView> {
    if i.file_states.contains_key(rel) {
        Some(i.file_states[rel])
    } else {
        None
    }
}

/// Whether a project changed by the record of a written file alone: one event, the content as the
/// latest known one, and its object, which was there or is new.
pub open spec fn wrote(
    i: Image,
    j: Image,
    rel: Seq<char>,
    before: Option<FileStateView>,
    bytes: Seq<u8>,
    who: AttributionView,
    ts_ns: i64,
) -> bool {
    let hash = crate::outside::blake3_hex(bytes);
    &&& j.events == i.events.push(
        change_row(i.last_event_id + 1, rel, before, Some(bytes), who, ts_ns),
    )
    &&& j.last_event_id == i.last_event_id + 1
    &&& j.file_states == i.file_states.insert(
        rel,
        FileStateView { latest_hash: hash, latest_size: bytes.len() as i64, latest_ts_ns: ts_ns },
    )
    &&& j.objects.contains_key(hash)
    &&& !i.objects.contains_key(hash) ==> crate::outside::zstd_encoded(bytes) == Some(
        j.objects[hash],
    )
    &&& j.objects.remove(hash) == i.objects.remove(hash)
    &&& i.objects.submap_of(j.objects)
    &&& (j.sessions, j.pins, j.last_pin_id, j.files, j.marker) == (
        i.sessions,
        i.pins,
        i.last_pin_id,
        i.files,
        i.marker,
    )
}

/// Recording a written file.
proof fn lemma_wrote(
    i: Image,
    rel: Seq<char>,
    bytes: Seq<u8>,
    before: Option<FileStateView>,
    who: AttributionView,
    ts_ns: i64,
)
    ensures
        ({
            let mark = match before {
                Some(s) => Some((s.latest_hash, s.latest_size)),
                None => None,
            };
            let run = super::noting_write(i, rel, bytes, mark, who, ts_ns);
            let j = crate::image::replay(i, run.0);
            &&& run.1 is None ==> wrote(i, j, rel, before, bytes, who, ts_ns)
            &&& run.1 is None <==> i.last_event_id != i64::MAX && (i.objects.contains_key(
                crate::outside::blake3_hex(bytes),
            ) || crate::outside::zstd_encoded(bytes) is Some)
        }),
{
    let mark = match before {
        Some(s) => Some((s.latest_hash, s.latest_size)),
        None => None,
    };
    let run = super::noting_write(i, rel, bytes, mark, who, ts_ns);
    let hash = crate::outside::blake3_hex(bytes);
    if let Some(saved) = crate::store::changes::blob_effects(i, bytes) {
        let k = crate::image::replay(i, saved);
        if saved.len() > 0 {
            crate::image::lemma_replay_few(i, saved[0], saved[0]);
            assert(saved =~= seq![saved[0]]);
        }
        if run.1 is None {
            let note = run.0[saved.len() as int];
            let set = run.0[(saved.len() + 1) as int];
            assert(run.0 =~= saved.push(note).push(set));
            crate::image::lemma_replay_push(i, saved, note);
            crate::image::lemma_replay_push(i, saved.push(note), set);
            let j = crate::image::replay(i, run.0);
            assert(j.objects.remove(hash) =~= i.objects.remove(hash));
        }
    }
}

/// Looking at a file that is not too long leaves its content known as the latest one. Where it was
/// known before, nothing changes; any other content, longer or shorter, is recorded as one event
/// from what was known to what was found, made by who made it, and is stored. That fails only
/// where no more events can be numbered or the content cannot be compressed.
pub proof fn law_every_write_is_recorded(
    i: Image,
    rel: Seq<char>,
    len: u64,
    bytes: Seq<u8>,
    max_len: u64,
    who: AttributionView,
    ts_ns: i64,
)
    requires
        len <= max_len,
    ensures
        ({
            let hash = crate::outside::blake3_hex(bytes);
            let run = super::processing(
                i,
                rel,
                FoundView::File { len, bytes },
                max_len,
                who,
                ts_ns,
            );
            let j = crate::image::replay(i, run.0);
            let same = i.file_states.contains_key(rel) && i.file_states[rel].latest_hash == hash;
            &&& run.1 is None ==> j.file_states.contains_key(rel)
                && j.file_states[rel].latest_hash == hash
            &&& same ==> run.0.len() == 0 && run.1 is None && j == i
            &&& !same && run.1 is None ==> wrote(i, j, rel, known(i, rel), bytes, who, ts_ns)
            &&& !same ==> (run.1 is None <==> i.last_event_id != i64::MAX
                && (i.objects.contains_key(hash) || crate::outside::zstd_encoded(bytes) is Some))
        }),
{
    lemma_wrote(i, rel, bytes, known(i, rel), who, ts_ns);
}

/// A file that is too long, a directory, and a path where nothing stands and nothing was known
/// are passed over.
pub proof fn law_what_is_no_file_is_passed_over(
    i: Image,
    rel: Seq<char>,
    found: FoundView,
    max_len: u64,
    who: AttributionView,
    ts_ns: i64,
)
    requires
        match found {
            FoundView::File { len, .. } => len > max_len,
            FoundView::Directory => true,
            FoundView::Missing => !i.file_states.contains_key(rel),
        },
    ensures
        super::processing(i, rel, found, max_len, who, ts_ns).0.len() == 0,
        super::processing(i, rel, found, max_len, who, ts_ns).1 is None,
{
}

/// A tracked file that is gone is recorded as one event from what was known to nothing, made by
/// who made it, and is tracked no longer. That fails only where no more events can be numbered.
pub proof fn law_every_deletion_is_recorded(
    i: Image,
    rel: Seq<char>,
    max_len: u64,
    who: AttributionView,
    ts_ns: i64,
)
    requires
        i.file_states.contains_key(rel),
    ensures
        ({
            let run = super::processing(i, rel, FoundView::Missing, max_len, who, ts_ns);
            let j = crate::image::replay(i, run.0);
            &&& run.1 is None <==> i.last_event_id != i64::MAX
            &&& run.1 is None ==> j == (Image {
                events: i.events.push(
                    change_row(i.last_event_id + 1, rel, known(i, rel), None, who, ts_ns),
                ),
                last_event_id: (i.last_event_id + 1) as i64,
                file_states: i.file_states.remove(rel),
                ..i
            })
            &&& run.1 is Some ==> j == i
        }),
{
    let run = super::processing(i, rel, FoundView::Missing, max_len, who, ts_ns);
    if run.1 is None {
        crate::image::lemma_replay_few(i, run.0[0], run.0[1]);
        assert(run.0 =~= seq![run.0[0], run.0[1]]);
    }
}

// --- the first scan ----------------------------------------------------------------------------

/// Whether an event of the first scan is that of a file.
pub open spec fn is_scan_of(e: EventRecordView, rel: Seq<char>, bytes: Seq<u8>, ts_ns: i64) -> bool {
    &&& e.row.path == rel
    &&& e.row.ts_ns == ts_ns
    &&& e.row.before_hash is None
    &&& e.row.size_before is None
    &&& e.row.after_hash == Some(crate::outside::blake3_hex(bytes))
    &&& e.row.size_after == Some(bytes.len() as i64)
    &&& e.row.attribution == "initial-scan"@
    &&& e.row.session_id is None
    &&& e.confidence == "high"@
}

/// How many files are not too long.
pub open spec fn short_ones(files: Seq<ScannedView>, max_len: u64) -> nat
    decreases files.len(),
{
    if files.len() == 0 {
        0
    } else {
        short_ones(files.drop_last(), max_len) + if files.last().len <= max_len {
            1nat
        } else {
            0nat
        }
    }
}

/// Whether a scan has recorded the file at a place: as many events after those that were there as
/// files that are not too long stand before it.
pub open spec fn is_scanned(
    i: Image,
    j: Image,
    root: Seq<char>,
    files: Seq<ScannedView>,
    max_len: u64,
    ts_ns: i64,
    k: int,
) -> bool {
    let n = i.events.len() + short_ones(files.take(k), max_len);
    &&& n < j.events.len()
    &&& is_scan_of(
        j.events[n as int],
        crate::parts::relative(root, files[k].path),
        files[k].bytes,
        ts_ns,
    )
}

/// A scan that works records every file that is not too long, in their order and as it is, and
/// nothing else; it says how many there are. What was recorded before stays.
pub proof fn law_scan_records_every_file(
    i: Image,
    root: Seq<char>,
    files: Seq<ScannedView>,
    max_len: u64,
    ts_ns: i64,
)
    requires
        super::scanning(i, root, files, max_len, ts_ns).2 is None,
    ensures
        ({
            let run = super::scanning(i, root, files, max_len, ts_ns);
            let j = crate::image::replay(i, run.0);
            &&& run.1 == short_ones(files, max_len)
            &&& j.events.len() == i.events.len() + short_ones(files, max_len)
            &&& j.events.take(i.events.len() as int) == i.events
            &&& forall|k: int|
                0 <= k < files.len() && (#[trigger] files[k]).len <= max_len ==> is_scanned(
                    i,
                    j,
                    root,
                    files,
                    max_len,
                    ts_ns,
                    k,
                )
            &&& forall|k: int|
                0 <= k < files.len() && (#[trigger] files[k]).len <= max_len ==> {
                    let rel = crate::parts::relative(root, files[k].path);
                    &&& j.file_states.contains_key(rel)
                    &&& (forall|m: int|
                        k < m < files.len() && (#[trigger] files[m]).len <= max_len
                            ==> crate::parts::relative(root, files[m].path) != rel)
                        ==> j.file_states[rel].latest_hash == crate::outside::blake3_hex(
                        files[k].bytes,
                    ) && j.file_states[rel].latest_size == files[k].bytes.len() as i64
                }
            &&& forall|k: int|
                0 <= k < files.len() && (#[trigger] files[k]).len <= max_len
                    ==> j.objects.contains_key(crate::outside::blake3_hex(files[k].bytes))
            &&& i.objects.submap_of(j.objects)
            &&& (j.sessions, j.pins, j.files, j.marker) == (i.sessions, i.pins, i.files, i.marker)
        }),
    decreases files.len(),
{
    let run = super::scanning(i, root, files, max_len, ts_ns);
    let j = crate::image::replay(i, run.0);
    if files.len() == 0 {
        assert(i.events.take(i.events.len() as int) =~= i.events);
    } else {
        let fewer = files.drop_last();
        let last = files.len() - 1;
        let file = files.last();
        let done = super::scanning(i, root, fewer, max_len, ts_ns);
        law_scan_records_every_file(i, root, fewer, max_len, ts_ns);
        let middle = crate::image::replay(i, done.0);
        assert forall|k: int| 0 <= k <= fewer.len() implies #[trigger] files.take(k) == fewer.take(
            k,
        ) by {
            assert(files.take(k) =~= fewer.take(k));
        }
        assert(files.take(last) =~= fewer);
        assert(forall|k: int| 0 <= k < last ==> #[trigger] files[k] == fewer[k]);
        if file.len <= max_len {
            let rel = crate::parts::relative(root, file.path);
            let more = super::noting_write(middle, rel, file.bytes, None, super::by_scan(), ts_ns);
            crate::image::lemma_replay_concat(i, done.0, more.0);
            lemma_wrote(middle, rel, file.bytes, None, super::by_scan(), ts_ns);
            assert(wrote(middle, j, rel, None, file.bytes, super::by_scan(), ts_ns));
            assert(j.events.take(i.events.len() as int) =~= middle.events.take(
                i.events.len() as int,
            ));
            vstd::map_lib::lemma_submap_of_trans(i.objects, middle.objects, j.objects);
            assert forall|k: int| 0 <= k < files.len() && (#[trigger] files[k]).len
                <= max_len implies is_scanned(i, j, root, files, max_len, ts_ns, k) by {
                if k < last {
                    assert(fewer[k].len <= max_len);
                    assert(is_scanned(i, middle, root, fewer, max_len, ts_ns, k));
                }
            }
            assert forall|k: int|
                0 <= k < files.len() && (#[trigger] files[k]).len
                    <= max_len implies j.objects.contains_key(
                crate::outside::blake3_hex(files[k].bytes),
            ) by {
                if k < last {
                    assert(fewer[k].len <= max_len);
                    let hash = crate::outside::blake3_hex(fewer[k].bytes);
                    assert(middle.objects.contains_key(hash) ==> j.objects.contains_key(hash));
                }
            }
            assert forall|k: int| 0 <= k < files.len() && (#[trigger] files[k]).len
                <= max_len implies {
                let rel_k = crate::parts::relative(root, files[k].path);
                &&& j.file_states.contains_key(rel_k)
                &&& (forall|m: int|
                    k < m < files.len() && (#[trigger] files[m]).len <= max_len
                        ==> crate::parts::relative(root, files[m].path) != rel_k)
                    ==> j.file_states[rel_k].latest_hash == crate::outside::blake3_hex(
                    files[k].bytes,
                ) && j.file_states[rel_k].latest_size == files[k].bytes.len() as i64
            } by {
                if k < last {
                    assert(fewer[k].len <= max_len);
                    let rel_k = crate::parts::relative(root, files[k].path);
                    if forall|m: int|
                        k < m < files.len() && (#[trigger] files[m]).len <= max_len
                            ==> crate::parts::relative(root, files[m].path) != rel_k {
                        assert(files[last].len <= max_len);
                        assert(rel != rel_k);
                        assert forall|m: int|
                            k < m < fewer.len() && (#[trigger] fewer[m]).len
                                <= max_len implies crate::parts::relative(root, fewer[m].path)
                            != rel_k by {
                            assert(files[m].len <= max_len);
                        }
                    }
                }
            }
        } else {
            assert forall|k: int| 0 <= k < files.len() && (#[trigger] files[k]).len
                <= max_len implies is_scanned(i, j, root, files, max_len, ts_ns, k) by {
                assert(fewer[k].len <= max_len);
                assert(is_scanned(i, middle, root, fewer, max_len, ts_ns, k));
            }
            assert forall|k: int|
                0 <= k < files.len() && (#[trigger] files[k]).len
                    <= max_len implies j.objects.contains_key(
                crate::outside::blake3_hex(files[k].bytes),
            ) by {
                assert(fewer[k].len <= max_len);
            }
            assert forall|k: int| 0 <= k < files.len() && (#[trigger] files[k]).len
                <= max_len implies {
                let rel_k = crate::parts::relative(root, files[k].path);
                &&& j.file_states.contains_key(rel_k)
                &&& (forall|m: int|
                    k < m < files.len() && (#[trigger] files[m]).len <= max_len
                        ==> crate::parts::relative(root, files[m].path) != rel_k)
                    ==> j.file_states[rel_k].latest_hash == crate::outside::blake3_hex(
                    files[k].bytes,
                ) && j.file_states[rel_k].latest_size == files[k].bytes.len() as i64
            } by {
                assert(fewer[k].len <= max_len);
                let rel_k = crate::parts::relative(root, files[k].path);
                if forall|m: int|
                    k < m < files.len() && (#[trigger] files[m]).len <= max_len
                        ==> crate::parts::relative(root, files[m].path) != rel_k {
                    assert forall|m: int|
                        k < m < fewer.len() && (#[trigger] fewer[m]).len
                            <= max_len implies crate::parts::relative(root, fewer[m].path)
                        != rel_k by {
                        assert(files[m].len <= max_len);
                    }
                }
            }
        }
    }
}

// --- a batch of changes ------------------------------------------------------------------------

/// Whether a path of a batch is to be looked at: the watcher was told that it was made, changed or
/// removed, it is not left alone, and it is no scratch file.
pub open spec fn is_told(
    i: Image,
    root: Seq<char>,
    ignorer: crate::ignoring::IgnorerView,
    batch: Seq<WatchEventView>,
    a: int,
    b: int,
) -> bool {
    &&& 0 <= a < batch.len()
    &&& 0 <= b < batch[a].paths.len()
    &&& batch[a].kind == WatchKind::Create || batch[a].kind == WatchKind::Modify || batch[a].kind
        == WatchKind::Remove
    &&& !crate::ignoring::skipped(ignorer, batch[a].paths[b].path, batch[a].paths[b].is_dir)
    &&& !crate::ignoring::transient(i, root, batch[a].paths[b].path)
}

/// Every path of an event that is a change is among the paths of a batch, and no other.
proof fn lemma_batch_paths(batch: Seq<WatchEventView>)
    ensures
        forall|a: int, b: int|
            #![trigger batch[a].paths[b]]
            0 <= a < batch.len() && 0 <= b < batch[a].paths.len() && batch[a].kind
                != WatchKind::Other ==> super::batch_paths(batch).contains(batch[a].paths[b]),
        forall|n: int|
            0 <= n < super::batch_paths(batch).len() ==> is_path_of(
                batch,
                #[trigger] super::batch_paths(batch)[n],
            ),
    decreases batch.len(),
{
    if batch.len() > 0 {
        let fewer = batch.drop_last();
        let last = batch.len() - 1;
        lemma_batch_paths(fewer);
        let before = super::batch_paths(fewer);
        let all = super::batch_paths(batch);
        assert forall|a: int, b: int|
            #![trigger batch[a].paths[b]]
            0 <= a < batch.len() && 0 <= b < batch[a].paths.len() && batch[a].kind
                != WatchKind::Other implies all.contains(batch[a].paths[b]) by {
            if a < last {
                assert(fewer[a].paths[b] == batch[a].paths[b]);
                let n = choose|n: int| 0 <= n < before.len() && before[n] == batch[a].paths[b];
                assert(all[n] == before[n]);
            } else {
                assert(all[before.len() + b] == batch[a].paths[b]);
            }
        }
        assert forall|n: int| 0 <= n < all.len() implies is_path_of(batch, #[trigger] all[n]) by {
            if n < before.len() {
                assert(all[n] == before[n]);
                assert(is_path_of(fewer, before[n]));
                let (a, b) = choose|a: int, b: int|
                    0 <= a < fewer.len() && 0 <= b < fewer[a].paths.len() && fewer[a].kind
                        != WatchKind::Other && #[trigger] fewer[a].paths[b] == before[n];
                assert(batch[a].paths[b] == all[n]);
            } else {
                assert(batch[last].paths[n - before.len()] == all[n]);
            }
        }
    }
}

/// Whether a path is one of an event that is a change.
spec fn is_path_of(batch: Seq<WatchEventView>, p: super::WatchedPathView) -> bool {
    exists|a: int, b: int|
        0 <= a < batch.len() && 0 <= b < batch[a].paths.len() && batch[a].kind != WatchKind::Other
            && #[trigger] batch[a].paths[b] == p
}

/// Whether the path at a place is to be looked at and has a key.
spec fn is_due_at(
    i: Image,
    root: Seq<char>,
    ignorer: crate::ignoring::IgnorerView,
    paths: Seq<super::WatchedPathView>,
    key: Seq<char>,
    path: Seq<char>,
    n: int,
) -> bool {
    &&& 0 <= n < paths.len()
    &&& !crate::ignoring::skipped(ignorer, paths[n].path, paths[n].is_dir)
    &&& !crate::ignoring::transient(i, root, paths[n].path)
    &&& paths[n].path == path
    &&& key == crate::parts::path_key(path)
}

spec fn is_due(
    i: Image,
    root: Seq<char>,
    ignorer: crate::ignoring::IgnorerView,
    paths: Seq<super::WatchedPathView>,
    key: Seq<char>,
    path: Seq<char>,
) -> bool {
    exists|n: int| is_due_at(i, root, ignorer, paths, key, path, n)
}

/// What the table of the paths that are to be looked at holds.
proof fn lemma_candidates(
    i: Image,
    root: Seq<char>,
    ignorer: crate::ignoring::IgnorerView,
    paths: Seq<super::WatchedPathView>,
)
    ensures
        ({
            let m = super::candidates_among(i, root, ignorer, paths);
            &&& m.dom().finite()
            &&& forall|n: int|
                0 <= n < paths.len() && !crate::ignoring::skipped(
                    ignorer,
                    (#[trigger] paths[n]).path,
                    paths[n].is_dir,
                ) && !crate::ignoring::transient(i, root, paths[n].path) ==> m.contains_key(
                    crate::parts::path_key(paths[n].path),
                )
            &&& forall|key: Seq<char>| #[trigger]
                m.contains_key(key) ==> is_due(i, root, ignorer, paths, key, m[key])
        }),
    decreases paths.len(),
{
    if paths.len() > 0 {
        let fewer = paths.drop_last();
        let last = paths.len() - 1;
        lemma_candidates(i, root, ignorer, fewer);
        let m = super::candidates_among(i, root, ignorer, paths);
        let before = super::candidates_among(i, root, ignorer, fewer);
        assert forall|n: int|
            0 <= n < paths.len() && !crate::ignoring::skipped(
                ignorer,
                (#[trigger] paths[n]).path,
                paths[n].is_dir,
            ) && !crate::ignoring::transient(i, root, paths[n].path) implies m.contains_key(
            crate::parts::path_key(paths[n].path),
        ) by {
            if n < last {
                assert(fewer[n] == paths[n]);
            }
        }
        assert forall|key: Seq<char>| #[trigger] m.contains_key(key) implies is_due(
            i,
            root,
            ignorer,
            paths,
            key,
            m[key],
        ) by {
            if before.contains_key(key) {
                let n = choose|n: int| is_due_at(i, root, ignorer, fewer, key, before[key], n);
                assert(paths[n] == fewer[n]);
                assert(is_due_at(i, root, ignorer, paths, key, m[key], n));
            } else {
                assert(is_due_at(i, root, ignorer, paths, key, m[key], last));
            }
        }
    }
}

/// Whether a path is one of a batch that is to be looked at.
pub open spec fn is_told_of(
    i: Image,
    root: Seq<char>,
    ignorer: crate::ignoring::IgnorerView,
    batch: Seq<WatchEventView>,
    path: Seq<char>,
) -> bool {
    exists|a: int, b: int| #[trigger]
        is_told(i, root, ignorer, batch, a, b) && batch[a].paths[b].path == path
}

/// Whether a list has a path, or another spelling of it.
pub open spec fn has_spelling(listed: Seq<Seq<char>>, path: Seq<char>) -> bool {
    exists|n: int|
        0 <= n < listed.len() && crate::parts::path_key(#[trigger] listed[n])
            == crate::parts::path_key(path)
}

/// Every path of a batch that is to be looked at is listed, or another spelling of it; every path
/// that is listed is one that is to be looked at; and none is listed in two spellings.
pub proof fn law_every_path_of_a_batch_is_looked_at(
    i: Image,
    root: Seq<char>,
    ignorer: crate::ignoring::IgnorerView,
    batch: Seq<WatchEventView>,
)
    ensures
        ({
            let listed = super::values_of(
                crate::table::listing(
                    super::candidates_among(i, root, ignorer, super::batch_paths(batch)),
                ),
            );
            &&& forall|path: Seq<char>| #[trigger]
                is_told_of(i, root, ignorer, batch, path) ==> has_spelling(listed, path)
            &&& forall|n: int|
                0 <= n < listed.len() ==> is_told_of(i, root, ignorer, batch, #[trigger] listed[n])
            &&& forall|n: int, m: int|
                0 <= n < m < listed.len() ==> crate::parts::path_key(#[trigger] listed[n])
                    != crate::parts::path_key(#[trigger] listed[m])
        }),
{
    let paths = super::batch_paths(batch);
    let map = super::candidates_among(i, root, ignorer, paths);
    let entries = crate::table::listing(map);
    let keys = crate::table::keys_of(entries);
    let listed = super::values_of(entries);
    lemma_batch_paths(batch);
    lemma_candidates(i, root, ignorer, paths);
    crate::table::lemma_listing_exists(map);
    crate::table::lemma_increasing_distinct(keys);
    assert forall|n: int| 0 <= n < listed.len() implies crate::parts::path_key(#[trigger] listed[n])
        == keys[n] && is_told_of(i, root, ignorer, batch, listed[n]) by {
        assert(map.dom().contains(keys[n]));
        assert(map[entries[n].0] == entries[n].1);
        assert(is_due(i, root, ignorer, paths, keys[n], map[keys[n]]));
        let k = choose|k: int| is_due_at(i, root, ignorer, paths, keys[n], map[keys[n]], k);
        assert(listed[n] == paths[k].path);
        assert(is_path_of(batch, paths[k]));
        let (a, b) = choose|a: int, b: int|
            0 <= a < batch.len() && 0 <= b < batch[a].paths.len() && batch[a].kind
                != WatchKind::Other && #[trigger] batch[a].paths[b] == paths[k];
        assert(is_told(i, root, ignorer, batch, a, b));
    }
    assert forall|path: Seq<char>| #[trigger]
        is_told_of(i, root, ignorer, batch, path) implies has_spelling(listed, path) by {
        let (a, b) = choose|a: int, b: int| #[trigger]
            is_told(i, root, ignorer, batch, a, b) && batch[a].paths[b].path == path;
        let p = batch[a].paths[b];
        assert(paths.contains(p));
        let k = choose|k: int| 0 <= k < paths.len() && paths[k] == p;
        assert(map.contains_key(crate::parts::path_key(paths[k].path)));
        assert(map.dom().contains(crate::parts::path_key(path)));
        let n = choose|n: int| 0 <= n < keys.len() && keys[n] == crate::parts::path_key(path);
        assert(crate::parts::path_key(listed[n]) == keys[n]);
    }
    assert forall|n: int, m: int| 0 <= n < m < listed.len() implies crate::parts::path_key(
        #[trigger] listed[n],
    ) != crate::parts::path_key(#[trigger] listed[m]) by {
        assert(keys[n] != keys[m]);
    }
}

// --- stores ------------------------------------------------------------------------------------

/// After a file that is not too long was looked at: its content is known as the latest one, and it
/// was recorded unless it was known before.
pub proof fn law_after_a_file_is_looked_at(
    before: Store,
    after: Store,
    rel: Seq<char>,
    len: u64,
    bytes: Seq<u8>,
    max_len: u64,
    who: AttributionView,
    outcome: Option<crate::failure::FailureView>,
)
    requires
        super::processes(
            before,
            after,
            rel,
            FoundView::File { len, bytes },
            max_len,
            who,
            outcome,
        ),
        len <= max_len,
    ensures
        ({
            let i = before.image();
            let j = after.image();
            let hash = crate::outside::blake3_hex(bytes);
            let same = i.file_states.contains_key(rel) && i.file_states[rel].latest_hash == hash;
            &&& outcome is None ==> j.file_states.contains_key(rel)
                && j.file_states[rel].latest_hash == hash
            &&& same ==> outcome is None && j == i
            &&& !same && outcome is None ==> exists|ts_ns: i64| #[trigger]
                wrote(i, j, rel, known(i, rel), bytes, who, ts_ns)
            &&& !same ==> (outcome is None <==> i.last_event_id != i64::MAX
                && (i.objects.contains_key(hash) || crate::outside::zstd_encoded(bytes) is Some))
        }),
{
    let found = FoundView::File { len, bytes };
    let ts_ns = choose|ts_ns: i64|
        super::ran(
            before,
            after,
            #[trigger] super::processing(before.image(), rel, found, max_len, who, ts_ns),
            outcome,
        );
    law_every_write_is_recorded(before.image(), rel, len, bytes, max_len, who, ts_ns);
}

/// After a path was looked at where nothing stands: the file is tracked no longer, and its
/// deletion was recorded where it was tracked before.
pub proof fn law_after_a_missing_file_is_looked_at(
    before: Store,
    after: Store,
    rel: Seq<char>,
    max_len: u64,
    who: AttributionView,
    outcome: Option<crate::failure::FailureView>,
)
    requires
        super::processes(before, after, rel, FoundView::Missing, max_len, who, outcome),
    ensures
        ({
            let i = before.image();
            let j = after.image();
            &&& !i.file_states.contains_key(rel) ==> outcome is None && j == i
            &&& i.file_states.contains_key(rel) ==> (outcome is None <==> i.last_event_id
                != i64::MAX)
            &&& outcome is None ==> !j.file_states.contains_key(rel)
            &&& outcome is None && i.file_states.contains_key(rel) ==> {
                &&& j.events.len() == i.events.len() + 1
                &&& j.events.drop_last() == i.events
                &&& j.events.last().row.path == rel
                &&& j.events.last().row.before_hash == Some(i.file_states[rel].latest_hash)
                &&& j.events.last().row.after_hash is None
                &&& j.events.last().row.attribution == who.agent
                &&& j.events.last().row.session_id == who.session_id
            }
        }),
{
    let i = before.image();
    let ts_ns = choose|ts_ns: i64|
        super::ran(
            before,
            after,
            #[trigger] super::processing(i, rel, FoundView::Missing, max_len, who, ts_ns),
            outcome,
        );
    if i.file_states.contains_key(rel) {
        law_every_deletion_is_recorded(i, rel, max_len, who, ts_ns);
        if outcome is None {
            assert(after.image().events.drop_last() =~= i.events);
        }
    } else {
        law_what_is_no_file_is_passed_over(i, rel, FoundView::Missing, max_len, who, ts_ns);
    }
}

/// After a first scan that worked: it says how many files are not too long, and each of them was
/// recorded as it is and is tracked.
pub proof fn law_after_a_scan(
    before: Store,
    after: Store,
    files: Seq<ScannedView>,
    max_len: u64,
    ts_ns: i64,
    r: Result<usize, crate::failure::Failure>,
    k: int,
)
    requires
        super::scans_at(before, after, files, max_len, ts_ns, r),
        r is Ok,
        0 <= k < files.len(),
        files[k].len <= max_len,
    ensures
        r->Ok_0 == short_ones(files, max_len),
        after.image().events.len() == before.image().events.len() + short_ones(files, max_len),
        is_scanned(
            before.image(),
            after.image(),
            before.layout().root,
            files,
            max_len,
            ts_ns,
            k,
        ),
        after.image().file_states.contains_key(
            crate::parts::relative(before.layout().root, files[k].path),
        ),
        after.image().objects.contains_key(crate::outside::blake3_hex(files[k].bytes)),
{
    law_scan_records_every_file(before.image(), before.layout().root, files, max_len, ts_ns);
}

/// No change that the watcher was told of is lost: it is gathered, and what was gathered is looked
/// at before the watcher waits again or stops.
pub proof fn law_what_is_gathered_is_looked_at(gathering: bool, arrival: super::Arrival)
    ensures
        arrival == super::Arrival::Change ==> super::step_after(gathering, arrival)
            == super::WatchStep::Gather,
        gathering && arrival != super::Arrival::Change ==> super::step_after(gathering, arrival)
            == super::WatchStep::Process,
        super::step_after(gathering, arrival) == super::WatchStep::Stop ==> !gathering && arrival
            == super::Arrival::Closed,
        super::step_after(gathering, arrival) == super::WatchStep::Wait ==> !gathering && arrival
            == super::Arrival::Quiet,
{
}

/// What a scan met is read back, where nothing was stored under its hash before and no two of the
/// files share a hash.
pub proof fn law_what_was_scanned_is_read_back(
    before: Image,
    after: Image,
    files: Seq<ScannedView>,
    max_len: u64,
    k: int,
)
    requires
        super::all_stored(before, after, files, max_len),
        0 <= k < files.len(),
        files[k].len <= max_len,
        !before.objects.contains_key(crate::outside::blake3_hex(files[k].bytes)),
        forall|m: int|
            0 <= m < files.len() && crate::outside::blake3_hex((#[trigger] files[m]).bytes)
                == crate::outside::blake3_hex(files[k].bytes) ==> files[m].bytes == files[k].bytes,
    ensures
        ({
            let hash = crate::outside::blake3_hex(files[k].bytes);
            &&& after.objects.contains_key(hash)
            &&& crate::restore::outcomes::stored(after, Some(hash)) == files[k].bytes
        }),
{
    assert(super::is_lone(files, max_len, k));
}

} // verus!
