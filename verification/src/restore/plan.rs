//! Planning a revert: what would be restored, shown before anything is changed.
use vstd::prelude::*;

use super::bulk::{earliest_per_file, restore_all, targets_of_pin};
use crate::failure::{Failure, FailureView};
use crate::image::{Entry, Image};
use crate::rows::EventRowView;
use crate::store::Store;

verus! {

broadcast use vstd::string::group_string_axioms;

/// How a revert changes a file.
#[derive(Debug, Clone, Copy, PartialEq, Eq, Structural)]
pub enum PlanKind {
    /// The file gets another content.
    Modified,
    /// The file did not exist: the revert deletes it.
    Created,
    /// The file is gone: the revert brings it back.
    Deleted,
}

/// One file of a revert that is planned.
#[derive(Debug)]
pub struct PlanItem {
    pub path: String,
    pub kind: PlanKind,
    pub old_content: Vec<u8>,
    pub new_content: Vec<u8>,
    pub target_hash: Option<String>,
    pub event_id: i64,
    pub attribution: String,
}

/// What `PlanItem` holds.
#[verifier::ext_equal]
pub struct PlanItemView {
    pub path: Seq<char>,
    pub kind: PlanKind,
    pub old_content: Seq<u8>,
    pub new_content: Seq<u8>,
    pub target_hash: Option<Seq<char>>,
    pub event_id: i64,
    pub attribution: Seq<char>,
}

impl DeepView for PlanItem {
    type V = PlanItemView;

    open spec fn deep_view(&self) -> PlanItemView {
        PlanItemView {
            path: self.path@,
            kind: self.kind,
            old_content: self.old_content@,
            new_content: self.new_content@,
            target_hash: self.target_hash.deep_view(),
            event_id: self.event_id,
            attribution: self.attribution@,
        }
    }
}

impl Clone for PlanItem {
    fn clone(&self) -> (r: Self)
        ensures
            r.deep_view() == self.deep_view(),
    {
        let r = PlanItem {
            path: self.path.clone(),
            kind: self.kind,
            old_content: self.old_content.clone(),
            new_content: self.new_content.clone(),
            target_hash: self.target_hash.clone(),
            event_id: self.event_id,
            attribution: self.attribution.clone(),
        };
        assert(r.old_content@ =~= self.old_content@);
        assert(r.new_content@ =~= self.new_content@);
        r
    }
}

/// A file that is to be reverted, and to what.
#[derive(Debug)]
pub struct Wanted {
    pub path: String,
    pub target_hash: Option<String>,
    pub event_id: i64,
    pub attribution: String,
}

/// What `Wanted` holds.
#[verifier::ext_equal]
pub struct WantedView {
    pub path: Seq<char>,
    pub target_hash: Option<Seq<char>>,
    pub event_id: i64,
    pub attribution: Seq<char>,
}

impl DeepView for Wanted {
    type V = WantedView;

    open spec fn deep_view(&self) -> WantedView {
        WantedView {
            path: self.path@,
            target_hash: self.target_hash.deep_view(),
            event_id: self.event_id,
            attribution: self.attribution@,
        }
    }
}

/// The content of the file at a path; nothing where there is no file.
pub open spec fn present(i: Image, path: Seq<char>) -> Seq<u8> {
    match super::current(i, path) {
        Some(bytes) => bytes,
        None => Seq::empty(),
    }
}

/// How a revert changes a file: `target` is the content to come, `now` the content there is, and
/// either may be missing. An empty file is a file.
pub open spec fn kind_of(target: Option<Seq<char>>, now: Option<Seq<u8>>) -> PlanKind {
    match (target, now) {
        (Some(_), Some(_)) => PlanKind::Modified,
        (None, Some(_)) => PlanKind::Created,
        (Some(_), None) => PlanKind::Deleted,
        (None, None) => PlanKind::Modified,
    }
}

/// The plan for one file, or why there is none.
pub open spec fn planning_one(i: Image, w: WantedView) -> Result<PlanItemView, FailureView> {
    let target = match w.target_hash {
        Some(hash) => crate::store::changes::blob(i, hash),
        None => Some(Seq::empty()),
    };
    match target {
        Some(bytes) => Ok(
            PlanItemView {
                path: w.path,
                kind: kind_of(w.target_hash, super::current(i, w.path)),
                old_content: bytes,
                new_content: present(i, w.path),
                target_hash: w.target_hash,
                event_id: w.event_id,
                attribution: w.attribution,
            },
        ),
        None => Err(FailureView::NoObject { hash: w.target_hash->0 }),
    }
}

/// The plan for some files, or why there is none.
pub open spec fn planning(i: Image, wanted: Seq<WantedView>) -> Result<
    Seq<PlanItemView>,
    FailureView,
>
    decreases wanted.len(),
{
    if wanted.len() == 0 {
        Ok(Seq::empty())
    } else {
        match planning(i, wanted.drop_last()) {
            Ok(done) => match planning_one(i, wanted.last()) {
                Ok(item) => Ok(done.push(item)),
                Err(f) => Err(f),
            },
            Err(f) => Err(f),
        }
    }
}

/// Whether a plan came out as it should.
pub open spec fn is_plan(
    r: Result<Vec<PlanItem>, Failure>,
    plan: Result<Seq<PlanItemView>, FailureView>,
) -> bool {
    match plan {
        Ok(items) => r matches Ok(v) && v.deep_view() == items,
        Err(f) => crate::failure::failed(r, f),
    }
}

proof fn lemma_plan_stops(i: Image, wanted: Seq<WantedView>, n: int)
    requires
        0 <= n <= wanted.len(),
        planning(i, wanted.take(n)) is Err,
    ensures
        planning(i, wanted) == planning(i, wanted.take(n)),
    decreases wanted.len(),
{
    if n == wanted.len() {
        assert(wanted.take(n) =~= wanted);
    } else {
        assert(wanted.drop_last().take(n) =~= wanted.take(n));
        lemma_plan_stops(i, wanted.drop_last(), n);
    }
}

fn plan_one(store: &Store, w: &Wanted) -> (r: Result<PlanItem, Failure>)
    requires
        store.wf(),
    ensures
        match planning_one(store.image(), w.deep_view()) {
            Ok(item) => r matches Ok(x) && x.deep_view() == item,
            Err(f) => crate::failure::failed(r, f),
        },
{
    let old_content: Vec<u8> = match &w.target_hash {
        Some(hash) => match store.read_blob(hash.as_str()) {
            Ok(bytes) => bytes,
            Err(f) => {
                return Err(f);
            },
        },
        None => Vec::new(),
    };
    let (exists_now, new_content): (bool, Vec<u8>) = match store.entry(w.path.as_str()) {
        Some(Entry::File(bytes)) => {
            let copy = bytes.clone();
            assert(copy@ =~= bytes@);
            (true, copy)
        },
        _ => (false, Vec::new()),
    };
    let kind = match (w.target_hash.is_some(), exists_now) {
        (true, true) => PlanKind::Modified,
        (false, true) => PlanKind::Created,
        (true, false) => PlanKind::Deleted,
        (false, false) => PlanKind::Modified,
    };
    Ok(
        PlanItem {
            path: w.path.clone(),
            kind,
            old_content,
            new_content,
            target_hash: w.target_hash.clone(),
            event_id: w.event_id,
            attribution: w.attribution.clone(),
        },
    )
}

/// The plan for some files, or why there is none.
pub fn plan_files(store: &Store, wanted: &Vec<Wanted>) -> (r: Result<Vec<PlanItem>, Failure>)
    requires
        store.wf(),
    ensures
        is_plan(r, planning(store.image(), wanted.deep_view())),
{
    let ghost i = store.image();
    let ghost d = wanted.deep_view();
    let mut out: Vec<PlanItem> = Vec::new();
    let mut k: usize = 0;
    assert(d.take(0).len() == 0);
    assert(out.deep_view() =~= Seq::<PlanItemView>::empty());
    while k < wanted.len()
        invariant
            k <= wanted.len(),
            store.wf(),
            i == store.image(),
            d == wanted.deep_view(),
            planning(i, d.take(k as int)) is Ok,
            out.deep_view() == planning(i, d.take(k as int))->Ok_0,
        decreases wanted.len() - k,
    {
        proof {
            assert(d[k as int] == wanted@[k as int].deep_view());
            assert(d.take(k + 1).drop_last() =~= d.take(k as int));
            assert(d.take(k + 1).last() == d[k as int]);
        }
        let ghost so_far = out.deep_view();
        match plan_one(store, &wanted[k]) {
            Ok(item) => {
                out.push(item);
                assert(out.deep_view() =~= so_far.push(item.deep_view()));
            },
            Err(f) => {
                proof {
                    lemma_plan_stops(i, d, k + 1);
                }
                return Err(f);
            },
        }
        k = k + 1;
    }
    assert(d.take(d.len() as int) =~= d);
    Ok(out)
}

/// What undoing an event wants of its file.
pub open spec fn wants(e: EventRowView) -> WantedView {
    WantedView {
        path: e.path,
        target_hash: e.before_hash,
        event_id: e.id,
        attribution: e.attribution,
    }
}

/// Plans to undo one event.
pub fn plan_event(store: &Store, event_id: i64) -> (r: Result<Vec<PlanItem>, Failure>)
    requires
        store.wf(),
    ensures
        match crate::timeline::find_event(store.image(), event_id) {
            Some(e) => is_plan(r, planning(store.image(), seq![wants(e)])),
            None => crate::failure::failed(r, FailureView::NoEvent { id: event_id }),
        },
{
    match store.get_event(event_id) {
        Some(ev) => {
            let ghost e = ev.deep_view();
            let mut wanted: Vec<Wanted> = Vec::new();
            wanted.push(
                Wanted {
                    path: ev.path,
                    target_hash: ev.before_hash,
                    event_id: ev.id,
                    attribution: ev.attribution,
                },
            );
            assert(wanted.deep_view() =~= seq![wants(e)]);
            plan_files(store, &wanted)
        },
        None => Err(Failure::NoEvent { id: event_id }),
    }
}

/// What rolling a session back wants: every file that it touched, as it was before the first
/// event of the session there.
pub open spec fn session_wants(i: Image, session_id: Seq<char>) -> Seq<WantedView> {
    crate::table::listing(
        super::bulk::earliest(crate::timeline::session_events(i, session_id)),
    ).map_values(
        |e: (Seq<char>, EventRowView)|
            WantedView {
                path: e.0,
                target_hash: e.1.before_hash,
                event_id: e.1.id,
                attribution: e.1.attribution,
            },
    )
}

/// Plans to roll a session back.
pub fn plan_session(store: &Store, session_id: &str) -> (r: Result<Vec<PlanItem>, Failure>)
    requires
        store.wf(),
    ensures
        is_plan(r, planning(store.image(), session_wants(store.image(), session_id@))),
{
    let events = store.events_for_session(session_id);
    let first = earliest_per_file(&events);
    let ghost s = session_wants(store.image(), session_id@);
    let mut wanted: Vec<Wanted> = Vec::new();
    let mut k: usize = 0;
    while k < first.len()
        invariant
            k <= first.len(),
            wanted.len() == k,
            first.deep_view() == crate::table::listing(
                super::bulk::earliest(
                    crate::timeline::session_events(store.image(), session_id@),
                ),
            ),
            s == session_wants(store.image(), session_id@),
            forall|j: int| 0 <= j < k ==> (#[trigger] wanted@[j]).deep_view() == s[j],
        decreases first.len() - k,
    {
        assert(first.deep_view()[k as int] == first@[k as int].deep_view());
        let ev = &first[k].1;
        let hash = ev.before_hash.clone();
        wanted.push(
            Wanted {
                path: first[k].0.clone(),
                target_hash: hash,
                event_id: ev.id,
                attribution: ev.attribution.clone(),
            },
        );
        k = k + 1;
    }
    assert(wanted.deep_view() =~= s);
    plan_files(store, &wanted)
}

/// What restoring the state after an event wants.
pub open spec fn pin_wants(i: Image, event_id: i64) -> Seq<WantedView> {
    super::bulk::pin_targets(i, event_id).map_values(
        |t: (Seq<char>, Option<Seq<char>>)|
            WantedView { path: t.0, target_hash: t.1, event_id, attribution: ""@ },
    )
}

/// Whether a file belongs to the plan for a pin: not where it is as it was when the pin was made,
/// nor where there is no file and yet it is still tracked, so that nothing says that it was
/// deleted.
pub open spec fn worth(i: Image) -> spec_fn(PlanItemView) -> bool {
    |x: PlanItemView|
        !(x.kind == PlanKind::Modified && x.old_content == x.new_content) && !(x.kind
            == PlanKind::Deleted && i.file_states.contains_key(x.path))
}

/// The plan for the state after an event.
pub open spec fn planning_pin(i: Image, event_id: i64) -> Result<Seq<PlanItemView>, FailureView> {
    match planning(i, pin_wants(i, event_id)) {
        Ok(items) => Ok(items.filter(worth(i))),
        Err(f) => Err(f),
    }
}

fn same_bytes(a: &Vec<u8>, b: &Vec<u8>) -> (r: bool)
    ensures
        r == (a@ == b@),
{
    if a.len() != b.len() {
        return false;
    }
    let mut i: usize = 0;
    while i < a.len()
        invariant
            i <= a.len(),
            a.len() == b.len(),
            forall|j: int| 0 <= j < i ==> a@[j] == b@[j],
        decreases a.len() - i,
    {
        if a[i] != b[i] {
            assert(a@[i as int] != b@[i as int]);
            return false;
        }
        i = i + 1;
    }
    assert(a@ =~= b@);
    true
}

/// Plans to restore a pin.
pub fn plan_pin(store: &Store, label: &str) -> (r: Result<Vec<PlanItem>, Failure>)
    requires
        store.wf(),
    ensures
        match crate::timeline::find_pin(store.image(), label@) {
            Some(pin) => is_plan(r, planning_pin(store.image(), pin.event_id)),
            None => crate::failure::failed(r, FailureView::NoPin { label: label@ }),
        },
{
    match store.find_pin(label) {
        Some(pin) => plan_state(store, pin.event_id),
        None => Err(Failure::NoPin { label: label.to_owned() }),
    }
}

fn plan_state(store: &Store, event_id: i64) -> (r: Result<Vec<PlanItem>, Failure>)
    requires
        store.wf(),
    ensures
        is_plan(r, planning_pin(store.image(), event_id)),
{
    let ghost im = store.image();
    let targets = targets_of_pin(store, event_id);
    let ghost s = pin_wants(im, event_id);
    let mut wanted: Vec<Wanted> = Vec::new();
    let mut k: usize = 0;
    while k < targets.len()
        invariant
            k <= targets.len(),
            wanted.len() == k,
            targets.deep_view() == super::bulk::pin_targets(im, event_id),
            s == pin_wants(im, event_id),
            forall|j: int| 0 <= j < k ==> (#[trigger] wanted@[j]).deep_view() == s[j],
        decreases targets.len() - k,
    {
        assert(targets.deep_view()[k as int] == targets@[k as int].deep_view());
        let hash = targets[k].1.clone();
        wanted.push(
            Wanted {
                path: targets[k].0.clone(),
                target_hash: hash,
                event_id,
                attribution: "".to_owned(),
            },
        );
        k = k + 1;
    }
    assert(wanted.deep_view() =~= s);
    let items = match plan_files(store, &wanted) {
        Ok(items) => items,
        Err(f) => {
            return Err(f);
        },
    };
    let ghost d = items.deep_view();
    let ghost f = worth(im);
    let mut out: Vec<PlanItem> = Vec::new();
    let mut n: usize = 0;
    assert(d.take(0).filter(f) =~= Seq::<PlanItemView>::empty()) by {
        reveal(Seq::filter);
    }
    assert(out.deep_view() =~= Seq::<PlanItemView>::empty());
    while n < items.len()
        invariant
            n <= items.len(),
            store.wf(),
            im == store.image(),
            d == items.deep_view(),
            f == worth(im),
            out.deep_view() == d.take(n as int).filter(f),
        decreases items.len() - n,
    {
        let x = &items[n];
        let ghost so_far = out.deep_view();
        proof {
            assert(d[n as int] == x.deep_view());
            crate::timeline::lemma_filter_next(d, f, n as int);
        }
        let unchanged = x.kind == PlanKind::Modified && same_bytes(
            &x.old_content,
            &x.new_content,
        );
        let unsure = x.kind == PlanKind::Deleted && store.get_file_state(
            x.path.as_str(),
        ).is_some();
        if !unchanged && !unsure {
            let copy = x.clone();
            out.push(copy);
            assert(out.deep_view() =~= so_far.push(copy.deep_view()));
        }
        n = n + 1;
    }
    assert(d.take(d.len() as int) =~= d);
    Ok(out)
}

/// What carrying a plan out restores.
pub open spec fn plan_targets(plan: Seq<PlanItemView>) -> Seq<(Seq<char>, Option<Seq<char>>)> {
    plan.map_values(|x: PlanItemView| (x.path, x.target_hash))
}

/// Carries a plan out, one file after the other. Where no file stands in it twice, what each of them
/// held can be read back after.
pub fn apply_plan(store: &mut Store, plan: &Vec<PlanItem>) -> (r: Result<Vec<String>, Failure>)
    requires
        old(store).wf(),
    ensures
        super::bulk::restores_files(
            *old(store),
            *final(store),
            plan_targets(plan.deep_view()),
            crate::failure::outcome(r),
        ),
        r matches Ok(paths) ==> paths.deep_view() == plan.deep_view().map_values(
            |x: PlanItemView| x.path,
        ),
        r is Ok && super::bulk::paths_of(plan_targets(plan.deep_view())).no_duplicates()
            ==> super::bulk::all_rescued(
            old(store).image(),
            final(store).image(),
            plan_targets(plan.deep_view()),
        ),
{
    let ghost d = plan.deep_view();
    let mut targets: Vec<(String, Option<String>)> = Vec::new();
    let mut paths: Vec<String> = Vec::new();
    let mut k: usize = 0;
    while k < plan.len()
        invariant
            k <= plan.len(),
            d == plan.deep_view(),
            targets.len() == k,
            paths.len() == k,
            forall|j: int|
                0 <= j < k ==> (#[trigger] targets@[j]).deep_view() == (d[j].path, d[j].target_hash),
            forall|j: int| 0 <= j < k ==> (#[trigger] paths@[j])@ == d[j].path,
        decreases plan.len() - k,
    {
        assert(d[k as int] == plan@[k as int].deep_view());
        let hash = plan[k].target_hash.clone();
        targets.push((plan[k].path.clone(), hash));
        paths.push(plan[k].path.clone());
        k = k + 1;
    }
    proof {
        assert(targets.deep_view() =~= plan_targets(d));
        assert(paths.deep_view() =~= d.map_values(|x: PlanItemView| x.path));
    }
    match restore_all(store, &targets) {
        Ok(()) => Ok(paths),
        Err(f) => Err(f),
    }
}

} // verus!
