//! Showing what an event or a plan holds: contents, differences and reports.
use vstd::prelude::*;

use super::plan::{PlanItem, PlanItemView, PlanKind};
use crate::failure::{joined, Failure, FailureView};
use crate::image::Image;
use crate::outside::{diff_lines, hash_hex, lossy_text, LineChange, LineChangeView, LineTag};
use crate::store::Store;
use crate::text::{count_text, pad, signed_text};

verus! {

broadcast use vstd::string::group_string_axioms;

// --- one event ---------------------------------------------------------------------------------

/// The content of an event on the side that is asked for: after the event, unless only the side
/// before it is asked for.
pub open spec fn side_of(i: Image, event_id: i64, before: bool, after: bool) -> Result<
    Seq<u8>,
    FailureView,
> {
    match crate::timeline::find_event(i, event_id) {
        None => Err(FailureView::NoEvent { id: event_id }),
        Some(e) => {
            let want_before = before && !after;
            let hash = if want_before {
                e.before_hash
            } else {
                e.after_hash
            };
            match hash {
                None => Err(FailureView::NoContent { id: event_id, before: want_before }),
                Some(h) => match crate::store::changes::blob(i, h) {
                    Some(bytes) => Ok(bytes),
                    None => Err(FailureView::NoObject { hash: h }),
                },
            }
        },
    }
}

/// The content of an event on the side that is asked for (see `side_of`).
pub fn show_event_bytes(store: &Store, event_id: i64, show_before: bool, show_after: bool) -> (r:
    Result<Vec<u8>, Failure>)
    requires
        store.wf(),
    ensures
        match side_of(store.image(), event_id, show_before, show_after) {
            Ok(bytes) => r matches Ok(v) && v@ == bytes,
            Err(f) => crate::failure::failed(r, f),
        },
{
    match store.get_event(event_id) {
        None => Err(Failure::NoEvent { id: event_id }),
        Some(ev) => {
            let want_before = show_before && !show_after;
            let hash: &Option<String> = if want_before {
                &ev.before_hash
            } else {
                &ev.after_hash
            };
            match hash {
                Some(h) => store.read_blob(h.as_str()),
                None => Err(Failure::NoContent { id: event_id, before: want_before }),
            }
        },
    }
}

/// A content as text; no text where there is no content.
pub open spec fn blob_text(i: Image, hash: Option<Seq<char>>) -> Result<Seq<char>, FailureView> {
    match hash {
        Some(h) => match crate::store::changes::blob(i, h) {
            Some(bytes) => Ok(crate::outside::utf8_lossy(bytes)),
            None => Err(FailureView::NoObject { hash: h }),
        },
        None => Ok(Seq::empty()),
    }
}

/// A content as text; no text where there is no content.
pub fn read_blob_as_text(store: &Store, hash: &Option<String>) -> (r: Result<String, Failure>)
    requires
        store.wf(),
    ensures
        match blob_text(store.image(), hash.deep_view()) {
            Ok(text) => r matches Ok(s) && s@ == text,
            Err(f) => crate::failure::failed(r, f),
        },
{
    match hash {
        Some(h) => match store.read_blob(h.as_str()) {
            Ok(bytes) => Ok(lossy_text(bytes.as_slice())),
            Err(f) => Err(f),
        },
        None => Ok(String::new()),
    }
}

/// A line of a comparison with its sign.
pub open spec fn signed_line() -> spec_fn(LineChangeView) -> Seq<char> {
    |c: LineChangeView|
        (match c.tag {
            LineTag::Delete => "-"@,
            LineTag::Insert => "+"@,
            LineTag::Equal => " "@,
        }) + c.text
}

/// The lines of a comparison with their signs.
pub open spec fn patch(changes: Seq<LineChangeView>) -> Seq<char> {
    crate::text::concat(changes.map_values(signed_line()))
}

/// The lines of a comparison with their signs.
pub fn patch_text(changes: &Vec<LineChange>) -> (r: String)
    ensures
        r@ == patch(changes.deep_view()),
{
    let ghost parts = changes.deep_view().map_values(signed_line());
    let mut out = String::new();
    let mut i: usize = 0;
    assert(out@ =~= crate::text::concat(parts.take(0)));
    while i < changes.len()
        invariant
            i <= changes.len(),
            parts == changes.deep_view().map_values(signed_line()),
            out@ == crate::text::concat(parts.take(i as int)),
        decreases changes.len() - i,
    {
        assert(changes.deep_view()[i as int] == changes@[i as int].deep_view());
        let sign = match changes[i].tag {
            LineTag::Delete => "-",
            LineTag::Insert => "+",
            LineTag::Equal => " ",
        };
        out.append(sign);
        out.append(changes[i].text.as_str());
        proof {
            crate::text::lemma_concat_next(parts, i as int);
            assert(out@ =~= crate::text::concat(parts.take(i as int)) + parts[i as int]);
        }
        i = i + 1;
    }
    assert(parts.take(parts.len() as int) =~= parts);
    out
}

/// What is shown of a comparison of the two sides of an event.
pub open spec fn event_diff(path: Seq<char>, id: i64, changes: Seq<LineChangeView>) -> Seq<char> {
    let number = crate::text::decimal_int(id as int);
    "--- a/"@ + path + " (event #"@ + number + ", before)\n"@ + "+++ b/"@ + path + " (event #"@
        + number + ", after)\n"@ + patch(changes)
}

/// What is shown of a comparison of the two sides of an event.
pub fn event_diff_text(path: &str, id: i64, changes: &Vec<LineChange>) -> (r: String)
    ensures
        r@ == event_diff(path@, id, changes.deep_view()),
{
    let number = signed_text(id);
    let mut out = joined("--- a/", path);
    out.append(" (event #");
    out.append(number.as_str());
    out.append(", before)\n");
    out.append("+++ b/");
    out.append(path);
    out.append(" (event #");
    out.append(number.as_str());
    out.append(", after)\n");
    out.append(patch_text(changes).as_str());
    out
}

/// What is shown of an event, or why nothing can be shown.
pub open spec fn diff_of(i: Image, event_id: i64) -> Result<Seq<char>, FailureView> {
    match crate::timeline::find_event(i, event_id) {
        None => Err(FailureView::NoEvent { id: event_id }),
        Some(e) => match (blob_text(i, e.before_hash), blob_text(i, e.after_hash)) {
            (Err(f), _) => Err(f),
            (Ok(_), Err(f)) => Err(f),
            (Ok(before), Ok(after)) => Ok(
                event_diff(e.path, e.id, crate::outside::line_changes(before, after)),
            ),
        },
    }
}

/// Whether the lines that are shown of an event make up its two sides.
pub open spec fn shows_both_sides(i: Image, event_id: i64) -> bool {
    match crate::timeline::find_event(i, event_id) {
        None => true,
        Some(e) => match (blob_text(i, e.before_hash), blob_text(i, e.after_hash)) {
            (Ok(before), Ok(after)) => crate::outside::compares(
                before,
                after,
                crate::outside::line_changes(before, after),
            ),
            _ => true,
        },
    }
}

/// The differences between the two sides of an event.
pub fn diff_event_text(store: &Store, event_id: i64) -> (r: Result<String, Failure>)
    requires
        store.wf(),
    ensures
        match diff_of(store.image(), event_id) {
            Ok(text) => r matches Ok(s) && s@ == text,
            Err(f) => crate::failure::failed(r, f),
        },
        r is Ok ==> shows_both_sides(store.image(), event_id),
{
    let ev = match store.get_event(event_id) {
        Some(ev) => ev,
        None => {
            return Err(Failure::NoEvent { id: event_id });
        },
    };
    let before = match read_blob_as_text(store, &ev.before_hash) {
        Ok(s) => s,
        Err(f) => {
            return Err(f);
        },
    };
    let after = match read_blob_as_text(store, &ev.after_hash) {
        Ok(s) => s,
        Err(f) => {
            return Err(f);
        },
    };
    let changes = diff_lines(before.as_str(), after.as_str());
    Ok(event_diff_text(ev.path.as_str(), ev.id, &changes))
}

// --- a plan ------------------------------------------------------------------------------------

/// Whether a file of a plan is not text.
pub open spec fn is_binary(x: PlanItemView) -> bool {
    x.old_content.contains(0u8) || x.new_content.contains(0u8)
}

fn has_zero(bytes: &Vec<u8>) -> (r: bool)
    ensures
        r == bytes@.contains(0u8),
{
    let mut i: usize = 0;
    while i < bytes.len()
        invariant
            i <= bytes.len(),
            forall|j: int| 0 <= j < i ==> bytes@[j] != 0,
        decreases bytes.len() - i,
    {
        if bytes[i] == 0 {
            assert(bytes@[i as int] == 0);
            return true;
        }
        i = i + 1;
    }
    false
}

/// The comparison of what a file of a plan holds with what it is to hold; none where it is not
/// text.
pub open spec fn changes_of(x: PlanItemView) -> Seq<LineChangeView> {
    if is_binary(x) {
        Seq::empty()
    } else {
        crate::outside::line_changes(
            crate::outside::utf8_lossy(x.new_content),
            crate::outside::utf8_lossy(x.old_content),
        )
    }
}

/// Whether the lines of the comparison of a file of a plan make up what it holds and what it is
/// to hold, where it is text.
pub open spec fn is_compared(x: PlanItemView) -> bool {
    !is_binary(x) ==> crate::outside::compares(
        crate::outside::utf8_lossy(x.new_content),
        crate::outside::utf8_lossy(x.old_content),
        changes_of(x),
    )
}

fn item_changes(item: &PlanItem) -> (r: Vec<LineChange>)
    ensures
        r.deep_view() == changes_of(item.deep_view()),
        is_compared(item.deep_view()),
{
    if has_zero(&item.old_content) || has_zero(&item.new_content) {
        let none: Vec<LineChange> = Vec::new();
        assert(none.deep_view() =~= Seq::<LineChangeView>::empty());
        none
    } else {
        let old_text = lossy_text(item.new_content.as_slice());
        let new_text = lossy_text(item.old_content.as_slice());
        diff_lines(old_text.as_str(), new_text.as_str())
    }
}

/// The word for a kind of change.
pub open spec fn kind_word(kind: PlanKind) -> Seq<char> {
    match kind {
        PlanKind::Modified => "modified"@,
        PlanKind::Created => "added"@,
        PlanKind::Deleted => "removed"@,
    }
}

fn kind_text(kind: PlanKind) -> (r: &'static str)
    ensures
        r@ == kind_word(kind),
{
    match kind {
        PlanKind::Modified => "modified",
        PlanKind::Created => "added",
        PlanKind::Deleted => "removed",
    }
}

/// The line of a plan for a file.
pub open spec fn item_line() -> spec_fn(PlanItemView) -> Seq<char> {
    |x: PlanItemView|
        "  "@ + crate::text::padded(kind_word(x.kind), 10) + " "@ + x.path + " (event #"@
            + crate::text::decimal_int(x.event_id as int) + ")"@ + (match x.kind {
            PlanKind::Created => "  → will be deleted"@,
            PlanKind::Deleted => "  → will be restored"@,
            PlanKind::Modified => ""@,
        }) + "\n"@
}

fn item_text(item: &PlanItem) -> (r: String)
    ensures
        r@ == item_line()(item.deep_view()),
{
    let mut out = joined("  ", pad(kind_text(item.kind), 10).as_str());
    out.append(" ");
    out.append(item.path.as_str());
    out.append(" (event #");
    out.append(signed_text(item.event_id).as_str());
    out.append(")");
    out.append(
        match item.kind {
            PlanKind::Created => "  → will be deleted",
            PlanKind::Deleted => "  → will be restored",
            PlanKind::Modified => "",
        },
    );
    out.append("\n");
    out
}

/// The section of a plan for a file: the comparison, or the sizes where the file is not text.
pub open spec fn section(x: PlanItemView, changes: Seq<LineChangeView>) -> Seq<char> {
    let head = "--- a/"@ + x.path + " (current)\n+++ b/"@ + x.path + " (target)\n"@;
    if is_binary(x) {
        head + "(binary file, "@ + crate::text::decimal(x.new_content.len()) + " bytes → "@
            + crate::text::decimal(x.old_content.len()) + " bytes)\n\n"@
    } else {
        head + patch(changes) + "\n"@
    }
}

/// The section of a plan for a file, from the comparison of its contents.
pub fn section_text(item: &PlanItem, changes: &Vec<LineChange>) -> (r: String)
    ensures
        r@ == section(item.deep_view(), changes.deep_view()),
{
    let mut out = joined("--- a/", item.path.as_str());
    out.append(" (current)\n+++ b/");
    out.append(item.path.as_str());
    out.append(" (target)\n");
    if has_zero(&item.old_content) || has_zero(&item.new_content) {
        out.append("(binary file, ");
        out.append(count_text(item.new_content.len()).as_str());
        out.append(" bytes → ");
        out.append(count_text(item.old_content.len()).as_str());
        out.append(" bytes)\n\n");
    } else {
        out.append(patch_text(changes).as_str());
        out.append("\n");
    }
    out
}

/// The section of a plan for a file.
pub open spec fn item_section() -> spec_fn(PlanItemView) -> Seq<char> {
    |x: PlanItemView| section(x, changes_of(x))
}

/// How many files of a plan are shown with their differences.
pub const SHOWN_FILES: usize = 20;

/// What is shown of a plan.
pub open spec fn plan_text(plan: Seq<PlanItemView>, header: Seq<char>) -> Seq<char> {
    let count = crate::text::decimal(plan.len());
    "Would revert "@ + header + " ("@ + count + " file(s)):\n\n"@ + crate::text::concat(
        plan.map_values(item_line()),
    ) + "\n"@ + (if plan.len() <= SHOWN_FILES {
        crate::text::concat(plan.map_values(item_section()))
    } else {
        "... (showing 20 of "@ + count + ", diff omitted for brevity)\n\n"@
    }) + "Roll back these "@ + count + " file(s)?"@
}

/// What is shown of a plan.
pub fn format_plan(plan: &Vec<PlanItem>, header: &str) -> (r: String)
    ensures
        r@ == plan_text(plan.deep_view(), header@),
        plan.len() <= SHOWN_FILES ==> forall|k: int|
            0 <= k < plan.deep_view().len() ==> is_compared(#[trigger] plan.deep_view()[k]),
{
    let ghost d = plan.deep_view();
    let ghost lines = d.map_values(item_line());
    let ghost sections = d.map_values(item_section());
    let count = count_text(plan.len());
    let mut out = joined("Would revert ", header);
    out.append(" (");
    out.append(count.as_str());
    out.append(" file(s)):\n\n");
    let ghost head = out@;
    let mut i: usize = 0;
    assert(out@ =~= head + crate::text::concat(lines.take(0)));
    while i < plan.len()
        invariant
            i <= plan.len(),
            d == plan.deep_view(),
            lines == d.map_values(item_line()),
            out@ == head + crate::text::concat(lines.take(i as int)),
        decreases plan.len() - i,
    {
        assert(d[i as int] == plan@[i as int].deep_view());
        out.append(item_text(&plan[i]).as_str());
        proof {
            crate::text::lemma_concat_next(lines, i as int);
            assert(out@ =~= head + crate::text::concat(lines.take(i + 1)));
        }
        i = i + 1;
    }
    assert(lines.take(lines.len() as int) =~= lines);
    out.append("\n");
    let ghost middle = out@;
    if plan.len() <= SHOWN_FILES {
        let mut k: usize = 0;
        assert(out@ =~= middle + crate::text::concat(sections.take(0)));
        while k < plan.len()
            invariant
                k <= plan.len(),
                d == plan.deep_view(),
                sections == d.map_values(item_section()),
                out@ == middle + crate::text::concat(sections.take(k as int)),
                forall|j: int| 0 <= j < k ==> is_compared(#[trigger] d[j]),
            decreases plan.len() - k,
        {
            assert(d[k as int] == plan@[k as int].deep_view());
            let changes = item_changes(&plan[k]);
            out.append(section_text(&plan[k], &changes).as_str());
            proof {
                crate::text::lemma_concat_next(sections, k as int);
                assert(out@ =~= middle + crate::text::concat(sections.take(k + 1)));
            }
            k = k + 1;
        }
        assert(sections.take(sections.len() as int) =~= sections);
    } else {
        out.append("... (showing 20 of ");
        out.append(count.as_str());
        out.append(", diff omitted for brevity)\n\n");
        assert(out@ =~= middle + ("... (showing 20 of "@ + count@
            + ", diff omitted for brevity)\n\n"@));
    }
    out.append("Roll back these ");
    out.append(count.as_str());
    out.append(" file(s)?");
    out
}

// --- a report ----------------------------------------------------------------------------------

/// How many lines a revert changes.
#[derive(Debug)]
pub struct RevertStats {
    pub additions: usize,
    pub deletions: usize,
    pub total: usize,
}

/// What `RevertStats` holds.
#[verifier::ext_equal]
pub struct RevertStatsView {
    pub additions: usize,
    pub deletions: usize,
    pub total: usize,
}

impl DeepView for RevertStats {
    type V = RevertStatsView;

    open spec fn deep_view(&self) -> RevertStatsView {
        RevertStatsView {
            additions: self.additions,
            deletions: self.deletions,
            total: self.total,
        }
    }
}

/// What a revert does to one file.
#[derive(Debug)]
pub struct RevertFile {
    pub filename: String,
    pub status: String,
    pub additions: usize,
    pub deletions: usize,
    pub changes: usize,
    pub patch: Option<String>,
    pub before_hash: Option<String>,
    pub after_hash: Option<String>,
    pub event_id: i64,
    pub attribution: String,
}

/// What `RevertFile` holds.
#[verifier::ext_equal]
pub struct RevertFileView {
    pub filename: Seq<char>,
    pub status: Seq<char>,
    pub additions: usize,
    pub deletions: usize,
    pub changes: usize,
    pub patch: Option<Seq<char>>,
    pub before_hash: Option<Seq<char>>,
    pub after_hash: Option<Seq<char>>,
    pub event_id: i64,
    pub attribution: Seq<char>,
}

impl DeepView for RevertFile {
    type V = RevertFileView;

    open spec fn deep_view(&self) -> RevertFileView {
        RevertFileView {
            filename: self.filename@,
            status: self.status@,
            additions: self.additions,
            deletions: self.deletions,
            changes: self.changes,
            patch: self.patch.deep_view(),
            before_hash: self.before_hash.deep_view(),
            after_hash: self.after_hash.deep_view(),
            event_id: self.event_id,
            attribution: self.attribution@,
        }
    }
}

/// What a revert does.
#[derive(Debug)]
pub struct RevertJsonOutput {
    pub revert_type: String,
    pub revert_target: String,
    pub file_count: usize,
    pub stats: RevertStats,
    pub files: Vec<RevertFile>,
    pub restored: Option<bool>,
    pub restored_files: Option<Vec<String>>,
}

/// What `RevertJsonOutput` holds.
#[verifier::ext_equal]
pub struct RevertJsonOutputView {
    pub revert_type: Seq<char>,
    pub revert_target: Seq<char>,
    pub file_count: usize,
    pub stats: RevertStatsView,
    pub files: Seq<RevertFileView>,
    pub restored: Option<bool>,
    pub restored_files: Option<Seq<Seq<char>>>,
}

impl DeepView for RevertJsonOutput {
    type V = RevertJsonOutputView;

    open spec fn deep_view(&self) -> RevertJsonOutputView {
        RevertJsonOutputView {
            revert_type: self.revert_type@,
            revert_target: self.revert_target@,
            file_count: self.file_count,
            stats: self.stats.deep_view(),
            files: self.files.deep_view(),
            restored: self.restored,
            restored_files: self.restored_files.deep_view(),
        }
    }
}

/// How many lines of a comparison are tagged so.
pub open spec fn tagged(changes: Seq<LineChangeView>, tag: LineTag) -> nat
    decreases changes.len(),
{
    if changes.len() == 0 {
        0
    } else {
        tagged(changes.drop_last(), tag) + if changes.last().tag == tag {
            1nat
        } else {
            0nat
        }
    }
}

/// What a revert does to one file, from the comparison of its contents.
pub open spec fn file_report(x: PlanItemView, changes: Seq<LineChangeView>) -> RevertFileView {
    let binary = is_binary(x);
    let additions = if binary {
        0
    } else {
        tagged(changes, LineTag::Insert)
    };
    let deletions = if binary {
        0
    } else {
        tagged(changes, LineTag::Delete)
    };
    RevertFileView {
        filename: x.path,
        status: kind_word(x.kind),
        additions: additions as usize,
        deletions: deletions as usize,
        changes: (additions + deletions) as usize,
        patch: if binary {
            None
        } else {
            Some(patch(changes))
        },
        before_hash: x.target_hash,
        after_hash: if x.new_content.len() == 0 {
            None
        } else {
            Some(crate::outside::blake3_hex(x.new_content))
        },
        event_id: x.event_id,
        attribution: x.attribution,
    }
}

/// How many lines of a comparison are tagged so, for both tags that count.
fn count_lines(changes: &Vec<LineChange>) -> (r: (usize, usize))
    ensures
        r.0 == tagged(changes.deep_view(), LineTag::Insert),
        r.1 == tagged(changes.deep_view(), LineTag::Delete),
        r.0 + r.1 <= changes.len(),
{
    let ghost d = changes.deep_view();
    let mut additions: usize = 0;
    let mut deletions: usize = 0;
    let mut i: usize = 0;
    assert(d.take(0).len() == 0);
    while i < changes.len()
        invariant
            i <= changes.len(),
            d == changes.deep_view(),
            additions == tagged(d.take(i as int), LineTag::Insert),
            deletions == tagged(d.take(i as int), LineTag::Delete),
            additions + deletions <= i,
        decreases changes.len() - i,
    {
        assert(d[i as int] == changes@[i as int].deep_view());
        assert(d.take(i + 1).drop_last() =~= d.take(i as int));
        match changes[i].tag {
            LineTag::Insert => {
                additions = additions + 1;
            },
            LineTag::Delete => {
                deletions = deletions + 1;
            },
            LineTag::Equal => {},
        }
        i = i + 1;
    }
    assert(d.take(d.len() as int) =~= d);
    (additions, deletions)
}

/// What a revert does to one file, from the comparison of its contents.
pub fn report_file(item: &PlanItem, changes: &Vec<LineChange>) -> (r: RevertFile)
    ensures
        r.deep_view() == file_report(item.deep_view(), changes.deep_view()),
        is_binary(item.deep_view()) ==> r.additions == 0 && r.deletions == 0,
        !is_binary(item.deep_view()) ==> r.additions == tagged(
            changes.deep_view(),
            LineTag::Insert,
        ) && r.deletions == tagged(changes.deep_view(), LineTag::Delete),
{
    let binary = has_zero(&item.old_content) || has_zero(&item.new_content);
    let (additions, deletions) = if binary {
        (0, 0)
    } else {
        count_lines(changes)
    };
    let after_hash: Option<String> = if item.new_content.len() == 0 {
        None
    } else {
        Some(hash_hex(item.new_content.as_slice()))
    };
    let patch: Option<String> = if binary {
        None
    } else {
        Some(patch_text(changes))
    };
    RevertFile {
        filename: item.path.clone(),
        status: kind_text(item.kind).to_owned(),
        additions,
        deletions,
        changes: additions + deletions,
        patch,
        before_hash: item.target_hash.clone(),
        after_hash,
        event_id: item.event_id,
        attribution: item.attribution.clone(),
    }
}

/// How many lines a plan changes in the way of a tag.
pub open spec fn plan_lines(plan: Seq<PlanItemView>, tag: LineTag) -> nat
    decreases plan.len(),
{
    if plan.len() == 0 {
        0
    } else {
        plan_lines(plan.drop_last(), tag) + tagged(changes_of(plan.last()), tag)
    }
}

/// How many lines a plan adds and removes.
pub open spec fn plan_size(plan: Seq<PlanItemView>) -> nat {
    plan_lines(plan, LineTag::Insert) + plan_lines(plan, LineTag::Delete)
}

proof fn lemma_plan_size_grows(plan: Seq<PlanItemView>, n: int)
    requires
        0 <= n <= plan.len(),
    ensures
        plan_size(plan.take(n)) <= plan_size(plan),
    decreases plan.len() - n,
{
    if n < plan.len() {
        lemma_plan_size_grows(plan, n + 1);
        assert(plan.take(n + 1).drop_last() =~= plan.take(n));
    } else {
        assert(plan.take(n) =~= plan);
    }
}

/// The report on a file of a plan.
pub open spec fn item_report() -> spec_fn(PlanItemView) -> RevertFileView {
    |x: PlanItemView| file_report(x, changes_of(x))
}

/// The report on a plan.
pub open spec fn report(plan: Seq<PlanItemView>, kind: Seq<char>, target: Seq<char>) -> RevertJsonOutputView {
    RevertJsonOutputView {
        revert_type: kind,
        revert_target: target,
        file_count: plan.len() as usize,
        stats: RevertStatsView {
            additions: plan_lines(plan, LineTag::Insert) as usize,
            deletions: plan_lines(plan, LineTag::Delete) as usize,
            total: plan_size(plan) as usize,
        },
        files: plan.map_values(item_report()),
        restored: None,
        restored_files: None,
    }
}

/// The report on a plan whose lines can be counted.
pub fn plan_to_json(plan: &Vec<PlanItem>, revert_type: &str, revert_target: &str) -> (r:
    RevertJsonOutput)
    requires
        plan_size(plan.deep_view()) <= usize::MAX,
    ensures
        r.deep_view() == report(plan.deep_view(), revert_type@, revert_target@),
        forall|k: int|
            0 <= k < plan.deep_view().len() ==> is_compared(#[trigger] plan.deep_view()[k]),
{
    let ghost d = plan.deep_view();
    let mut files: Vec<RevertFile> = Vec::new();
    let mut additions: usize = 0;
    let mut deletions: usize = 0;
    let mut i: usize = 0;
    assert(d.take(0).len() == 0);
    while i < plan.len()
        invariant
            i <= plan.len(),
            d == plan.deep_view(),
            plan_size(d) <= usize::MAX,
            files.len() == i,
            forall|j: int|
                0 <= j < i ==> (#[trigger] files@[j]).deep_view() == item_report()(d[j]),
            additions == plan_lines(d.take(i as int), LineTag::Insert),
            deletions == plan_lines(d.take(i as int), LineTag::Delete),
            forall|j: int| 0 <= j < i ==> is_compared(#[trigger] d[j]),
        decreases plan.len() - i,
    {
        let item = &plan[i];
        let changes = item_changes(item);
        let file = report_file(item, &changes);
        proof {
            assert(d[i as int] == item.deep_view());
            assert(d.take(i + 1).drop_last() =~= d.take(i as int));
            lemma_plan_size_grows(d, i + 1);
            if is_binary(item.deep_view()) {
                assert(changes.deep_view().len() == 0);
            }
        }
        additions = additions + file.additions;
        deletions = deletions + file.deletions;
        files.push(file);
        i = i + 1;
    }
    proof {
        assert(d.take(d.len() as int) =~= d);
        assert(files.deep_view() =~= d.map_values(item_report()));
    }
    RevertJsonOutput {
        revert_type: revert_type.to_owned(),
        revert_target: revert_target.to_owned(),
        file_count: plan.len(),
        stats: RevertStats { additions, deletions, total: additions + deletions },
        files,
        restored: None,
        restored_files: None,
    }
}

/// The report on a plan; `None` where it changes more lines than can be counted.
pub fn try_plan_to_json(plan: &Vec<PlanItem>, revert_type: &str, revert_target: &str) -> (r: Option<
    RevertJsonOutput,
>)
    ensures
        match r {
            Some(output) => plan_size(plan.deep_view()) <= usize::MAX && output.deep_view()
                == report(plan.deep_view(), revert_type@, revert_target@),
            None => plan_size(plan.deep_view()) > usize::MAX,
        },
{
    let ghost d = plan.deep_view();
    let mut size: usize = 0;
    let mut i: usize = 0;
    assert(d.take(0).len() == 0);
    while i < plan.len()
        invariant
            i <= plan.len(),
            d == plan.deep_view(),
            size == plan_size(d.take(i as int)),
        decreases plan.len() - i,
    {
        let changes = item_changes(&plan[i]);
        let (additions, deletions) = count_lines(&changes);
        proof {
            assert(d[i as int] == plan@[i as int].deep_view());
            assert(d.take(i + 1).drop_last() =~= d.take(i as int));
            lemma_plan_size_grows(d, i + 1);
        }
        let more: usize = additions + deletions;
        if more > usize::MAX - size {
            return None;
        }
        size = size + more;
        i = i + 1;
    }
    assert(d.take(d.len() as int) =~= d);
    Some(plan_to_json(plan, revert_type, revert_target))
}

} // verus!
