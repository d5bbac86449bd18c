//! Which files are left alone: the project's own data, what the ignore rules name, and the
//! scratch files of editors.
use vstd::prelude::*;

use crate::parts::{file_name, has_part_named, parts_below, relative_path};
use crate::store::Store;
use crate::text::{chars_of, ends_with, slice_text, starts_with};

verus! {

broadcast use vstd::string::group_string_axioms;

/// Whether `GitignoreBuilder::build` makes a set of rules of some lines.
pub uninterp spec fn rules_build(lines: Seq<Seq<char>>) -> bool;

/// Whether `Gitignore::matched_path_or_any_parents` finds that the rules that some lines make
/// leave out what some parts lead to from their directory.
pub uninterp spec fn rules_ignore(
    lines: Seq<Seq<char>>,
    parts: Seq<Seq<char>>,
    is_dir: bool,
) -> bool;

/// Whether `Gitignore::matched` finds that the rules that some lines make for a directory leave a
/// path out.
pub uninterp spec fn rules_match(
    root: Seq<char>,
    lines: Seq<Seq<char>>,
    path: Seq<char>,
    is_dir: bool,
) -> bool;

/// Whether a line is the plain name of a directory: letters, digits, `_` or `-`, and a `/` at the
/// end.
pub open spec fn names_directory(line: Seq<char>) -> bool {
    &&& line.len() >= 2
    &&& line.last() == '/'
    &&& forall|k: int| 0 <= k < line.len() - 1 ==> is_plain(#[trigger] line[k])
}

/// Whether a character has no meaning of its own in an ignore rule.
pub open spec fn is_plain(c: char) -> bool {
    'a' <= c <= 'z' || 'A' <= c <= 'Z' || '0' <= c <= '9' || c == '_' || c == '-'
}

/// Whether no line makes an exception from the others.
pub open spec fn no_exceptions(lines: Seq<Seq<char>>) -> bool {
    forall|n: int| 0 <= n < lines.len() ==> !crate::text::begins(#[trigger] lines[n], "!"@)
}

/// Whether a directory with a name is what some parts lead to, or stands on the way.
pub open spec fn leads_through(parts: Seq<Seq<char>>, is_dir: bool, name: Seq<char>) -> bool {
    exists|k: int|
        0 <= k < parts.len() && (is_dir || k < parts.len() - 1) && (#[trigger] parts[k]) == name
}

/// Whether one of the lines is the plain name of a directory that some parts lead to or through.
pub open spec fn is_named(lines: Seq<Seq<char>>, parts: Seq<Seq<char>>, is_dir: bool) -> bool {
    exists|n: int|
        0 <= n < lines.len() && names_directory(#[trigger] lines[n]) && leads_through(
            parts,
            is_dir,
            lines[n].drop_last(),
        )
}

/// `GitignoreBuilder::new`, `add_line` for each line and `build`: whether a set of rules comes out
/// depends on the lines alone, and is named `rules_build`.
#[verifier::external_body]
fn can_build(lines: &Vec<String>) -> (r: bool)
    ensures
        r == rules_build(lines.deep_view()),
{
    let mut builder = ignore::gitignore::GitignoreBuilder::new(".");
    for line in lines {
        let _ = builder.add_line(None, line);
    }
    builder.build().is_ok()
}

/// `GitignoreBuilder::new` for the directory `.`, `add_line` for each line, `build`, and then
/// `Gitignore::matched_path_or_any_parents` and `Match::is_ignore` on the parts with a `/` between
/// each two: whether the rules leave out what the parts lead to, itself or with a directory on the
/// way, is a function of the lines, the parts and its kind, named `rules_ignore`. Rules that cannot
/// be built leave nothing out, and no lines make no rule. Where no line makes an exception, a line
/// that is the plain name of a directory leaves out every directory of that name and all that lies
/// inside. The call panics on an absolute path, which parts that hold no `/` never make.
#[verifier::external_body]
fn leaves_out(lines: &Vec<String>, parts: &Vec<String>, is_dir: bool) -> (r: bool)
    requires
        forall|k: int|
            0 <= k < parts.deep_view().len() ==> crate::parts::is_part(
                #[trigger] parts.deep_view()[k],
            ),
    ensures
        r == rules_ignore(lines.deep_view(), parts.deep_view(), is_dir),
        lines.deep_view().len() == 0 ==> !r,
        rules_build(lines.deep_view()) && no_exceptions(lines.deep_view()) && is_named(
            lines.deep_view(),
            parts.deep_view(),
            is_dir,
        ) ==> r,
{
    let mut builder = ignore::gitignore::GitignoreBuilder::new(".");
    for line in lines {
        let _ = builder.add_line(None, line);
    }
    match builder.build() {
        Ok(rules) => rules.matched_path_or_any_parents(parts.join("/"), is_dir).is_ignore(),
        Err(_) => false,
    }
}

/// `GitignoreBuilder::new` for a directory, `add_line` for each line, `build`, and then
/// `Gitignore::matched` and `Match::is_ignore`: whether the rules leave a path out by itself is a
/// function of the directory, the lines, the path and its kind, named `rules_match`. Rules that
/// cannot be built leave nothing out, and no lines make no rule.
#[verifier::external_body]
fn leaves_out_alone(root: &str, lines: &Vec<String>, path: &str, is_dir: bool) -> (r: bool)
    ensures
        r == rules_match(root@, lines.deep_view(), path@, is_dir),
        lines.deep_view().len() == 0 ==> !r,
{
    let mut builder = ignore::gitignore::GitignoreBuilder::new(root);
    for line in lines {
        let _ = builder.add_line(None, line);
    }
    match builder.build() {
        Ok(rules) => rules.matched(path, is_dir).is_ignore(),
        Err(_) => false,
    }
}

/// The ignore rules of a project: its directory, and the lines that make them.
#[derive(Debug)]
pub struct Ignorer {
    pub root: String,
    pub lines: Vec<String>,
}

/// What `Ignorer` holds.
#[verifier::ext_equal]
pub struct IgnorerView {
    pub root: Seq<char>,
    pub lines: Seq<Seq<char>>,
}

impl DeepView for Ignorer {
    type V = IgnorerView;

    open spec fn deep_view(&self) -> IgnorerView {
        IgnorerView {
            root: self.root@,
            lines: self.lines.deep_view(),
        }
    }
}

// --- the rules ---------------------------------------------------------------------------------

/// A text without the byte order marks that it begins with.
pub open spec fn without_marks(s: Seq<char>) -> Seq<char>
    decreases s.len(),
{
    if s.len() > 0 && s[0] == '\u{feff}' {
        without_marks(s.drop_first())
    } else {
        s
    }
}

fn strip_marks(line: &str) -> (r: String)
    ensures
        r@ == without_marks(line@),
{
    let v = chars_of(line);
    let mut from: usize = 0;
    assert(v@.skip(0) =~= v@);
    while from < v.len() && v[from] == '\u{feff}'
        invariant
            from <= v.len(),
            v@ == line@,
            without_marks(v@.skip(from as int)) == without_marks(line@),
        decreases v.len() - from,
    {
        assert(v@.skip(from as int).drop_first() =~= v@.skip(from + 1));
        from = from + 1;
    }
    assert(v@.skip(from as int) =~= v@.subrange(from as int, v@.len() as int));
    slice_text(&v, from, v.len())
}

/// The lines of an ignore file: its first line loses the byte order marks that it begins with.
pub open spec fn file_lines(lines: Seq<Seq<char>>) -> Seq<Seq<char>> {
    if lines.len() == 0 {
        lines
    } else {
        lines.update(0, without_marks(lines[0]))
    }
}

/// The rules that every project has.
pub open spec fn standing_rules() -> Seq<Seq<char>> {
    seq![
        ".agent-undo/"@,
        ".git/"@,
        "target/"@,
        "node_modules/"@,
        "dist/"@,
        "build/"@,
        ".DS_Store"@,
    ]
}

/// All lines in their order: those of the two ignore files of the project, the standing ones and
/// those of the configuration.
pub open spec fn all_rules(
    git_lines: Seq<Seq<char>>,
    own_lines: Seq<Seq<char>>,
    patterns: Seq<Seq<char>>,
) -> Seq<Seq<char>> {
    file_lines(git_lines) + file_lines(own_lines) + standing_rules() + patterns
}

fn add_all(out: &mut Vec<String>, lines: &Vec<String>)
    ensures
        final(out).deep_view() == old(out).deep_view() + lines.deep_view(),
{
    let ghost before = out.deep_view();
    let ghost d = lines.deep_view();
    let mut i: usize = 0;
    assert(before + d.take(0) =~= before);
    while i < lines.len()
        invariant
            i <= lines.len(),
            d == lines.deep_view(),
            out.deep_view() == before + d.take(i as int),
        decreases lines.len() - i,
    {
        out.push(lines[i].clone());
        proof {
            assert(d[i as int] == lines@[i as int]@);
            assert(out.deep_view() =~= (before + d.take(i as int)).push(d[i as int]));
            assert(before + d.take(i + 1) =~= (before + d.take(i as int)).push(d[i as int]));
        }
        i = i + 1;
    }
    assert(d.take(d.len() as int) =~= d);
}

fn unmarked(lines: &Vec<String>) -> (r: Vec<String>)
    ensures
        r.deep_view() == file_lines(lines.deep_view()),
{
    let ghost d = lines.deep_view();
    let mut out: Vec<String> = Vec::new();
    let mut i: usize = 0;
    while i < lines.len()
        invariant
            i <= lines.len(),
            d == lines.deep_view(),
            out.len() == i,
            forall|j: int| 0 <= j < i ==> (#[trigger] out@[j])@ == file_lines(d)[j],
        decreases lines.len() - i,
    {
        assert(d[i as int] == lines@[i as int]@);
        if i == 0 {
            out.push(strip_marks(lines[i].as_str()));
        } else {
            out.push(lines[i].clone());
        }
        i = i + 1;
    }
    assert(out.deep_view() =~= file_lines(d));
    out
}

/// The rules of a project that some lines make: none where they cannot be used together.
pub open spec fn usable(lines: Seq<Seq<char>>) -> Seq<Seq<char>> {
    if rules_build(lines) {
        lines
    } else {
        Seq::empty()
    }
}

/// The ignore rules of a project, from the lines of its `.gitignore` and its `.agent-undoignore`
/// and from the patterns of its configuration. None where they cannot be used together.
pub fn build_ignorer(
    root: &str,
    git_lines: &Vec<String>,
    own_lines: &Vec<String>,
    patterns: &Vec<String>,
) -> (r: Ignorer)
    ensures
        r.deep_view() == (IgnorerView {
            root: root@,
            lines: usable(
                all_rules(git_lines.deep_view(), own_lines.deep_view(), patterns.deep_view()),
            ),
        }),
{
    let ghost g = file_lines(git_lines.deep_view());
    let ghost o = file_lines(own_lines.deep_view());
    let mut lines: Vec<String> = Vec::new();
    assert(lines.deep_view() =~= Seq::<Seq<char>>::empty());
    add_all(&mut lines, &unmarked(git_lines));
    add_all(&mut lines, &unmarked(own_lines));
    assert(lines.deep_view() =~= g + o);
    lines.push(".agent-undo/".to_owned());
    lines.push(".git/".to_owned());
    lines.push("target/".to_owned());
    lines.push("node_modules/".to_owned());
    lines.push("dist/".to_owned());
    lines.push("build/".to_owned());
    lines.push(".DS_Store".to_owned());
    assert(lines.deep_view() =~= g + o + standing_rules());
    add_all(&mut lines, patterns);
    if !can_build(&lines) {
        lines = Vec::new();
        assert(lines.deep_view() =~= Seq::<Seq<char>>::empty());
    }
    Ignorer { root: root.to_owned(), lines }
}

// --- what is skipped ---------------------------------------------------------------------------

/// Whether a path leads into the data of this program or of the version control.
pub open spec fn is_inner(path: Seq<char>) -> bool {
    crate::parts::parts_of(path).contains(".agent-undo"@) || crate::parts::parts_of(
        path,
    ).contains(".git"@)
}

/// Whether the rules of a project leave a path out: itself or with a directory of the project that
/// it lies in; a path that does not lie in the project, by itself alone.
pub open spec fn ruled_out(g: IgnorerView, path: Seq<char>, is_dir: bool) -> bool {
    match crate::parts::below(g.root, path) {
        Some(parts) => rules_ignore(g.lines, parts, is_dir),
        None => rules_match(g.root, g.lines, path, is_dir),
    }
}

/// Whether a path is left alone under some rules.
pub open spec fn skipped(g: IgnorerView, path: Seq<char>, is_dir: bool) -> bool {
    is_inner(path) || ruled_out(g, path, is_dir)
}

/// Whether a path is left alone, given what the ignore rules say of it.
pub fn skip_given(path: &str, ruled_out: bool) -> (r: bool)
    ensures
        r == (is_inner(path@) || ruled_out),
{
    has_part_named(path, ".agent-undo") || has_part_named(path, ".git") || ruled_out
}

/// Whether a path is left alone: it leads into the data of this program or of the version control,
/// or the ignore rules name it or a directory of the project that it lies in. As long as no rule
/// makes an exception, the directories that a rule names plainly are left alone, with all that lies
/// inside.
pub fn should_skip(ignorer: &Ignorer, path: &str, is_dir: bool) -> (r: bool)
    ensures
        r == skipped(ignorer.deep_view(), path@, is_dir),
        ({
            let g = ignorer.deep_view();
            crate::parts::below(g.root, path@) matches Some(parts) ==> rules_build(g.lines)
                && no_exceptions(g.lines) && is_named(g.lines, parts, is_dir) ==> r
        }),
{
    let ruled_out = match parts_below(ignorer.root.as_str(), path) {
        Some(parts) => {
            proof {
                crate::parts::lemma_below(ignorer.root@, path@);
            }
            leaves_out(&ignorer.lines, &parts, is_dir)
        },
        None => leaves_out_alone(ignorer.root.as_str(), &ignorer.lines, path, is_dir),
    };
    skip_given(path, ruled_out)
}

/// The standing rules name the directories that builds write to. So, as `should_skip` says, with
/// rules that can be used together and that make no exception, these directories are left alone,
/// with all that lies inside.
pub proof fn law_build_outputs_are_named(
    git_lines: Seq<Seq<char>>,
    own_lines: Seq<Seq<char>>,
    patterns: Seq<Seq<char>>,
    parts: Seq<Seq<char>>,
    is_dir: bool,
)
    requires
        ({
            ||| leads_through(parts, is_dir, "target"@)
            ||| leads_through(parts, is_dir, "node_modules"@)
            ||| leads_through(parts, is_dir, "dist"@)
            ||| leads_through(parts, is_dir, "build"@)
        }),
    ensures
        is_named(all_rules(git_lines, own_lines, patterns), parts, is_dir),
{
    reveal_strlit("target/");
    reveal_strlit("node_modules/");
    reveal_strlit("dist/");
    reveal_strlit("build/");
    reveal_strlit("target");
    reveal_strlit("node_modules");
    reveal_strlit("dist");
    reveal_strlit("build");
    let lines = all_rules(git_lines, own_lines, patterns);
    let at: int = (git_lines.len() + own_lines.len()) as int;
    assert(lines[at + 2] == "target/"@);
    assert(lines[at + 3] == "node_modules/"@);
    assert(lines[at + 4] == "dist/"@);
    assert(lines[at + 5] == "build/"@);
    assert("target/"@.drop_last() =~= "target"@);
    assert("node_modules/"@.drop_last() =~= "node_modules"@);
    assert("dist/"@.drop_last() =~= "dist"@);
    assert("build/"@.drop_last() =~= "build"@);
    assert(names_directory(lines[at + 2]));
    assert(names_directory(lines[at + 3]));
    assert(names_directory(lines[at + 4]));
    assert(names_directory(lines[at + 5]));
}

/// Whether a directory of the project is entered by the first scan.
pub fn enters(name: &str) -> (r: bool)
    ensures
        r == (name@ != ".agent-undo"@ && name@ != ".git"@),
{
    !crate::text::same(name, ".agent-undo") && !crate::text::same(name, ".git")
}

/// Whether a file name is that of a scratch file of an editor.
pub open spec fn looks_transient(name: Seq<char>) -> bool {
    ||| crate::text::ends(name, ".tmp"@)
    ||| crate::text::ends(name, ".temp"@)
    ||| crate::text::ends(name, ".swp"@)
    ||| crate::text::ends(name, ".swo"@)
    ||| crate::text::ends(name, "~"@)
    ||| crate::text::ends(name, "___jb_tmp___"@)
    ||| crate::text::ends(name, "___jb_old___"@)
    ||| crate::text::begins(name, ".#"@)
}

/// Whether a path is a scratch file that is not tracked.
pub open spec fn transient(i: crate::image::Image, root: Seq<char>, path: Seq<char>) -> bool {
    match crate::parts::name_of(path) {
        Some(name) => looks_transient(name) && !i.file_states.contains_key(
            crate::parts::relative(root, path),
        ),
        None => false,
    }
}

/// Whether a path is a scratch file that is not tracked.
pub fn should_skip_transient(store: &Store, path: &str) -> (r: bool)
    requires
        store.wf(),
    ensures
        r == transient(store.image(), store.layout().root, path@),
{
    let name = match file_name(path) {
        Some(name) => name,
        None => {
            return false;
        },
    };
    let n = name.as_str();
    let looks = ends_with(n, ".tmp") || ends_with(n, ".temp") || ends_with(n, ".swp") || ends_with(
        n,
        ".swo",
    ) || ends_with(n, "~") || ends_with(n, "___jb_tmp___") || ends_with(n, "___jb_old___")
        || starts_with(n, ".#");
    if !looks {
        return false;
    }
    let rel = relative_path(store.paths().root.as_str(), path);
    store.get_file_state(rel.as_str()).is_none()
}

/// What lies in the data of this program or of the version control is left alone, whatever the
/// rules say and wherever it lies.
pub proof fn law_inner_data_is_left_alone(
    g: IgnorerView,
    path: Seq<char>,
    is_dir: bool,
    k: int,
)
    requires
        0 <= k < crate::parts::parts_of(path).len(),
        crate::parts::parts_of(path)[k] == ".agent-undo"@ || crate::parts::parts_of(path)[k]
            == ".git"@,
    ensures
        skipped(g, path, is_dir),
{
}

/// The rules of a project are all lines of its ignore files, the standing ones and those of its
/// configuration, in this order; only byte order marks are taken off the first line of a file.
pub proof fn law_no_rule_is_left_out(
    git_lines: Seq<Seq<char>>,
    own_lines: Seq<Seq<char>>,
    patterns: Seq<Seq<char>>,
)
    ensures
        ({
            let r = all_rules(git_lines, own_lines, patterns);
            let a = git_lines.len() as int;
            let b = a + own_lines.len();
            &&& r.len() == git_lines.len() + own_lines.len() + 7 + patterns.len()
            &&& forall|k: int|
                0 <= k < a ==> (#[trigger] r[k]) == git_lines[k] || (k == 0 && git_lines[0].len()
                    > 0 && git_lines[0][0] == '\u{feff}')
            &&& forall|k: int|
                a <= k < b ==> (#[trigger] r[k]) == own_lines[k - a] || (k == a && own_lines[0].len()
                    > 0 && own_lines[0][0] == '\u{feff}')
            &&& r[b] == ".agent-undo/"@ && r[b + 1] == ".git/"@ && r[b + 2] == "target/"@
            &&& r[b + 3] == "node_modules/"@ && r[b + 4] == "dist/"@ && r[b + 5] == "build/"@
            &&& r[b + 6] == ".DS_Store"@
            &&& forall|k: int| b + 7 <= k < r.len() ==> (#[trigger] r[k]) == patterns[k - b - 7]
        }),
{
}

/// A byte order mark is taken off the front of a line, and nothing else.
pub proof fn law_marks_are_taken_off(line: Seq<char>)
    ensures
        without_marks(seq!['\u{feff}'] + line) == without_marks(line),
        line.len() == 0 || line[0] != '\u{feff}' ==> without_marks(line) == line,
{
    assert((seq!['\u{feff}'] + line).drop_first() =~= line);
}

/// What a name looks like decides whether it is that of a scratch file: by how it ends, or by `.#`
/// at its beginning.
pub proof fn law_scratch_files_are_known_by_their_names(stem: Seq<char>, name: Seq<char>)
    ensures
        looks_transient(stem + ".tmp"@),
        looks_transient(stem + ".temp"@),
        looks_transient(stem + ".swp"@),
        looks_transient(stem + ".swo"@),
        looks_transient(stem + "~"@),
        looks_transient(stem + "___jb_tmp___"@),
        looks_transient(stem + "___jb_old___"@),
        looks_transient(".#"@ + stem),
        looks_transient(name) ==> {
            ||| ends_so(name, ".tmp"@)
            ||| ends_so(name, ".temp"@)
            ||| ends_so(name, ".swp"@)
            ||| ends_so(name, ".swo"@)
            ||| ends_so(name, "~"@)
            ||| ends_so(name, "___jb_tmp___"@)
            ||| ends_so(name, "___jb_old___"@)
            ||| name.len() >= 2 && name.take(2) == ".#"@
        },
{
    lemma_ends(stem, ".tmp"@);
    lemma_ends(stem, ".temp"@);
    lemma_ends(stem, ".swp"@);
    lemma_ends(stem, ".swo"@);
    lemma_ends(stem, "~"@);
    lemma_ends(stem, "___jb_tmp___"@);
    lemma_ends(stem, "___jb_old___"@);
    reveal_strlit(".#");
    assert((".#"@ + stem).take(2) =~= ".#"@);
}

/// Whether a text ends with another.
pub open spec fn ends_so(name: Seq<char>, end: Seq<char>) -> bool {
    name.len() >= end.len() && name.skip(name.len() - end.len()) == end
}

proof fn lemma_ends(stem: Seq<char>, end: Seq<char>)
    ensures
        crate::text::ends(stem + end, end),
{
    assert((stem + end).skip(stem.len() as int) =~= end);
    assert((stem + end).subrange(stem.len() as int, (stem + end).len() as int) =~= end);
}

/// A scratch file is passed over as long as it is not tracked; any other file is looked at.
pub proof fn law_scratch_files_are_passed_over(
    i: crate::image::Image,
    root: Seq<char>,
    path: Seq<char>,
)
    ensures
        transient(i, root, path) <==> crate::parts::name_of(path) is Some && looks_transient(
            crate::parts::name_of(path)->0,
        ) && !i.file_states.contains_key(crate::parts::relative(root, path)),
{
}

/// What is not inner data is left alone where the rules say so, and only there: for a path in the
/// project they are asked for its parts from the project on, and for any other for the path itself.
pub proof fn law_the_rules_decide_the_rest(g: IgnorerView, path: Seq<char>, is_dir: bool)
    requires
        forall|k: int|
            0 <= k < crate::parts::parts_of(path).len() ==> (#[trigger] crate::parts::parts_of(
                path,
            )[k]) != ".agent-undo"@ && crate::parts::parts_of(path)[k] != ".git"@,
    ensures
        crate::parts::below(g.root, path) matches Some(parts) ==> skipped(g, path, is_dir)
            == rules_ignore(g.lines, parts, is_dir),
        crate::parts::below(g.root, path) is None ==> skipped(g, path, is_dir) == rules_match(
            g.root,
            g.lines,
            path,
            is_dir,
        ),
{
    assert(!is_inner(path)) by {
        let parts = crate::parts::parts_of(path);
        if parts.contains(".agent-undo"@) {
            let k = choose|k: int| 0 <= k < parts.len() && parts[k] == ".agent-undo"@;
            assert(parts[k] == ".agent-undo"@);
        }
        if parts.contains(".git"@) {
            let k = choose|k: int| 0 <= k < parts.len() && parts[k] == ".git"@;
            assert(parts[k] == ".git"@);
        }
    }
}

} // verus!
