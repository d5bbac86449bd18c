//! The parts of a path: what stands between the `/`, as the file system sees it.
//!
//! Empty parts and parts that are `.` do not count, but for a `.` that a relative path begins
//! with. The `/` that an absolute path begins with is a part of its own.
use vstd::prelude::*;

pub mod laws;

use crate::text::{chars_of, same, slice_text};

verus! {

broadcast use vstd::string::group_string_axioms;

/// Where the first `/` of a text stands, or its length where it has none.
pub open spec fn slash_at(t: Seq<char>) -> int
    decreases t.len(),
{
    if t.len() == 0 || t[0] == '/' {
        0
    } else {
        1 + slash_at(t.drop_first())
    }
}

/// The first `/` of a text stands inside it, and no character before it is a `/`.
pub proof fn lemma_slash_at(t: Seq<char>)
    ensures
        0 <= slash_at(t) <= t.len(),
        slash_at(t) < t.len() ==> t[slash_at(t)] == '/',
        forall|i: int| 0 <= i < slash_at(t) ==> t[i] != '/',
    decreases t.len(),
{
    if t.len() > 0 && t[0] != '/' {
        let u = t.drop_first();
        lemma_slash_at(u);
        assert forall|i: int| 0 <= i < slash_at(t) implies t[i] != '/' by {
            if i > 0 {
                assert(u[i - 1] == t[i]);
            }
        }
    }
}

/// A place is that of the first `/` where it is a `/` and none stands before it.
pub(crate) proof fn lemma_slash_here(t: Seq<char>, at: int)
    requires
        0 <= at <= t.len(),
        at < t.len() ==> t[at] == '/',
        forall|i: int| 0 <= i < at ==> t[i] != '/',
    ensures
        slash_at(t) == at,
{
    lemma_slash_at(t);
    let s = slash_at(t);
    if s < at {
        assert(t[s] != '/');
    } else if at < s {
        assert(t[at] != '/');
    }
}

/// What stands before the first `/` of a text.
pub open spec fn piece(t: Seq<char>) -> Seq<char> {
    t.take(slash_at(t))
}

/// What stands behind the first `/` of a text.
pub open spec fn after(t: Seq<char>) -> Seq<char> {
    if slash_at(t) < t.len() {
        t.skip(slash_at(t) + 1)
    } else {
        Seq::empty()
    }
}

/// Whether what stands between two `/` does not count as a part.
pub open spec fn is_blank(p: Seq<char>) -> bool {
    p.len() == 0 || p == seq!['.']
}

/// A text from its first part on.
pub open spec fn from_part(t: Seq<char>) -> Seq<char>
    decreases t.len(),
{
    proof {
        lemma_slash_at(t);
    }
    if t.len() > 0 && is_blank(piece(t)) {
        from_part(after(t))
    } else {
        t
    }
}

/// What stands from the first part on begins with a part.
pub proof fn lemma_from_part(t: Seq<char>)
    ensures
        from_part(t).len() <= t.len(),
        from_part(t).len() > 0 ==> !is_blank(piece(from_part(t))),
    decreases t.len(),
{
    lemma_slash_at(t);
    if t.len() > 0 && is_blank(piece(t)) {
        lemma_from_part(after(t));
    }
}

/// The parts of a text that has no beginning of its own.
pub open spec fn body_parts(t: Seq<char>) -> Seq<Seq<char>>
    decreases t.len(),
{
    let u = from_part(t);
    proof {
        lemma_from_part(t);
        lemma_slash_at(u);
    }
    if u.len() == 0 {
        Seq::empty()
    } else {
        seq![piece(u)] + body_parts(after(u))
    }
}

/// The part that a path begins with before all others: the `/` of an absolute path, or the `.` of
/// a relative one.
pub open spec fn opening(path: Seq<char>) -> Option<char> {
    if path.len() > 0 && path[0] == '/' {
        Some('/')
    } else if path.len() > 0 && piece(path) == seq!['.'] {
        Some('.')
    } else {
        None
    }
}

/// What follows the beginning of a path.
pub open spec fn body_of(path: Seq<char>) -> Seq<char> {
    match opening(path) {
        Some(_) => path.skip(1),
        None => path,
    }
}

/// The parts of a path.
pub open spec fn parts_of(path: Seq<char>) -> Seq<Seq<char>> {
    match opening(path) {
        Some(c) => seq![seq![c]] + body_parts(body_of(path)),
        None => body_parts(path),
    }
}

/// Where the first part from `from` on begins and ends, and where the rest begins.
fn next_part(v: &Vec<char>, from: usize) -> (r: Option<(usize, usize, usize)>)
    requires
        from <= v.len(),
    ensures
        match r {
            Some((start, end, rest)) => {
                &&& from <= start < end <= rest <= v.len()
                &&& from_part(v@.skip(from as int)) == v@.skip(start as int)
                &&& piece(v@.skip(start as int)) == v@.subrange(start as int, end as int)
                &&& after(v@.skip(start as int)) == v@.skip(rest as int)
            },
            None => from_part(v@.skip(from as int)).len() == 0,
        },
{
    let ghost t = v@.skip(from as int);
    let mut start: usize = from;
    while start < v.len()
        invariant
            from <= start <= v.len(),
            t == v@.skip(from as int),
            from_part(t) == from_part(v@.skip(start as int)),
        decreases v.len() - start,
    {
        let ghost u = v@.skip(start as int);
        let mut end: usize = start;
        while end < v.len() && v[end] != '/'
            invariant
                start <= end <= v.len(),
                u == v@.skip(start as int),
                forall|i: int| 0 <= i < end - start ==> u[i] != '/',
            decreases v.len() - end,
        {
            assert(u[end - start] == v@[end as int]);
            end = end + 1;
        }
        let rest: usize = if end < v.len() {
            end + 1
        } else {
            end
        };
        proof {
            if end < v.len() {
                assert(u[end - start] == v@[end as int]);
            }
            lemma_slash_here(u, end - start);
            assert(piece(u) =~= v@.subrange(start as int, end as int));
            assert(after(u) =~= v@.skip(rest as int));
        }
        let blank = end == start || (end == start + 1 && v[start] == '.');
        proof {
            let p = v@.subrange(start as int, end as int);
            if end == start + 1 {
                assert(p[0] == v@[start as int]);
                if v@[start as int] == '.' {
                    assert(p =~= seq!['.']);
                }
            }
            assert(blank == is_blank(p));
        }
        if !blank {
            return Some((start, end, rest));
        }
        start = rest;
    }
    None
}

/// Whether a path has a beginning of its own.
fn opens(v: &Vec<char>) -> (r: Option<char>)
    ensures
        r == opening(v@),
{
    if v.len() == 0 {
        return None;
    }
    if v[0] == '/' {
        return Some('/');
    }
    proof {
        lemma_slash_at(v@);
    }
    if v[0] == '.' && (v.len() == 1 || v[1] == '/') {
        proof {
            lemma_slash_here(v@, 1);
            assert(piece(v@) =~= seq!['.']);
        }
        return Some('.');
    }
    proof {
        if piece(v@) == seq!['.'] {
            assert(piece(v@).len() == slash_at(v@));
            assert(seq!['.'].len() == 1);
            assert(piece(v@)[0] == v@[0]);
            assert(v@.len() == 1 || v@[1] == '/');
        }
    }
    None
}

/// The parts of a path.
pub fn split_parts(path: &str) -> (r: Vec<String>)
    ensures
        r.deep_view() == parts_of(path@),
{
    let v = chars_of(path);
    let mut out: Vec<String> = Vec::new();
    let mut from: usize = 0;
    if let Some(c) = opens(&v) {
        let mut first = String::new();
        first.push(c);
        assert(first@ =~= seq![c]);
        out.push(first);
        from = 1;
    }
    proof {
        assert(v@.skip(0) =~= v@);
        assert(v@.skip(from as int) =~= body_of(path@));
        assert(out.deep_view() + body_parts(v@.skip(from as int)) =~= parts_of(path@));
    }
    loop
        invariant
            from <= v.len(),
            v@ == path@,
            out.deep_view() + body_parts(v@.skip(from as int)) == parts_of(path@),
        decreases v.len() - from,
    {
        match next_part(&v, from) {
            Some((start, end, rest)) => {
                let ghost so_far = out.deep_view();
                let ghost t = v@.skip(from as int);
                let part = slice_text(&v, start, end);
                out.push(part);
                proof {
                    assert(out.deep_view() =~= so_far.push(part@));
                    assert(body_parts(t) =~= seq![part@] + body_parts(v@.skip(rest as int)));
                    assert(so_far + body_parts(t) =~= out.deep_view() + body_parts(
                        v@.skip(rest as int),
                    ));
                }
                from = rest;
            },
            None => {
                assert(body_parts(v@.skip(from as int)).len() == 0);
                assert(out.deep_view() =~= parts_of(path@));
                return out;
            },
        }
    }
}

/// Whether one of the parts of a path is the given one.
pub fn has_part_named(path: &str, name: &str) -> (r: bool)
    ensures
        r == parts_of(path@).contains(name@),
{
    let parts = split_parts(path);
    let ghost d = parts.deep_view();
    let mut i: usize = 0;
    while i < parts.len()
        invariant
            i <= parts.len(),
            d == parts.deep_view(),
            d == parts_of(path@),
            forall|j: int| 0 <= j < i ==> d[j] != name@,
        decreases parts.len() - i,
    {
        assert(d[i as int] == parts@[i as int]@);
        if same(parts[i].as_str(), name) {
            assert(d[i as int] == name@);
            return true;
        }
        i = i + 1;
    }
    false
}

/// Whether a path lies at or below another one.
pub open spec fn lies_under(root: Seq<char>, path: Seq<char>) -> bool {
    let r = parts_of(root);
    let p = parts_of(path);
    r.len() <= p.len() && p.take(r.len() as int) == r
}

/// Whether a path lies at or below another one.
pub fn is_under(root: &str, path: &str) -> (r: bool)
    ensures
        r == lies_under(root@, path@),
{
    let a = split_parts(root);
    let b = split_parts(path);
    let ghost x = a.deep_view();
    let ghost y = b.deep_view();
    if a.len() > b.len() {
        return false;
    }
    let mut i: usize = 0;
    while i < a.len()
        invariant
            i <= a.len() <= b.len(),
            x == a.deep_view(),
            y == b.deep_view(),
            x == parts_of(root@),
            y == parts_of(path@),
            forall|j: int| 0 <= j < i ==> x[j] == y[j],
        decreases a.len() - i,
    {
        assert(x[i as int] == a@[i as int]@);
        assert(y[i as int] == b@[i as int]@);
        if !same(a[i].as_str(), b[i].as_str()) {
            assert(y.take(x.len() as int)[i as int] == y[i as int]);
            return false;
        }
        i = i + 1;
    }
    assert(y.take(x.len() as int) =~= x);
    true
}

/// Whether a text can be a part of a path that is neither its beginning nor blank.
pub open spec fn is_part(p: Seq<char>) -> bool {
    !is_blank(p) && forall|k: int| 0 <= k < p.len() ==> (#[trigger] p[k]) != '/'
}

/// The parts of a text that has no beginning of its own are neither blank nor divided.
proof fn lemma_body_parts(t: Seq<char>)
    ensures
        forall|k: int| 0 <= k < body_parts(t).len() ==> is_part(#[trigger] body_parts(t)[k]),
    decreases t.len(),
{
    let u = from_part(t);
    lemma_from_part(t);
    lemma_slash_at(u);
    if u.len() > 0 {
        lemma_body_parts(after(u));
        let parts = body_parts(t);
        assert forall|k: int| 0 <= k < parts.len() implies is_part(#[trigger] parts[k]) by {
            if k == 0 {
                assert(parts[0] == piece(u));
            } else {
                assert(parts[k] == body_parts(after(u))[k - 1]);
            }
        }
    }
}

/// The parts by which a path goes on from a directory that it lies at or below; `None` for any
/// other path.
pub open spec fn below(root: Seq<char>, path: Seq<char>) -> Option<Seq<Seq<char>>> {
    let n = parts_of(root).len() as int;
    if lies_under(root, path) && (n > 0 || opening(path) is None) {
        Some(parts_of(path).skip(n))
    } else {
        None
    }
}

/// The parts by which a path goes on from a directory are neither blank nor divided.
pub proof fn lemma_below(root: Seq<char>, path: Seq<char>)
    ensures
        below(root, path) matches Some(parts) ==> forall|k: int|
            0 <= k < parts.len() ==> is_part(#[trigger] parts[k]),
{
    let n = parts_of(root).len() as int;
    lemma_body_parts(body_of(path));
    if let Some(parts) = below(root, path) {
        assert forall|k: int| 0 <= k < parts.len() implies is_part(#[trigger] parts[k]) by {
            assert(parts[k] == parts_of(path)[n + k]);
            if opening(path) is Some {
                assert(parts_of(path)[n + k] == body_parts(body_of(path))[n + k - 1]);
            }
        }
    }
}

/// The parts by which a path goes on from a directory (see `below`).
pub fn parts_below(root: &str, path: &str) -> (r: Option<Vec<String>>)
    ensures
        match below(root@, path@) {
            Some(parts) => r matches Some(v) && v.deep_view() == parts,
            None => r is None,
        },
{
    if !is_under(root, path) {
        return None;
    }
    let n: usize = split_parts(root).len();
    let parts = split_parts(path);
    let ghost d = parts.deep_view();
    assert(n == parts_of(root@).len());
    if n == 0 && opens(&chars_of(path)).is_some() {
        return None;
    }
    let mut out: Vec<String> = Vec::new();
    let mut k: usize = n;
    while k < parts.len()
        invariant
            n <= k <= parts.len(),
            d == parts.deep_view(),
            out.len() == k - n,
            forall|j: int| 0 <= j < out.len() ==> (#[trigger] out@[j])@ == d[n + j],
        decreases parts.len() - k,
    {
        assert(d[k as int] == parts@[k as int]@);
        out.push(parts[k].clone());
        k = k + 1;
    }
    assert(out.deep_view() =~= d.skip(n as int));
    Some(out)
}

// --- the end of a path -------------------------------------------------------------------------

/// Where the last `/` of a text stands, or -1 where it has none.
pub open spec fn last_slash(t: Seq<char>) -> int
    decreases t.len(),
{
    if t.len() == 0 {
        -1
    } else if t.last() == '/' {
        t.len() - 1
    } else {
        last_slash(t.drop_last())
    }
}

/// The last `/` of a text stands inside it, and no character behind it is a `/`.
pub proof fn lemma_last_slash(t: Seq<char>)
    ensures
        -1 <= last_slash(t) < t.len(),
        last_slash(t) >= 0 ==> t[last_slash(t)] == '/',
        forall|i: int| last_slash(t) < i < t.len() ==> t[i] != '/',
    decreases t.len(),
{
    if t.len() > 0 && t.last() != '/' {
        let u = t.drop_last();
        lemma_last_slash(u);
        assert forall|i: int| last_slash(t) < i < t.len() implies t[i] != '/' by {
            if i < u.len() {
                assert(u[i] == t[i]);
            }
        }
    }
}

pub(crate) proof fn lemma_last_slash_here(t: Seq<char>, at: int)
    requires
        -1 <= at < t.len(),
        at >= 0 ==> t[at] == '/',
        forall|i: int| at < i < t.len() ==> t[i] != '/',
    ensures
        last_slash(t) == at,
{
    lemma_last_slash(t);
    let s = last_slash(t);
    if s < at {
        assert(t[at] != '/');
    } else if at < s {
        assert(t[s] != '/');
    }
}

/// A text up to its last part.
pub open spec fn up_to_part(t: Seq<char>) -> Seq<char>
    decreases t.len(),
{
    let at = last_slash(t);
    proof {
        lemma_last_slash(t);
    }
    if t.len() == 0 || !is_blank(t.skip(at + 1)) {
        t
    } else if at < 0 {
        Seq::empty()
    } else {
        up_to_part(t.take(at))
    }
}

/// Where the last part of the text from `from` up to `to` begins, and where the text ends with it.
fn trim_end(v: &Vec<char>, from: usize, to: usize) -> (r: (usize, usize))
    requires
        from <= to <= v.len(),
    ensures
        from <= r.0 <= r.1 <= to,
        up_to_part(v@.subrange(from as int, to as int)) == v@.subrange(from as int, r.1 as int),
        r.1 > from ==> last_slash(v@.subrange(from as int, r.1 as int)) == r.0 - from - 1,
{
    let mut end: usize = to;
    while end > from
        invariant
            from <= end <= to <= v.len(),
            up_to_part(v@.subrange(from as int, to as int)) == up_to_part(
                v@.subrange(from as int, end as int),
            ),
        decreases end,
    {
        let ghost t = v@.subrange(from as int, end as int);
        let mut start: usize = end;
        while start > from && v[start - 1] != '/'
            invariant
                from <= start <= end <= v.len(),
                t == v@.subrange(from as int, end as int),
                forall|i: int| start - from <= i < t.len() ==> t[i] != '/',
            decreases start,
        {
            assert(t[start - 1 - from] == v@[start - 1]);
            start = start - 1;
        }
        proof {
            if start > from {
                assert(t[start - 1 - from] == v@[start - 1]);
            }
            lemma_last_slash_here(t, start - from - 1);
            assert(t.skip(start - from) =~= v@.subrange(start as int, end as int));
        }
        let blank = start == end || (end == start + 1 && v[start] == '.');
        proof {
            let p = v@.subrange(start as int, end as int);
            if end == start + 1 {
                assert(p[0] == v@[start as int]);
                if v@[start as int] == '.' {
                    assert(p =~= seq!['.']);
                }
            }
            assert(blank == is_blank(p));
        }
        if !blank {
            return (start, end);
        }
        if start == from {
            assert(v@.subrange(from as int, from as int) =~= Seq::<char>::empty());
            return (from, from);
        }
        assert(t.take(start - from - 1) =~= v@.subrange(from as int, start - 1));
        end = start - 1;
    }
    assert(v@.subrange(from as int, from as int).len() == 0);
    (from, from)
}

/// The name of the file that a path leads to: its last part, unless that is the beginning of the
/// path or `..`.
pub open spec fn name_of(path: Seq<char>) -> Option<Seq<char>> {
    let body = up_to_part(body_of(path));
    if body.len() == 0 {
        None
    } else {
        let name = body.skip(last_slash(body) + 1);
        if name == seq!['.', '.'] {
            None
        } else {
            Some(name)
        }
    }
}

/// The name of the file that a path leads to (see `name_of`).
pub fn file_name(path: &str) -> (r: Option<String>)
    ensures
        r.deep_view() == name_of(path@),
{
    let v = chars_of(path);
    let from: usize = match opens(&v) {
        Some(_) => 1,
        None => 0,
    };
    proof {
        assert(v@.subrange(from as int, v@.len() as int) =~= body_of(path@));
    }
    let (start, end) = trim_end(&v, from, v.len());
    let ghost body = v@.subrange(from as int, end as int);
    if end == from {
        return None;
    }
    proof {
        lemma_last_slash(body);
        assert(body.skip(start - from) =~= v@.subrange(start as int, end as int));
    }
    if end - start == 2 && v[start] == '.' && v[end - 1] == '.' {
        assert(v@.subrange(start as int, end as int) =~= seq!['.', '.']);
        return None;
    }
    proof {
        let name = v@.subrange(start as int, end as int);
        if name == seq!['.', '.'] {
            assert(name[0] == v@[start as int]);
            assert(name[1] == v@[start + 1]);
            assert(name.len() == 2);
        }
    }
    Some(slice_text(&v, start, end))
}

// --- below a directory -------------------------------------------------------------------------

/// What follows the first `n` parts of a text.
pub open spec fn rest_after(t: Seq<char>, n: nat) -> Seq<char>
    decreases n,
{
    if n == 0 {
        t
    } else {
        rest_after(after(from_part(t)), (n - 1) as nat)
    }
}

/// A path below a directory as seen from there; any other path as it is.
pub open spec fn relative(root: Seq<char>, path: Seq<char>) -> Seq<char> {
    let n = parts_of(root).len();
    if !lies_under(root, path) {
        path
    } else if n == 0 {
        match opening(path) {
            Some(c) => seq![c] + up_to_part(body_of(path)),
            None => up_to_part(path),
        }
    } else {
        let rest = match opening(path) {
            Some(_) => rest_after(body_of(path), (n - 1) as nat),
            None => rest_after(path, n),
        };
        up_to_part(from_part(rest))
    }
}

/// A path below a directory as seen from there; any other path as it is (see `relative`).
pub fn relative_path(root: &str, path: &str) -> (r: String)
    ensures
        r@ == relative(root@, path@),
{
    if !is_under(root, path) {
        return path.to_owned();
    }
    let above = split_parts(root);
    let n: usize = above.len();
    assert(above.deep_view().len() == n);
    let v = chars_of(path);
    let opened = opens(&v);
    let mut from: usize = match opened {
        Some(_) => 1,
        None => 0,
    };
    let ghost len = v@.len() as int;
    proof {
        assert(v@.skip(0) =~= v@);
        assert(v@.skip(from as int) =~= body_of(path@));
    }
    if n == 0 {
        let (_, end) = trim_end(&v, from, v.len());
        proof {
            assert(v@.subrange(from as int, len) =~= body_of(path@));
            assert(v@.subrange(0, end as int) =~= v@.take(from as int) + v@.subrange(
                from as int,
                end as int,
            ));
            if from == 1 {
                assert(v@.take(1) =~= seq![opening(path@)->0]) by {
                    if v@[0] != '/' {
                        lemma_slash_at(v@);
                        assert(piece(v@)[0] == v@[0]);
                    }
                }
            } else {
                assert(v@.take(0) + v@.subrange(0, end as int) =~= v@.subrange(0, end as int));
            }
        }
        return slice_text(&v, 0, end);
    }
    let mut left: usize = match opened {
        Some(_) => n - 1,
        None => n,
    };
    let ghost body = v@.skip(from as int);
    let ghost total = left as nat;
    while left > 0
        invariant
            from <= v.len(),
            len == v@.len(),
            left <= total,
            rest_after(v@.skip(from as int), left as nat) == rest_after(body, total),
        decreases left,
    {
        match next_part(&v, from) {
            Some((_, _, rest)) => {
                from = rest;
            },
            None => {
                proof {
                    lemma_slash_at(from_part(v@.skip(from as int)));
                    assert(after(from_part(v@.skip(from as int))) =~= v@.skip(len));
                    assert(len == v@.len());
                }
                from = v.len();
            },
        }
        left = left - 1;
    }
    let start: usize = match next_part(&v, from) {
        Some((start, _, _)) => start,
        None => v.len(),
    };
    proof {
        assert(from_part(v@.skip(from as int)) =~= v@.skip(start as int));
        assert(v@.skip(start as int) =~= v@.subrange(start as int, len));
    }
    let (_, end) = trim_end(&v, start, v.len());
    slice_text(&v, start, end)
}

// --- the order of paths ------------------------------------------------------------------------

/// A part as it counts in the order of paths: the beginning of an absolute path before that of a
/// relative one, then `..`, then names in the order of texts.
pub open spec fn part_key(part: Seq<char>, first: bool) -> Seq<char> {
    let rank = if first && part == seq!['/'] {
        '1'
    } else if first && part == seq!['.'] {
        '2'
    } else if part == seq!['.', '.'] {
        '3'
    } else {
        '4'
    };
    seq![rank] + part + seq!['\0']
}

/// A path as it counts in the order of paths: part by part.
pub open spec fn path_key(path: Seq<char>) -> Seq<char> {
    let parts = parts_of(path);
    crate::text::concat(Seq::new(parts.len(), |i: int| part_key(parts[i], i == 0)))
}

/// A path as it counts in the order of paths (see `path_key`).
pub fn key_of_path(path: &str) -> (r: String)
    ensures
        r@ == path_key(path@),
{
    let parts = split_parts(path);
    let ghost d = parts.deep_view();
    let ghost keys = Seq::new(d.len(), |i: int| part_key(d[i], i == 0));
    let mut out = String::new();
    let mut i: usize = 0;
    assert(out@ =~= crate::text::concat(keys.take(0)));
    while i < parts.len()
        invariant
            i <= parts.len(),
            d == parts.deep_view(),
            keys == Seq::new(d.len(), |i: int| part_key(d[i], i == 0)),
            out@ == crate::text::concat(keys.take(i as int)),
        decreases parts.len() - i,
    {
        let part = parts[i].as_str();
        proof {
            assert(d[i as int] == part@);
            reveal_strlit("/");
            reveal_strlit(".");
            reveal_strlit("..");
            assert("/"@ =~= seq!['/']);
            assert("."@ =~= seq!['.']);
            assert(".."@ =~= seq!['.', '.']);
        }
        let rank = if i == 0 && same(part, "/") {
            '1'
        } else if i == 0 && same(part, ".") {
            '2'
        } else if same(part, "..") {
            '3'
        } else {
            '4'
        };
        out.push(rank);
        out.append(part);
        out.push('\0');
        proof {
            crate::text::lemma_concat_next(keys, i as int);
            assert(out@ =~= crate::text::concat(keys.take(i as int)) + keys[i as int]);
        }
        i = i + 1;
    }
    assert(keys.take(keys.len() as int) =~= keys);
    out
}

} // verus!
