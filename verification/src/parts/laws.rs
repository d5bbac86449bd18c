//! What holds of the parts of paths.
use vstd::prelude::*;

verus! {

broadcast use vstd::string::group_string_axioms;

/// What stands before and behind the first `/` of a text with a `/` and another text behind it.
proof fn lemma_pieces(t: Seq<char>, r: Seq<char>)
    ensures
        ({
            let u = t + seq!['/'] + r;
            &&& super::piece(u) == super::piece(t)
            &&& super::slash_at(t) < t.len() ==> super::after(u) == super::after(t) + seq!['/'] + r
            &&& super::slash_at(t) == t.len() ==> super::after(u) == r
            &&& u.len() > 0
        }),
{
    let u = t + seq!['/'] + r;
    super::lemma_slash_at(t);
    let at = super::slash_at(t);
    assert(u[at] == '/') by {
        if at < t.len() {
            assert(u[at] == t[at]);
        }
    }
    assert forall|i: int| 0 <= i < at implies u[i] != '/' by {
        assert(u[i] == t[i]);
    }
    super::lemma_slash_here(u, at);
    assert(super::piece(u) =~= super::piece(t));
    if at < t.len() {
        assert(super::after(u) =~= super::after(t) + seq!['/'] + r);
    } else {
        assert(super::after(u) =~= r);
    }
}

/// The parts of a text begin at its first part.
proof fn lemma_parts_from_part(t: Seq<char>)
    ensures
        super::from_part(super::from_part(t)) == super::from_part(t),
        super::body_parts(super::from_part(t)) == super::body_parts(t),
{
    super::lemma_from_part(t);
}

/// The parts of a text with a `/` and another text behind it are the parts of both; and behind the
/// parts of the first come those of the second.
proof fn lemma_append(t: Seq<char>, r: Seq<char>)
    ensures
        super::body_parts(t + seq!['/'] + r) == super::body_parts(t) + super::body_parts(r),
        super::from_part(
            super::rest_after(t + seq!['/'] + r, super::body_parts(t).len()),
        ) == super::from_part(r),
    decreases t.len(),
{
    let u = t + seq!['/'] + r;
    super::lemma_slash_at(t);
    lemma_pieces(t, r);
    lemma_parts_from_part(r);
    let rest_t = super::after(t);
    let rest_u = super::after(u);
    if t.len() == 0 {
        assert(super::piece(u).len() == 0);
        assert(super::from_part(u) == super::from_part(r));
        lemma_parts_from_part(u);
        assert(super::body_parts(t).len() == 0);
        assert(super::body_parts(t) + super::body_parts(r) =~= super::body_parts(r));
    } else if super::is_blank(super::piece(t)) {
        assert(super::from_part(u) == super::from_part(rest_u));
        lemma_parts_from_part(u);
        lemma_parts_from_part(rest_u);
        assert(super::from_part(t) == super::from_part(rest_t));
        lemma_parts_from_part(t);
        lemma_parts_from_part(rest_t);
        let n = super::body_parts(t).len();
        if super::slash_at(t) < t.len() {
            lemma_append(rest_t, r);
        } else {
            assert(super::body_parts(rest_t).len() == 0);
            assert(super::body_parts(t) + super::body_parts(r) =~= super::body_parts(r));
        }
        if n > 0 {
            assert(super::rest_after(u, n) == super::rest_after(rest_u, n));
        }
    } else {
        assert(super::from_part(u) == u);
        assert(super::from_part(t) == t);
        let n = super::body_parts(t).len();
        assert(super::body_parts(t) == seq![super::piece(t)] + super::body_parts(rest_t));
        assert(super::body_parts(u) == seq![super::piece(u)] + super::body_parts(rest_u));
        assert(n == super::body_parts(rest_t).len() + 1);
        assert(super::rest_after(u, n) == super::rest_after(rest_u, (n - 1) as nat));
        if super::slash_at(t) < t.len() {
            lemma_append(rest_t, r);
            assert(super::body_parts(u) =~= super::body_parts(t) + super::body_parts(r));
        } else {
            assert(super::body_parts(rest_t).len() == 0);
            assert(super::body_parts(u) =~= super::body_parts(t) + super::body_parts(r));
        }
    }
}

/// A path with a `/` and a text behind it has the parts of the path, and then those of the text. A
/// name that holds no `/` and is not `.` is one part.
pub proof fn law_a_path_goes_on_part_by_part(path: Seq<char>, rest: Seq<char>)
    requires
        path.len() > 0,
    ensures
        super::parts_of(path + seq!['/'] + rest) == super::parts_of(path) + super::body_parts(rest),
        super::is_part(rest) ==> super::body_parts(rest) == seq![rest],
        super::parts_of(seq!['/']) == seq![seq!['/']],
{
    let whole = path + seq!['/'] + rest;
    let body = super::body_of(path);
    lemma_pieces(path, rest);
    assert(whole[0] == path[0]);
    assert(super::opening(whole) == super::opening(path));
    assert(super::body_of(whole) =~= body + seq!['/'] + rest);
    lemma_append(body, rest);
    assert(super::parts_of(whole) =~= super::parts_of(path) + super::body_parts(rest));
    if super::is_part(rest) {
        super::lemma_slash_here(rest, rest.len() as int);
        assert(super::piece(rest) =~= rest);
        assert(super::from_part(rest) == rest);
        assert(super::after(rest).len() == 0);
        assert(super::body_parts(super::after(rest)).len() == 0);
        assert(super::body_parts(rest) =~= seq![rest]);
    }
    let root = seq!['/'];
    assert(root.skip(1) =~= Seq::<char>::empty());
    assert(super::body_parts(root.skip(1)).len() == 0);
    assert(super::parts_of(root) =~= seq![root]);
}

/// Whether a text neither begins nor ends with a blank part: it is a plain relative path.
pub open spec fn is_plain_relative(rest: Seq<char>) -> bool {
    &&& rest.len() > 0
    &&& !super::is_blank(super::piece(rest))
    &&& !super::is_blank(rest.skip(super::last_slash(rest) + 1))
}

/// What is written behind a directory and a `/` is the path as seen from there, and lies below it;
/// a path that does not lie below stays as it is.
pub proof fn law_relative_paths_go_on_from_the_directory(root: Seq<char>, rest: Seq<char>)
    requires
        root.len() > 0,
        is_plain_relative(rest),
    ensures
        super::lies_under(root, root + seq!['/'] + rest),
        super::relative(root, root + seq!['/'] + rest) == rest,
        super::below(root, root + seq!['/'] + rest) == Some(super::body_parts(rest)),
{
    let path = root + seq!['/'] + rest;
    law_a_path_goes_on_part_by_part(root, rest);
    lemma_pieces(root, rest);
    assert(path[0] == root[0]);
    assert(super::opening(path) == super::opening(root));
    let body = super::body_of(root);
    assert(super::body_of(path) =~= body + seq!['/'] + rest);
    lemma_append(body, rest);
    let n = super::parts_of(root).len();
    assert(super::parts_of(path).take(n as int) =~= super::parts_of(root));
    assert(super::parts_of(path).skip(n as int) =~= super::body_parts(rest));
    assert(super::from_part(rest) == rest);
    assert(super::up_to_part(rest) == rest);
    match super::opening(root) {
        Some(_) => {
            assert(n - 1 == super::body_parts(body).len());
        },
        None => {
            assert(body == root);
            assert(n == super::body_parts(root).len());
            assert(n > 0) by {
                if n == 0 {
                    lemma_no_parts(root);
                }
            }
        },
    }
}

/// A text that has no opening and no parts is empty or begins with a blank part.
proof fn lemma_no_parts(t: Seq<char>)
    requires
        super::opening(t) is None,
        t.len() > 0,
    ensures
        super::body_parts(t).len() > 0,
{
    super::lemma_slash_at(t);
    assert(super::slash_at(t) > 0);
    assert(super::piece(t).len() > 0);
    assert(!super::is_blank(super::piece(t)));
    assert(super::from_part(t) == t);
}

/// A path that does not lie below a directory is not changed.
pub proof fn law_other_paths_stay(root: Seq<char>, path: Seq<char>)
    requires
        !super::lies_under(root, path),
    ensures
        super::relative(root, path) == path,
        super::below(root, path) is None,
{
}

/// The name of the file behind a directory and a `/` is what stands there.
pub proof fn law_the_last_part_is_the_name(path: Seq<char>, name: Seq<char>)
    requires
        path.len() > 0,
        super::is_part(name),
        name != seq!['.', '.'],
    ensures
        super::name_of(path + seq!['/'] + name) == Some(name),
{
    let whole = path + seq!['/'] + name;
    let body = super::body_of(path);
    lemma_pieces(path, name);
    assert(whole[0] == path[0]);
    assert(super::opening(whole) == super::opening(path));
    let t = body + seq!['/'] + name;
    assert(super::body_of(whole) =~= t);
    let at = body.len() as int;
    assert forall|i: int| at < i < t.len() implies t[i] != '/' by {
        assert(t[i] == name[i - at - 1]);
    }
    super::lemma_last_slash_here(t, at);
    assert(t.skip(at + 1) =~= name);
}

/// A path lies at or below a directory where it begins with all parts of the directory.
pub proof fn law_what_lies_below_begins_alike(root: Seq<char>, path: Seq<char>)
    ensures
        super::lies_under(root, path) <==> super::parts_of(root).len() <= super::parts_of(
            path,
        ).len() && forall|k: int|
            0 <= k < super::parts_of(root).len() ==> (#[trigger] super::parts_of(root)[k])
                == super::parts_of(path)[k],
{
    let r = super::parts_of(root);
    let p = super::parts_of(path);
    if r.len() <= p.len() {
        if super::lies_under(root, path) {
            assert forall|k: int| 0 <= k < r.len() implies (#[trigger] r[k]) == p[k] by {
                assert(p.take(r.len() as int)[k] == p[k]);
            }
        }
        if forall|k: int| 0 <= k < r.len() ==> (#[trigger] r[k]) == p[k] {
            assert(p.take(r.len() as int) =~= r);
        }
    }
}

/// Texts one behind the other, from the front.
proof fn lemma_concat_front(parts: Seq<Seq<char>>)
    requires
        parts.len() > 0,
    ensures
        crate::text::concat(parts) == parts[0] + crate::text::concat(parts.drop_first()),
    decreases parts.len(),
{
    if parts.len() == 1 {
        assert(parts.drop_last() =~= Seq::<Seq<char>>::empty());
        assert(parts.drop_first() =~= Seq::<Seq<char>>::empty());
        assert(crate::text::concat(parts.drop_last()) =~= Seq::<char>::empty());
        assert(crate::text::concat(parts) =~= parts[0]);
        assert(parts[0] + Seq::<char>::empty() =~= parts[0]);
    } else {
        let fewer = parts.drop_last();
        lemma_concat_front(fewer);
        assert(fewer.drop_first() =~= parts.drop_first().drop_last());
        assert(parts.drop_first().last() == parts.last());
        assert(crate::text::concat(parts) =~= parts[0] + crate::text::concat(
            parts.drop_first(),
        ));
    }
}

/// The keys of parts, the first of which may count otherwise.
spec fn keys_from(parts: Seq<Seq<char>>, first: bool) -> Seq<Seq<char>> {
    Seq::new(parts.len(), |i: int| super::part_key(parts[i], first && i == 0))
}

/// Whether no part holds the character that ends a key.
pub open spec fn has_no_end_mark(parts: Seq<Seq<char>>) -> bool {
    forall|k: int, c: int|
        0 <= k < parts.len() && 0 <= c < parts[k].len() ==> (#[trigger] parts[k][c]) != '\0'
}

proof fn lemma_keys_tell_parts(a: Seq<Seq<char>>, b: Seq<Seq<char>>, first: bool)
    requires
        has_no_end_mark(a),
        has_no_end_mark(b),
        crate::text::concat(keys_from(a, first)) == crate::text::concat(keys_from(b, first)),
    ensures
        a == b,
    decreases a.len(),
{
    let ka = keys_from(a, first);
    let kb = keys_from(b, first);
    if a.len() == 0 || b.len() == 0 {
        if a.len() > 0 {
            lemma_concat_front(ka);
            assert(crate::text::concat(kb).len() == 0);
            assert(ka[0].len() > 0);
        }
        if b.len() > 0 {
            lemma_concat_front(kb);
            assert(crate::text::concat(ka).len() == 0);
            assert(kb[0].len() > 0);
        }
        assert(a =~= b);
    } else {
        lemma_concat_front(ka);
        lemma_concat_front(kb);
        let whole = crate::text::concat(ka);
        let x = ka[0];
        let y = kb[0];
        let rest_a = crate::text::concat(ka.drop_first());
        let rest_b = crate::text::concat(kb.drop_first());
        assert(whole == x + rest_a && whole == y + rest_b);
        assert(x.len() == a[0].len() + 2 && y.len() == b[0].len() + 2);
        assert(x[a[0].len() as int + 1] == '\0' && y[b[0].len() as int + 1] == '\0');
        assert forall|k: int| 0 <= k < a[0].len() implies x[k + 1] == a[0][k] && x[k + 1]
            != '\0' by {
            assert(a[0][k] != '\0');
        }
        assert forall|k: int| 0 <= k < b[0].len() implies y[k + 1] == b[0][k] && y[k + 1]
            != '\0' by {
            assert(b[0][k] != '\0');
        }
        if a[0].len() < b[0].len() {
            let n = a[0].len() as int + 1;
            assert(whole[n] == x[n] && whole[n] == y[n]);
            assert(y[(n - 1) + 1] != '\0');
        } else if b[0].len() < a[0].len() {
            let n = b[0].len() as int + 1;
            assert(whole[n] == x[n] && whole[n] == y[n]);
            assert(x[(n - 1) + 1] != '\0');
        }
        assert(a[0] =~= b[0]) by {
            assert forall|k: int| 0 <= k < a[0].len() implies a[0][k] == b[0][k] by {
                assert(whole[k + 1] == x[k + 1] && whole[k + 1] == y[k + 1]);
            }
        }
        assert(rest_a =~= whole.skip(x.len() as int));
        assert(rest_b =~= whole.skip(y.len() as int));
        let c = a.drop_first();
        let d = b.drop_first();
        assert(ka.drop_first() =~= keys_from(c, false));
        assert(kb.drop_first() =~= keys_from(d, false));
        assert(has_no_end_mark(c)) by {
            assert forall|k: int, e: int| 0 <= k < c.len() && 0 <= e < c[k].len() implies (
            #[trigger] c[k][e]) != '\0' by {
                assert(c[k][e] == a[k + 1][e]);
            }
        }
        assert(has_no_end_mark(d)) by {
            assert forall|k: int, e: int| 0 <= k < d.len() && 0 <= e < d[k].len() implies (
            #[trigger] d[k][e]) != '\0' by {
                assert(d[k][e] == b[k + 1][e]);
            }
        }
        lemma_keys_tell_parts(c, d, false);
        assert(a =~= seq![a[0]] + c);
        assert(b =~= seq![b[0]] + d);
    }
}

/// Two paths count as one only where they have the same parts: they are spellings of one path.
pub proof fn law_one_key_is_one_path(p: Seq<char>, q: Seq<char>)
    requires
        has_no_end_mark(super::parts_of(p)),
        has_no_end_mark(super::parts_of(q)),
    ensures
        super::path_key(p) == super::path_key(q) <==> super::parts_of(p) == super::parts_of(q),
{
    let a = super::parts_of(p);
    let b = super::parts_of(q);
    assert(super::path_key(p) == crate::text::concat(keys_from(a, true))) by {
        assert(keys_from(a, true) =~= Seq::new(a.len(), |i: int| super::part_key(a[i], i == 0)));
    }
    assert(super::path_key(q) == crate::text::concat(keys_from(b, true))) by {
        assert(keys_from(b, true) =~= Seq::new(b.len(), |i: int| super::part_key(b[i], i == 0)));
    }
    if super::path_key(p) == super::path_key(q) {
        lemma_keys_tell_parts(a, b, true);
    }
}

/// What does not count as a part has none.
proof fn lemma_blank_has_no_parts(p: Seq<char>)
    requires
        super::is_blank(p),
    ensures
        super::body_parts(p).len() == 0,
{
    if p.len() > 0 {
        super::lemma_slash_here(p, 1);
        assert(super::piece(p) =~= p);
        assert(super::after(p).len() == 0);
        assert(super::from_part(super::after(p)).len() == 0);
        assert(super::from_part(p) == super::from_part(super::after(p)));
    }
}

/// A name is one part.
proof fn lemma_name_is_one_part(p: Seq<char>)
    requires
        super::is_part(p),
    ensures
        super::body_parts(p) == seq![p],
{
    super::lemma_slash_here(p, p.len() as int);
    assert(super::piece(p) =~= p);
    assert(super::from_part(p) == p);
    assert(super::after(p).len() == 0);
    assert(super::body_parts(super::after(p)).len() == 0);
    assert(super::body_parts(p) =~= seq![p]);
}

/// A text is what stands before its last `/`, that `/`, and what stands behind.
proof fn lemma_split_last(t: Seq<char>)
    ensures
        ({
            let at = super::last_slash(t);
            let end = t.skip(at + 1);
            &&& -1 <= at < t.len()
            &&& at >= 0 ==> t == t.take(at) + seq!['/'] + end
            &&& at < 0 ==> end == t
            &&& forall|k: int| 0 <= k < end.len() ==> (#[trigger] end[k]) != '/'
        }),
{
    super::lemma_last_slash(t);
    let at = super::last_slash(t);
    let end = t.skip(at + 1);
    if at >= 0 {
        assert(t =~= t.take(at) + seq!['/'] + end);
    } else {
        assert(end =~= t);
    }
    assert forall|k: int| 0 <= k < end.len() implies (#[trigger] end[k]) != '/' by {
        assert(end[k] == t[at + 1 + k]);
    }
}

/// A text up to its last part has the parts of the text, and its end is the last of them.
proof fn lemma_up_to_part(t: Seq<char>)
    ensures
        super::body_parts(super::up_to_part(t)) == super::body_parts(t),
        super::up_to_part(t).len() > 0 ==> {
            let u = super::up_to_part(t);
            &&& super::body_parts(t).len() > 0
            &&& super::body_parts(t).last() == u.skip(super::last_slash(u) + 1)
        },
        super::up_to_part(t).len() == 0 ==> super::body_parts(t).len() == 0,
    decreases t.len(),
{
    super::lemma_last_slash(t);
    lemma_split_last(t);
    let at = super::last_slash(t);
    let end = t.skip(at + 1);
    if t.len() == 0 {
    } else if !super::is_blank(end) {
        assert(super::is_part(end));
        lemma_name_is_one_part(end);
        if at >= 0 {
            lemma_append(t.take(at), end);
            assert(super::body_parts(t).last() == end);
        } else {
            assert(super::body_parts(t) == seq![t]);
        }
    } else {
        lemma_blank_has_no_parts(end);
        if at >= 0 {
            lemma_append(t.take(at), end);
            lemma_up_to_part(t.take(at));
            assert(super::body_parts(t) =~= super::body_parts(t.take(at)));
        }
    }
}

/// What follows the first parts of a text has the parts that follow.
proof fn lemma_rest_after(t: Seq<char>, n: nat)
    requires
        n <= super::body_parts(t).len(),
    ensures
        super::body_parts(super::rest_after(t, n)) == super::body_parts(t).skip(n as int),
    decreases n,
{
    if n == 0 {
        assert(super::body_parts(t).skip(0) =~= super::body_parts(t));
    } else {
        let u = super::from_part(t);
        assert(u.len() > 0);
        let rest = super::after(u);
        assert(super::body_parts(t) == seq![super::piece(u)] + super::body_parts(rest));
        lemma_rest_after(rest, (n - 1) as nat);
        assert(super::body_parts(t).skip(n as int) =~= super::body_parts(rest).skip(n - 1));
    }
}

/// A path below a directory, as seen from there, has exactly the parts by which it goes on, however
/// either of them is written.
pub proof fn law_relative_paths_have_the_parts_below(root: Seq<char>, path: Seq<char>)
    requires
        super::lies_under(root, path),
        super::parts_of(root).len() > 0,
    ensures
        super::body_parts(super::relative(root, path)) == super::parts_of(path).skip(
            super::parts_of(root).len() as int,
        ),
        super::below(root, path) == Some(super::body_parts(super::relative(root, path))),
        super::relative(root, path).len() > 0 ==> super::relative(root, path)[0] != '/'
            && super::relative(root, path).last() != '/',
{
    let n = super::parts_of(root).len();
    let body = super::body_of(path);
    let rest = match super::opening(path) {
        Some(_) => super::rest_after(body, (n - 1) as nat),
        None => super::rest_after(path, n),
    };
    match super::opening(path) {
        Some(_) => {
            lemma_rest_after(body, (n - 1) as nat);
            assert(super::parts_of(path).skip(n as int) =~= super::body_parts(body).skip(n - 1));
        },
        None => {
            lemma_rest_after(path, n);
        },
    }
    let t = super::from_part(rest);
    lemma_parts_from_part(rest);
    lemma_up_to_part(t);
    lemma_ends_plain(t);
    super::lemma_from_part(rest);
    let r = super::relative(root, path);
    assert(r == super::up_to_part(t));
    if r.len() > 0 {
        super::lemma_slash_at(t);
        assert(super::slash_at(t) > 0) by {
            if super::slash_at(t) == 0 {
                assert(super::piece(t).len() == 0);
            }
        }
        assert(t[0] != '/');
        assert(r[0] == t[0]);
    }
}

/// A text up to its last part is a beginning of the text and does not end with a `/`.
proof fn lemma_ends_plain(t: Seq<char>)
    ensures
        super::up_to_part(t).len() <= t.len(),
        super::up_to_part(t) == t.take(super::up_to_part(t).len() as int),
        super::up_to_part(t).len() > 0 ==> super::up_to_part(t).last() != '/',
    decreases t.len(),
{
    super::lemma_last_slash(t);
    let at = super::last_slash(t);
    let end = t.skip(at + 1);
    if t.len() == 0 || !super::is_blank(end) {
        assert(t.take(t.len() as int) =~= t);
        if t.len() > 0 {
            assert(end.len() > 0);
            assert(at < t.len() - 1);
        }
    } else if at >= 0 {
        lemma_ends_plain(t.take(at));
        let u = super::up_to_part(t);
        assert(u =~= t.take(u.len() as int));
    } else {
        assert(t.take(0) =~= Seq::<char>::empty());
    }
}

/// The name of a file is the last part of its path, however the path is written, unless that is the
/// beginning of the path or `..`.
pub proof fn law_names_are_last_parts(path: Seq<char>)
    ensures
        super::name_of(path) is Some <==> super::body_parts(super::body_of(path)).len() > 0
            && super::parts_of(path).last() != seq!['.', '.'],
        super::name_of(path) matches Some(name) ==> super::parts_of(path).last() == name,
{
    let body = super::body_of(path);
    lemma_up_to_part(body);
    let parts = super::body_parts(body);
    if parts.len() > 0 {
        assert(super::parts_of(path).last() == parts.last());
    }
}

/// Empty parts and parts that are `.` do not count; a name alone is one part; and the `/` at the
/// beginning of a path is a part of its own.
pub proof fn law_where_paths_begin(name: Seq<char>, rest: Seq<char>)
    ensures
        super::body_parts(Seq::<char>::empty()).len() == 0,
        super::body_parts(seq!['.']).len() == 0,
        super::is_part(name) ==> super::parts_of(name) == seq![name],
        super::parts_of(seq!['/'] + rest) == seq![seq!['/']] + super::body_parts(rest),
        super::parts_of(seq!['.']) == seq![seq!['.']],
        super::parts_of(Seq::<char>::empty()).len() == 0,
{
    lemma_blank_has_no_parts(Seq::<char>::empty());
    lemma_blank_has_no_parts(seq!['.']);
    if super::is_part(name) {
        lemma_name_is_one_part(name);
        super::lemma_slash_here(name, name.len() as int);
        assert(super::piece(name) =~= name);
    }
    let path = seq!['/'] + rest;
    assert(path.skip(1) =~= rest);
    assert(path[0] == '/');
    let dot = seq!['.'];
    super::lemma_slash_here(dot, 1);
    assert(super::piece(dot) =~= dot);
    assert(dot.skip(1) =~= Seq::<char>::empty());
    assert(super::parts_of(dot) =~= seq![dot]);
}

} // verus!
