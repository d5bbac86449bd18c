//! JSON documents, as `serde_json` reads, holds and writes them.
use vstd::prelude::*;

verus! {

broadcast use vstd::string::group_string_axioms;

/// `serde_json::Value`, a JSON document. What it holds is its `tree`.
#[verifier::external_type_specification]
#[verifier::external_body]
pub struct ExJsonValue(serde_json::Value);

/// `serde_json::Error`, why a text is no JSON document or a document could not be written.
#[verifier::external_type_specification]
#[verifier::external_body]
pub struct ExJsonError(serde_json::Error);

/// A JSON document as a mathematical value. A number is the text that it is written as.
pub enum JsonTree {
    Null,
    Bool(bool),
    Number(Seq<char>),
    Text(Seq<char>),
    Array(Seq<JsonTree>),
    Object(Map<Seq<char>, JsonTree>),
}

/// What a `serde_json::Value` holds.
pub uninterp spec fn tree(v: serde_json::Value) -> JsonTree;

/// What `serde_json::from_str` reads in a text; `None` where it refuses the text.
pub uninterp spec fn json_read(text: Seq<char>) -> Option<JsonTree>;

/// The text that `serde_json::to_string` writes for a document; `None` where it fails.
pub uninterp spec fn json_compact(t: JsonTree) -> Option<Seq<char>>;

/// The text that `serde_json::to_string_pretty` writes for a document; `None` where it fails.
pub uninterp spec fn json_pretty(t: JsonTree) -> Option<Seq<char>>;

/// The text that the `Display` of a document writes.
pub uninterp spec fn json_shown(t: JsonTree) -> Seq<char>;

/// `serde_json::from_str`: reads a text as a JSON document, or refuses it. Either outcome is a
/// function of the text, named `json_read`.
#[verifier::external_body]
pub(crate) fn read(text: &str) -> (r: Result<serde_json::Value, serde_json::Error>)
    ensures
        match r {
            Ok(v) => json_read(text@) == Some(tree(v)),
            Err(_) => json_read(text@) is None,
        },
{
    serde_json::from_str::<serde_json::Value>(text)
}

/// `serde_json::to_string`: writes a document without white space. The text, or that there is
/// none, is a function of what the document holds, named `json_compact`.
#[verifier::external_body]
pub(crate) fn compact(v: &serde_json::Value) -> (r: Result<String, serde_json::Error>)
    ensures
        match r {
            Ok(s) => json_compact(tree(*v)) == Some(s@),
            Err(_) => json_compact(tree(*v)) is None,
        },
{
    serde_json::to_string(v)
}

/// `serde_json::to_string_pretty`: writes a document over several lines. The text, or that there
/// is none, is a function of what the document holds, named `json_pretty`.
#[verifier::external_body]
pub(crate) fn pretty(v: &serde_json::Value) -> (r: Result<String, serde_json::Error>)
    ensures
        match r {
            Ok(s) => json_pretty(tree(*v)) == Some(s@),
            Err(_) => json_pretty(tree(*v)) is None,
        },
{
    serde_json::to_string_pretty(v)
}

/// Whether a document is an object whose members are texts or null.
pub open spec fn is_flat(t: JsonTree) -> bool {
    t matches JsonTree::Object(m) && forall|key: Seq<char>| #[trigger]
        m.contains_key(key) ==> m[key] is Text || m[key] is Null
}

/// Whether a text is written into a document as it is: it holds no quote, no backslash and no
/// control character.
pub open spec fn is_unescaped(s: Seq<char>) -> bool {
    forall|k: int| 0 <= k < s.len() ==> (#[trigger] s[k]) != '"' && s[k] != '\\' && s[k] >= ' '
}

/// `ToString::to_string` on a document, through its `Display`: the text is a function of what the
/// document holds, named `json_shown`. A text, or an object of texts and nulls, reads back as it
/// is; of other documents that is not claimed, as they may hold fractions or be nested too deep to
/// be read. A text that needs no escapes stands between quotes.
#[verifier::external_body]
pub(crate) fn shown(v: &serde_json::Value) -> (r: String)
    ensures
        r@ == json_shown(tree(*v)),
        tree(*v) is Text || is_flat(tree(*v)) ==> json_read(r@) == Some(tree(*v)),
        tree(*v) matches JsonTree::Text(s) ==> is_unescaped(s) ==> r@ == "\""@ + s + "\""@,
{
    v.to_string()
}

/// A text as a JSON document.
pub fn quoted(s: &str) -> (r: String)
    ensures
        r@ == json_shown(JsonTree::Text(s@)),
        json_read(r@) == Some(JsonTree::Text(s@)),
        is_unescaped(s@) ==> r@ == "\""@ + s@ + "\""@,
{
    shown(&text_value(s.to_owned()))
}

/// `Value::as_str` gives the text of a document that is a text, and nothing for any other.
pub assume_specification[ serde_json::Value::as_str ](v: &serde_json::Value) -> (r: Option<&str>)
    ensures
        match tree(*v) {
            JsonTree::Text(s) => r is Some && r->0@ == s,
            _ => r is None,
        },
;

/// `Value::is_object` tells whether a document is an object.
pub assume_specification[ serde_json::Value::is_object ](v: &serde_json::Value) -> (r: bool)
    ensures
        r == (tree(*v) is Object),
;

/// A clone of a document holds what the document holds.
pub assume_specification[ <serde_json::Value as Clone>::clone ](v: &serde_json::Value) -> (r:
    serde_json::Value)
    ensures
        tree(r) == tree(*v),
;

/// What stands under a key, where the document is an object that has it.
pub open spec fn member(t: JsonTree, key: Seq<char>) -> Option<JsonTree> {
    match t {
        JsonTree::Object(m) => if m.contains_key(key) {
            Some(m[key])
        } else {
            None
        },
        _ => None,
    }
}

/// `Value::get` with a text: the member of that name, where the document is an object that has
/// it.
#[verifier::external_body]
pub(crate) fn get<'a>(v: &'a serde_json::Value, key: &str) -> (r: Option<&'a serde_json::Value>)
    ensures
        match r {
            Some(m) => member(tree(*v), key@) == Some(tree(*m)),
            None => member(tree(*v), key@) is None,
        },
{
    v.get(key)
}

/// `Map::keys` on the members of an object: their names, each once.
#[verifier::external_body]
pub(crate) fn keys(v: &serde_json::Value) -> (r: Vec<String>)
    requires
        tree(*v) is Object,
    ensures
        r.deep_view().no_duplicates(),
        r.deep_view().to_set() == tree(*v)->Object_0.dom(),
{
    v.as_object().unwrap().keys().cloned().collect()
}

/// `Map::insert` on the members of an object: the name stands for the new document afterwards,
/// and the other members are as before.
#[verifier::external_body]
pub(crate) fn put(v: &mut serde_json::Value, key: String, item: serde_json::Value)
    requires
        tree(*old(v)) is Object,
    ensures
        tree(*final(v)) == JsonTree::Object(tree(*old(v))->Object_0.insert(key@, tree(item))),
{
    v.as_object_mut().unwrap().insert(key, item);
}

/// `Value::Object` around `Map::new`: an object without members.
#[verifier::external_body]
pub(crate) fn empty_object() -> (r: serde_json::Value)
    ensures
        tree(r) == JsonTree::Object(Map::empty()),
{
    serde_json::Value::Object(serde_json::Map::new())
}

/// `Value::from` on a text: the document that is that text.
#[verifier::external_body]
pub(crate) fn text_value(s: String) -> (r: serde_json::Value)
    ensures
        tree(r) == JsonTree::Text(s@),
{
    serde_json::Value::from(s)
}

/// `Value::from` on a 64-bit number: the document that is that number.
#[verifier::external_body]
pub(crate) fn number_value(n: i64) -> (r: serde_json::Value)
    ensures
        tree(r) == JsonTree::Number(crate::text::decimal_int(n as int)),
{
    serde_json::Value::from(n)
}

/// `Value::from` on an unsigned 64-bit number: the document that is that number.
#[verifier::external_body]
pub(crate) fn count_value(n: u64) -> (r: serde_json::Value)
    ensures
        tree(r) == JsonTree::Number(crate::text::decimal(n as nat)),
{
    serde_json::Value::from(n)
}

/// `Value::from` on a truth value: the document that is that truth value.
#[verifier::external_body]
pub(crate) fn bool_value(b: bool) -> (r: serde_json::Value)
    ensures
        tree(r) == JsonTree::Bool(b),
{
    serde_json::Value::from(b)
}

/// `Value::from` on a list of documents: the array of those documents, in their order.
#[verifier::external_body]
pub(crate) fn array_value(items: Vec<serde_json::Value>) -> (r: serde_json::Value)
    ensures
        tree(r) == JsonTree::Array(items@.map_values(|v: serde_json::Value| tree(v))),
{
    serde_json::Value::from(items)
}

/// `Value::default`: the null document.
#[verifier::external_body]
pub(crate) fn null_value() -> (r: serde_json::Value)
    ensures
        tree(r) == JsonTree::Null,
{
    serde_json::Value::default()
}

/// The text of a document over several lines; `None` where it cannot be written.
pub fn pretty_json(v: &serde_json::Value) -> (r: Option<String>)
    ensures
        r.deep_view() == json_pretty(tree(*v)),
{
    match pretty(v) {
        Ok(s) => Some(s),
        Err(_) => None,
    }
}

/// The text under a key, where the document is an object with a text there.
pub open spec fn text_member(t: JsonTree, key: Seq<char>) -> Option<Seq<char>> {
    match member(t, key) {
        Some(JsonTree::Text(s)) => Some(s),
        _ => None,
    }
}

/// The text under a key, where the document is an object with a text there.
pub fn get_text(v: &serde_json::Value, key: &str) -> (r: Option<String>)
    ensures
        r.deep_view() == text_member(tree(*v), key@),
{
    match get(v, key) {
        Some(m) => match m.as_str() {
            Some(s) => Some(s.to_owned()),
            None => None,
        },
        None => None,
    }
}

/// The text under the first key, or, where the document has no such member, under the second.
pub open spec fn text_member_or(t: JsonTree, first: Seq<char>, second: Seq<char>) -> Option<
    Seq<char>,
> {
    if member(t, first) is Some {
        text_member(t, first)
    } else {
        text_member(t, second)
    }
}

/// The text under the first key, or, where the document has no such member, under the second.
pub fn get_text_or(v: &serde_json::Value, first: &str, second: &str) -> (r: Option<String>)
    ensures
        r.deep_view() == text_member_or(tree(*v), first@, second@),
{
    if get(v, first).is_some() {
        get_text(v, first)
    } else {
        get_text(v, second)
    }
}

/// The document that an optional text stands for: the text, or null.
pub open spec fn text_or_null(s: Option<Seq<char>>) -> JsonTree {
    match s {
        Some(t) => JsonTree::Text(t),
        None => JsonTree::Null,
    }
}

/// The document that an optional text stands for: the text, or null.
pub fn opt_text_value(s: &Option<String>) -> (r: serde_json::Value)
    ensures
        tree(r) == text_or_null(s.deep_view()),
{
    match s {
        Some(t) => text_value(t.clone()),
        None => null_value(),
    }
}

/// The document that a list of texts stands for.
pub open spec fn texts_tree(s: Seq<Seq<char>>) -> JsonTree {
    JsonTree::Array(s.map_values(|t: Seq<char>| JsonTree::Text(t)))
}

/// The document that a list of texts stands for.
pub fn texts_value(items: &Vec<String>) -> (r: serde_json::Value)
    ensures
        tree(r) == texts_tree(items.deep_view()),
{
    let mut out: Vec<serde_json::Value> = Vec::new();
    let mut i: usize = 0;
    while i < items.len()
        invariant
            i <= items.len(),
            out.len() == i,
            forall|j: int| 0 <= j < i ==> tree(#[trigger] out@[j]) == JsonTree::Text(items@[j]@),
        decreases items.len() - i,
    {
        out.push(text_value(items[i].clone()));
        i = i + 1;
    }
    assert(out@.map_values(|v: serde_json::Value| tree(v)) =~= items.deep_view().map_values(
        |t: Seq<char>| JsonTree::Text(t),
    ));
    array_value(out)
}

/// Two documents in one: the members of the second in place of those of the first with the same
/// name, where both are objects; the first document otherwise.
pub open spec fn merged(older: JsonTree, newer: JsonTree) -> JsonTree {
    match (older, newer) {
        (JsonTree::Object(o), JsonTree::Object(n)) => JsonTree::Object(o.union_prefer_right(n)),
        _ => older,
    }
}

/// Puts the members of `newer` into `older` (see `merged`).
pub fn merge_values(older: serde_json::Value, newer: &serde_json::Value) -> (r: serde_json::Value)
    ensures
        tree(r) == merged(tree(older), tree(*newer)),
{
    let mut out = older;
    if out.is_object() && newer.is_object() {
        let names = keys(newer);
        let ghost o = tree(older)->Object_0;
        let ghost n = tree(*newer)->Object_0;
        let ghost d = names.deep_view();
        let mut i: usize = 0;
        assert(o.union_prefer_right(n.restrict(d.take(0).to_set())) =~= o);
        while i < names.len()
            invariant
                i <= names.len(),
                d == names.deep_view(),
                d.no_duplicates(),
                d.to_set() == n.dom(),
                tree(*newer) == JsonTree::Object(n),
                tree(out) == JsonTree::Object(o.union_prefer_right(n.restrict(d.take(i as int).to_set()))),
            decreases names.len() - i,
        {
            let ghost done = n.restrict(d.take(i as int).to_set());
            assert(d[i as int] == names@[i as int]@);
            assert(d.to_set().contains(d[i as int]));
            match get(newer, names[i].as_str()) {
                Some(item) => {
                    let copy = item.clone();
                    put(&mut out, names[i].clone(), copy);
                },
                None => {},
            }
            i = i + 1;
            proof {
                let next = n.restrict(d.take(i as int).to_set());
                assert(d.take(i as int) =~= d.take(i - 1).push(d[i - 1]));
                assert forall|k: Seq<char>| d.take(i as int).contains(k) <==> (d.take(
                    i - 1,
                ).contains(k) || k == d[i - 1]) by {
                    let pre = d.take(i - 1);
                    if pre.contains(k) {
                        let j = choose|j: int| 0 <= j < pre.len() && pre[j] == k;
                        assert(d.take(i as int)[j] == k);
                    }
                    assert(d.take(i as int)[i - 1] == d[i - 1]);
                }
                assert(next =~= done.insert(d[i - 1], n[d[i - 1]]));
                assert(o.union_prefer_right(next) =~= o.union_prefer_right(done).insert(
                    d[i - 1],
                    n[d[i - 1]],
                ));
            }
        }
        proof {
            assert(d.take(d.len() as int) =~= d);
            assert(n.restrict(d.to_set()) =~= n);
        }
    }
    out
}

/// What a text is read as; an empty object where it is no JSON document.
pub open spec fn read_or_empty(text: Seq<char>) -> JsonTree {
    match json_read(text) {
        Some(t) => t,
        None => JsonTree::Object(Map::empty()),
    }
}

/// The text of the two documents in one.
pub open spec fn merged_text(older: Seq<char>, newer: Seq<char>) -> Seq<char> {
    match json_compact(merged(read_or_empty(older), read_or_empty(newer))) {
        Some(s) => s,
        None => newer,
    }
}

/// Shallow merge of two JSON texts: new members overwrite old ones with the same name, other old
/// members stay. A text that is no JSON document counts as an object without members.
pub fn json_merge(older: &str, newer: &str) -> (r: String)
    ensures
        r@ == merged_text(older@, newer@),
{
    let a = match read(older) {
        Ok(v) => v,
        Err(_) => empty_object(),
    };
    let b = match read(newer) {
        Ok(v) => v,
        Err(_) => empty_object(),
    };
    let both = merge_values(a, &b);
    match compact(&both) {
        Ok(s) => s,
        Err(_) => newer.to_owned(),
    }
}

/// After a merge every member of the newer object has its newer value, and every member of the
/// older object that the newer one does not name has its older value.
pub proof fn law_merge_keeps_and_overwrites(
    older: Map<Seq<char>, JsonTree>,
    newer: Map<Seq<char>, JsonTree>,
    key: Seq<char>,
)
    ensures
        member(merged(JsonTree::Object(older), JsonTree::Object(newer)), key) == (
        if newer.contains_key(key) {
            Some(newer[key])
        } else if older.contains_key(key) {
            Some(older[key])
        } else {
            None
        }),
{
}

/// What is no object is not merged: the older document stays as it is. A text that is no document
/// counts as an object without members.
pub proof fn law_only_objects_are_merged(older: JsonTree, newer: JsonTree, text: Seq<char>)
    ensures
        !(older is Object) || !(newer is Object) ==> merged(older, newer) == older,
        json_read(text) is None ==> read_or_empty(text) == JsonTree::Object(Map::empty()),
        json_read(text) matches Some(t) ==> read_or_empty(text) == t,
        json_compact(merged(read_or_empty(text), read_or_empty(text))) matches Some(s)
            ==> merged_text(text, text) == s,
{
}

/// The text of two documents in one is how both in one are written.
pub proof fn law_merged_texts_are_what_both_say(older: Seq<char>, newer: Seq<char>)
    ensures
        json_compact(merged(read_or_empty(older), read_or_empty(newer))) matches Some(s)
            ==> merged_text(older, newer) == s,
{
}

/// A member of an object is what stands under its name; nothing else has members.
pub proof fn law_members_stand_under_their_names(m: Map<Seq<char>, JsonTree>, t: JsonTree, key: Seq<
    char,
>)
    ensures
        m.contains_key(key) ==> member(JsonTree::Object(m), key) == Some(m[key]),
        !m.contains_key(key) ==> member(JsonTree::Object(m), key) is None,
        !(t is Object) ==> member(t, key) is None,
        text_member(t, key) matches Some(s) ==> member(t, key) == Some(JsonTree::Text(s)),
        member(t, key) matches Some(JsonTree::Text(s)) ==> text_member(t, key) == Some(s),
{
}

} // verus!
