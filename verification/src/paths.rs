//! Where things lie: the layout of a project, and paths as texts with `/` between their parts.
use vstd::prelude::*;

use crate::text::{chars_of, ends_with, slice_text};

verus! {

broadcast use vstd::string::group_string_axioms;

/// Where the parts of a project lie.
#[derive(Debug)]
pub struct ProjectPaths {
    pub root: String,
    pub data_dir: String,
    pub objects_dir: String,
    pub db_path: String,
    pub config_path: String,
    pub bin_dir: String,
    pub socket_path: String,
    pub socket_info_path: String,
}

/// What `ProjectPaths` holds.
#[verifier::ext_equal]
pub struct ProjectPathsView {
    pub root: Seq<char>,
    pub data_dir: Seq<char>,
    pub objects_dir: Seq<char>,
    pub db_path: Seq<char>,
    pub config_path: Seq<char>,
    pub bin_dir: Seq<char>,
    pub socket_path: Seq<char>,
    pub socket_info_path: Seq<char>,
}

impl DeepView for ProjectPaths {
    type V = ProjectPathsView;

    open spec fn deep_view(&self) -> ProjectPathsView {
        ProjectPathsView {
            root: self.root@,
            data_dir: self.data_dir@,
            objects_dir: self.objects_dir@,
            db_path: self.db_path@,
            config_path: self.config_path@,
            bin_dir: self.bin_dir@,
            socket_path: self.socket_path@,
            socket_info_path: self.socket_info_path@,
        }
    }
}

impl Clone for ProjectPaths {
    fn clone(&self) -> (r: Self)
        ensures
            r.deep_view() == self.deep_view(),
    {
        ProjectPaths {
            root: self.root.clone(),
            data_dir: self.data_dir.clone(),
            objects_dir: self.objects_dir.clone(),
            db_path: self.db_path.clone(),
            config_path: self.config_path.clone(),
            bin_dir: self.bin_dir.clone(),
            socket_path: self.socket_path.clone(),
            socket_info_path: self.socket_info_path.clone(),
        }
    }
}

/// A name below a directory: put after the directory and a `/`, unless the directory is empty
/// or ends in `/`.
pub open spec fn joined(dir: Seq<char>, name: Seq<char>) -> Seq<char> {
    if dir.len() == 0 {
        name
    } else if crate::text::ends(dir, "/"@) {
        dir + name
    } else {
        dir + "/"@ + name
    }
}

/// A relative name below a directory.
pub fn join(dir: &str, name: &str) -> (r: String)
    ensures
        r@ == joined(dir@, name@),
{
    let mut out = dir.to_owned();
    if !dir.is_empty() && !ends_with(dir, "/") {
        out.append("/");
    }
    out.append(name);
    assert(dir@.len() == 0 ==> out@ =~= name@);
    out
}

/// The file that holds the marker of the active session.
pub fn active_session_path(paths: &ProjectPaths) -> (r: String)
    ensures
        r@ == joined(paths.deep_view().data_dir, "active-session.json"@),
{
    join(paths.data_dir.as_str(), "active-session.json")
}

/// The directory of the objects whose hash begins like this one: its first two characters.
pub open spec fn shard(hash: Seq<char>) -> Seq<char> {
    if hash.len() < 2 {
        hash
    } else {
        hash.take(2)
    }
}

/// The name of an object inside its directory: what follows the first two characters.
pub open spec fn shard_rest(hash: Seq<char>) -> Seq<char> {
    if hash.len() < 2 {
        Seq::empty()
    } else {
        hash.skip(2)
    }
}

/// The directory of an object and its name there.
pub fn split_hash(hash: &str) -> (r: (String, String))
    ensures
        r.0@ == shard(hash@),
        r.1@ == shard_rest(hash@),
{
    let v = chars_of(hash);
    let at: usize = if v.len() < 2 {
        v.len()
    } else {
        2
    };
    let head = slice_text(&v, 0, at);
    let tail = slice_text(&v, at, v.len());
    assert(head@ =~= shard(hash@));
    assert(tail@ =~= shard_rest(hash@));
    (head, tail)
}

impl ProjectPaths {
    /// The file of the object with a hash.
    pub fn object_path(&self, hash: &str) -> (r: String)
        ensures
            r@ == joined(
                joined(self.deep_view().objects_dir, shard(hash@)),
                shard_rest(hash@),
            ),
    {
        let (head, tail) = split_hash(hash);
        let dir = join(self.objects_dir.as_str(), head.as_str());
        join(dir.as_str(), tail.as_str())
    }
}

/// The hash of an object is the name of its directory followed by its own name.
pub proof fn law_hash_from_shard(hash: Seq<char>)
    ensures
        shard(hash) + shard_rest(hash) == hash,
{
    assert(shard(hash) + shard_rest(hash) =~= hash);
}

/// A name is put below a directory by one `/`, and nothing of either is lost.
pub proof fn law_names_are_put_below_directories(dir: Seq<char>, name: Seq<char>)
    ensures
        dir.len() == 0 ==> joined(dir, name) == name,
        dir.len() > 0 && dir.last() == '/' ==> joined(dir, name) == dir + name,
        dir.len() > 0 && dir.last() != '/' ==> joined(dir, name) == dir + seq!['/'] + name,
{
    reveal_strlit("/");
    assert("/"@ =~= seq!['/']);
    if dir.len() > 0 {
        assert(dir.skip(dir.len() - 1) =~= seq![dir.last()]);
        assert(dir.subrange(dir.len() - 1, dir.len() as int) =~= seq![dir.last()]);
        assert(seq![dir.last()][0] == dir.last());
    }
}

/// An object lies in the directory of the first two characters of its hash, under the rest.
pub proof fn law_objects_lie_below_two_characters(hash: Seq<char>)
    requires
        hash.len() >= 2,
    ensures
        shard(hash).len() == 2,
        shard(hash)[0] == hash[0] && shard(hash)[1] == hash[1],
        shard_rest(hash).len() == hash.len() - 2,
{
}

} // verus!
