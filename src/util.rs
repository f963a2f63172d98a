//! Paths as lists of components.

use vstd::prelude::*;

use crate::tw_db_pp::{compare_text, path_view};
use crate::wh2_lua_error::Wh2LuaError;

verus! {

/// A path component that names a file or folder: not empty, not `.` or `..`, and not a root.
pub open spec fn is_name(c: Seq<char>) -> bool {
    &&& c.len() > 0
    &&& c != "."@
    &&& c != ".."@
    &&& c[0] != '/'
    &&& c[0] != '\\'
}

/// The components joined with `/`.
pub open spec fn joined(p: Seq<Seq<char>>) -> Seq<char>
    decreases p.len(),
{
    if p.len() == 0 {
        Seq::empty()
    } else if p.len() == 1 {
        p[0]
    } else {
        joined(p.drop_last()) + "/"@ + p.last()
    }
}

/// The last three components (all of them when there are fewer): `<db>/<table>/<file>`.
pub open spec fn db_relative(p: Seq<Seq<char>>) -> Seq<Seq<char>> {
    if p.len() >= 3 {
        p.skip(p.len() - 3)
    } else {
        p
    }
}

/// The name of the folder that holds the last component, if it has one.
pub open spec fn parent_folder(p: Seq<Seq<char>>) -> Option<Seq<char>> {
    if p.len() >= 2 && is_name(p[p.len() - 2]) {
        Some(p[p.len() - 2])
    } else {
        None
    }
}

pub fn is_name_exec(c: &str) -> (r: bool)
    ensures
        r == is_name(c@),
{
    let cs = crate::tw_db_pp::chars_of(c);
    if cs.len() == 0 {
        return false;
    }
    proof {
        reveal_strlit(".");
        reveal_strlit("..");
    }
    compare_text(c, ".") != 0 && compare_text(c, "..") != 0 && cs[0] != '/' && cs[0] != '\\'
}

/// The components joined with `/`, for messages.
pub fn join_path(p: &Vec<String>) -> (r: String)
    ensures
        r@ == joined(path_view(p@)),
{
    let ghost v = path_view(p@);
    let mut r = String::new();
    let mut i: usize = 0;
    while i < p.len()
        invariant
            v == path_view(p@),
            i <= p.len(),
            r@ == joined(v.take(i as int)),
        decreases p.len() - i,
    {
        if i > 0 {
            r.append("/");
        }
        r.append(p[i].as_str());
        proof {
            let t = v.take(i + 1);
            assert(t.drop_last() =~= v.take(i as int));
            assert(t.last() == p@[i as int]@);
            if i == 0 {
                assert(r@ =~= joined(t));
            } else {
                assert(r@ =~= joined(t));
            }
        }
        i = i + 1;
    }
    proof {
        assert(v.take(p.len() as int) =~= v);
    }
    r
}

/// Drops everything before `<db>/<table>/<db_file>`.
pub fn strip_db_prefix_from_path(path: &Vec<String>) -> (r: Vec<String>)
    ensures
        path_view(r@) == db_relative(path_view(path@)),
{
    let start: usize = if path.len() >= 3 {
        path.len() - 3
    } else {
        0
    };
    let mut r: Vec<String> = Vec::new();
    let mut i: usize = start;
    while i < path.len()
        invariant
            start <= i <= path.len(),
            start == (if path.len() >= 3 {
                path.len() - 3
            } else {
                0
            }),
            path_view(r@) == path_view(path@).subrange(start as int, i as int),
        decreases path.len() - i,
    {
        let ghost old_r = r@;
        let c = path[i].clone();
        r.push(c);
        proof {
            assert(r@ == old_r.push(c));
            assert(path_view(r@) =~= path_view(old_r).push(c@));
            assert(path_view(r@) =~= path_view(path@).subrange(start as int, i + 1));
        }
        i = i + 1;
    }
    proof {
        assert(path_view(path@).subrange(start as int, path.len() as int) =~= db_relative(
            path_view(path@),
        ));
    }
    r
}

/// The name of the folder that holds the file `path` names.
pub fn get_parent_folder_name(path: &Vec<String>) -> (r: Result<String, Wh2LuaError>)
    ensures
        parent_folder(path_view(path@)) matches Some(n) ==> (r matches Ok(s) && s@ == n),
        parent_folder(path_view(path@)) is None ==> (r matches Err(Wh2LuaError::ConfigError(m))
            && m@ == "Unable to get parent folder name for path: "@ + joined(path_view(path@))),
{
    if path.len() >= 2 {
        let c = &path[path.len() - 2];
        if is_name_exec(c.as_str()) {
            return Ok(c.clone());
        }
    }
    let mut m = String::from_str("Unable to get parent folder name for path: ");
    let j = join_path(path);
    m.append(j.as_str());
    Err(Wh2LuaError::ConfigError(m))
}

} // verus!

verus! {

/// The position of the last `.`, or -1.
pub open spec fn last_dot(s: Seq<char>) -> int
    decreases s.len(),
{
    if s.len() == 0 {
        -1
    } else if s.last() == '.' {
        s.len() - 1
    } else {
        last_dot(s.drop_last())
    }
}

/// A file name without its extension: the part before the last `.`, unless that dot leads
/// the name.
pub open spec fn stem_of(name: Seq<char>) -> Seq<char> {
    if last_dot(name) <= 0 {
        name
    } else {
        name.take(last_dot(name))
    }
}

proof fn lemma_last_dot(s: Seq<char>)
    ensures
        -1 <= last_dot(s) < s.len(),
        last_dot(s) >= 0 ==> s[last_dot(s)] == '.',
        forall|i: int| last_dot(s) < i < s.len() ==> s[i] != '.',
    decreases s.len(),
{
    if s.len() > 0 {
        let t = s.drop_last();
        lemma_last_dot(t);
        assert forall|i: int| 0 <= i < t.len() implies t[i] == s[i] by {}
    }
}

/// The stem of the file that `path` names, when its last component is a name.
pub fn file_stem(path: &Vec<String>) -> (r: Option<String>)
    ensures
        path@.len() > 0 && is_name(path@.last()@) ==> (r matches Some(s) && s@ == stem_of(
            path@.last()@,
        )),
        !(path@.len() > 0 && is_name(path@.last()@)) ==> r is None,
{
    if path.len() == 0 {
        return None;
    }
    let name = &path[path.len() - 1];
    if !is_name_exec(name.as_str()) {
        return None;
    }
    let cs = crate::tw_db_pp::chars_of(name.as_str());
    let mut i: usize = cs.len();
    proof {
        lemma_last_dot(name@);
    }
    while i > 0
        invariant
            cs@ == name@,
            i <= cs.len(),
            forall|j: int| i <= j < cs.len() ==> cs@[j] != '.',
            -1 <= last_dot(name@) < cs.len(),
            last_dot(name@) >= 0 ==> cs@[last_dot(name@)] == '.',
            forall|j: int| last_dot(name@) < j < cs.len() ==> cs@[j] != '.',
        ensures
            i > 0 ==> cs@[i - 1] == '.',
            forall|j: int| i <= j < cs.len() ==> cs@[j] != '.',
        decreases i,
    {
        if cs[i - 1] == '.' {
            break;
        }
        i = i - 1;
    }
    proof {
        if i > 0 {
            assert(last_dot(name@) == i - 1);
        } else {
            assert(last_dot(name@) < 0);
        }
    }
    if i <= 1 {
        Some(name.clone())
    } else {
        Some(String::from_str(name.as_str().substring_char(0, i - 1)))
    }
}

} // verus!
