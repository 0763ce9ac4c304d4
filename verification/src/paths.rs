//! Paths as texts with `/` between their components.
use vstd::prelude::*;
use vstd::string::StringExecFns;
use crate::strings::chars_of;

verus! {

/// `name` below `dir`, as `Path::join` has it: an absolute name stands for itself,
/// and one slash separates the two.
pub open spec fn joined(dir: Seq<char>, name: Seq<char>) -> Seq<char> {
    if dir.len() == 0 || (name.len() > 0 && name[0] == '/') {
        name
    } else if dir.last() == '/' {
        dir + name
    } else {
        dir.push('/') + name
    }
}

/// Joins a directory and a name.
pub fn join_path(dir: &str, name: &str) -> (path: String)
    ensures
        path@ == joined(dir@, name@),
{
    let dir_chars: Vec<char> = chars_of(dir);
    let name_chars: Vec<char> = chars_of(name);
    if dir_chars.len() == 0 || (name_chars.len() > 0 && name_chars[0] == '/') {
        return name.to_owned();
    }
    let mut path: String = dir.to_owned();
    if dir_chars[dir_chars.len() - 1] != '/' {
        path.append("/");
        proof {
            reveal_strlit("/");
        }
        assert(path@ =~= dir@.push('/'));
    }
    path.append(name);
    path
}

/// A relative name stays below the directory.
pub proof fn lemma_joined_stays_below(dir: Seq<char>, name: Seq<char>)
    requires
        dir.len() > 0,
        name.len() > 0,
        name[0] != '/',
    ensures
        dir.is_prefix_of(joined(dir, name)),
{
    assert(joined(dir, name).subrange(0, dir.len() as int) =~= dir);
}

/// A path ends with the name, an absolute name is the path, and a slash at the end of
/// the directory makes no difference.
pub proof fn lemma_joined_by_one_slash(dir: Seq<char>, name: Seq<char>)
    ensures
        joined(dir, name).skip(joined(dir, name).len() - name.len()) == name,
        name.len() > 0 && name[0] == '/' ==> joined(dir, name) == name,
        dir.len() > 0 && dir.last() != '/' ==> joined(dir, name) == joined(dir.push('/'), name),
        dir.len() > 0 && (name.len() == 0 || name[0] != '/') ==> joined(dir, name).len()
            == dir.len() + name.len() + if dir.last() == '/' { 0int } else { 1 },
        dir.len() > 0 && dir.last() != '/' && (name.len() == 0 || name[0] != '/') ==> joined(
            dir,
            name,
        )[dir.len() as int] == '/',
        dir.len() == 0 ==> joined(dir, name) == name,
{
    let path = joined(dir, name);
    assert(path.skip(path.len() - name.len()) =~= name);
}

} // verus!
