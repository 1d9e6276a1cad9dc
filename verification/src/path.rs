//! Logical paths: relative, with `/` between segments.
//!
//! A backend reads nothing into a path but this: what follows the last `/`
//! names the entry, and what precedes it names the directory that holds it.

use vstd::prelude::*;
use vstd::string::*;

verus! {

/// The character that separates the segments of a path.
pub const SEPARATOR: char = '/';

/// The path of the entry `name` in the directory `dir`. A name that starts
/// at the root stands for itself; the separator is put in only where `dir`
/// does not already end with one.
pub open spec fn joined(dir: Seq<char>, name: Seq<char>) -> Seq<char> {
    if name.len() > 0 && name[0] == SEPARATOR {
        name
    } else if dir.len() == 0 || dir.last() == SEPARATOR {
        dir + name
    } else {
        dir + seq![SEPARATOR] + name
    }
}

/// Where the last separator of `path` stands, or -1 if it has none.
pub open spec fn last_separator(path: Seq<char>) -> int
    decreases path.len(),
{
    if path.len() == 0 {
        -1
    } else if path.last() == SEPARATOR {
        path.len() - 1
    } else {
        last_separator(path.drop_last())
    }
}

/// The directory part of `path`: what precedes its last separator, and
/// nothing if it has none.
pub open spec fn parent(path: Seq<char>) -> Seq<char> {
    if last_separator(path) < 0 {
        Seq::empty()
    } else {
        path.subrange(0, last_separator(path))
    }
}

/// The name part of `path`: what follows its last separator, and the whole
/// of it if it has none.
pub open spec fn file_name(path: Seq<char>) -> Seq<char> {
    path.subrange(last_separator(path) + 1, path.len() as int)
}

/// The last separator is a separator, and none follows it.
pub proof fn lemma_last_separator(path: Seq<char>)
    ensures
        -1 <= last_separator(path) < path.len(),
        last_separator(path) >= 0 ==> path[last_separator(path)] == SEPARATOR,
        forall|i: int| last_separator(path) < i < path.len() ==> path[i] != SEPARATOR,
    decreases path.len(),
{
    if path.len() > 0 && path.last() != SEPARATOR {
        let head = path.drop_last();
        lemma_last_separator(head);
        assert forall|i: int| last_separator(path) < i < path.len() implies path[i]
            != SEPARATOR by {
            if i < head.len() {
                assert(path[i] == head[i]);
            }
        }
    }
}

/// A path is its parent, a separator and its file name, and the file name
/// holds no separator; a path without a separator is its own file name.
pub proof fn lemma_parent_and_file_name(path: Seq<char>)
    ensures
        !file_name(path).contains(SEPARATOR),
        path.contains(SEPARATOR) ==> path == parent(path) + seq![SEPARATOR] + file_name(path),
        !path.contains(SEPARATOR) ==> parent(path).len() == 0 && file_name(path) == path,
{
    lemma_last_separator(path);
    let at = last_separator(path);
    if at >= 0 {
        assert(path =~= parent(path) + seq![SEPARATOR] + file_name(path));
    } else {
        assert(file_name(path) =~= path);
    }
}

/// Where the last separator of `path` stands is settled by what `path`
/// holds there and after.
proof fn lemma_last_separator_is(path: Seq<char>, at: int)
    requires
        0 <= at < path.len(),
        path[at] == SEPARATOR,
        forall|i: int| at < i < path.len() ==> path[i] != SEPARATOR,
    ensures
        last_separator(path) == at,
    decreases path.len(),
{
    if path.last() != SEPARATOR {
        let head = path.drop_last();
        assert forall|i: int| at < i < head.len() implies head[i] != SEPARATOR by {
            assert(head[i] == path[i]);
        }
        lemma_last_separator_is(head, at);
    }
}

/// Splitting undoes joining: the path of an entry in a directory has that
/// directory for its parent and the entry's name for its file name,
/// provided the name is a single segment and the directory's path is not
/// empty and does not end in a separator.
pub proof fn lemma_split_undoes_join(dir: Seq<char>, name: Seq<char>)
    requires
        !name.contains(SEPARATOR),
        dir.len() > 0,
        dir.last() != SEPARATOR,
    ensures
        parent(joined(dir, name)) == dir,
        file_name(joined(dir, name)) == name,
{
    let path = joined(dir, name);
    if name.len() > 0 {
        assert(name.contains(name[0]));
    }
    assert(path =~= dir + seq![SEPARATOR] + name);
    assert forall|i: int| dir.len() < i < path.len() implies path[i] != SEPARATOR by {
        assert(path[i] == name[i - dir.len() - 1]);
        assert(name.contains(name[i - dir.len() - 1]));
    }
    lemma_last_separator_is(path, dir.len() as int);
    assert(parent(path) =~= dir);
    assert(file_name(path) =~= name);
}

/// Joins `name` onto `dir`.
pub fn join(dir: &str, name: &str) -> (path: String)
    ensures
        path@ == joined(dir@, name@),
{
    let name_len = name.unicode_len();
    if name_len > 0 && name.get_char(0) == SEPARATOR {
        return String::from_str(name);
    }
    let dir_len = dir.unicode_len();
    let mut path = String::from_str(dir);
    if dir_len > 0 && dir.get_char(dir_len - 1) != SEPARATOR {
        path.append("/");
        proof {
            reveal_strlit("/");
            assert("/"@ =~= seq![SEPARATOR]);
        }
    }
    path.append(name);
    path
}

/// Takes `path` apart at its last separator.
pub fn split(path: &str) -> (parts: (String, String))
    ensures
        parts.0@ == parent(path@),
        parts.1@ == file_name(path@),
{
    let len = path.unicode_len();
    let mut at = len;
    proof {
        assert(path@.subrange(0, len as int) =~= path@);
    }
    while at > 0 && path.get_char(at - 1) != SEPARATOR
        invariant
            at <= len,
            len == path@.len(),
            last_separator(path@) == last_separator(path@.subrange(0, at as int)),
        decreases at,
    {
        proof {
            let head = path@.subrange(0, at as int);
            assert(head.drop_last() =~= path@.subrange(0, at - 1));
        }
        at = at - 1;
    }
    let name = String::from_str(path.substring_char(at, len));
    let dir = if at > 0 {
        String::from_str(path.substring_char(0, at - 1))
    } else {
        String::new()
    };
    (dir, name)
}

} // verus!
