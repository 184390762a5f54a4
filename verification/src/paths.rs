//! Paths, as text.

use vstd::prelude::*;

use crate::text;

verus! {

/// A path below a directory. An absolute path stays as it is; otherwise there is a slash between the
/// two, unless the directory is empty or ends in one.
pub open spec fn joined(dir: Seq<char>, path: Seq<char>) -> Seq<char> {
    if path.len() > 0 && path[0] == '/' {
        path
    } else if dir.len() == 0 || dir.last() == '/' {
        dir + path
    } else {
        dir + "/"@ + path
    }
}

/// `path` below the directory `dir`.
pub fn join(dir: &str, path: &str) -> (r: String)
    ensures
        r@ == joined(dir@, path@),
{
    let d = text::chars_of(dir);
    let p = text::chars_of(path);
    if p.len() > 0 && p[0] == '/' {
        text::owned(path)
    } else if d.len() == 0 || d[d.len() - 1] == '/' {
        text::join2(dir, path)
    } else {
        text::join3(dir, "/", path)
    }
}

// ---------------------------------------------------------------------------------------------
// Laws
// ---------------------------------------------------------------------------------------------

/// A path below a directory: an absolute one is what it is, whatever the directory, & for any other it does
/// not matter whether the directory is written with a slash at its end.
pub proof fn law_joined(dir: Seq<char>, path: Seq<char>)
    ensures
        joined(dir, seq!['/'] + path) == seq!['/'] + path,
        !(path.len() > 0 && path[0] == '/') ==> {
            &&& joined(dir.push('/'), path) == dir.push('/') + path
            &&& dir.len() > 0 && dir.last() != '/' ==> joined(dir, path) == joined(
                dir.push('/'),
                path,
            )
            &&& joined(Seq::empty(), path) == path
        },
{
    reveal_strlit("/");
    assert((seq!['/'] + path)[0] == '/');
    assert(dir.push('/') + path =~= dir + "/"@ + path);
    assert(Seq::<char>::empty() + path =~= path);
}

} // verus!
