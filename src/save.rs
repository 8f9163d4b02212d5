//! Where a package is saved.
use vstd::prelude::*;

use crate::buf::Buf;
use crate::cargo::opt_text;
use crate::pack::{nupkg_name, Nupkg};

verus! {

/// The directory a package is saved in: the one asked for, or the current one.
pub open spec fn output_dir(dir: Option<Seq<char>>) -> Seq<char> {
    match dir {
        Some(d) => d,
        None => "."@,
    }
}

/// `name` inside directory `dir`.
pub open spec fn join_path(dir: Seq<char>, name: Seq<char>) -> Seq<char> {
    if dir.len() == 0 {
        name
    } else if dir.last() == '/' {
        dir + name
    } else {
        dir + "/"@ + name
    }
}

/// Where to write a package, and its bytes.
pub struct NugetSaveArgs<'a> {
    pub path: String,
    pub nupkg: &'a Buf,
}

impl<'a> NugetSaveArgs<'a> {
    /// The save arguments for `nupkg` in directory `dir`, or in the current
    /// directory where none is given.
    pub fn from_nupkg(dir: Option<String>, nupkg: &'a Nupkg) -> (r: NugetSaveArgs<'a>)
        ensures
            r.path@ == join_path(output_dir(opt_text(dir)), nupkg.name@),
            r.nupkg@ == nupkg.buf@,
    {
        NugetSaveArgs { path: save_path(dir, nupkg.name.as_str()), nupkg: &nupkg.buf }
    }
}

/// The path of the file `name` in directory `dir`, or in the current directory
/// where none is given.
pub fn save_path(dir: Option<String>, name: &str) -> (r: String)
    ensures
        r@ == join_path(output_dir(opt_text(dir)), name@),
{
    let mut path = match dir {
        Some(d) => d,
        None => String::from_str("."),
    };
    proof {
        reveal_strlit(".");
    }
    let n = path.as_str().unicode_len();
    if n == 0 {
        return String::from_str(name);
    }
    if path.as_str().get_char(n - 1) != '/' {
        path.append("/");
    }
    path.append(name);
    path
}

/// Two saves of packages with the same file name into the same directory, or
/// both into the current one, aim at the same destination: the path depends on
/// the directory and the name alone.
pub proof fn lemma_same_destination(
    d1: Option<Seq<char>>,
    d2: Option<Seq<char>>,
    n1: Seq<char>,
    n2: Seq<char>,
)
    requires
        d1 == d2,
        n1 == n2,
    ensures
        join_path(output_dir(d1), n1) == join_path(output_dir(d2), n2),
{
}

/// Without a directory, a package is saved in the current directory under the
/// name `<id>-<version>.nupkg`.
pub proof fn lemma_default_destination(id: Seq<char>, version: Seq<char>)
    ensures
        join_path(output_dir(None), nupkg_name(id, version)) == "./"@ + id + "-"@ + version
            + ".nupkg"@,
{
    reveal_strlit(".");
    reveal_strlit("./");
    reveal_strlit("/");
    assert(join_path(output_dir(None), nupkg_name(id, version)) =~= "./"@ + id + "-"@ + version
        + ".nupkg"@);
}

} // verus!
