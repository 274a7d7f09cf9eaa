//! Paths as texts, joined as on Unix.

use crate::text::{cat2, cat3, to_chars};
use vstd::prelude::*;

verus! {

/// `part` seen from `base`: `part` itself where it is absolute, else the two
/// with one separator between them.
pub open spec fn joined(base: Seq<char>, part: Seq<char>) -> Seq<char> {
    if part.len() > 0 && part[0] == '/' {
        part
    } else if base.len() == 0 || base.last() == '/' {
        base + part
    } else {
        base + "/"@ + part
    }
}

pub fn join(base: &str, part: &str) -> (path: String)
    ensures
        path@ == joined(base@, part@),
{
    let base_chars: Vec<char> = to_chars(base);
    let part_chars: Vec<char> = to_chars(part);
    if part_chars.len() > 0 && part_chars[0] == '/' {
        part.to_owned()
    } else if base_chars.len() == 0 || base_chars[base_chars.len() - 1] == '/' {
        cat2(base, part)
    } else {
        cat3(base, "/", part)
    }
}

/// A path within a directory begins with the directory and ends with the part,
/// with just one separator between them; a part that begins at the root stands
/// for itself.
pub proof fn parts_stand_behind_their_base(base: Seq<char>, part: Seq<char>)
    requires
        part.len() > 0,
    ensures
        part[0] == '/' ==> joined(base, part) == part,
        part[0] != '/' && base.len() > 0 ==> {
            let path = joined(base, part);
            let from = path.len() - part.len();
            &&& path.take(base.len() as int) == base
            &&& path.skip(from) == part
            &&& path[from - 1] == '/'
            &&& from == base.len() || (from == base.len() + 1 && base.last() != '/')
        },
        part[0] != '/' && base.len() == 0 ==> joined(base, part) == part,
{
    reveal_strlit("/");
    let path = joined(base, part);
    if part[0] != '/' && base.len() > 0 {
        assert(path.take(base.len() as int) =~= base);
        assert(path.skip(path.len() - part.len()) =~= part);
    } else if part[0] != '/' {
        assert(path =~= part);
    }
}

} // verus!
