//! Joining of `/`-separated paths, held as text.

use vstd::prelude::*;

verus! {

/// `rel` placed under `base`: an absolute `rel` (one that starts with `/`)
/// stands for itself; otherwise a `/` separates the two unless `base` is
/// empty or already ends with one.
pub open spec fn joined(base: Seq<char>, rel: Seq<char>) -> Seq<char> {
    if rel.len() > 0 && rel[0] == '/' {
        rel
    } else if base.len() == 0 {
        rel
    } else if base.last() == '/' {
        base + rel
    } else {
        base.push('/') + rel
    }
}

/// Joins `rel` onto `base`, as `std::path::Path::join` does on Unix.
pub fn join(base: &str, rel: &str) -> (r: String)
    ensures
        r@ == joined(base@, rel@),
{
    let rel_len = rel.unicode_len();
    if rel_len > 0 && rel.get_char(0) == '/' {
        return String::from_str(rel);
    }
    let base_len = base.unicode_len();
    let mut out = String::from_str(base);
    if base_len > 0 && base.get_char(base_len - 1) != '/' {
        proof {
            reveal_strlit("/");
        }
        out.append("/");
    }
    out.append(rel);
    proof {
        if base_len > 0 && base@.last() == '/' {
            assert(out@ =~= base@ + rel@);
        } else if base_len > 0 {
            assert(out@ =~= base@.push('/') + rel@);
        } else {
            assert(out@ =~= rel@);
        }
    }
    out
}

} // verus!
