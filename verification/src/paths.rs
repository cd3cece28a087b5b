//! File-system paths as text, `/`-separated, and how they join.

use vstd::prelude::*;
use crate::text::{chars_of, push_all, string_of};

verus! {

/// A path is absolute when it starts at the root.
pub open spec fn is_absolute_s(p: Seq<char>) -> bool {
    p.len() > 0 && p[0] == '/'
}

/// `comp` joined onto `base`: an absolute `comp` replaces `base`; otherwise a
/// separator goes between them unless `base` is empty or already ends in one.
pub open spec fn join_s(base: Seq<char>, comp: Seq<char>) -> Seq<char> {
    if is_absolute_s(comp) {
        comp
    } else if base.len() == 0 || base.last() == '/' {
        base + comp
    } else {
        base + seq!['/'] + comp
    }
}

pub fn is_absolute(p: &str) -> (r: bool)
    ensures
        r == is_absolute_s(p@),
{
    let cs = chars_of(p);
    cs.len() > 0 && cs[0] == '/'
}

/// `comp` joined onto `base`.
pub fn join(base: &str, comp: &str) -> (r: String)
    ensures
        r@ == join_s(base@, comp@),
{
    let b = chars_of(base);
    let c = chars_of(comp);
    if c.len() > 0 && c[0] == '/' {
        return string_of(c.as_slice());
    }
    let mut out = b.clone();
    if !(b.len() == 0 || b[b.len() - 1] == '/') {
        out.push('/');
    }
    push_all(&mut out, c.as_slice());
    proof {
        if !(b@.len() == 0 || b@.last() == '/') {
            assert(out@ =~= base@ + seq!['/'] + comp@);
        } else {
            assert(out@ =~= base@ + comp@);
        }
    }
    string_of(out.as_slice())
}

} // verus!
