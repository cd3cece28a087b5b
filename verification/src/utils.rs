//! Small text helpers.

use vstd::prelude::*;
use crate::text::{push_str, string_of};

verus! {

pub open spec fn opt_text(o: Option<&str>) -> Seq<char> {
    match o {
        Some(s) => s@,
        None => Seq::empty(),
    }
}

/// `items` joined by `between`, the whole wrapped in `before` and `after`.
pub open spec fn items_text(items: Seq<Seq<char>>, between: Seq<char>) -> Seq<char>
    decreases items.len(),
{
    if items.len() == 0 {
        Seq::empty()
    } else if items.len() == 1 {
        items[0]
    } else {
        items_text(items.drop_last(), between) + between + items.last()
    }
}

/// The items joined by `between`, wrapped in `before` and `after`; a missing
/// piece counts as empty.
pub fn format_items(items: &[&str], before: Option<&str>, between: Option<&str>, after: Option<&str>) -> (r:
    String)
    ensures
        r@ == opt_text(before) + items_text(items@.map_values(|s: &str| s@), opt_text(between)) + opt_text(
            after,
        ),
{
    let ghost iv = items@.map_values(|s: &str| s@);
    let mut out: Vec<char> = Vec::new();
    match before {
        Some(b) => push_str(&mut out, b),
        None => {},
    }
    let ghost head = out@;
    assert(head =~= opt_text(before));
    let mut i: usize = 0;
    while i < items.len()
        invariant
            i <= items.len(),
            iv == items@.map_values(|s: &str| s@),
            out@ == head + items_text(iv.take(i as int), opt_text(between)),
        decreases items.len() - i,
    {
        let ghost prev = out@;
        assert(iv.take(i + 1).drop_last() =~= iv.take(i as int));
        assert(iv.take(i + 1).last() == items@[i as int]@);
        if i > 0 {
            match between {
                Some(b) => push_str(&mut out, b),
                None => {},
            }
        }
        push_str(&mut out, items[i]);
        proof {
            if i == 0 {
                assert(out@ =~= head + iv.take(1)[0]);
            } else {
                assert(out@ =~= head + (items_text(iv.take(i as int), opt_text(between)) + opt_text(between)
                    + items@[i as int]@));
            }
        }
        i = i + 1;
    }
    assert(iv.take(i as int) =~= iv);
    match after {
        Some(a) => push_str(&mut out, a),
        None => {},
    }
    assert(out@ =~= opt_text(before) + items_text(iv, opt_text(between)) + opt_text(after));
    string_of(out.as_slice())
}

} // verus!
