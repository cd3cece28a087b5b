//! Lexicographic order on character sequences (the order of Rust's `str`
//! comparison), and a stable sort of indices by such keys.

use vstd::prelude::*;

verus! {

/// `a` sorts strictly before `b`, character by character on code points.
pub open spec fn lex_lt(a: Seq<char>, b: Seq<char>) -> bool
    decreases a.len(),
{
    if a.len() == 0 {
        b.len() > 0
    } else if b.len() == 0 {
        false
    } else if (a[0] as int) < (b[0] as int) {
        true
    } else if (a[0] as int) > (b[0] as int) {
        false
    } else {
        lex_lt(a.drop_first(), b.drop_first())
    }
}

pub open spec fn lex_le(a: Seq<char>, b: Seq<char>) -> bool {
    lex_lt(a, b) || a == b
}

pub proof fn lemma_lex_irreflexive(a: Seq<char>)
    ensures
        !lex_lt(a, a),
    decreases a.len(),
{
    if a.len() > 0 {
        lemma_lex_irreflexive(a.drop_first());
    }
}

pub proof fn lemma_lex_trichotomy(a: Seq<char>, b: Seq<char>)
    ensures
        lex_lt(a, b) || lex_lt(b, a) || a == b,
        !(lex_lt(a, b) && lex_lt(b, a)),
    decreases a.len(),
{
    if a.len() == 0 || b.len() == 0 {
        if a.len() == 0 && b.len() == 0 {
            assert(a =~= b);
        }
    } else if (a[0] as int) == (b[0] as int) {
        lemma_lex_trichotomy(a.drop_first(), b.drop_first());
        if a.drop_first() == b.drop_first() {
            assert(a[0] == b[0]);
            assert(a =~= seq![a[0]] + a.drop_first());
            assert(b =~= seq![b[0]] + b.drop_first());
        }
    }
}

pub proof fn lemma_lex_transitive(a: Seq<char>, b: Seq<char>, c: Seq<char>)
    requires
        lex_lt(a, b),
        lex_lt(b, c),
    ensures
        lex_lt(a, c),
    decreases a.len(),
{
    if a.len() > 0 && b.len() > 0 && c.len() > 0 {
        if (a[0] as int) == (b[0] as int) && (b[0] as int) == (c[0] as int) {
            lemma_lex_transitive(a.drop_first(), b.drop_first(), c.drop_first());
        }
    }
}

/// Index `x` goes before index `y` in a stable sort of `keys`.
pub open spec fn goes_before(keys: Seq<Seq<char>>, x: int, y: int) -> bool {
    lex_lt(keys[x], keys[y]) || (keys[x] == keys[y] && x < y)
}

/// `perm` lists every index of `keys` exactly once, in stable sorted order.
pub open spec fn is_stable_sort(keys: Seq<Seq<char>>, perm: Seq<usize>) -> bool {
    &&& perm.len() == keys.len()
    &&& forall|a: int| 0 <= a < perm.len() ==> #[trigger] perm[a] < keys.len()
    &&& forall|a: int, b: int|
        0 <= a < b < perm.len() ==> goes_before(keys, #[trigger] perm[a] as int, #[trigger] perm[b] as int)
}

/// Whether `a` sorts strictly before `b`.
pub fn lex_less(a: &Vec<char>, b: &Vec<char>) -> (r: bool)
    ensures
        r == lex_lt(a@, b@),
{
    let mut i: usize = 0;
    assert(a@.skip(0) =~= a@);
    assert(b@.skip(0) =~= b@);
    while i < a.len() && i < b.len() && a[i] == b[i]
        invariant
            i <= a.len(),
            i <= b.len(),
            lex_lt(a@, b@) == lex_lt(a@.skip(i as int), b@.skip(i as int)),
        decreases a.len() - i,
    {
        assert(a@.skip(i as int).drop_first() =~= a@.skip(i + 1));
        assert(b@.skip(i as int).drop_first() =~= b@.skip(i + 1));
        i = i + 1;
    }
    if i == a.len() {
        i < b.len()
    } else if i == b.len() {
        false
    } else {
        assert(a@.skip(i as int)[0] == a@[i as int]);
        assert(b@.skip(i as int)[0] == b@[i as int]);
        a[i] < b[i]
    }
}

/// The indices of `keys` in stable sorted order.
pub fn stable_sort_indices(keys: &Vec<Vec<char>>) -> (perm: Vec<usize>)
    ensures
        is_stable_sort(keys@.map_values(|k: Vec<char>| k@), perm@),
{
    let ghost ks = keys@.map_values(|k: Vec<char>| k@);
    let mut out: Vec<usize> = Vec::new();
    let mut i: usize = 0;
    while i < keys.len()
        invariant
            i <= keys.len(),
            ks == keys@.map_values(|k: Vec<char>| k@),
            out.len() == i,
            forall|a: int| 0 <= a < out.len() ==> #[trigger] out@[a] < i,
            forall|a: int, b: int|
                0 <= a < b < out.len() ==> goes_before(ks, #[trigger] out@[a] as int, #[trigger] out@[b] as int),
        decreases keys.len() - i,
    {
        let mut j: usize = 0;
        while j < out.len() && !lex_less(&keys[i], &keys[out[j]])
            invariant
                j <= out.len(),
                i < keys.len(),
                ks == keys@.map_values(|k: Vec<char>| k@),
                forall|a: int| 0 <= a < out.len() ==> #[trigger] out@[a] < i,
                forall|q: int| 0 <= q < j ==> !lex_lt(ks[i as int], #[trigger] ks[out@[q] as int]),
            decreases out.len() - j,
        {
            j = j + 1;
        }
        proof {
            assert forall|q: int| 0 <= q < j implies goes_before(ks, #[trigger] out@[q] as int, i as int) by {
                lemma_lex_trichotomy(ks[i as int], ks[out@[q] as int]);
            }
            if j < out.len() {
                assert(lex_lt(ks[i as int], ks[out@[j as int] as int]));
                assert forall|q: int| j <= q < out.len() implies goes_before(ks, i as int, #[trigger] out@[q] as int) by {
                    if q > j {
                        assert(goes_before(ks, out@[j as int] as int, out@[q] as int));
                        if lex_lt(ks[out@[j as int] as int], ks[out@[q] as int]) {
                            lemma_lex_transitive(ks[i as int], ks[out@[j as int] as int], ks[out@[q] as int]);
                        }
                    }
                }
            }
        }
        let ghost old_out = out@;
        out.insert(j, i);
        proof {
            assert forall|a: int, b: int|
                0 <= a < b < out.len() implies goes_before(ks, #[trigger] out@[a] as int, #[trigger] out@[b] as int) by {
                if a < j && b < j {
                    assert(out@[a] == old_out[a] && out@[b] == old_out[b]);
                } else if a < j && b == j {
                    assert(out@[a] == old_out[a]);
                } else if a < j {
                    assert(out@[a] == old_out[a] && out@[b] == old_out[b - 1]);
                } else if a == j {
                    assert(out@[b] == old_out[b - 1]);
                } else {
                    assert(out@[a] == old_out[a - 1] && out@[b] == old_out[b - 1]);
                }
            }
            assert forall|a: int| 0 <= a < out.len() implies #[trigger] out@[a] < i + 1 by {
                if a < j {
                    assert(out@[a] == old_out[a]);
                } else if a > j {
                    assert(out@[a] == old_out[a - 1]);
                }
            }
        }
        i = i + 1;
    }
    out
}

} // verus!
