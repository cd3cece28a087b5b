//! Character-level helpers over `Seq<char>` views of strings.

use vstd::prelude::*;

verus! {

/// Rust's `char::is_whitespace`: the Unicode `White_Space` property.
pub open spec fn is_ws(c: char) -> bool {
    let u = c as u32;
    ||| (9 <= u && u <= 13)
    ||| u == 32
    ||| u == 0x85
    ||| u == 0xa0
    ||| u == 0x1680
    ||| (0x2000 <= u && u <= 0x200a)
    ||| u == 0x2028
    ||| u == 0x2029
    ||| u == 0x202f
    ||| u == 0x205f
    ||| u == 0x3000
}

pub fn is_whitespace(c: char) -> (r: bool)
    ensures
        r == is_ws(c),
{
    let u = c as u32;
    (9 <= u && u <= 13) || u == 32 || u == 0x85 || u == 0xa0 || u == 0x1680 || (0x2000 <= u && u
        <= 0x200a) || u == 0x2028 || u == 0x2029 || u == 0x202f || u == 0x205f || u == 0x3000
}

/// `s` without its leading whitespace.
pub open spec fn trim_start_s(s: Seq<char>) -> Seq<char>
    decreases s.len(),
{
    if s.len() > 0 && is_ws(s[0]) {
        trim_start_s(s.drop_first())
    } else {
        s
    }
}

/// `s` without its trailing whitespace.
pub open spec fn trim_end_s(s: Seq<char>) -> Seq<char>
    decreases s.len(),
{
    if s.len() > 0 && is_ws(s.last()) {
        trim_end_s(s.drop_last())
    } else {
        s
    }
}

/// `s` without leading or trailing whitespace (`str::trim`).
pub open spec fn trim_s(s: Seq<char>) -> Seq<char> {
    trim_end_s(trim_start_s(s))
}

/// `s` without any trailing copies of `c` (`str::trim_end_matches`).
pub open spec fn trim_end_char_s(s: Seq<char>, c: char) -> Seq<char>
    decreases s.len(),
{
    if s.len() > 0 && s.last() == c {
        trim_end_char_s(s.drop_last(), c)
    } else {
        s
    }
}

pub open spec fn starts_with_s(s: Seq<char>, p: Seq<char>) -> bool {
    p.len() <= s.len() && s.take(p.len() as int) == p
}

pub open spec fn ends_with_s(s: Seq<char>, p: Seq<char>) -> bool {
    p.len() <= s.len() && s.skip(s.len() - p.len()) == p
}

/// `p` occurs in `s` starting at `i`.
pub open spec fn occurs_at(s: Seq<char>, p: Seq<char>, i: int) -> bool {
    0 <= i && i + p.len() <= s.len() && s.subrange(i, i + p.len()) == p
}

/// The first position at or after `i` where `p` occurs in `s`.
pub open spec fn find_from(s: Seq<char>, p: Seq<char>, i: nat) -> Option<nat>
    decreases s.len() - i,
{
    if i + p.len() > s.len() {
        None
    } else if occurs_at(s, p, i as int) {
        Some(i)
    } else if i >= s.len() {
        None
    } else {
        find_from(s, p, i + 1)
    }
}

/// The first position where `p` occurs in `s` (`str::find`, counted in chars).
pub open spec fn find_s(s: Seq<char>, p: Seq<char>) -> Option<nat> {
    find_from(s, p, 0)
}

/// The longest prefix of `s` holding no whitespace.
pub open spec fn word_prefix(s: Seq<char>) -> Seq<char>
    decreases s.len(),
{
    if s.len() > 0 && !is_ws(s[0]) {
        seq![s[0]] + word_prefix(s.drop_first())
    } else {
        Seq::empty()
    }
}

/// The whitespace-separated words of `s` (`str::split_whitespace`).
pub open spec fn words_s(s: Seq<char>) -> Seq<Seq<char>>
    decreases s.len(),
{
    let t = trim_start_s(s);
    if t.len() == 0 {
        Seq::empty()
    } else {
        let w = word_prefix(t);
        if 0 < w.len() <= t.len() && t.len() <= s.len() {
            seq![w] + words_s(t.skip(w.len() as int))
        } else {
            Seq::empty()
        }
    }
}

/// One line as `str::lines` hands it out: without a trailing `\r`.
pub open spec fn strip_cr(l: Seq<char>) -> Seq<char> {
    if l.len() > 0 && l.last() == '\r' {
        l.drop_last()
    } else {
        l
    }
}

/// The lines of `s` (`str::lines`): split at `\n`, a `\r` before it dropped,
/// no empty line after a final newline.
pub open spec fn lines_s(s: Seq<char>) -> Seq<Seq<char>>
    decreases s.len(),
{
    if s.len() == 0 {
        Seq::empty()
    } else {
        match find_s(s, seq!['\n']) {
            None => seq![s],
            Some(i) => if i < s.len() {
                seq![strip_cr(s.take(i as int))] + lines_s(s.skip(i as int + 1))
            } else {
                Seq::empty()
            },
        }
    }
}

/// A set of names, kept as a sequence: `x` added unless already there.
pub open spec fn insert_name(s: Seq<Seq<char>>, x: Seq<char>) -> Seq<Seq<char>> {
    if s.contains(x) {
        s
    } else {
        s.push(x)
    }
}

pub proof fn lemma_insert_name(s: Seq<Seq<char>>, x: Seq<char>)
    ensures
        forall|y: Seq<char>| #[trigger] insert_name(s, x).contains(y) <==> (s.contains(y) || y == x),
        s.no_duplicates() ==> insert_name(s, x).no_duplicates(),
{
    if !s.contains(x) {
        assert forall|y: Seq<char>| #[trigger] s.push(x).contains(y) <==> (s.contains(y) || y == x) by {
            if s.contains(y) {
                let j = choose|j: int| 0 <= j < s.len() && s[j] == y;
                assert(s.push(x)[j] == y);
            }
            if y == x {
                assert(s.push(x)[s.len() as int] == y);
            }
            if s.push(x).contains(y) && y != x {
                let j = choose|j: int| 0 <= j < s.push(x).len() && s.push(x)[j] == y;
                assert(s[j] == y);
            }
        }
    }
}

/// `s` without any copy of `x`.
pub open spec fn remove_name(s: Seq<Seq<char>>, x: Seq<char>) -> Seq<Seq<char>>
    decreases s.len(),
{
    if s.len() == 0 {
        s
    } else if s.last() == x {
        remove_name(s.drop_last(), x)
    } else {
        remove_name(s.drop_last(), x).push(s.last())
    }
}

pub proof fn lemma_remove_name(s: Seq<Seq<char>>, x: Seq<char>)
    ensures
        forall|y: Seq<char>| #[trigger] remove_name(s, x).contains(y) <==> (s.contains(y) && y != x),
        s.no_duplicates() ==> remove_name(s, x).no_duplicates(),
        remove_name(s, x).len() <= s.len(),
    decreases s.len(),
{
    if s.len() > 0 {
        lemma_remove_name(s.drop_last(), x);
        let r = remove_name(s.drop_last(), x);
        assert forall|y: Seq<char>| #[trigger] remove_name(s, x).contains(y) <==> (s.contains(y) && y != x) by {
            if s.contains(y) && y != x {
                let j = choose|j: int| 0 <= j < s.len() && s[j] == y;
                if j < s.len() - 1 {
                    assert(s.drop_last()[j] == y);
                    assert(s.drop_last().contains(y));
                    assert(r.contains(y));
                    if s.last() != x {
                        let k = choose|k: int| 0 <= k < r.len() && r[k] == y;
                        assert(r.push(s.last())[k] == y);
                    }
                } else {
                    assert(r.push(s.last())[r.len() as int] == y);
                }
            }
            if remove_name(s, x).contains(y) {
                if s.last() != x && y == s.last() {
                    assert(s[s.len() - 1] == y);
                } else {
                    if s.last() != x {
                        let k = choose|k: int| 0 <= k < r.push(s.last()).len() && r.push(s.last())[k] == y;
                        assert(r[k] == y);
                    }
                    assert(r.contains(y));
                    let j = choose|j: int| 0 <= j < s.drop_last().len() && s.drop_last()[j] == y;
                    assert(s[j] == y);
                }
            }
        }
        if s.no_duplicates() {
            assert(s.drop_last().no_duplicates());
            if s.last() != x {
                assert(!s.drop_last().contains(s.last()));
                assert(!r.contains(s.last()));
                assert(r.push(s.last()).no_duplicates());
            }
        }
    }
}

/// `s` cut at every `c` (`str::split`), except that an empty `s` has no
/// pieces and a final `c` is not followed by an empty piece.
pub open spec fn split_on(s: Seq<char>, c: char) -> Seq<Seq<char>>
    decreases s.len(),
{
    if s.len() == 0 {
        Seq::empty()
    } else {
        match find_s(s, seq![c]) {
            None => seq![s],
            Some(i) => if i < s.len() {
                seq![s.take(i as int)] + split_on(s.skip(i as int + 1), c)
            } else {
                Seq::empty()
            },
        }
    }
}

/// The character views of a sequence of character vectors.
pub open spec fn views(v: Seq<Vec<char>>) -> Seq<Seq<char>> {
    v.map_values(|l: Vec<char>| l@)
}

/// The character views of a sequence of strings.
pub open spec fn string_views(v: Seq<String>) -> Seq<Seq<char>> {
    v.map_values(|w: String| w@)
}

// ---------------------------------------------------------------------------
// Lemmas.
// ---------------------------------------------------------------------------

pub proof fn lemma_trim_start_shape(s: Seq<char>)
    ensures
        exists|k: int|
            0 <= k <= s.len() && trim_start_s(s) == s.skip(k) && (forall|j: int|
                0 <= j < k ==> is_ws(#[trigger] s[j])) && (k < s.len() ==> !is_ws(s[k])),
    decreases s.len(),
{
    if s.len() > 0 && is_ws(s[0]) {
        lemma_trim_start_shape(s.drop_first());
        let k = choose|k: int|
            0 <= k <= s.drop_first().len() && trim_start_s(s.drop_first()) == s.drop_first().skip(k)
                && (forall|j: int| 0 <= j < k ==> is_ws(#[trigger] s.drop_first()[j])) && (k
                < s.drop_first().len() ==> !is_ws(s.drop_first()[k]));
        assert(s.drop_first().skip(k) =~= s.skip(k + 1));
        assert forall|j: int| 0 <= j < k + 1 implies is_ws(#[trigger] s[j]) by {
            if j > 0 {
                assert(s[j] == s.drop_first()[j - 1]);
            }
        }
        assert(k + 1 < s.len() ==> s[k + 1] == s.drop_first()[k]);
    } else {
        assert(s.skip(0) =~= s);
    }
}

pub proof fn lemma_trim_end_len(s: Seq<char>)
    ensures
        trim_end_s(s).len() <= s.len(),
        trim_end_s(s) == s.take(trim_end_s(s).len() as int),
    decreases s.len(),
{
    if s.len() > 0 && is_ws(s.last()) {
        lemma_trim_end_len(s.drop_last());
        assert(s.drop_last().take(trim_end_s(s).len() as int) =~= s.take(
            trim_end_s(s).len() as int,
        ));
    } else {
        assert(s.take(s.len() as int) =~= s);
    }
}

pub proof fn lemma_trim_start_len(s: Seq<char>)
    ensures
        trim_start_s(s).len() <= s.len(),
{
    lemma_trim_start_shape(s);
}

pub proof fn lemma_word_prefix(s: Seq<char>)
    ensures
        word_prefix(s).len() <= s.len(),
        word_prefix(s) == s.take(word_prefix(s).len() as int),
        forall|j: int| 0 <= j < word_prefix(s).len() ==> !is_ws(#[trigger] s[j]),
        word_prefix(s).len() < s.len() ==> is_ws(s[word_prefix(s).len() as int]),
    decreases s.len(),
{
    if s.len() > 0 && !is_ws(s[0]) {
        lemma_word_prefix(s.drop_first());
        let w = word_prefix(s.drop_first());
        assert(word_prefix(s) =~= s.take(w.len() as int + 1));
        assert forall|j: int| 0 <= j < word_prefix(s).len() implies !is_ws(#[trigger] s[j]) by {
            if j > 0 {
                assert(s[j] == s.drop_first()[j - 1]);
            }
        }
        if w.len() + 1 < s.len() {
            assert(s[w.len() as int + 1] == s.drop_first()[w.len() as int]);
        }
    } else {
        assert(s.take(0) =~= Seq::<char>::empty());
    }
}


/// A single character found at `k`, with none of it in `[j, k)`, is what
/// `find_from` reports from `j`.
pub proof fn lemma_find_char_at(s: Seq<char>, c: char, k: int, j: int)
    requires
        0 <= j <= k < s.len(),
        s[k] == c,
        forall|m: int| j <= m < k ==> s[m] != c,
    ensures
        find_from(s, seq![c], j as nat) == Some(k as nat),
    decreases k - j,
{
    if j == k {
        assert(s.subrange(k, k + 1) =~= seq![c]);
    } else {
        assert(s.subrange(j, j + 1)[0] == s[j]);
        lemma_find_char_at(s, c, k, j + 1);
    }
}

/// A character absent from `s[j..]` is not found from `j`.
pub proof fn lemma_find_char_none(s: Seq<char>, c: char, j: int)
    requires
        0 <= j <= s.len(),
        forall|m: int| j <= m < s.len() ==> s[m] != c,
    ensures
        find_from(s, seq![c], j as nat) is None,
    decreases s.len() - j,
{
    if j < s.len() {
        assert(s.subrange(j, j + 1)[0] == s[j]);
        lemma_find_char_none(s, c, j + 1);
    }
}

/// What `find_from` reports is an occurrence, the first one from `i`.
pub proof fn lemma_find_from_some(s: Seq<char>, p: Seq<char>, i: nat)
    ensures
        find_from(s, p, i) matches Some(k) ==> i <= k && k + p.len() <= s.len() && occurs_at(
            s,
            p,
            k as int,
        ),
    decreases s.len() - i,
{
    if i + p.len() > s.len() {
    } else if occurs_at(s, p, i as int) {
    } else if i >= s.len() {
    } else {
        lemma_find_from_some(s, p, i + 1);
    }
}

// ---------------------------------------------------------------------------
// Executable helpers.
// ---------------------------------------------------------------------------

/// The characters of `s`, in order.
pub fn chars_of(s: &str) -> (v: Vec<char>)
    ensures
        v@ == s@,
{
    broadcast use vstd::string::group_string_axioms;

    let mut v: Vec<char> = Vec::new();
    for c in it: s.chars()
        invariant
            v@ == it.seq().take(it.index() as int),
            it.seq() == s@,
    {
        v.push(c);
    }
    v
}

/// A `String` holding exactly `cs`.
#[verifier::external_body]
pub fn string_of(cs: &[char]) -> (s: String)
    ensures
        s@ == cs@,
{
    String::from_iter(cs.iter())
}

/// Whether two strings hold the same characters.
pub fn str_eq(a: &str, b: &str) -> (r: bool)
    ensures
        r == (a@ == b@),
{
    let x = chars_of(a);
    let y = chars_of(b);
    chars_eq(&x, &y)
}

/// Whether two character vectors are equal.
pub fn chars_eq(x: &Vec<char>, y: &Vec<char>) -> (r: bool)
    ensures
        r == (x@ == y@),
{
    if x.len() != y.len() {
        return false;
    }
    let mut i: usize = 0;
    while i < x.len()
        invariant
            x.len() == y.len(),
            i <= x.len(),
            forall|j: int| 0 <= j < i ==> x@[j] == y@[j],
        decreases x.len() - i,
    {
        if x[i] != y[i] {
            return false;
        }
        i = i + 1;
    }
    assert(x@ =~= y@);
    true
}

/// A copy of `v[lo..hi]`.
pub fn sub_chars(v: &Vec<char>, lo: usize, hi: usize) -> (r: Vec<char>)
    requires
        lo <= hi <= v.len(),
    ensures
        r@ == v@.subrange(lo as int, hi as int),
{
    let mut r: Vec<char> = Vec::new();
    let mut i = lo;
    while i < hi
        invariant
            lo <= i <= hi <= v.len(),
            r@ == v@.subrange(lo as int, i as int),
        decreases hi - i,
    {
        r.push(v[i]);
        i = i + 1;
        assert(r@ =~= v@.subrange(lo as int, i as int));
    }
    r
}

/// `a` followed by `b`.
pub fn concat_chars(a: &Vec<char>, b: &Vec<char>) -> (r: Vec<char>)
    ensures
        r@ == a@ + b@,
{
    let mut r = a.clone();
    let mut i: usize = 0;
    while i < b.len()
        invariant
            i <= b.len(),
            r@ == a@ + b@.take(i as int),
        decreases b.len() - i,
    {
        r.push(b[i]);
        i = i + 1;
        assert(r@ =~= a@ + b@.take(i as int));
    }
    assert(b@.take(b.len() as int) =~= b@);
    r
}

/// Append every character of `b` to `a`.
pub fn push_all(a: &mut Vec<char>, b: &[char])
    ensures
        final(a)@ == old(a)@ + b@,
{
    let mut i: usize = 0;
    while i < b.len()
        invariant
            i <= b.len(),
            a@ == old(a)@ + b@.take(i as int),
        decreases b.len() - i,
    {
        a.push(b[i]);
        i = i + 1;
        assert(a@ =~= old(a)@ + b@.take(i as int));
    }
    assert(b@.take(b.len() as int) =~= b@);
}

/// Append every character of `s` to `a`.
pub fn push_str(a: &mut Vec<char>, s: &str)
    ensures
        final(a)@ == old(a)@ + s@,
{
    let cs = chars_of(s);
    push_all(a, cs.as_slice());
}

/// The index of the first non-whitespace character, or the length.
pub fn leading_ws(v: &Vec<char>) -> (k: usize)
    ensures
        k <= v.len(),
        trim_start_s(v@) == v@.skip(k as int),
{
    let mut i: usize = 0;
    assert(v@.skip(0) =~= v@);
    while i < v.len() && is_whitespace(v[i])
        invariant
            i <= v.len(),
            trim_start_s(v@) == trim_start_s(v@.skip(i as int)),
        decreases v.len() - i,
    {
        assert(v@.skip(i as int).drop_first() =~= v@.skip(i + 1));
        i = i + 1;
    }
    assert(v@.skip(i as int).len() > 0 ==> v@.skip(i as int)[0] == v@[i as int]);
    i
}

/// The length of `trim_end_s(v)`.
pub fn trailing_ws_end(v: &Vec<char>) -> (k: usize)
    ensures
        k <= v.len(),
        trim_end_s(v@) == v@.take(k as int),
{
    let mut k: usize = v.len();
    assert(v@.take(k as int) =~= v@);
    while k > 0 && is_whitespace(v[k - 1])
        invariant
            k <= v.len(),
            trim_end_s(v@) == trim_end_s(v@.take(k as int)),
        decreases k,
    {
        assert(v@.take(k as int).drop_last() =~= v@.take(k - 1));
        k = k - 1;
    }
    k
}

/// `str::trim` on characters.
pub fn trim(v: &Vec<char>) -> (r: Vec<char>)
    ensures
        r@ == trim_s(v@),
{
    let a = leading_ws(v);
    let rest = sub_chars(v, a, v.len());
    assert(rest@ =~= v@.skip(a as int));
    let b = trailing_ws_end(&rest);
    sub_chars(&rest, 0, b)
}

/// `str::trim_start` on characters.
pub fn trim_start(v: &Vec<char>) -> (r: Vec<char>)
    ensures
        r@ == trim_start_s(v@),
{
    let a = leading_ws(v);
    let r = sub_chars(v, a, v.len());
    assert(r@ =~= v@.skip(a as int));
    r
}

/// `str::trim_end` on characters.
pub fn trim_end(v: &Vec<char>) -> (r: Vec<char>)
    ensures
        r@ == trim_end_s(v@),
{
    let b = trailing_ws_end(v);
    sub_chars(v, 0, b)
}

/// `str::trim_end_matches(c)` on characters.
pub fn trim_end_char(v: &Vec<char>, c: char) -> (r: Vec<char>)
    ensures
        r@ == trim_end_char_s(v@, c),
{
    let mut k: usize = v.len();
    assert(v@.take(k as int) =~= v@);
    while k > 0 && v[k - 1] == c
        invariant
            k <= v.len(),
            trim_end_char_s(v@, c) == trim_end_char_s(v@.take(k as int), c),
        decreases k,
    {
        assert(v@.take(k as int).drop_last() =~= v@.take(k - 1));
        k = k - 1;
    }
    sub_chars(v, 0, k)
}

/// Whether `v` contains `c`.
pub fn has_char(v: &Vec<char>, c: char) -> (r: bool)
    ensures
        r == v@.contains(c),
{
    let mut i: usize = 0;
    while i < v.len()
        invariant
            i <= v.len(),
            forall|j: int| 0 <= j < i ==> v@[j] != c,
        decreases v.len() - i,
    {
        if v[i] == c {
            assert(v@[i as int] == c);
            return true;
        }
        i = i + 1;
    }
    false
}

/// Whether `p` occurs in `v` at `i`.
pub fn occurs_at_exec(v: &Vec<char>, p: &Vec<char>, i: usize) -> (r: bool)
    ensures
        r == occurs_at(v@, p@, i as int),
{
    if i > v.len() || p.len() > v.len() - i {
        return false;
    }
    let mut j: usize = 0;
    while j < p.len()
        invariant
            i + p.len() <= v.len(),
            j <= p.len(),
            forall|k: int| 0 <= k < j ==> v@[i + k] == p@[k],
        decreases p.len() - j,
    {
        if v[i + j] != p[j] {
            assert(v@.subrange(i as int, i + p.len())[j as int] != p@[j as int]);
            return false;
        }
        j = j + 1;
    }
    assert(v@.subrange(i as int, i + p.len()) =~= p@);
    true
}

/// The first occurrence of `p` in `v`.
pub fn find(v: &Vec<char>, p: &Vec<char>) -> (r: Option<usize>)
    ensures
        r matches Some(i) ==> find_s(v@, p@) == Some(i as nat),
        r is None ==> find_s(v@, p@) is None,
{
    let mut i: usize = 0;
    while i < v.len()
        invariant
            i <= v.len(),
            find_s(v@, p@) == find_from(v@, p@, i as nat),
        decreases v.len() - i,
    {
        if p.len() > v.len() - i {
            return None;
        }
        if occurs_at_exec(v, p, i) {
            return Some(i);
        }
        i = i + 1;
    }
    if occurs_at_exec(v, p, i) {
        Some(i)
    } else {
        None
    }
}

/// Whether `v` starts with `p`.
pub fn starts_with(v: &Vec<char>, p: &Vec<char>) -> (r: bool)
    ensures
        r == starts_with_s(v@, p@),
{
    let r = occurs_at_exec(v, p, 0);
    proof {
        if p@.len() <= v@.len() {
            assert(v@.subrange(0, p@.len() as int) =~= v@.take(p@.len() as int));
        }
    }
    r
}

/// Whether `v` starts with the characters of `p`.
pub fn starts_with_str(v: &Vec<char>, p: &str) -> (r: bool)
    ensures
        r == starts_with_s(v@, p@),
{
    let pc = chars_of(p);
    starts_with(v, &pc)
}

/// Whether `v` ends with `c`.
pub fn ends_with_char(v: &Vec<char>, c: char) -> (r: bool)
    ensures
        r == (v@.len() > 0 && v@.last() == c),
{
    v.len() > 0 && v[v.len() - 1] == c
}

/// The characters of `v` up to the first whitespace.
pub fn word_at(v: &Vec<char>) -> (r: Vec<char>)
    ensures
        r@ == word_prefix(v@),
{
    proof {
        lemma_word_prefix(v@);
    }
    let mut i: usize = 0;
    while i < v.len() && !is_whitespace(v[i])
        invariant
            i <= v.len(),
            i <= word_prefix(v@).len(),
            word_prefix(v@).len() <= v.len(),
            forall|j: int| 0 <= j < word_prefix(v@).len() ==> !is_ws(#[trigger] v@[j]),
            word_prefix(v@).len() < v.len() ==> is_ws(v@[word_prefix(v@).len() as int]),
        decreases v.len() - i,
    {
        i = i + 1;
    }
    let r = sub_chars(v, 0, i);
    assert(r@ =~= v@.take(i as int));
    r
}

/// `str::split_whitespace`, each word as a `String`.
pub fn split_whitespace(v: &Vec<char>) -> (r: Vec<String>)
    ensures
        r@.map_values(|w: String| w@) == words_s(v@),
{
    let mut out: Vec<String> = Vec::new();
    let mut rest = v.clone();
    while rest.len() > 0
        invariant
            out@.map_values(|w: String| w@) + words_s(rest@) == words_s(v@),
        decreases rest.len(),
    {
        let t = trim_start(&rest);
        proof {
            lemma_trim_start_len(rest@);
        }
        if t.len() == 0 {
            assert(words_s(rest@) =~= Seq::<Seq<char>>::empty());
            rest = t;
        } else {
            let w = word_at(&t);
            proof {
                lemma_word_prefix(t@);
                lemma_trim_start_shape(rest@);
                assert(t@[0] == t@.take(1)[0]);
                assert(word_prefix(t@).len() > 0);
            }
            let next = sub_chars(&t, w.len(), t.len());
            let ghost before = out@.map_values(|w: String| w@);
            assert(next@ =~= t@.skip(w@.len() as int));
            assert(words_s(rest@) == seq![w@] + words_s(next@));
            out.push(string_of(w.as_slice()));
            assert(out@.map_values(|w: String| w@) =~= before.push(w@));
            assert(before + words_s(rest@) =~= before.push(w@) + words_s(next@));
            rest = next;
        }
    }
    assert(words_s(rest@) =~= Seq::<Seq<char>>::empty());
    assert(out@.map_values(|w: String| w@) + Seq::<Seq<char>>::empty() =~= out@.map_values(
        |w: String| w@,
    ));
    out
}


/// A line without its trailing `\r`, if it has one.
pub fn strip_cr_exec(l: Vec<char>) -> (r: Vec<char>)
    ensures
        r@ == strip_cr(l@),
{
    if l.len() > 0 && l[l.len() - 1] == '\r' {
        let r = sub_chars(&l, 0, l.len() - 1);
        assert(r@ =~= l@.drop_last());
        r
    } else {
        l
    }
}

/// `str::lines` on characters.
pub fn lines(v: &Vec<char>) -> (r: Vec<Vec<char>>)
    ensures
        views(r@) == lines_s(v@),
{
    let mut out: Vec<Vec<char>> = Vec::new();
    let mut start: usize = 0;
    let mut i: usize = 0;
    assert(v@.skip(0) =~= v@);
    while i < v.len()
        invariant
            start <= i <= v.len(),
            forall|m: int| start <= m < i ==> v@[m] != '\n',
            views(out@) + lines_s(v@.skip(start as int)) == lines_s(v@),
        decreases v.len() - i,
    {
        if v[i] == '\n' {
            let ghost rest = v@.skip(start as int);
            proof {
                assert forall|m: int| 0 <= m < i - start implies rest[m] != '\n' by {
                    assert(rest[m] == v@[start + m]);
                }
                lemma_find_char_at(rest, '\n', i - start, 0);
            }
            let piece = sub_chars(v, start, i);
            let line = strip_cr_exec(piece);
            proof {
                assert(piece@ =~= rest.take(i - start));
                assert(rest.skip(i - start + 1) =~= v@.skip(i + 1));
            }
            let ghost before = views(out@);
            out.push(line);
            assert(views(out@) =~= before.push(line@));
            assert(before + lines_s(rest) =~= views(out@) + lines_s(v@.skip(i + 1)));
            start = i + 1;
        }
        i = i + 1;
    }
    let ghost rest = v@.skip(start as int);
    if start < v.len() {
        proof {
            assert forall|m: int| 0 <= m < rest.len() implies rest[m] != '\n' by {
                assert(rest[m] == v@[start + m]);
            }
            lemma_find_char_none(rest, '\n', 0);
        }
        let piece = sub_chars(v, start, v.len());
        assert(piece@ =~= rest);
        let ghost before = views(out@);
        out.push(piece);
        assert(views(out@) =~= before.push(rest));
        assert(before + lines_s(rest) =~= views(out@));
    } else {
        assert(rest.len() == 0);
        assert(views(out@) + lines_s(rest) =~= views(out@));
    }
    out
}


/// Whether `names` holds a string equal to `x`.
pub fn contains_string(names: &Vec<String>, x: &str) -> (r: bool)
    ensures
        r == string_views(names@).contains(x@),
{
    let mut i: usize = 0;
    while i < names.len()
        invariant
            i <= names.len(),
            forall|j: int| 0 <= j < i ==> names@[j]@ != x@,
        decreases names.len() - i,
    {
        if str_eq(names[i].as_str(), x) {
            assert(string_views(names@)[i as int] == x@);
            return true;
        }
        i = i + 1;
    }
    proof {
        if string_views(names@).contains(x@) {
            let j = choose|j: int| 0 <= j < string_views(names@).len() && string_views(names@)[j] == x@;
            assert(names@[j]@ == x@);
        }
    }
    false
}

/// Adds `x` to `names` unless it is already there.
pub fn insert_string(names: &mut Vec<String>, x: &str)
    ensures
        string_views(final(names)@) == insert_name(string_views(old(names)@), x@),
{
    if !contains_string(names, x) {
        let ghost before = string_views(names@);
        let cs = chars_of(x);
        names.push(string_of(cs.as_slice()));
        assert(string_views(names@) =~= before.push(x@));
    }
}

/// Removes every copy of `x` from `names`.
pub fn remove_string(names: &mut Vec<String>, x: &str)
    ensures
        string_views(final(names)@) == remove_name(string_views(old(names)@), x@),
{
    let ghost all = string_views(names@);
    let mut kept: Vec<String> = Vec::new();
    let mut i: usize = 0;
    while i < names.len()
        invariant
            i <= names.len(),
            all == string_views(names@),
            string_views(kept@) == remove_name(all.take(i as int), x@),
        decreases names.len() - i,
    {
        assert(all.take(i + 1).drop_last() =~= all.take(i as int));
        assert(all.take(i + 1).last() == names@[i as int]@);
        if !str_eq(names[i].as_str(), x) {
            let ghost before = string_views(kept@);
            let item = names[i].clone();
            kept.push(item);
            assert(string_views(kept@) =~= before.push(item@));
        }
        i = i + 1;
    }
    assert(all.take(i as int) =~= all);
    *names = kept;
}


/// `v` cut at every `c`, as [`split_on`] describes.
pub fn split_char(v: &Vec<char>, c: char) -> (r: Vec<Vec<char>>)
    ensures
        views(r@) == split_on(v@, c),
{
    let mut out: Vec<Vec<char>> = Vec::new();
    let mut start: usize = 0;
    let mut i: usize = 0;
    assert(v@.skip(0) =~= v@);
    while i < v.len()
        invariant
            start <= i <= v.len(),
            forall|m: int| start <= m < i ==> v@[m] != c,
            views(out@) + split_on(v@.skip(start as int), c) == split_on(v@, c),
        decreases v.len() - i,
    {
        if v[i] == c {
            let ghost rest = v@.skip(start as int);
            proof {
                assert forall|m: int| 0 <= m < i - start implies rest[m] != c by {
                    assert(rest[m] == v@[start + m]);
                }
                lemma_find_char_at(rest, c, i - start, 0);
            }
            let piece = sub_chars(v, start, i);
            proof {
                assert(piece@ =~= rest.take(i - start));
                assert(rest.skip(i - start + 1) =~= v@.skip(i + 1));
            }
            let ghost before = views(out@);
            out.push(piece);
            assert(views(out@) =~= before.push(piece@));
            assert(before + split_on(rest, c) =~= views(out@) + split_on(v@.skip(i + 1), c));
            start = i + 1;
        }
        i = i + 1;
    }
    let ghost rest = v@.skip(start as int);
    if start < v.len() {
        proof {
            assert forall|m: int| 0 <= m < rest.len() implies rest[m] != c by {
                assert(rest[m] == v@[start + m]);
            }
            lemma_find_char_none(rest, c, 0);
        }
        let piece = sub_chars(v, start, v.len());
        assert(piece@ =~= rest);
        let ghost before = views(out@);
        out.push(piece);
        assert(views(out@) =~= before.push(rest));
        assert(before + split_on(rest, c) =~= views(out@));
    } else {
        assert(rest.len() == 0);
        assert(views(out@) + split_on(rest, c) =~= views(out@));
    }
    out
}

} // verus!
