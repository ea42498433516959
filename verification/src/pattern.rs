//! Substring search, removal and splitting on a separator.

use vstd::prelude::*;
use crate::text::{lemma_views_push, slice_of, views};

verus! {

/// `needle` stands in `hay` at index `i`.
pub open spec fn occurs_at(hay: Seq<char>, needle: Seq<char>, i: int) -> bool {
    &&& 0 <= i
    &&& i + needle.len() <= hay.len()
    &&& hay.subrange(i, i + needle.len()) == needle
}

/// `needle` stands somewhere in `hay`.
pub open spec fn occurs_in(hay: Seq<char>, needle: Seq<char>) -> bool {
    exists|i: int| occurs_at(hay, needle, i)
}

/// The least index at which `needle` stands in `hay`; a value beyond
/// `hay.len() - needle.len()` where it stands nowhere.
pub open spec fn first_occurrence(hay: Seq<char>, needle: Seq<char>) -> nat
    decreases hay.len(),
{
    if needle.is_prefix_of(hay) {
        0
    } else if hay.len() == 0 {
        1
    } else {
        1 + first_occurrence(hay.drop_first(), needle)
    }
}

proof fn lemma_occurs_at_shift(hay: Seq<char>, needle: Seq<char>, j: int)
    requires
        hay.len() > 0,
        0 <= j,
    ensures
        occurs_at(hay, needle, j + 1) == occurs_at(hay.drop_first(), needle, j),
{
    let r = hay.drop_first();
    if j + 1 + needle.len() <= hay.len() {
        assert(r.subrange(j, j + needle.len()) == hay.subrange(j + 1, j + 1 + needle.len()));
    }
}

/// What `first_occurrence` is: the least index of an occurrence, and a value
/// that leaves no room for `needle` exactly when there is none.
pub proof fn lemma_first_occurrence(hay: Seq<char>, needle: Seq<char>)
    ensures
        first_occurrence(hay, needle) <= hay.len() + 1,
        forall|j: int| 0 <= j < first_occurrence(hay, needle) ==> !occurs_at(hay, needle, j),
        occurs_in(hay, needle) <==> first_occurrence(hay, needle) + needle.len() <= hay.len(),
        occurs_in(hay, needle) ==> occurs_at(hay, needle, first_occurrence(hay, needle) as int),
    decreases hay.len(),
{
    let f = first_occurrence(hay, needle);
    if needle.is_prefix_of(hay) {
        assert(occurs_at(hay, needle, 0));
    } else if hay.len() == 0 {
        assert forall|i: int| !occurs_at(hay, needle, i) by {
            if occurs_at(hay, needle, i) {
                assert(i == 0);
            }
        }
    } else {
        let r = hay.drop_first();
        lemma_first_occurrence(r, needle);
        assert forall|j: int| 0 <= j < f implies !occurs_at(hay, needle, j) by {
            if j > 0 {
                lemma_occurs_at_shift(hay, needle, j - 1);
            }
        }
        if occurs_in(hay, needle) {
            let i = choose|i: int| occurs_at(hay, needle, i);
            assert(i != 0);
            lemma_occurs_at_shift(hay, needle, i - 1);
            assert(occurs_at(r, needle, i - 1));
        }
        if occurs_in(r, needle) {
            lemma_occurs_at_shift(hay, needle, first_occurrence(r, needle) as int);
            assert(occurs_at(hay, needle, f as int));
        }
    }
}

/// Whether `needle` stands in `hay` at index `i`.
pub fn matches_at(hay: &Vec<char>, needle: &Vec<char>, i: usize) -> (r: bool)
    ensures
        r == occurs_at(hay@, needle@, i as int),
{
    let m = needle.len();
    if i > hay.len() || m > hay.len() - i {
        return false;
    }
    let mut k: usize = 0;
    while k < m
        invariant
            k <= m == needle.len(),
            i + m <= hay.len(),
            hay@.subrange(i as int, i + k) == needle@.take(k as int),
        decreases m - k,
    {
        if hay[i + k] != needle[k] {
            assert(hay@.subrange(i as int, i + m)[k as int] != needle@[k as int]);
            return false;
        }
        assert(hay@.subrange(i as int, i + k + 1) == hay@.subrange(i as int, i + k).push(
            hay@[i + k],
        ));
        assert(needle@.take(k + 1) == needle@.take(k as int).push(needle@[k as int]));
        k += 1;
    }
    assert(needle@.take(m as int) == needle@);
    true
}

/// Whether `hay` begins with `prefix`.
pub fn starts_with(hay: &Vec<char>, prefix: &Vec<char>) -> (r: bool)
    ensures
        r == prefix@.is_prefix_of(hay@),
{
    matches_at(hay, prefix, 0)
}

/// The first occurrence of `needle` in `hay[from..]`, as an index into `hay`.
pub fn find_from(hay: &Vec<char>, from: usize, needle: &Vec<char>) -> (r: Option<usize>)
    requires
        from <= hay.len(),
    ensures
        match r {
            Some(i) => {
                &&& from <= i
                &&& i + needle.len() <= hay.len()
                &&& i - from == first_occurrence(hay@.skip(from as int), needle@)
                &&& occurs_in(hay@.skip(from as int), needle@)
            },
            None => !occurs_in(hay@.skip(from as int), needle@),
        },
{
    let n = hay.len();
    let m = needle.len();
    let ghost tail = hay@.skip(from as int);
    proof {
        lemma_first_occurrence(tail, needle@);
    }
    if m == 0 {
        assert(occurs_at(tail, needle@, 0));
        return Some(from);
    }
    let mut i: usize = from;
    while i < n && m <= n - i
        invariant
            from <= i <= n,
            m > 0,
            n == hay.len(),
            m == needle.len(),
            tail == hay@.skip(from as int),
            forall|j: int| 0 <= j < i - from ==> !occurs_at(tail, needle@, j),
        decreases n + 1 - i,
    {
        let hit = matches_at(hay, needle, i);
        proof {
            if i + m <= n {
                assert(tail.subrange(i - from, i - from + m) == hay@.subrange(i as int, i + m));
            }
        }
        if hit {
            proof {
                assert(occurs_at(tail, needle@, i - from));
                lemma_first_occurrence(tail, needle@);
            }
            return Some(i);
        }
        i += 1;
    }
    assert forall|j: int| !occurs_at(tail, needle@, j) by {
        if occurs_at(tail, needle@, j) {
            assert(j < i - from);
        }
    }
    None
}

/// The first occurrence of `needle` in `hay`.
pub fn find(hay: &Vec<char>, needle: &Vec<char>) -> (r: Option<usize>)
    ensures
        match r {
            Some(i) => i == first_occurrence(hay@, needle@) && occurs_at(
                hay@,
                needle@,
                i as int,
            ),
            None => !occurs_in(hay@, needle@),
        },
{
    proof {
        assert(hay@.skip(0) == hay@);
        lemma_first_occurrence(hay@, needle@);
    }
    find_from(hay, 0, needle)
}

/// Whether `needle` stands somewhere in `hay`.
pub fn contains(hay: &Vec<char>, needle: &Vec<char>) -> (r: bool)
    ensures
        r == occurs_in(hay@, needle@),
{
    find(hay, needle).is_some()
}

/// `s` with every occurrence of `pat` removed, scanning from the left; an
/// empty `pat` removes nothing.
pub open spec fn without(s: Seq<char>, pat: Seq<char>) -> Seq<char>
    decreases s.len(),
{
    if pat.len() > 0 && pat.is_prefix_of(s) {
        without(s.skip(pat.len() as int), pat)
    } else if s.len() == 0 {
        s
    } else {
        seq![s[0]] + without(s.drop_first(), pat)
    }
}

/// `without(s, pat)` as a new vector.
pub fn remove_all(s: &Vec<char>, pat: &Vec<char>) -> (r: Vec<char>)
    ensures
        r@ == without(s@, pat@),
{
    let n = s.len();
    let m = pat.len();
    let mut r: Vec<char> = Vec::new();
    let mut i: usize = 0;
    proof {
        assert(s@.skip(0) == s@);
    }
    while i < n
        invariant
            i <= n == s.len(),
            m == pat.len(),
            r@ + without(s@.skip(i as int), pat@) == without(s@, pat@),
        decreases n - i,
    {
        let ghost tail = s@.skip(i as int);
        let hit = m > 0 && matches_at(s, pat, i);
        proof {
            if i + m <= n {
                assert(tail.subrange(0, m as int) == s@.subrange(i as int, i + m));
            }
        }
        if hit {
            assert(tail.skip(m as int) == s@.skip(i + m));
            i += m;
        } else {
            assert(tail.drop_first() == s@.skip(i + 1));
            assert(r@.push(s@[i as int]) + without(s@.skip(i + 1), pat@) == r@ + (seq![tail[0]]
                + without(tail.drop_first(), pat@)));
            r.push(s[i]);
            i += 1;
        }
    }
    assert(r@ + Seq::<char>::empty() == r@);
    r
}

/// The parts of `s` between occurrences of `sep`, scanning from the left. There
/// is always at least one part; an empty `sep` splits nothing.
pub open spec fn pieces(s: Seq<char>, sep: Seq<char>) -> Seq<Seq<char>>
    decreases s.len(),
{
    let i = first_occurrence(s, sep);
    if sep.len() > 0 && i + sep.len() <= s.len() {
        seq![s.take(i as int)] + pieces(s.skip((i + sep.len()) as int), sep)
    } else {
        seq![s]
    }
}

/// There is always at least one piece.
pub proof fn lemma_pieces_not_empty(s: Seq<char>, sep: Seq<char>)
    ensures
        pieces(s, sep).len() >= 1,
{
}

/// `pieces(s, sep)` as vectors.
pub fn split(s: &Vec<char>, sep: &Vec<char>) -> (r: Vec<Vec<char>>)
    ensures
        views(r@) == pieces(s@, sep@),
{
    let n = s.len();
    let m = sep.len();
    let mut r: Vec<Vec<char>> = Vec::new();
    let mut from: usize = 0;
    proof {
        assert(s@.skip(0) == s@);
        assert(views(r@) == Seq::<Seq<char>>::empty());
        assert(Seq::<Seq<char>>::empty() + pieces(s@, sep@) == pieces(s@, sep@));
    }
    loop
        invariant_except_break
            views(r@) + pieces(s@.skip(from as int), sep@) == pieces(s@, sep@),
        invariant
            from <= n == s.len(),
            m == sep.len(),
        ensures
            views(r@) == pieces(s@, sep@),
        decreases n - from,
    {
        let ghost tail = s@.skip(from as int);
        let ghost before = r@;
        proof {
            lemma_first_occurrence(tail, sep@);
        }
        let hit = if m > 0 {
            find_from(s, from, sep)
        } else {
            None
        };
        match hit {
            Some(i) => {
                let part = slice_of(s, from, i);
                r.push(part);
                proof {
                    assert(part@ == tail.take(i - from));
                    assert(tail.skip(i - from + m) == s@.skip(i + m));
                    lemma_views_push(before, part);
                    assert(views(before).push(part@) + pieces(s@.skip(i + m), sep@) == views(
                        before,
                    ) + (seq![part@] + pieces(s@.skip(i + m), sep@)));
                }
                from = i + m;
            },
            None => {
                let part = slice_of(s, from, n);
                r.push(part);
                proof {
                    assert(part@ == tail);
                    lemma_views_push(before, part);
                    assert(views(before).push(tail) == views(before) + seq![tail]);
                }
                break ;
            },
        }
    }
    r
}

/// The greatest index in `from..to` at which `text` holds `c`, or `-1`.
pub open spec fn last_at(text: Seq<char>, c: char, from: int, to: int) -> int
    decreases to - from,
{
    if to <= from {
        -1
    } else if text[to - 1] == c {
        to - 1
    } else {
        last_at(text, c, from, to - 1)
    }
}

/// `last_at` gives an index in the range at which `c` stands, with no `c`
/// behind it in the range, or `-1` where the range holds no `c`.
pub proof fn lemma_last_at(text: Seq<char>, c: char, from: int, to: int)
    requires
        0 <= from,
        to <= text.len(),
    ensures
        last_at(text, c, from, to) == -1 || from <= last_at(text, c, from, to) < to,
        last_at(text, c, from, to) >= 0 ==> text[last_at(text, c, from, to)] == c,
        forall|i: int| last_at(text, c, from, to) < i < to && from <= i ==> text[i] != c,
    decreases to - from,
{
    if to > from && text[to - 1] != c {
        lemma_last_at(text, c, from, to - 1);
    }
}

/// The greatest index in `from..to` at which `text` holds `c`.
pub fn find_last(text: &Vec<char>, c: char, from: usize, to: usize) -> (r: Option<usize>)
    requires
        from <= to <= text.len(),
    ensures
        match r {
            Some(i) => i == last_at(text@, c, from as int, to as int),
            None => last_at(text@, c, from as int, to as int) == -1,
        },
{
    let mut k: usize = to;
    while k > from
        invariant
            from <= k <= to <= text.len(),
            last_at(text@, c, from as int, to as int) == last_at(text@, c, from as int, k as int),
        decreases k,
    {
        if text[k - 1] == c {
            return Some(k - 1);
        }
        k -= 1;
    }
    None
}

} // verus!
