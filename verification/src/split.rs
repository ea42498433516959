//! Splitting text into words and lines, and joining parts.

use vstd::prelude::*;
use crate::text::{
    char_is_space,
    extend,
    is_space,
    leading_spaces,
    lemma_leading_spaces,
    lemma_leading_spaces_is,
    lemma_views_push,
    slice_of,
    views,
    all_spaces,
};

verus! {

/// Length of the longest prefix of `s` that holds no whitespace.
pub open spec fn word_len(s: Seq<char>) -> int
    decreases s.len(),
{
    if s.len() > 0 && !is_space(s[0]) {
        1 + word_len(s.drop_first())
    } else {
        0
    }
}

/// `word_len` counts the characters before the first whitespace.
pub proof fn lemma_word_len(s: Seq<char>)
    ensures
        0 <= word_len(s) <= s.len(),
        forall|i: int| 0 <= i < word_len(s) ==> !is_space(#[trigger] s[i]),
        word_len(s) < s.len() ==> is_space(s[word_len(s)]),
    decreases s.len(),
{
    if s.len() > 0 && !is_space(s[0]) {
        let r = s.drop_first();
        lemma_word_len(r);
        assert forall|i: int| 0 <= i < word_len(s) implies !is_space(#[trigger] s[i]) by {
            if i > 0 {
                assert(s[i] == r[i - 1]);
            }
        }
        if word_len(s) < s.len() {
            assert(s[word_len(s)] == r[word_len(r)]);
        }
    }
}

proof fn lemma_word_len_is(s: Seq<char>, n: int)
    requires
        0 <= n <= s.len(),
        forall|i: int| 0 <= i < n ==> !is_space(#[trigger] s[i]),
        n < s.len() ==> is_space(s[n]),
    ensures
        word_len(s) == n,
    decreases n,
{
    if n > 0 {
        let r = s.drop_first();
        assert forall|i: int| 0 <= i < n - 1 implies !is_space(#[trigger] r[i]) by {
            assert(r[i] == s[i + 1]);
        }
        lemma_word_len_is(r, n - 1);
    }
}

/// The maximal runs of non-whitespace characters of `s`, in order.
pub open spec fn words(s: Seq<char>) -> Seq<Seq<char>>
    decreases s.len(),
    via words_decreases
{
    let t = s.skip(leading_spaces(s));
    if t.len() == 0 {
        seq![]
    } else {
        seq![t.take(word_len(t))] + words(t.skip(word_len(t)))
    }
}

#[via_fn]
proof fn words_decreases(s: Seq<char>) {
    lemma_leading_spaces(s);
    let t = s.skip(leading_spaces(s));
    lemma_word_len(t);
    if t.len() != 0 {
        assert(t[0] == s[leading_spaces(s)]);
    }
}

/// The end of the whitespace run that starts at `from`.
fn skip_spaces(v: &Vec<char>, from: usize) -> (to: usize)
    requires
        from <= v.len(),
    ensures
        from <= to <= v.len(),
        to - from == leading_spaces(v@.skip(from as int)),
{
    let n = v.len();
    let ghost tail = v@.skip(from as int);
    let mut to: usize = from;
    while to < n && char_is_space(v[to])
        invariant
            from <= to <= n == v.len(),
            tail == v@.skip(from as int),
            all_spaces(tail.take(to - from)),
        decreases n - to,
    {
        assert forall|i: int| 0 <= i < to + 1 - from implies is_space(
            #[trigger] tail.take(to + 1 - from)[i],
        ) by {
            if i < to - from {
                assert(tail.take(to + 1 - from)[i] == tail.take(to - from)[i]);
            }
        }
        to += 1;
    }
    proof {
        lemma_leading_spaces_is(tail, to - from);
    }
    to
}

/// The end of the run of non-whitespace characters that starts at `from`.
fn word_end(v: &Vec<char>, from: usize) -> (to: usize)
    requires
        from <= v.len(),
    ensures
        from <= to <= v.len(),
        to - from == word_len(v@.skip(from as int)),
{
    let n = v.len();
    let ghost tail = v@.skip(from as int);
    let mut to: usize = from;
    while to < n && !char_is_space(v[to])
        invariant
            from <= to <= n == v.len(),
            tail == v@.skip(from as int),
            forall|i: int| 0 <= i < to - from ==> !is_space(#[trigger] tail[i]),
        decreases n - to,
    {
        to += 1;
    }
    proof {
        lemma_word_len_is(tail, to - from);
    }
    to
}

/// `words(v)` as vectors.
pub fn split_whitespace(v: &Vec<char>) -> (r: Vec<Vec<char>>)
    ensures
        views(r@) == words(v@),
{
    let n = v.len();
    let mut r: Vec<Vec<char>> = Vec::new();
    let mut i: usize = 0;
    proof {
        assert(v@.skip(0) == v@);
        assert(views(r@) + words(v@) == words(v@));
    }
    loop
        invariant_except_break
            views(r@) + words(v@.skip(i as int)) == words(v@),
        invariant
            i <= n == v.len(),
        ensures
            views(r@) == words(v@),
        decreases n - i,
    {
        let ghost s = v@.skip(i as int);
        let ghost before = r@;
        let j = skip_spaces(v, i);
        proof {
            assert(s.skip(j - i) == v@.skip(j as int));
        }
        if j == n {
            assert(words(s) == Seq::<Seq<char>>::empty());
            assert(views(r@) + Seq::<Seq<char>>::empty() == views(r@));
            break ;
        }
        let k = word_end(v, j);
        let word = slice_of(v, j, k);
        r.push(word);
        proof {
            let t = v@.skip(j as int);
            lemma_word_len(t);
            assert(t[0] == v@[j as int]);
            assert(word@ == t.take(k - j));
            assert(t.skip(k - j) == v@.skip(k as int));
            lemma_views_push(before, word);
            assert(views(before).push(word@) + words(v@.skip(k as int)) == views(before) + (
            seq![word@] + words(v@.skip(k as int))));
        }
        i = k;
    }
    r
}

/// Length of the longest prefix of `s` that holds no line feed.
pub open spec fn line_len(s: Seq<char>) -> int
    decreases s.len(),
{
    if s.len() > 0 && s[0] != '\n' {
        1 + line_len(s.drop_first())
    } else {
        0
    }
}

/// `line_len` counts the characters before the first line feed.
pub proof fn lemma_line_len(s: Seq<char>)
    ensures
        0 <= line_len(s) <= s.len(),
        forall|i: int| 0 <= i < line_len(s) ==> #[trigger] s[i] != '\n',
        line_len(s) < s.len() ==> s[line_len(s)] == '\n',
    decreases s.len(),
{
    if s.len() > 0 && s[0] != '\n' {
        let r = s.drop_first();
        lemma_line_len(r);
        assert forall|i: int| 0 <= i < line_len(s) implies #[trigger] s[i] != '\n' by {
            if i > 0 {
                assert(s[i] == r[i - 1]);
            }
        }
        if line_len(s) < s.len() {
            assert(s[line_len(s)] == r[line_len(r)]);
        }
    }
}

proof fn lemma_line_len_is(s: Seq<char>, n: int)
    requires
        0 <= n <= s.len(),
        forall|i: int| 0 <= i < n ==> #[trigger] s[i] != '\n',
        n < s.len() ==> s[n] == '\n',
    ensures
        line_len(s) == n,
    decreases n,
{
    if n > 0 {
        let r = s.drop_first();
        assert forall|i: int| 0 <= i < n - 1 implies #[trigger] r[i] != '\n' by {
            assert(r[i] == s[i + 1]);
        }
        lemma_line_len_is(r, n - 1);
    }
}

/// `l` without one trailing carriage return.
pub open spec fn strip_cr(l: Seq<char>) -> Seq<char> {
    if l.len() > 0 && l.last() == '\r' {
        l.drop_last()
    } else {
        l
    }
}

/// The lines of `s`. A line ends at a line feed, and a carriage return just
/// before that line feed is not part of the line. The last line needs no line
/// feed, and a final line feed starts no further line.
pub open spec fn lines_of(s: Seq<char>) -> Seq<Seq<char>>
    decreases s.len(),
    via lines_of_decreases
{
    if s.len() == 0 {
        seq![]
    } else if line_len(s) == s.len() {
        seq![s]
    } else {
        seq![strip_cr(s.take(line_len(s)))] + lines_of(s.skip(line_len(s) + 1))
    }
}

#[via_fn]
proof fn lines_of_decreases(s: Seq<char>) {
    lemma_line_len(s);
}

/// `lines_of(v)` as vectors.
pub fn lines(v: &Vec<char>) -> (r: Vec<Vec<char>>)
    ensures
        views(r@) == lines_of(v@),
{
    let n = v.len();
    let mut r: Vec<Vec<char>> = Vec::new();
    let mut i: usize = 0;
    proof {
        assert(v@.skip(0) == v@);
        assert(views(r@) + lines_of(v@) == lines_of(v@));
    }
    while i < n
        invariant
            i <= n == v.len(),
            views(r@) + lines_of(v@.skip(i as int)) == lines_of(v@),
        decreases n - i,
    {
        let ghost s = v@.skip(i as int);
        let ghost before = r@;
        let mut k: usize = i;
        while k < n && v[k] != '\n'
            invariant
                i <= k <= n == v.len(),
                s == v@.skip(i as int),
                forall|j: int| 0 <= j < k - i ==> #[trigger] s[j] != '\n',
            decreases n - k,
        {
            k += 1;
        }
        proof {
            lemma_line_len_is(s, k - i);
        }
        if k == n {
            let line = slice_of(v, i, n);
            r.push(line);
            proof {
                assert(line@ == s);
                lemma_views_push(before, line);
                assert(views(before).push(s) == views(before) + seq![s]);
                assert(v@.skip(n as int).len() == 0);
                assert(views(r@) + lines_of(v@.skip(n as int)) == views(r@));
            }
            i = n;
        } else {
            let end = if k > i && v[k - 1] == '\r' {
                k - 1
            } else {
                k
            };
            let line = slice_of(v, i, end);
            r.push(line);
            proof {
                let l = s.take(k - i);
                assert(l == v@.subrange(i as int, k as int));
                if k > i {
                    assert(l.last() == v@[k - 1]);
                }
                assert(line@ == strip_cr(l));
                assert(s.skip(k - i + 1) == v@.skip(k + 1));
                lemma_views_push(before, line);
                assert(views(before).push(line@) + lines_of(v@.skip(k + 1)) == views(before) + (
                seq![line@] + lines_of(v@.skip(k + 1))));
            }
            i = k + 1;
        }
    }
    proof {
        assert(v@.skip(n as int).len() == 0);
        assert(views(r@) + Seq::<Seq<char>>::empty() == views(r@));
    }
    r
}

/// The parts in order, with `sep` between each two neighbours.
pub open spec fn joined(parts: Seq<Seq<char>>, sep: Seq<char>) -> Seq<char>
    decreases parts.len(),
{
    if parts.len() == 0 {
        seq![]
    } else if parts.len() == 1 {
        parts[0]
    } else {
        joined(parts.drop_last(), sep) + sep + parts.last()
    }
}

/// `joined(parts, sep)` as a new vector.
pub fn join(parts: &Vec<Vec<char>>, sep: &Vec<char>) -> (r: Vec<char>)
    ensures
        r@ == joined(views(parts@), sep@),
{
    let mut r: Vec<char> = Vec::new();
    let mut i: usize = 0;
    while i < parts.len()
        invariant
            i <= parts.len(),
            r@ == joined(views(parts@).take(i as int), sep@),
        decreases parts.len() - i,
    {
        if i > 0 {
            extend(&mut r, sep);
        }
        extend(&mut r, &parts[i]);
        proof {
            let p = views(parts@).take(i + 1);
            assert(p.drop_last() == views(parts@).take(i as int));
            assert(p.last() == parts@[i as int]@);
            if i == 0 {
                assert(r@ == parts@[0]@);
            }
        }
        i += 1;
    }
    assert(views(parts@).take(parts.len() as int) == views(parts@));
    r
}

} // verus!
