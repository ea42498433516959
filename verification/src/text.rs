//! Character-level text operations with exact specifications.
//!
//! Text is modelled as `Seq<char>`. Every executable function here states its
//! result as a spec function of the views of its arguments.

use vstd::prelude::*;

verus! {

/// `String::push` appends one character to the end of the string.
pub assume_specification[ String::push ](s: &mut String, c: char)
    ensures
        final(s)@ == old(s)@.push(c),
;

/// The characters of a string, in order.
pub fn chars_of(s: &str) -> (v: Vec<char>)
    ensures
        v@ == s@,
{
    let mut v: Vec<char> = Vec::new();
    for c in it: s.chars()
        invariant
            v@ == s@.take(it.index()),
            it.seq() == s@,
    {
        v.push(c);
    }
    v
}

/// The string made of the characters of `v`.
pub fn string_of(v: &Vec<char>) -> (s: String)
    ensures
        s@ == v@,
{
    let mut s = String::new();
    let mut i: usize = 0;
    while i < v.len()
        invariant
            i <= v.len(),
            s@ == v@.take(i as int),
        decreases v.len() - i,
    {
        s.push(v[i]);
        i += 1;
    }
    s
}

/// A copy of `v[from..to]`.
pub fn slice_of(v: &Vec<char>, from: usize, to: usize) -> (r: Vec<char>)
    requires
        from <= to <= v.len(),
    ensures
        r@ == v@.subrange(from as int, to as int),
{
    let mut r: Vec<char> = Vec::new();
    let mut i: usize = from;
    while i < to
        invariant
            from <= i <= to <= v.len(),
            r@ == v@.subrange(from as int, i as int),
        decreases to - i,
    {
        r.push(v[i]);
        i += 1;
    }
    r
}

/// Appends all of `tail` to `v`.
pub fn extend(v: &mut Vec<char>, tail: &Vec<char>)
    ensures
        final(v)@ == old(v)@ + tail@,
{
    let mut i: usize = 0;
    while i < tail.len()
        invariant
            i <= tail.len(),
            v@ == old(v)@ + tail@.take(i as int),
        decreases tail.len() - i,
    {
        v.push(tail[i]);
        i += 1;
    }
}

/// Appends the characters of `s` to `v`.
pub fn push_str(v: &mut Vec<char>, s: &str)
    ensures
        final(v)@ == old(v)@ + s@,
{
    let tail = chars_of(s);
    extend(v, &tail);
}

/// Whether `c` is one of the characters of `v`.
pub fn has_char(v: &Vec<char>, c: char) -> (r: bool)
    ensures
        r == v@.contains(c),
{
    let mut i: usize = 0;
    while i < v.len()
        invariant
            i <= v.len(),
            forall|j: int| 0 <= j < i ==> v@[j] != c,
        decreases v.len() - i,
    {
        if v[i] == c {
            return true;
        }
        i += 1;
    }
    false
}

/// Whether two character sequences are equal.
pub fn same(a: &Vec<char>, b: &Vec<char>) -> (r: bool)
    ensures
        r == (a@ == b@),
{
    if a.len() != b.len() {
        return false;
    }
    let mut i: usize = 0;
    while i < a.len()
        invariant
            i <= a.len(),
            a.len() == b.len(),
            a@.take(i as int) == b@.take(i as int),
        decreases a.len() - i,
    {
        if a[i] != b[i] {
            return false;
        }
        assert(a@.take(i + 1) == a@.take(i as int).push(a@[i as int]));
        assert(b@.take(i + 1) == b@.take(i as int).push(b@[i as int]));
        i += 1;
    }
    assert(a@ == a@.take(a.len() as int));
    assert(b@ == b@.take(b.len() as int));
    true
}

/// The lowercase form of a text, as `str::to_lowercase` gives it.
pub uninterp spec fn lowercase_of(s: Seq<char>) -> Seq<char>;

/// Calls `str::to_lowercase`. The contract only gives the result its name:
/// it depends on the text alone.
#[verifier::external_body]
fn to_lowercase(s: &str) -> (r: String)
    ensures
        r@ == lowercase_of(s@),
{
    s.to_lowercase()
}

/// The lowercase form of `v`.
pub fn lowercase(v: &Vec<char>) -> (r: Vec<char>)
    ensures
        r@ == lowercase_of(v@),
{
    let s = string_of(v);
    let low = to_lowercase(s.as_str());
    chars_of(low.as_str())
}

/// Number of bytes that `c` takes in UTF-8.
pub open spec fn char_width(c: char) -> int {
    let u = c as u32;
    if u < 0x80 {
        1
    } else if u < 0x800 {
        2
    } else if u < 0x10000 {
        3
    } else {
        4
    }
}

/// Number of bytes that `s` takes in UTF-8.
pub open spec fn utf8_len(s: Seq<char>) -> int
    decreases s.len(),
{
    if s.len() == 0 {
        0
    } else {
        utf8_len(s.drop_last()) + char_width(s.last())
    }
}

/// A character takes between one and four bytes.
pub proof fn lemma_utf8_len_bounds(s: Seq<char>)
    ensures
        s.len() <= utf8_len(s) <= 4 * s.len(),
    decreases s.len(),
{
    if s.len() > 0 {
        lemma_utf8_len_bounds(s.drop_last());
    }
}

/// The width of `c` in UTF-8.
pub fn width_of(c: char) -> (w: usize)
    ensures
        w == char_width(c),
{
    let u: u32 = c as u32;
    if u < 0x80 {
        1
    } else if u < 0x800 {
        2
    } else if u < 0x10000 {
        3
    } else {
        4
    }
}

/// `utf8_len(v)`.
pub fn byte_len(v: &Vec<char>) -> (n: u128)
    ensures
        n == utf8_len(v@),
{
    let mut n: u128 = 0;
    let mut i: usize = 0;
    while i < v.len()
        invariant
            i <= v.len(),
            n == utf8_len(v@.take(i as int)),
            n <= 4 * i,
        decreases v.len() - i,
    {
        assert(v@.take(i + 1).drop_last() == v@.take(i as int));
        n = n + width_of(v[i]) as u128;
        i += 1;
    }
    assert(v@.take(v.len() as int) == v@);
    n
}

/// The character sequences that a vector of vectors holds.
pub open spec fn views(v: Seq<Vec<char>>) -> Seq<Seq<char>> {
    Seq::new(v.len(), |i: int| v[i]@)
}

/// The views of a list with one more element.
pub proof fn lemma_views_push(v: Seq<Vec<char>>, w: Vec<char>)
    ensures
        views(v.push(w)) == views(v).push(w@),
{
    assert(views(v.push(w)) =~= views(v).push(w@));
}

/// Characters with the Unicode `White_Space` property.
pub open spec fn is_space(c: char) -> bool {
    let u = c as u32;
    ||| 0x09 <= u <= 0x0D
    ||| u == 0x20
    ||| u == 0x85
    ||| u == 0xA0
    ||| u == 0x1680
    ||| 0x2000 <= u <= 0x200A
    ||| u == 0x2028
    ||| u == 0x2029
    ||| u == 0x202F
    ||| u == 0x205F
    ||| u == 0x3000
}

/// Whether a character is whitespace.
pub fn char_is_space(c: char) -> (r: bool)
    ensures
        r == is_space(c),
{
    let u: u32 = c as u32;
    (0x09 <= u && u <= 0x0D) || u == 0x20 || u == 0x85 || u == 0xA0 || u == 0x1680 || (0x2000 <= u
        && u <= 0x200A) || u == 0x2028 || u == 0x2029 || u == 0x202F || u == 0x205F || u
        == 0x3000
}

/// Number of leading whitespace characters of `s`.
pub open spec fn leading_spaces(s: Seq<char>) -> int
    decreases s.len(),
{
    if s.len() > 0 && is_space(s[0]) {
        1 + leading_spaces(s.drop_first())
    } else {
        0
    }
}

/// Number of trailing whitespace characters of `s`.
pub open spec fn trailing_spaces(s: Seq<char>) -> int
    decreases s.len(),
{
    if s.len() > 0 && is_space(s.last()) {
        1 + trailing_spaces(s.drop_last())
    } else {
        0
    }
}

/// `s` without its leading and trailing whitespace.
pub open spec fn trimmed(s: Seq<char>) -> Seq<char> {
    let rest = s.skip(leading_spaces(s));
    rest.take(rest.len() - trailing_spaces(rest))
}

/// Whether every character of `s` is whitespace.
pub open spec fn all_spaces(s: Seq<char>) -> bool {
    forall|i: int| 0 <= i < s.len() ==> is_space(#[trigger] s[i])
}

/// `leading_spaces` counts the whitespace before the first other character.
pub proof fn lemma_leading_spaces(s: Seq<char>)
    ensures
        0 <= leading_spaces(s) <= s.len(),
        all_spaces(s.take(leading_spaces(s))),
        leading_spaces(s) < s.len() ==> !is_space(s[leading_spaces(s)]),
    decreases s.len(),
{
    if s.len() > 0 && is_space(s[0]) {
        let r = s.drop_first();
        lemma_leading_spaces(r);
        let n = leading_spaces(r);
        assert forall|i: int| 0 <= i < n + 1 implies is_space(#[trigger] s.take(n + 1)[i]) by {
            if i > 0 {
                assert(s.take(n + 1)[i] == r.take(n)[i - 1]);
            }
        }
        if n + 1 < s.len() {
            assert(s[n + 1] == r[n]);
        }
    }
}

/// `trailing_spaces` counts the whitespace behind the last other character.
pub proof fn lemma_trailing_spaces(s: Seq<char>)
    ensures
        0 <= trailing_spaces(s) <= s.len(),
        all_spaces(s.skip(s.len() - trailing_spaces(s))),
        trailing_spaces(s) < s.len() ==> !is_space(s[s.len() - trailing_spaces(s) - 1]),
    decreases s.len(),
{
    if s.len() > 0 && is_space(s.last()) {
        let r = s.drop_last();
        lemma_trailing_spaces(r);
        let n = trailing_spaces(r);
        let k = s.len() - (n + 1);
        assert forall|i: int| 0 <= i < n + 1 implies is_space(#[trigger] s.skip(k)[i]) by {
            if i < n {
                assert(s.skip(k)[i] == r.skip(r.len() - n)[i]);
            }
        }
    }
}

/// A sequence whose first `n` characters are whitespace and whose next one, if
/// any, is not, has exactly `n` leading whitespace characters.
pub proof fn lemma_leading_spaces_is(s: Seq<char>, n: int)
    requires
        0 <= n <= s.len(),
        all_spaces(s.take(n)),
        n < s.len() ==> !is_space(s[n]),
    ensures
        leading_spaces(s) == n,
    decreases n,
{
    if n == 0 {
    } else {
        assert(s.take(n)[0] == s[0]);
        let r = s.drop_first();
        assert forall|i: int| 0 <= i < n - 1 implies is_space(#[trigger] r.take(n - 1)[i]) by {
            assert(r.take(n - 1)[i] == s.take(n)[i + 1]);
        }
        lemma_leading_spaces_is(r, n - 1);
    }
}

/// A run of whitespace at the end that cannot be made longer is the
/// trailing whitespace.
pub proof fn lemma_trailing_spaces_is(s: Seq<char>, n: int)
    requires
        0 <= n <= s.len(),
        all_spaces(s.skip(s.len() - n)),
        n < s.len() ==> !is_space(s[s.len() - n - 1]),
    ensures
        trailing_spaces(s) == n,
    decreases n,
{
    if n == 0 {
    } else {
        assert(s.skip(s.len() - n)[n - 1] == s.last());
        let r = s.drop_last();
        assert forall|i: int| 0 <= i < n - 1 implies is_space(
            #[trigger] r.skip(r.len() - (n - 1))[i],
        ) by {
            assert(r.skip(r.len() - (n - 1))[i] == s.skip(s.len() - n)[i]);
        }
        lemma_trailing_spaces_is(r, n - 1);
    }
}

/// The bounds `(from, to)` of `trimmed(v)` within `v`.
pub fn trim_bounds(v: &Vec<char>) -> (r: (usize, usize))
    ensures
        r.0 <= r.1 <= v.len(),
        v@.subrange(r.0 as int, r.1 as int) == trimmed(v@),
        r.0 == leading_spaces(v@),
{
    let n = v.len();
    let mut from: usize = 0;
    while from < n && char_is_space(v[from])
        invariant
            from <= n == v.len(),
            all_spaces(v@.take(from as int)),
        decreases n - from,
    {
        assert forall|i: int| 0 <= i < from + 1 implies is_space(#[trigger] v@.take(from + 1)[i]) by {
            if i < from {
                assert(v@.take(from + 1)[i] == v@.take(from as int)[i]);
            }
        }
        from += 1;
    }
    proof {
        lemma_leading_spaces_is(v@, from as int);
    }
    let ghost rest = v@.skip(from as int);
    let mut to: usize = n;
    while to > from && char_is_space(v[to - 1])
        invariant
            from <= to <= n == v.len(),
            rest == v@.skip(from as int),
            all_spaces(rest.skip(to - from)),
        decreases to,
    {
        assert forall|i: int| 0 <= i < n - (to - 1) implies is_space(
            #[trigger] rest.skip(to - 1 - from)[i],
        ) by {
            if i > 0 {
                assert(rest.skip(to - 1 - from)[i] == rest.skip(to - from)[i - 1]);
            }
        }
        to -= 1;
    }
    proof {
        lemma_trailing_spaces_is(rest, n - to);
        assert(rest.take(rest.len() - (n - to)) == v@.subrange(from as int, to as int));
    }
    (from, to)
}

/// `trimmed(v)` as a new vector.
pub fn trim(v: &Vec<char>) -> (r: Vec<char>)
    ensures
        r@ == trimmed(v@),
{
    let (from, to) = trim_bounds(v);
    slice_of(v, from, to)
}

/// Trimming removes only whitespace, and what is left neither starts nor ends
/// with whitespace.
pub proof fn lemma_trimmed(s: Seq<char>)
    ensures
        0 <= leading_spaces(s),
        leading_spaces(s) + trimmed(s).len() <= s.len(),
        trimmed(s) == s.subrange(leading_spaces(s), leading_spaces(s) + trimmed(s).len()),
        trimmed(s).len() > 0 ==> !is_space(trimmed(s).first()) && !is_space(trimmed(s).last()),
        trimmed(s).len() == 0 <==> all_spaces(s),
        s == s.take(leading_spaces(s)) + trimmed(s) + s.skip(
            leading_spaces(s) + trimmed(s).len(),
        ),
        all_spaces(s.take(leading_spaces(s))),
        all_spaces(s.skip(leading_spaces(s) + trimmed(s).len())),
{
    lemma_leading_spaces(s);
    let a = leading_spaces(s);
    let rest = s.skip(a);
    lemma_trailing_spaces(rest);
    let b = trailing_spaces(rest);
    let t = trimmed(s);
    assert(s.skip(a + t.len()) == rest.skip(rest.len() - b));
    if t.len() > 0 {
        assert(t.first() == s[a]);
        assert(t.last() == rest[rest.len() - b - 1]);
    }
    if t.len() == 0 {
        assert forall|i: int| 0 <= i < s.len() implies is_space(#[trigger] s[i]) by {
            if i < a {
                assert(s[i] == s.take(a)[i]);
            } else {
                assert(s[i] == rest.skip(rest.len() - b)[i - a]);
            }
        }
    }
    if all_spaces(s) && t.len() > 0 {
        assert(is_space(s[a]));
    }
}

} // verus!
