//! Character-level building blocks: whitespace, trimming, splitting on a
//! separator, and equality of string slices.

use vstd::prelude::*;
use vstd::std_specs::iter::IteratorSpec;

verus! {

broadcast use vstd::string::group_string_axioms;

/// The characters with the Unicode `White_Space` property.
pub open spec fn is_whitespace(c: char) -> bool {
    let n = c as u32;
    ||| 0x09 <= n <= 0x0D
    ||| n == 0x20
    ||| n == 0x85
    ||| n == 0xA0
    ||| n == 0x1680
    ||| 0x2000 <= n <= 0x200A
    ||| n == 0x2028
    ||| n == 0x2029
    ||| n == 0x202F
    ||| n == 0x205F
    ||| n == 0x3000
}

/// Number of whitespace characters at the front of `s`.
pub open spec fn leading_whitespace(s: Seq<char>) -> nat
    decreases s.len(),
{
    if s.len() > 0 && is_whitespace(s[0]) {
        1 + leading_whitespace(s.drop_first())
    } else {
        0
    }
}

/// Number of whitespace characters at the back of `s`.
pub open spec fn trailing_whitespace(s: Seq<char>) -> nat
    decreases s.len(),
{
    if s.len() > 0 && is_whitespace(s.last()) {
        1 + trailing_whitespace(s.drop_last())
    } else {
        0
    }
}

/// `s` without its leading and trailing whitespace.
pub open spec fn trim(s: Seq<char>) -> Seq<char> {
    let t = s.skip(leading_whitespace(s) as int);
    t.take(t.len() - trailing_whitespace(t))
}

/// The pieces of `s` between occurrences of `sep`, in order. The empty
/// sequence splits into one empty piece; a separator closes the current piece
/// and opens a new one; any other character extends the current piece.
pub open spec fn split(s: Seq<char>, sep: char) -> Seq<Seq<char>>
    decreases s.len(),
{
    if s.len() == 0 {
        seq![Seq::empty()]
    } else {
        let before = split(s.drop_last(), sep);
        if s.last() == sep {
            before.push(Seq::empty())
        } else {
            before.drop_last().push(before.last().push(s.last()))
        }
    }
}

/// A sequence that does not hold the separator splits into itself alone.
pub proof fn lemma_split_without_separator(s: Seq<char>, sep: char)
    requires
        forall|i: int| 0 <= i < s.len() ==> s[i] != sep,
    ensures
        split(s, sep) == seq![s],
    decreases s.len(),
{
    if s.len() > 0 {
        let front = s.drop_last();
        lemma_split_without_separator(front, sep);
        assert(seq![front].drop_last() == Seq::<Seq<char>>::empty());
        assert(front.push(s.last()) == s);
        assert(Seq::<Seq<char>>::empty().push(s) == seq![s]);
    } else {
        assert(s == Seq::<char>::empty());
    }
}

/// Whether `c` counts as whitespace when trimming.
pub fn char_is_whitespace(c: char) -> (r: bool)
    ensures
        r == is_whitespace(c),
{
    let n: u32 = c as u32;
    (0x09 <= n && n <= 0x0D) || n == 0x20 || n == 0x85 || n == 0xA0 || n == 0x1680 || (0x2000 <= n
        && n <= 0x200A) || n == 0x2028 || n == 0x2029 || n == 0x202F || n == 0x205F || n == 0x3000
}

/// The characters of `s`, in order.
pub fn to_chars(s: &str) -> (v: Vec<char>)
    ensures
        v@ == s@,
{
    let mut v: Vec<char> = Vec::new();
    for c in it: s.chars()
        invariant
            v@ == it.seq().take(it.index() as int),
    {
        v.push(c);
    }
    v
}

/// Whether two string slices hold the same characters.
pub fn str_eq(a: &str, b: &str) -> (r: bool)
    ensures
        r == (a@ == b@),
{
    let mut ia = a.chars();
    let mut ib = b.chars();
    let ghost mut n: int = 0;
    loop
        invariant
            0 <= n <= a@.len(),
            n <= b@.len(),
            ia.remaining() == a@.skip(n),
            ib.remaining() == b@.skip(n),
            a@.take(n) == b@.take(n),
            ia.obeys_prophetic_iter_laws(),
            ib.obeys_prophetic_iter_laws(),
        decreases a@.len() - n,
    {
        let x = ia.next();
        let y = ib.next();
        match (x, y) {
            (Some(p), Some(q)) => {
                if p != q {
                    assert(a@[n] != b@[n]);
                    return false;
                }
                proof {
                    assert(a@.take(n + 1) == a@.take(n).push(a@[n]));
                    assert(b@.take(n + 1) == b@.take(n).push(b@[n]));
                    n = n + 1;
                }
            },
            (None, None) => {
                assert(a@ == a@.take(n));
                assert(b@ == b@.take(n));
                return true;
            },
            _ => {
                return false;
            },
        }
    }
}

proof fn lemma_leading_whitespace_step(s: Seq<char>, k: int)
    requires
        0 <= k < s.len(),
        is_whitespace(s[k]),
    ensures
        leading_whitespace(s.skip(k)) == 1 + leading_whitespace(s.skip(k + 1)),
{
    assert(s.skip(k).drop_first() == s.skip(k + 1));
}

proof fn lemma_leading_whitespace_skip(s: Seq<char>, k: int)
    requires
        0 <= k <= s.len(),
        forall|i: int| 0 <= i < k ==> is_whitespace(s[i]),
    ensures
        leading_whitespace(s) == k + leading_whitespace(s.skip(k)),
    decreases k,
{
    if k == 0 {
        assert(s.skip(0) == s);
    } else {
        lemma_leading_whitespace_skip(s, k - 1);
        lemma_leading_whitespace_step(s, k - 1);
    }
}

proof fn lemma_trailing_whitespace_take(s: Seq<char>, k: int)
    requires
        0 <= k <= s.len(),
        forall|i: int| k <= i < s.len() ==> is_whitespace(s[i]),
    ensures
        trailing_whitespace(s) == (s.len() - k) + trailing_whitespace(s.take(k)),
    decreases s.len() - k,
{
    if k == s.len() {
        assert(s.take(k) == s);
    } else {
        lemma_trailing_whitespace_take(s, k + 1);
        assert(s.take(k + 1).drop_last() == s.take(k));
        assert(s.take(k + 1).last() == s[k]);
    }
}

/// The bounds, within `chars[lo..hi]`, of that range without its leading and
/// trailing whitespace.
pub fn trim_range(chars: &Vec<char>, lo: usize, hi: usize) -> (r: (usize, usize))
    requires
        lo <= hi <= chars.len(),
    ensures
        lo <= r.0 <= r.1 <= hi,
        chars@.subrange(r.0 as int, r.1 as int) == trim(chars@.subrange(lo as int, hi as int)),
{
    let ghost seg = chars@.subrange(lo as int, hi as int);
    let mut a: usize = lo;
    while a < hi && char_is_whitespace(chars[a])
        invariant
            lo <= a <= hi <= chars.len(),
            seg == chars@.subrange(lo as int, hi as int),
            forall|i: int| 0 <= i < a - lo ==> is_whitespace(seg[i]),
        decreases hi - a,
    {
        a += 1;
    }
    proof {
        lemma_leading_whitespace_skip(seg, a - lo);
        assert(leading_whitespace(seg.skip(a - lo)) == 0);
    }
    let ghost rest = seg.skip(a - lo);
    let mut b: usize = hi;
    while b > a && char_is_whitespace(chars[b - 1])
        invariant
            lo <= a <= b <= hi <= chars.len(),
            seg == chars@.subrange(lo as int, hi as int),
            rest == seg.skip(a - lo),
            forall|i: int| b - a <= i < rest.len() ==> is_whitespace(rest[i]),
        decreases b - a,
    {
        b -= 1;
    }
    proof {
        lemma_trailing_whitespace_take(rest, b - a);
        assert(trailing_whitespace(rest.take(b - a)) == 0) by {
            if b > a {
                assert(rest.take(b - a).last() == chars@[b - 1]);
            }
        }
        assert(chars@.subrange(a as int, b as int) == rest.take(b - a));
    }
    (a, b)
}

/// The pieces of `chars` that a list of index ranges cuts out, in order.
pub open spec fn pieces(chars: Seq<char>, ranges: Seq<(usize, usize)>) -> Seq<Seq<char>> {
    Seq::new(ranges.len(), |k: int| chars.subrange(ranges[k].0 as int, ranges[k].1 as int))
}

/// The index ranges of the pieces of `chars` between occurrences of `sep`.
pub fn split_ranges(chars: &Vec<char>, sep: char) -> (r: Vec<(usize, usize)>)
    ensures
        forall|k: int| 0 <= k < r@.len() ==> (#[trigger] r@[k]).0 <= r@[k].1 <= chars.len(),
        pieces(chars@, r@) == split(chars@, sep),
        r@.len() >= 1,
{
    let mut r: Vec<(usize, usize)> = Vec::new();
    let mut start: usize = 0;
    let mut j: usize = 0;
    proof {
        assert(chars@.subrange(0, 0) == Seq::<char>::empty());
        assert(pieces(chars@, r@).push(chars@.subrange(0, 0)) == seq![Seq::<char>::empty()]);
    }
    while j < chars.len()
        invariant
            start <= j <= chars.len(),
            forall|k: int| 0 <= k < r@.len() ==> (#[trigger] r@[k]).0 <= r@[k].1 <= chars.len(),
            split(chars@.take(j as int), sep) == pieces(chars@, r@).push(
                chars@.subrange(start as int, j as int),
            ),
        decreases chars.len() - j,
    {
        let ghost before = split(chars@.take(j as int), sep);
        let ghost old_r = r@;
        proof {
            assert(chars@.take(j + 1).drop_last() == chars@.take(j as int));
            assert(chars@.take(j + 1).last() == chars@[j as int]);
            assert(before.last() == chars@.subrange(start as int, j as int));
            assert(before.drop_last() == pieces(chars@, old_r));
        }
        if chars[j] == sep {
            r.push((start, j));
            start = j + 1;
            proof {
                assert(pieces(chars@, r@) == before);
                assert(chars@.subrange(start as int, j + 1) == Seq::<char>::empty());
            }
        } else {
            proof {
                assert(chars@.subrange(start as int, j + 1) == before.last().push(chars@[j as int]));
            }
        }
        j += 1;
    }
    proof {
        assert(chars@.take(j as int) == chars@);
    }
    let ghost done = pieces(chars@, r@);
    r.push((start, j));
    proof {
        assert(pieces(chars@, r@) == done.push(chars@.subrange(start as int, j as int)));
    }
    r
}

} // verus!
