//! Small string operations on which URL handling rests.

use vstd::prelude::*;
use vstd::std_specs::iter::IteratorSpec;

verus! {

/// The position just behind the last occurrence of `c` in `s`, or 0 where
/// `c` does not occur.
pub open spec fn suffix_start(s: Seq<char>, c: char) -> nat
    decreases s.len(),
{
    if s.len() == 0 {
        0
    } else if s.last() == c {
        s.len()
    } else {
        suffix_start(s.drop_last(), c)
    }
}

/// What follows the last occurrence of `c` in `s`; all of `s` where `c`
/// does not occur.
pub open spec fn after_last(s: Seq<char>, c: char) -> Seq<char> {
    s.skip(suffix_start(s, c) as int)
}

/// `suffix_start` is a position of `s`; what lies behind it is free of
/// `c`, and what lies just before it is `c` whenever `c` occurs at all.
pub proof fn lemma_suffix_start(s: Seq<char>, c: char)
    ensures
        suffix_start(s, c) <= s.len(),
        forall|k: int| suffix_start(s, c) <= k < s.len() ==> s[k] != c,
        suffix_start(s, c) > 0 ==> s[suffix_start(s, c) - 1] == c,
        suffix_start(s, c) == 0 <==> !s.contains(c),
    decreases s.len(),
{
    if s.len() == 0 {
    } else if s.last() == c {
        assert(s[s.len() - 1] == c);
    } else {
        let t = s.drop_last();
        lemma_suffix_start(t, c);
        assert forall|k: int| suffix_start(s, c) <= k < s.len() implies s[k] != c by {
            if k < t.len() {
                assert(t[k] == s[k]);
            }
        }
        if suffix_start(s, c) > 0 {
            assert(t[suffix_start(t, c) - 1] == s[suffix_start(s, c) - 1]);
        }
        if s.contains(c) {
            let k = choose|k: int| 0 <= k < s.len() && s[k] == c;
            assert(t[k] == c);
        }
        if t.contains(c) {
            let k = choose|k: int| 0 <= k < t.len() && t[k] == c;
            assert(s[k] == c);
        }
    }
}

/// Computes [`suffix_start`] by walking the characters from the front.
pub fn find_suffix_start(s: &str, c: char) -> (start: usize)
    ensures
        start == suffix_start(s@, c),
        start <= s@.len(),
{
    let n: usize = s.unicode_len();
    let mut rest = s.chars();
    let mut start: usize = 0;
    let mut i: usize = 0;
    loop
        invariant
            n == s@.len(),
            i <= n,
            rest.remaining() == s@.skip(i as int),
            start == suffix_start(s@.take(i as int), c),
            start <= i,
        ensures
            i == n,
        decreases n - i,
    {
        match rest.next() {
            Some(ch) => {
                proof {
                    let next = s@.take(i + 1);
                    assert(ch == s@.skip(i as int)[0]);
                    assert(next.drop_last() == s@.take(i as int));
                    assert(next.last() == ch);
                    assert(s@.skip(i as int).drop_first() == s@.skip(i + 1));
                }
                i = i + 1;
                if ch == c {
                    start = i;
                }
            },
            None => {
                break ;
            },
        }
    }
    proof {
        assert(s@.take(n as int) == s@);
    }
    start
}

/// `text` with every occurrence of `from` replaced by `to`, the
/// occurrences taken from the left and never overlapping.
pub open spec fn replaced(text: Seq<char>, from: Seq<char>, to: Seq<char>) -> Seq<char>
    recommends
        from.len() > 0,
    decreases text.len(),
{
    if from.len() == 0 || text.len() < from.len() {
        text
    } else if text.take(from.len() as int) == from {
        to + replaced(text.skip(from.len() as int), from, to)
    } else {
        seq![text[0]] + replaced(text.skip(1), from, to)
    }
}

/// Calls `str::replace`, which replaces all matches of a pattern: for a
/// pattern that is a string, its occurrences from the left, none
/// overlapping another. The empty pattern is left out.
#[verifier::external_body]
pub(crate) fn replace_all(text: &str, from: &str, to: &str) -> (result: String)
    requires
        from@.len() > 0,
    ensures
        result@ == replaced(text@, from@, to@),
{
    text.replace(from, to)
}

} // verus!
