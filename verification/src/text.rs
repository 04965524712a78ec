//! Searching in sequences of characters.
//!
//! A text is modelled as a `Seq<char>`. The executable functions work on
//! slices of characters and are specified over that model.

use vstd::prelude::*;

verus! {

/// `needle` stands in `hay`, starting at index `at`.
pub open spec fn occurs_at(hay: Seq<char>, needle: Seq<char>, at: int) -> bool {
    &&& 0 <= at
    &&& at + needle.len() <= hay.len()
    &&& hay.subrange(at, at + needle.len()) == needle
}

/// `needle` stands somewhere in `hay`.
pub open spec fn occurs(hay: Seq<char>, needle: Seq<char>) -> bool {
    exists|at: int| occurs_at(hay, needle, at)
}

/// `needle` stands in `hay` at `at`, and nowhere further right.
pub open spec fn is_last_occurrence(hay: Seq<char>, needle: Seq<char>, at: int) -> bool {
    &&& occurs_at(hay, needle, at)
    &&& forall|later: int| at < later ==> !occurs_at(hay, needle, later)
}

/// Where the rightmost occurrence of `needle` in `hay` starts, if there is one.
pub open spec fn last_occurrence(hay: Seq<char>, needle: Seq<char>) -> Option<int> {
    if occurs(hay, needle) {
        Some(choose|at: int| is_last_occurrence(hay, needle, at))
    } else {
        None
    }
}

/// The number of leading characters of `s` that differ from `stop`.
pub open spec fn span(s: Seq<char>, stop: char) -> nat
    decreases s.len(),
{
    if s.len() == 0 || s.first() == stop {
        0
    } else {
        1 + span(s.drop_first(), stop)
    }
}

/// `n` characters of `s` come before the first `stop`, or before the end if
/// `s` holds no `stop`.
pub open spec fn is_span(s: Seq<char>, stop: char, n: int) -> bool {
    &&& 0 <= n <= s.len()
    &&& forall|i: int| 0 <= i < n ==> s[i] != stop
    &&& n < s.len() ==> s[n] == stop
}

/// The longest prefix of `s` that holds no `stop`.
pub open spec fn until(s: Seq<char>, stop: char) -> Seq<char> {
    s.take(span(s, stop) as int)
}

/// The pieces of `s` between its occurrences of `sep`. A text without `sep`
/// is one piece; `k` separators give `k + 1` pieces, some of which may be
/// empty.
pub open spec fn split(s: Seq<char>, sep: char) -> Seq<Seq<char>>
    decreases s.len(),
{
    let n = span(s, sep) as int;
    if n < s.len() {
        seq![s.take(n)] + split(s.skip(n + 1), sep)
    } else {
        seq![s]
    }
}

/// A rightmost occurrence is the value of `last_occurrence`.
pub proof fn lemma_last_occurrence_is(hay: Seq<char>, needle: Seq<char>, at: int)
    requires
        is_last_occurrence(hay, needle, at),
    ensures
        last_occurrence(hay, needle) == Some(at),
{
    let chosen = choose|p: int| is_last_occurrence(hay, needle, p);
    assert(is_last_occurrence(hay, needle, chosen));
    if chosen < at {
        assert(!occurs_at(hay, needle, at));
    } else if at < chosen {
        assert(!occurs_at(hay, needle, chosen));
    }
}

/// Among the occurrences of `needle` between `lo` and `hi` there is a rightmost.
proof fn lemma_rightmost_exists(hay: Seq<char>, needle: Seq<char>, lo: int, hi: int)
    requires
        occurs_at(hay, needle, lo),
        lo <= hi,
        forall|j: int| hi < j ==> !occurs_at(hay, needle, j),
    ensures
        exists|p: int| is_last_occurrence(hay, needle, p),
    decreases hi - lo,
{
    if occurs_at(hay, needle, hi) {
        assert(is_last_occurrence(hay, needle, hi));
    } else {
        assert forall|j: int| hi - 1 < j implies !occurs_at(hay, needle, j) by {
            if j != hi {
                assert(hi < j);
            }
        }
        lemma_rightmost_exists(hay, needle, lo, hi - 1);
    }
}

/// Where `needle` occurs, `last_occurrence` names its rightmost occurrence;
/// where it does not, `last_occurrence` is `None`.
pub proof fn lemma_last_occurrence(hay: Seq<char>, needle: Seq<char>)
    ensures
        match last_occurrence(hay, needle) {
            Some(at) => is_last_occurrence(hay, needle, at),
            None => forall|at: int| !occurs_at(hay, needle, at),
        },
{
    if occurs(hay, needle) {
        let first = choose|at: int| occurs_at(hay, needle, at);
        lemma_rightmost_exists(hay, needle, first, hay.len() as int);
    }
}

/// `span` is the one number that `is_span` holds of.
pub proof fn lemma_span(s: Seq<char>, stop: char, n: int)
    ensures
        is_span(s, stop, span(s, stop) as int),
        is_span(s, stop, n) ==> n == span(s, stop),
    decreases s.len(),
{
    if s.len() == 0 || s.first() == stop {
        if is_span(s, stop, n) && n > 0 {
            assert(s[0] != stop);
        }
    } else {
        let rest = s.drop_first();
        lemma_span(rest, stop, n - 1);
        let m = span(rest, stop) as int;
        assert forall|i: int| 0 <= i < m + 1 implies s[i] != stop by {
            if i > 0 {
                assert(s[i] == rest[i - 1]);
            }
        }
        if m + 1 < s.len() {
            assert(s[m + 1] == rest[m]);
        }
        if is_span(s, stop, n) {
            assert(n > 0);
            assert forall|i: int| 0 <= i < n - 1 implies rest[i] != stop by {
                assert(rest[i] == s[i + 1]);
            }
            if n - 1 < rest.len() {
                assert(rest[n - 1] == s[n]);
            }
            assert(is_span(rest, stop, n - 1));
        }
    }
}

/// A text that holds no `stop` is its own longest prefix without `stop`,
/// whatever follows a `stop` placed after it.
pub proof fn lemma_until_stop(word: Seq<char>, stop: char, rest: Seq<char>)
    requires
        !word.contains(stop),
    ensures
        until(word, stop) == word,
        until(word + seq![stop] + rest, stop) == word,
{
    let n = word.len() as int;
    assert forall|i: int| 0 <= i < n implies word[i] != stop by {
        if word[i] == stop {
            assert(word.contains(stop));
        }
    }
    assert(is_span(word, stop, n));
    lemma_span(word, stop, n);
    assert(word.take(n) == word);
    let long = word + seq![stop] + rest;
    assert forall|i: int| 0 <= i < n implies long[i] != stop by {
        assert(long[i] == word[i]);
    }
    assert(long[n] == stop);
    assert(is_span(long, stop, n));
    lemma_span(long, stop, n);
    assert(long.take(n) == word);
}

/// The characters of `s`, in order.
pub fn chars_of(s: &str) -> (chars: Vec<char>)
    ensures
        chars@ == s@,
{
    let mut chars: Vec<char> = Vec::new();
    for c in it: s.chars()
        invariant
            it.seq() == s@,
            chars@ == it.seq().take(it.index() as int),
    {
        chars.push(c);
    }
    chars
}

/// Whether `needle` stands in `hay` at index `at`.
pub fn matches_at(hay: &[char], needle: &[char], at: usize) -> (found: bool)
    ensures
        found == occurs_at(hay@, needle@, at as int),
{
    let n: usize = hay.len();
    let m: usize = needle.len();
    if at > n || m > n - at {
        return false;
    }
    let mut i: usize = 0;
    while i < m
        invariant
            n == hay@.len(),
            m == needle@.len(),
            at + m <= n,
            i <= m,
            forall|k: int| 0 <= k < i ==> hay@[at + k] == needle@[k],
        decreases m - i,
    {
        if hay[at + i] != needle[i] {
            proof {
                let window = hay@.subrange(at as int, at + m);
                assert(window[i as int] == hay@[at + i]);
            }
            return false;
        }
        i += 1;
    }
    assert(hay@.subrange(at as int, at + m) == needle@);
    true
}

/// The index at which the rightmost occurrence of `needle` in `hay` starts.
/// An empty `needle` occurs at every index, the length of `hay` included.
pub fn find_last(hay: &[char], needle: &[char]) -> (found: Option<usize>)
    ensures
        match found {
            Some(at) => last_occurrence(hay@, needle@) == Some(at as int),
            None => last_occurrence(hay@, needle@) is None,
        },
        found matches Some(at) ==> is_last_occurrence(hay@, needle@, at as int),
        found is None ==> forall|at: int| !occurs_at(hay@, needle@, at),
{
    let n: usize = hay.len();
    let m: usize = needle.len();
    if m > n {
        return None;
    }
    let mut at: usize = n - m;
    loop
        invariant
            n == hay@.len(),
            m == needle@.len(),
            at + m <= n,
            forall|later: int| at < later ==> !occurs_at(hay@, needle@, later),
        decreases at,
    {
        if matches_at(hay, needle, at) {
            proof {
                lemma_last_occurrence_is(hay@, needle@, at as int);
            }
            return Some(at);
        }
        if at == 0 {
            return None;
        }
        at -= 1;
    }
}

/// How many characters of `s` come before its first `stop`; the length of
/// `s` if it holds none.
pub fn span_len(s: &[char], stop: char) -> (n: usize)
    ensures
        n == span(s@, stop),
        is_span(s@, stop, n as int),
{
    let mut n: usize = 0;
    while n < s.len() && s[n] != stop
        invariant
            n <= s@.len(),
            forall|i: int| 0 <= i < n ==> s@[i] != stop,
        decreases s@.len() - n,
    {
        n += 1;
    }
    proof {
        lemma_span(s@, stop, n as int);
    }
    n
}

} // verus!
