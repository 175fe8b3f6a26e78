//! The outer shape of a frame: how a buffer falls into segments at the
//! separator, and how a command line falls into whitespace-delimited fields.

use crate::chars::{is_space, is_whitespace};
use vstd::prelude::*;

verus! {

/// `pat` stands in `s` at position `i`.
pub open spec fn occurs_at(s: Seq<char>, pat: Seq<char>, i: int) -> bool {
    0 <= i && i + pat.len() <= s.len() && s.subrange(i, i + pat.len()) == pat
}

/// The first position at or after `from` at which `pat` stands in `s`.
pub open spec fn find_from(s: Seq<char>, pat: Seq<char>, from: int) -> Option<int>
    decreases s.len() + 1 - from,
{
    if from < 0 || from + pat.len() > s.len() {
        None
    } else if occurs_at(s, pat, from) {
        Some(from)
    } else {
        find_from(s, pat, from + 1)
    }
}

/// What `find_from` finds is an occurrence, and the earliest one.
pub proof fn lemma_find_from(s: Seq<char>, pat: Seq<char>, from: int)
    requires
        0 <= from,
    ensures
        match find_from(s, pat, from) {
            Some(at) => from <= at && occurs_at(s, pat, at) && forall|k: int|
                from <= k < at ==> !occurs_at(s, pat, k),
            None => forall|k: int| from <= k ==> !occurs_at(s, pat, k),
        },
    decreases s.len() + 1 - from,
{
    if from + pat.len() <= s.len() && !occurs_at(s, pat, from) {
        lemma_find_from(s, pat, from + 1);
    }
}

/// The pieces of `s[from..]` between occurrences of a non-empty `sep`,
/// matched from the left without overlap. There is always at least one
/// piece; the last may be empty.
pub open spec fn split_from(s: Seq<char>, sep: Seq<char>, from: int) -> Seq<Seq<char>>
    decreases s.len() - from,
    when sep.len() > 0 && 0 <= from
{
    match find_from(s, sep, from) {
        Some(at) => {
            proof {
                lemma_find_from(s, sep, from);
            }
            seq![s.subrange(from, at)] + split_from(s, sep, at + sep.len())
        },
        None => seq![s.subrange(from, s.len() as int)],
    }
}

/// The segments of a frame. With a non-empty separator they are the pieces
/// between its occurrences, without the last piece when that is empty, so a
/// frame may or may not end in the separator. An empty separator stands
/// before every character: the first segment is then empty, and each
/// character is a segment of its own.
pub open spec fn segments(s: Seq<char>, sep: Seq<char>) -> Seq<Seq<char>> {
    if sep.len() == 0 {
        seq![Seq::<char>::empty()] + Seq::new(s.len(), |k: int| seq![s[k]])
    } else {
        let pieces = split_from(s, sep, 0);
        if pieces.last().len() == 0 {
            pieces.drop_last()
        } else {
            pieces
        }
    }
}

/// There is always at least one piece.
pub proof fn lemma_split_from_nonempty(s: Seq<char>, sep: Seq<char>, from: int)
    requires
        sep.len() > 0,
        0 <= from,
    ensures
        split_from(s, sep, from).len() >= 1,
{
}

/// The end of the run of non-whitespace characters that starts at `i`.
pub open spec fn word_end(s: Seq<char>, i: int) -> int
    decreases s.len() - i,
{
    if 0 <= i < s.len() && !is_whitespace(s[i]) {
        word_end(s, i + 1)
    } else {
        i
    }
}

/// A run of non-whitespace characters holds no whitespace, and ends at the
/// end of `s` or before whitespace.
pub proof fn lemma_word_end(s: Seq<char>, i: int)
    requires
        0 <= i <= s.len(),
    ensures
        i <= word_end(s, i) <= s.len(),
        forall|k: int| i <= k < word_end(s, i) ==> !is_whitespace(#[trigger] s[k]),
        word_end(s, i) < s.len() ==> is_whitespace(s[word_end(s, i)]),
    decreases s.len() - i,
{
    if i < s.len() && !is_whitespace(s[i]) {
        lemma_word_end(s, i + 1);
    }
}

/// The maximal runs of non-whitespace characters in `s[i..]`, in order.
pub open spec fn fields_from(s: Seq<char>, i: int) -> Seq<Seq<char>>
    decreases s.len() - i,
    when 0 <= i
{
    if i >= s.len() {
        Seq::empty()
    } else if is_whitespace(s[i]) {
        fields_from(s, i + 1)
    } else {
        proof {
            lemma_word_end(s, i);
        }
        seq![s.subrange(i, word_end(s, i))] + fields_from(s, word_end(s, i))
    }
}

/// The fields of a command line: its maximal runs of non-whitespace
/// characters, in order. None of them is empty.
pub open spec fn fields(s: Seq<char>) -> Seq<Seq<char>> {
    fields_from(s, 0)
}

/// The run of non-whitespace characters that starts at `i` ends at `j`,
/// where no whitespace lies between them and `j` is the end of `s` or
/// whitespace.
pub proof fn lemma_word_end_at(s: Seq<char>, i: int, j: int)
    requires
        0 <= i <= j <= s.len(),
        forall|k: int| i <= k < j ==> !is_whitespace(#[trigger] s[k]),
        j == s.len() || is_whitespace(s[j]),
    ensures
        word_end(s, i) == j,
    decreases j - i,
{
    if i < j {
        lemma_word_end_at(s, i + 1, j);
    }
}

/// The fields that begin at or after a position depend on nothing before it.
pub proof fn lemma_fields_from_suffix(a: Seq<char>, b: Seq<char>, i: int)
    requires
        0 <= i <= b.len(),
    ensures
        fields_from(a + b, a.len() + i) == fields_from(b, i),
    decreases b.len() - i,
{
    let s = a + b;
    let n = a.len() as int;
    if i < b.len() {
        assert(s[n + i] == b[i]);
        if is_whitespace(b[i]) {
            lemma_fields_from_suffix(a, b, i + 1);
        } else {
            lemma_word_end(b, i);
            let j = word_end(b, i);
            assert forall|k: int| n + i <= k < n + j implies !is_whitespace(#[trigger] s[k]) by {
                assert(s[k] == b[k - n]);
            }
            if j < b.len() {
                assert(s[n + j] == b[j]);
            }
            lemma_word_end_at(s, n + i, n + j);
            assert(s.subrange(n + i, n + j) =~= b.subrange(i, j));
            lemma_fields_from_suffix(a, b, j);
        }
    }
}

/// A word of no whitespace, followed by nothing or by whitespace, is the
/// first field of the line, and the other fields are those of what follows.
pub proof fn lemma_fields_after_word(w: Seq<char>, rest: Seq<char>)
    requires
        w.len() > 0,
        forall|k: int| 0 <= k < w.len() ==> !is_whitespace(#[trigger] w[k]),
        rest.len() == 0 || is_whitespace(rest[0]),
    ensures
        fields(w + rest) == seq![w] + fields(rest),
{
    let s = w + rest;
    let n = w.len() as int;
    assert forall|k: int| 0 <= k < n implies !is_whitespace(#[trigger] s[k]) by {
        assert(s[k] == w[k]);
    }
    if rest.len() > 0 {
        assert(s[n] == rest[0]);
    }
    lemma_word_end_at(s, 0, n);
    assert(s.subrange(0, n) =~= w);
    lemma_fields_from_suffix(w, rest, 0);
}

/// Whitespace in front of a line adds no field.
pub proof fn lemma_fields_after_space(c: char, rest: Seq<char>)
    requires
        is_whitespace(c),
    ensures
        fields(seq![c] + rest) == fields(rest),
{
    let s = seq![c] + rest;
    assert(s[0] == c);
    lemma_fields_from_suffix(seq![c], rest, 0);
}

/// Where `pat` stands at `at` and nowhere from `from` up to `at`, the
/// search from `from` finds it at `at`.
pub proof fn lemma_found_at(s: Seq<char>, pat: Seq<char>, from: int, at: int)
    requires
        0 <= from <= at,
        occurs_at(s, pat, at),
        forall|k: int| from <= k < at ==> !occurs_at(s, pat, k),
    ensures
        find_from(s, pat, from) == Some(at),
    decreases at - from,
{
    if from < at {
        lemma_found_at(s, pat, from + 1, at);
    }
}

/// Finds the first occurrence of `pat` in `s` at or after `from`.
pub fn find(s: &[char], pat: &[char], from: usize) -> (r: Option<usize>)
    ensures
        match r {
            Some(at) => find_from(s@, pat@, from as int) == Some(at as int),
            None => find_from(s@, pat@, from as int) is None,
        },
{
    let n: usize = s.len();
    let m: usize = pat.len();
    if m > n {
        return None;
    }
    let mut i: usize = from;
    while i <= n - m
        invariant
            from <= i,
            n == s.len(),
            m == pat.len(),
            m <= n,
            find_from(s@, pat@, from as int) == find_from(s@, pat@, i as int),
        decreases n - i,
    {
        let mut j: usize = 0;
        while j < m && s[i + j] == pat[j]
            invariant
                i <= n - m,
                n == s.len(),
                m == pat.len(),
                j <= m,
                forall|k: int| 0 <= k < j ==> s@[i + k] == pat@[k],
            decreases m - j,
        {
            j = j + 1;
        }
        if j == m {
            proof {
                assert(s@.subrange(i as int, i + m) =~= pat@);
            }
            return Some(i);
        }
        proof {
            assert(s@.subrange(i as int, i + m)[j as int] == s@[i + j]);
            assert(!occurs_at(s@, pat@, i as int));
        }
        i = i + 1;
    }
    None
}

/// Where the first two segments of a frame lie, and whether there are more.
pub struct Segments {
    /// The number of segments, or 3 where there are more than two.
    pub count: usize,
    /// The bounds of the first segment, where there is one.
    pub first: (usize, usize),
    /// The bounds of the second segment, where there is one.
    pub second: (usize, usize),
}

/// Locates the first two segments of `s` and tells whether there are more.
pub fn locate_segments(s: &[char], sep: &[char]) -> (r: Segments)
    ensures
        r.count <= 3,
        r.count == 3 <==> segments(s@, sep@).len() >= 3,
        r.count < 3 ==> r.count == segments(s@, sep@).len(),
        r.count >= 1 ==> r.first.0 <= r.first.1 <= s.len() && segments(s@, sep@)[0]
            == s@.subrange(r.first.0 as int, r.first.1 as int),
        r.count >= 2 ==> r.second.0 <= r.second.1 <= s.len() && segments(s@, sep@)[1]
            == s@.subrange(r.second.0 as int, r.second.1 as int),
{
    let n: usize = s.len();
    let m: usize = sep.len();
    let ghost segs = segments(s@, sep@);
    if m == 0 {
        if n == 0 {
            proof {
                assert(segs[0] =~= s@.subrange(0, 0));
            }
            return Segments { count: 1, first: (0, 0), second: (0, 0) };
        }
        proof {
            assert(segs[0] =~= s@.subrange(0, 0));
            assert(segs[1] =~= s@.subrange(0, 1));
        }
        return Segments { count: if n == 1 { 2 } else { 3 }, first: (0, 0), second: (0, 1) };
    }
    let ghost pieces = split_from(s@, sep@, 0);
    let a1: usize = match find(s, sep, 0) {
        None => {
            proof {
                assert(s@.subrange(0, n as int) =~= s@);
            }
            return Segments { count: if n == 0 { 0 } else { 1 }, first: (0, n), second: (0, 0) };
        },
        Some(at) => at,
    };
    proof {
        lemma_find_from(s@, sep@, 0);
    }
    let b: usize = a1 + m;
    let ghost rest1 = split_from(s@, sep@, b as int);
    let a2: usize = match find(s, sep, b) {
        None => {
            proof {
                assert(pieces =~= seq![s@.subrange(0, a1 as int), s@.subrange(b as int, n as int)]);
            }
            return Segments { count: if b == n { 1 } else { 2 }, first: (0, a1), second: (b, n) };
        },
        Some(at) => at,
    };
    proof {
        lemma_find_from(s@, sep@, b as int);
    }
    let c: usize = a2 + m;
    let ghost rest2 = split_from(s@, sep@, c as int);
    proof {
        assert(rest1 == seq![s@.subrange(b as int, a2 as int)] + rest2);
        assert(pieces =~= seq![s@.subrange(0, a1 as int), s@.subrange(b as int, a2 as int)]
            + rest2);
        lemma_split_from_nonempty(s@, sep@, c as int);
    }
    match find(s, sep, c) {
        None => {
            proof {
                assert(rest2 == seq![s@.subrange(c as int, n as int)]);
            }
            Segments { count: if c == n { 2 } else { 3 }, first: (0, a1), second: (b, a2) }
        },
        Some(a3) => {
            proof {
                lemma_find_from(s@, sep@, c as int);
                lemma_split_from_nonempty(s@, sep@, a3 + m);
                assert(rest2 == seq![s@.subrange(c as int, a3 as int)] + split_from(
                    s@,
                    sep@,
                    a3 + m,
                ));
            }
            Segments { count: 3, first: (0, a1), second: (b, a2) }
        },
    }
}

/// Locates the fields of the command line `s`.
pub fn locate_fields(s: &[char]) -> (r: Vec<(usize, usize)>)
    ensures
        r@.len() == fields(s@).len(),
        forall|k: int|
            0 <= k < r@.len() ==> (#[trigger] r@[k]).0 < r@[k].1 <= s.len() && fields(s@)[k]
                == s@.subrange(r@[k].0 as int, r@[k].1 as int),
{
    let n: usize = s.len();
    let mut r: Vec<(usize, usize)> = Vec::new();
    let mut i: usize = 0;
    while i < n
        invariant
            i <= n,
            n == s.len(),
            fields(s@).len() == r@.len() + fields_from(s@, i as int).len(),
            forall|k: int|
                0 <= k < r@.len() ==> (#[trigger] r@[k]).0 < r@[k].1 <= n && fields(s@)[k]
                    == s@.subrange(r@[k].0 as int, r@[k].1 as int),
            forall|k: int|
                0 <= k < fields_from(s@, i as int).len() ==> fields(s@)[r@.len() + k]
                    == #[trigger] fields_from(s@, i as int)[k],
        decreases n - i,
    {
        if is_space(s[i]) {
            i = i + 1;
        } else {
            let start: usize = i;
            let ghost tail = fields_from(s@, start as int);
            while i < n && !is_space(s[i])
                invariant
                    start <= i <= n,
                    n == s.len(),
                    word_end(s@, start as int) == word_end(s@, i as int),
                decreases n - i,
            {
                i = i + 1;
            }
            proof {
                lemma_word_end(s@, start as int);
                assert(word_end(s@, start as int) == i);
                assert(tail == seq![s@.subrange(start as int, i as int)] + fields_from(
                    s@,
                    i as int,
                ));
                assert(tail[0] == s@.subrange(start as int, i as int));
                assert forall|k: int| 0 <= k < fields_from(s@, i as int).len() implies fields(
                    s@,
                )[r@.len() + 1 + k] == #[trigger] fields_from(s@, i as int)[k] by {
                    assert(tail[k + 1] == fields_from(s@, i as int)[k]);
                }
            }
            r.push((start, i));
        }
    }
    r
}

} // verus!
