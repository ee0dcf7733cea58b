//! Text primitives on sequences of characters: searching, splitting and
//! copying, each with a contract over `Seq<char>`.
use vstd::prelude::*;

verus! {

/// `pat` occurs in `s` starting at position `i`.
pub open spec fn occurs_at(s: Seq<char>, pat: Seq<char>, i: int) -> bool {
    0 <= i && i + pat.len() <= s.len() && s.subrange(i, i + pat.len()) == pat
}

/// The position of the first occurrence of `pat` in `s` that starts at or
/// after `from`, if there is one.
pub open spec fn find_from(s: Seq<char>, pat: Seq<char>, from: int) -> Option<int>
    decreases s.len() + 1 - from,
{
    if from < 0 || from + pat.len() > s.len() {
        None
    } else if s.subrange(from, from + pat.len()) == pat {
        Some(from)
    } else {
        find_from(s, pat, from + 1)
    }
}

/// What `find_from` returns is a genuine occurrence, the first one.
pub proof fn lemma_find_from(s: Seq<char>, pat: Seq<char>, from: int)
    requires
        0 <= from,
    ensures
        match find_from(s, pat, from) {
            Some(i) => from <= i && occurs_at(s, pat, i) && forall|j: int|
                from <= j < i ==> !occurs_at(s, pat, j),
            None => forall|j: int| from <= j ==> !occurs_at(s, pat, j),
        },
    decreases s.len() + 1 - from,
{
    if from + pat.len() > s.len() {
    } else if s.subrange(from, from + pat.len()) == pat {
    } else {
        lemma_find_from(s, pat, from + 1);
    }
}

/// Skipping positions where `pat` does not occur does not change the answer.
pub proof fn lemma_find_from_skip(s: Seq<char>, pat: Seq<char>, from: int, to: int)
    requires
        0 <= from <= to,
        forall|j: int| from <= j < to ==> !occurs_at(s, pat, j),
    ensures
        find_from(s, pat, from) == find_from(s, pat, to),
    decreases to - from,
{
    if from < to {
        lemma_find_from_skip(s, pat, from + 1, to);
        if from + pat.len() <= s.len() {
            assert(!occurs_at(s, pat, from));
        }
    }
}

/// Whether `pat` occurs in `s` at position `i`.
pub fn occurs_here(s: &[char], pat: &[char], i: usize) -> (r: bool)
    ensures
        r == occurs_at(s@, pat@, i as int),
{
    let n = s.len();
    if pat.len() > n || i > n - pat.len() {
        return false;
    }
    let mut k: usize = 0;
    while k < pat.len()
        invariant
            n == s@.len(),
            i + pat@.len() <= n,
            k <= pat@.len(),
            forall|j: int| 0 <= j < k ==> s@[i + j] == pat@[j],
        decreases pat@.len() - k,
    {
        if s[i + k] != pat[k] {
            assert(s@.subrange(i as int, i + pat@.len())[k as int] != pat@[k as int]);
            return false;
        }
        k = k + 1;
    }
    assert(s@.subrange(i as int, i + pat@.len()) =~= pat@);
    true
}

/// The first occurrence of `pat` in `s` at or after `from`.
pub fn find(s: &[char], pat: &[char], from: usize) -> (r: Option<usize>)
    ensures
        r == match find_from(s@, pat@, from as int) {
            Some(i) => Some(i as usize),
            None => None::<usize>,
        },
{
    proof {
        lemma_find_from(s@, pat@, from as int);
    }
    let n = s.len();
    if pat.len() > n || from > n - pat.len() {
        return None;
    }
    let last = n - pat.len();
    let mut i = from;
    loop
        invariant
            n == s@.len(),
            last + pat@.len() == n,
            from <= i <= last,
            forall|j: int| from <= j < i ==> !occurs_at(s@, pat@, j),
        decreases last - i,
    {
        if occurs_here(s, pat, i) {
            proof {
                lemma_find_from_skip(s@, pat@, from as int, i as int);
            }
            return Some(i);
        }
        if i == last {
            proof {
                lemma_find_from(s@, pat@, from as int);
            }
            return None;
        }
        i = i + 1;
    }
}

/// A copy of `s[from..to]`.
pub fn copy_range(s: &[char], from: usize, to: usize) -> (r: Vec<char>)
    requires
        from <= to <= s@.len(),
    ensures
        r@ == s@.subrange(from as int, to as int),
{
    let mut r: Vec<char> = Vec::new();
    let mut i = from;
    while i < to
        invariant
            from <= i <= to <= s@.len(),
            r@ == s@.subrange(from as int, i as int),
        decreases to - i,
    {
        r.push(s[i]);
        i = i + 1;
        assert(r@ =~= s@.subrange(from as int, i as int));
    }
    r
}

/// Appends `src` to `out`.
pub fn push_all(out: &mut Vec<char>, src: &[char])
    ensures
        final(out)@ == old(out)@ + src@,
{
    let mut i: usize = 0;
    while i < src.len()
        invariant
            i <= src@.len(),
            out@ == old(out)@ + src@.subrange(0, i as int),
        decreases src@.len() - i,
    {
        out.push(src[i]);
        i = i + 1;
        assert(out@ =~= old(out)@ + src@.subrange(0, i as int));
    }
    assert(src@.subrange(0, src@.len() as int) =~= src@);
}


/// The text before and after the first occurrence of `pat` in `s`, if `pat`
/// occurs (`str::split_once`).
pub open spec fn split_once(s: Seq<char>, pat: Seq<char>) -> Option<(Seq<char>, Seq<char>)> {
    match find_from(s, pat, 0) {
        Some(i) => Some((s.take(i), s.skip(i + pat.len()))),
        None => None,
    }
}

/// The pieces of `s[from..]` between the occurrences of a nonempty `pat`,
/// found from left to right without overlap (`str::split`).
pub open spec fn split_from(s: Seq<char>, pat: Seq<char>, from: int) -> Seq<Seq<char>>
    decreases s.len() + 1 - from,
{
    if pat.len() == 0 || from < 0 || from > s.len() {
        seq![s.subrange(from, s.len() as int)]
    } else {
        match find_from(s, pat, from) {
            Some(j) => {
                proof {
                    lemma_find_from(s, pat, from);
                }
                seq![s.subrange(from, j)] + split_from(s, pat, j + pat.len())
            },
            None => seq![s.subrange(from, s.len() as int)],
        }
    }
}

/// The pieces of `s` between the occurrences of `pat` (`str::split`).
pub open spec fn split_all(s: Seq<char>, pat: Seq<char>) -> Seq<Seq<char>> {
    split_from(s, pat, 0)
}

/// The `i`-th piece of a split, or the empty text where there is none (as
/// `parts.next().unwrap_or("")` reads it).
pub open spec fn piece(ps: Seq<Seq<char>>, i: int) -> Seq<char> {
    if 0 <= i < ps.len() {
        ps[i]
    } else {
        Seq::empty()
    }
}

/// A split always yields at least one piece.
pub proof fn lemma_split_from_nonempty(s: Seq<char>, pat: Seq<char>, from: int)
    ensures
        split_from(s, pat, from).len() >= 1,
    decreases s.len() + 1 - from,
{
    if pat.len() == 0 || from < 0 || from > s.len() {
    } else {
        match find_from(s, pat, from) {
            Some(j) => {
                lemma_find_from(s, pat, from);
                lemma_split_from_nonempty(s, pat, j + pat.len());
            },
            None => {},
        }
    }
}

/// A line without one trailing carriage return.
pub open spec fn strip_cr(l: Seq<char>) -> Seq<char> {
    if l.len() > 0 && l.last() == '\r' {
        l.drop_last()
    } else {
        l
    }
}

/// The lines of `s` (`str::lines`): the pieces between line feeds, each
/// that a line feed ends without one carriage return before it, and without
/// the empty piece after a final line feed.
pub open spec fn lines(s: Seq<char>) -> Seq<Seq<char>> {
    let ps = split_all(s, seq!['\n']);
    let n = if ps.len() > 0 && ps.last().len() == 0 {
        ps.len() - 1
    } else {
        ps.len() as int
    };
    Seq::new(n as nat, |i: int| if i < ps.len() - 1 { strip_cr(ps[i]) } else { ps[i] })
}

/// The texts that index ranges of `s` cover.
pub open spec fn texts_of(s: Seq<char>, ranges: Seq<(usize, usize)>) -> Seq<Seq<char>> {
    ranges.map_values(|r: (usize, usize)| s.subrange(r.0 as int, r.1 as int))
}

/// Every range lies within `s`.
pub open spec fn ranges_within(s: Seq<char>, ranges: Seq<(usize, usize)>) -> bool {
    forall|i: int| 0 <= i < ranges.len() ==> #[trigger] ranges[i].0 <= ranges[i].1 <= s.len()
}

/// The index ranges of the pieces of `s[from..]` between occurrences of `pat`.
pub fn split_ranges(s: &[char], pat: &[char], from: usize) -> (r: Vec<(usize, usize)>)
    requires
        pat@.len() > 0,
        from <= s@.len(),
    ensures
        ranges_within(s@, r@),
        texts_of(s@, r@) == split_from(s@, pat@, from as int),
{
    let n = s.len();
    let mut r: Vec<(usize, usize)> = Vec::new();
    let mut pos = from;
    loop
        invariant
            n == s@.len(),
            pat@.len() > 0,
            pos <= n,
            ranges_within(s@, r@),
            texts_of(s@, r@) + split_from(s@, pat@, pos as int) == split_from(s@, pat@, from as int),
        decreases n - pos,
    {
        proof {
            lemma_find_from(s@, pat@, pos as int);
        }
        match find(s, pat, pos) {
            Some(j) => {
                let ghost before = r@;
                r.push((pos, j));
                assert(texts_of(s@, r@) =~= texts_of(s@, before) + seq![s@.subrange(pos as int, j as int)]);
                let ghost rest = split_from(s@, pat@, j + pat@.len());
                assert(split_from(s@, pat@, pos as int) == seq![s@.subrange(pos as int, j as int)] + rest);
                assert(texts_of(s@, before) + (seq![s@.subrange(pos as int, j as int)] + rest)
                    =~= texts_of(s@, r@) + rest);
                pos = j + pat.len();
            },
            None => {
                let ghost before = r@;
                r.push((pos, n));
                assert(texts_of(s@, r@) =~= texts_of(s@, before) + seq![s@.subrange(pos as int, n as int)]);
                return r;
            },
        }
    }
}


/// The index ranges of the lines of `s` (`str::lines`).
pub fn line_ranges(s: &[char]) -> (r: Vec<(usize, usize)>)
    ensures
        ranges_within(s@, r@),
        texts_of(s@, r@) == lines(s@),
{
    let nl: Vec<char> = vec!['\n'];
    assert(nl@ =~= seq!['\n']);
    let ps = split_ranges(s, nl.as_slice(), 0);
    let ghost pieces = split_all(s@, seq!['\n']);
    proof {
        lemma_split_from_nonempty(s@, seq!['\n'], 0);
    }
    assert(texts_of(s@, ps@).len() == ps@.len());
    let k = ps.len();
    let (la, lb) = ps[k - 1];
    assert(texts_of(s@, ps@)[k - 1] == s@.subrange(la as int, lb as int));
    let count = if la == lb { k - 1 } else { k };
    let mut r: Vec<(usize, usize)> = Vec::new();
    let mut i: usize = 0;
    while i < count
        invariant
            k == ps@.len(),
            count <= k,
            i <= count,
            pieces == texts_of(s@, ps@),
            ranges_within(s@, ps@),
            ranges_within(s@, r@),
            r@.len() == i,
            forall|j: int| 0 <= j < i ==> #[trigger] texts_of(s@, r@)[j] == (if j < k - 1 {
                strip_cr(pieces[j])
            } else {
                pieces[j]
            }),
        decreases count - i,
    {
        let (a, b) = ps[i];
        assert(ranges_within(s@, ps@) ==> ps@[i as int].0 <= ps@[i as int].1 <= s@.len());
        assert(pieces[i as int] == s@.subrange(a as int, b as int));
        let ghost before = r@;
        if i < k - 1 && a < b && s[b - 1] == '\r' {
            r.push((a, b - 1));
            assert(s@.subrange(a as int, b as int).drop_last() =~= s@.subrange(a as int, b - 1));
        } else {
            r.push((a, b));
        }
        assert forall|j: int| 0 <= j < i + 1 implies #[trigger] texts_of(s@, r@)[j] == (if j < k - 1 {
            strip_cr(pieces[j])
        } else {
            pieces[j]
        }) by {
            if j < i {
                assert(texts_of(s@, r@)[j] == texts_of(s@, before)[j]);
            }
        }
        i = i + 1;
    }
    assert(texts_of(s@, r@) =~= lines(s@));
    r
}


/// `s` begins with `pre` (`str::starts_with`).
pub open spec fn has_prefix(s: Seq<char>, pre: Seq<char>) -> bool {
    pre.len() <= s.len() && s.take(pre.len() as int) == pre
}

/// Whether the text of `s` is `lit`.
pub fn text_is(s: &str, lit: &str) -> (r: bool)
    ensures
        r == (s@ == lit@),
{
    let a = crate::conv::chars_of(s);
    let b = crate::conv::chars_of(lit);
    if a.len() != b.len() {
        return false;
    }
    let n = a.len();
    let ok = occurs_here(a.as_slice(), b.as_slice(), 0);
    assert(ok ==> a@.subrange(0, n as int) == b@);
    assert(a@.subrange(0, n as int) =~= a@);
    ok
}

/// Whether `s` begins with `pre`.
pub fn starts_with_text(s: &str, pre: &str) -> (r: bool)
    ensures
        r == has_prefix(s@, pre@),
{
    let a = crate::conv::chars_of(s);
    let b = crate::conv::chars_of(pre);
    occurs_here(a.as_slice(), b.as_slice(), 0)
}


/// If `pat` occurs at `k` and nowhere before, the search from the start
/// finds it at `k`.
pub proof fn lemma_first_occurrence(s: Seq<char>, pat: Seq<char>, k: int)
    requires
        occurs_at(s, pat, k),
        forall|j: int| 0 <= j < k ==> !occurs_at(s, pat, j),
    ensures
        find_from(s, pat, 0) == Some(k),
{
    lemma_find_from_skip(s, pat, 0, k);
}

} // verus!
