//! Header lists: name/value pairs in which every name occurs once, where
//! setting a name that is already there replaces its value in place and a
//! new name goes at the end.  This is how the server keeps both the request
//! headers and the headers that a script prints.
use vstd::prelude::*;

verus! {

/// A header list, by the texts of its names and values.
pub type Pairs = Seq<(Seq<char>, Seq<char>)>;

/// The texts of a list of `String` pairs.
pub open spec fn pairs_view(h: Seq<(String, String)>) -> Pairs {
    h.map_values(|p: (String, String)| (p.0@, p.1@))
}

/// The position of the first pair named `k`.
pub open spec fn key_index(h: Pairs, k: Seq<char>) -> Option<int>
    decreases h.len(),
{
    if h.len() == 0 {
        None
    } else {
        match key_index(h.drop_last(), k) {
            Some(i) => Some(i),
            None => if h.last().0 == k {
                Some(h.len() - 1)
            } else {
                None
            },
        }
    }
}

/// The list after setting `k` to `v`.
pub open spec fn insert_pair(h: Pairs, k: Seq<char>, v: Seq<char>) -> Pairs {
    match key_index(h, k) {
        Some(i) => h.update(i, (k, v)),
        None => h.push((k, v)),
    }
}

/// The value of `k`, if the list names it.
pub open spec fn lookup(h: Pairs, k: Seq<char>) -> Option<Seq<char>> {
    match key_index(h, k) {
        Some(i) => Some(h[i].1),
        None => None,
    }
}

/// No name occurs twice.
pub open spec fn unique_keys(h: Pairs) -> bool {
    forall|i: int, j: int| 0 <= i < j < h.len() ==> h[i].0 != h[j].0
}

/// `key_index` finds a pair with that name, the first, and finds none only
/// where there is none.
pub proof fn lemma_key_index(h: Pairs, k: Seq<char>)
    ensures
        match key_index(h, k) {
            Some(i) => 0 <= i < h.len() && h[i].0 == k && forall|j: int| 0 <= j < i ==> h[j].0 != k,
            None => forall|j: int| 0 <= j < h.len() ==> h[j].0 != k,
        },
    decreases h.len(),
{
    if h.len() > 0 {
        let d = h.drop_last();
        lemma_key_index(d, k);
        assert(forall|j: int| 0 <= j < d.len() ==> d[j] == h[j]);
        assert(h.last() == h[h.len() - 1]);
    }
}

/// Setting a name keeps names unique, makes `lookup` of that name give the
/// new value and leaves every other name as it was.
pub proof fn lemma_insert_pair(h: Pairs, k: Seq<char>, v: Seq<char>)
    requires
        unique_keys(h),
    ensures
        unique_keys(insert_pair(h, k, v)),
        lookup(insert_pair(h, k, v), k) == Some(v),
        forall|k2: Seq<char>| k2 != k ==> lookup(insert_pair(h, k, v), k2) == lookup(h, k2),
{
    lemma_key_index(h, k);
    let h2 = insert_pair(h, k, v);
    lemma_key_index(h2, k);
    match key_index(h, k) {
        Some(i) => {
            assert(h2[i].0 == k);
            assert(forall|j: int| 0 <= j < h.len() && j != i ==> h2[j] == h[j]);
        },
        None => {
            assert(h2[h.len() as int].0 == k);
            assert(forall|j: int| 0 <= j < h.len() ==> h2[j] == h[j]);
        },
    }
    assert forall|k2: Seq<char>| k2 != k implies lookup(h2, k2) == lookup(h, k2) by {
        lemma_key_index(h, k2);
        lemma_key_index(h2, k2);
        match key_index(h, k2) {
            Some(i) => {
                assert(h2[i].0 == k2);
            },
            None => {},
        }
    }
}

/// The position of the first pair named `k` in `h`.
pub fn find_key(h: &Vec<(String, String)>, k: &String) -> (r: Option<usize>)
    ensures
        r == match key_index(pairs_view(h@), k@) {
            Some(i) => Some(i as usize),
            None => None::<usize>,
        },
{
    let ghost hv = pairs_view(h@);
    let mut i: usize = 0;
    while i < h.len()
        invariant
            i <= h@.len(),
            hv == pairs_view(h@),
            forall|j: int| 0 <= j < i ==> hv[j].0 != k@,
        decreases h@.len() - i,
    {
        if h[i].0 == *k {
            proof {
                lemma_first_key(hv, k@, i as int);
            }
            return Some(i);
        }
        i = i + 1;
    }
    proof {
        lemma_key_index(hv, k@);
    }
    None
}

/// If `i` is the first position named `k`, `key_index` finds it.
proof fn lemma_first_key(h: Pairs, k: Seq<char>, i: int)
    requires
        0 <= i < h.len(),
        h[i].0 == k,
        forall|j: int| 0 <= j < i ==> h[j].0 != k,
    ensures
        key_index(h, k) == Some(i),
{
    lemma_key_index(h, k);
}

/// Sets `k` to `v` in `h`.
pub fn insert_header(h: &mut Vec<(String, String)>, k: String, v: String)
    ensures
        pairs_view(final(h)@) == insert_pair(pairs_view(old(h)@), k@, v@),
{
    let ghost hv = pairs_view(h@);
    // Bring the length's machine bound into the proof.
    let _len = h.len();
    proof {
        lemma_key_index(hv, k@);
    }
    let ghost kv = k@;
    let ghost vv = v@;
    match find_key(h, &k) {
        Some(i) => {
            h.set(i, (k, v));
            assert(pairs_view(h@) =~= hv.update(i as int, (kv, vv)));
        },
        None => {
            h.push((k, v));
            assert(pairs_view(h@) =~= hv.push((kv, vv)));
        },
    }
}

} // verus!
