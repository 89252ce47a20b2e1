//! Searching in sequences: the first and the last place of an element, and
//! whether one sequence occurs inside another.

use vstd::prelude::*;

verus! {

/// The index of the first `x` in `s`, or `s.len()` where `s` holds none.
pub open spec fn first_index<T>(s: Seq<T>, x: T) -> int
    decreases s.len(),
{
    if s.len() == 0 {
        0
    } else if s[0] == x {
        0
    } else {
        1 + first_index(s.drop_first(), x)
    }
}

/// The index of the last `x` in `s`, or `-1` where `s` holds none.
pub open spec fn last_index<T>(s: Seq<T>, x: T) -> int
    decreases s.len(),
{
    if s.len() == 0 {
        -1
    } else if s.last() == x {
        s.len() - 1
    } else {
        last_index(s.drop_last(), x)
    }
}

/// What stands in `s` before its first `x`: all of `s` where it holds none.
pub open spec fn before_first<T>(s: Seq<T>, x: T) -> Seq<T> {
    s.take(first_index(s, x))
}

/// What stands in `s` after its last `x`: all of `s` where it holds none.
pub open spec fn after_last<T>(s: Seq<T>, x: T) -> Seq<T> {
    s.skip(last_index(s, x) + 1)
}

/// `needle` stands in `hay` at index `i`.
pub open spec fn occurs_at<T>(hay: Seq<T>, needle: Seq<T>, i: int) -> bool {
    &&& 0 <= i
    &&& i + needle.len() <= hay.len()
    &&& hay.subrange(i, i + needle.len()) == needle
}

/// `needle` stands somewhere in `hay`, as one unbroken run.
pub open spec fn occurs_in<T>(hay: Seq<T>, needle: Seq<T>) -> bool {
    exists|i: int| occurs_at(hay, needle, i)
}

/// `first_index` is the one index `i` with `x` at `i` and no `x` before it,
/// and it is `s.len()` exactly when `s` holds no `x`.
pub proof fn lemma_first_index<T>(s: Seq<T>, x: T)
    ensures
        0 <= first_index(s, x) <= s.len(),
        first_index(s, x) < s.len() ==> s[first_index(s, x)] == x,
        forall|j: int| 0 <= j < first_index(s, x) ==> s[j] != x,
        first_index(s, x) < s.len() <==> s.contains(x),
    decreases s.len(),
{
    if s.len() > 0 && s[0] != x {
        let t = s.drop_first();
        lemma_first_index(t, x);
        assert forall|j: int| 0 <= j < first_index(s, x) implies s[j] != x by {
            if j > 0 {
                assert(s[j] == t[j - 1]);
            }
        }
        if first_index(s, x) < s.len() {
            assert(s[first_index(s, x)] == t[first_index(t, x)]);
        }
    }
    if first_index(s, x) < s.len() {
        assert(s[first_index(s, x)] == x);
    }
}

/// An index that holds `x` with no `x` before it is the first index.
pub proof fn lemma_first_index_is<T>(s: Seq<T>, x: T, i: int)
    requires
        0 <= i <= s.len(),
        i < s.len() ==> s[i] == x,
        forall|j: int| 0 <= j < i ==> s[j] != x,
    ensures
        first_index(s, x) == i,
{
    lemma_first_index(s, x);
    let f = first_index(s, x);
    if f < i {
        assert(s[f] == x);
    }
}

/// `last_index` is the one index `i` with `x` at `i` and no `x` after it,
/// and it is `-1` exactly when `s` holds no `x`.
pub proof fn lemma_last_index<T>(s: Seq<T>, x: T)
    ensures
        -1 <= last_index(s, x) < s.len(),
        0 <= last_index(s, x) ==> s[last_index(s, x)] == x,
        forall|j: int| last_index(s, x) < j < s.len() ==> s[j] != x,
        0 <= last_index(s, x) <==> s.contains(x),
    decreases s.len(),
{
    if s.len() > 0 && s.last() != x {
        let t = s.drop_last();
        lemma_last_index(t, x);
        assert forall|j: int| last_index(s, x) < j < s.len() implies s[j] != x by {
            if j < s.len() - 1 {
                assert(s[j] == t[j]);
            }
        }
        if 0 <= last_index(s, x) {
            assert(s[last_index(s, x)] == t[last_index(t, x)]);
        }
        if s.contains(x) {
            let k = choose|k: int| 0 <= k < s.len() && s[k] == x;
            assert(t[k] == x);
        }
    }
    if 0 <= last_index(s, x) {
        assert(s[last_index(s, x)] == x);
    }
}

/// An index that holds `x` with no `x` after it is the last index.
pub proof fn lemma_last_index_is<T>(s: Seq<T>, x: T, i: int)
    requires
        -1 <= i < s.len(),
        0 <= i ==> s[i] == x,
        forall|j: int| i < j < s.len() ==> s[j] != x,
    ensures
        last_index(s, x) == i,
{
    lemma_last_index(s, x);
    let l = last_index(s, x);
    if i < l {
        assert(s[l] == x);
    }
}

/// The index of the first `x` in `v`.
pub fn find_first(v: &Vec<char>, x: char) -> (r: Option<usize>)
    ensures
        match r {
            Some(i) => i < v@.len() && first_index(v@, x) == i,
            None => first_index(v@, x) == v@.len(),
        },
{
    let mut i: usize = 0;
    while i < v.len()
        invariant
            i <= v@.len(),
            forall|j: int| 0 <= j < i ==> v@[j] != x,
        decreases v@.len() - i,
    {
        if v[i] == x {
            proof {
                lemma_first_index_is(v@, x, i as int);
            }
            return Some(i);
        }
        i += 1;
    }
    proof {
        lemma_first_index_is(v@, x, i as int);
    }
    None
}

/// The index of the last `x` in the first `end` elements of `v`.
pub fn find_last_before(v: &Vec<char>, x: char, end: usize) -> (r: Option<usize>)
    requires
        end <= v@.len(),
    ensures
        match r {
            Some(i) => i < end && last_index(v@.take(end as int), x) == i,
            None => last_index(v@.take(end as int), x) == -1,
        },
{
    let ghost head = v@.take(end as int);
    let mut i: usize = end;
    while i > 0
        invariant
            i <= end <= v@.len(),
            head == v@.take(end as int),
            forall|j: int| i <= j < end ==> head[j] != x,
        decreases i,
    {
        i -= 1;
        if v[i] == x {
            proof {
                lemma_last_index_is(head, x, i as int);
            }
            return Some(i);
        }
    }
    proof {
        lemma_last_index_is(head, x, -1);
    }
    None
}

/// The index of the last `x` in `v`.
pub fn find_last(v: &Vec<char>, x: char) -> (r: Option<usize>)
    ensures
        match r {
            Some(i) => i < v@.len() && last_index(v@, x) == i,
            None => last_index(v@, x) == -1,
        },
{
    assert(v@.take(v@.len() as int) =~= v@);
    find_last_before(v, x, v.len())
}

/// Whether `needle` stands in `hay` at index `at`.
pub fn matches_at(hay: &Vec<char>, needle: &Vec<char>, at: usize) -> (r: bool)
    requires
        at + needle@.len() <= hay@.len(),
    ensures
        r == occurs_at(hay@, needle@, at as int),
{
    let hay_len: usize = hay.len();
    let mut k: usize = 0;
    while k < needle.len()
        invariant
            k <= needle@.len(),
            at + needle@.len() <= hay@.len(),
            hay@.len() == hay_len,
            forall|j: int| 0 <= j < k ==> hay@[at + j] == needle@[j],
        decreases needle@.len() - k,
    {
        if hay[at + k] != needle[k] {
            proof {
                let window = hay@.subrange(at as int, at + needle@.len());
                assert(window[k as int] == hay@[at + k]);
            }
            return false;
        }
        k += 1;
    }
    proof {
        assert(hay@.subrange(at as int, at + needle@.len()) =~= needle@);
    }
    true
}

/// Whether `needle` stands somewhere in `hay`.
pub fn contains_run(hay: &Vec<char>, needle: &Vec<char>) -> (r: bool)
    ensures
        r == occurs_in(hay@, needle@),
{
    if needle.len() > hay.len() {
        return false;
    }
    let last: usize = hay.len() - needle.len();
    let mut i: usize = 0;
    while i < last
        invariant
            i <= last,
            last + needle@.len() == hay@.len(),
            forall|j: int| 0 <= j < i ==> !occurs_at(hay@, needle@, j),
        decreases last - i,
    {
        if matches_at(hay, needle, i) {
            return true;
        }
        i += 1;
    }
    matches_at(hay, needle, last)
}

/// The characters of `s`, in order.
pub fn to_chars(s: &str) -> (v: Vec<char>)
    ensures
        v@ == s@,
{
    let mut v: Vec<char> = Vec::new();
    for c in it: s.chars()
        invariant
            v@ == it.seq().take(it.index() as int),
            it.seq() == s@,
    {
        v.push(c);
    }
    v
}

} // verus!
