//! Character-level helpers shared by the classifier and the resolver.
use vstd::prelude::*;

verus! {

/// Index of the last `c` strictly before `end`, or -1 when there is none.
pub open spec fn last_index(s: Seq<char>, c: char, end: int) -> int
    decreases end,
{
    if end <= 0 {
        -1
    } else if s[end - 1] == c {
        end - 1
    } else {
        last_index(s, c, end - 1)
    }
}

/// Index of the first `c` at or after `start`, or `s.len()` when there is none.
pub open spec fn first_index(s: Seq<char>, c: char, start: int) -> int
    decreases s.len() - start,
{
    if start >= s.len() {
        s.len() as int
    } else if s[start] == c {
        start
    } else {
        first_index(s, c, start + 1)
    }
}

pub open spec fn starts_with(s: Seq<char>, p: Seq<char>) -> bool {
    p.len() <= s.len() && s.take(p.len() as int) == p
}

pub proof fn lemma_last_index_bounds(s: Seq<char>, c: char, end: int)
    requires
        end <= s.len(),
    ensures
        -1 <= last_index(s, c, end) < end || (end <= 0 && last_index(s, c, end) == -1),
        last_index(s, c, end) >= 0 ==> s[last_index(s, c, end)] == c,
        forall|j: int| last_index(s, c, end) < j < end ==> s[j] != c,
    decreases end,
{
    if end > 0 && s[end - 1] != c {
        lemma_last_index_bounds(s, c, end - 1);
    }
}

/// The characters of `s`, one by one.
pub fn chars_of(s: &str) -> (r: Vec<char>)
    ensures
        r@ == s@,
{
    let n = s.unicode_len();
    let mut r: Vec<char> = Vec::new();
    let mut i: usize = 0;
    while i < n
        invariant
            n == s@.len(),
            i <= n,
            r@ == s@.take(i as int),
        decreases n - i,
    {
        r.push(s.get_char(i));
        i = i + 1;
        assert(r@ =~= s@.take(i as int));
    }
    assert(r@ =~= s@);
    r
}

/// Position of the last `c` before `end`.
pub fn find_last(v: &Vec<char>, c: char, end: usize) -> (r: Option<usize>)
    requires
        end <= v@.len(),
    ensures
        match r {
            Some(i) => i == last_index(v@, c, end as int) && i < end,
            None => last_index(v@, c, end as int) == -1,
        },
{
    let mut k: usize = end;
    while k > 0
        invariant
            k <= end <= v@.len(),
            last_index(v@, c, end as int) == last_index(v@, c, k as int),
        decreases k,
    {
        if v[k - 1] == c {
            return Some(k - 1);
        }
        k = k - 1;
    }
    None
}

/// Position of the first `c` at or after `start`.
pub fn find_first(v: &Vec<char>, c: char, start: usize) -> (r: usize)
    requires
        start <= v@.len(),
    ensures
        r == first_index(v@, c, start as int),
        start <= r <= v@.len(),
{
    let mut k: usize = start;
    while k < v.len()
        invariant
            start <= k <= v@.len(),
            first_index(v@, c, start as int) == first_index(v@, c, k as int),
        decreases v@.len() - k,
    {
        if v[k] == c {
            return k;
        }
        k = k + 1;
    }
    k
}

/// Whether the characters `from..to` of `v` spell out `lit`.
pub fn range_eq(v: &Vec<char>, from: usize, to: usize, lit: &str) -> (r: bool)
    requires
        from <= to <= v@.len(),
    ensures
        r == (v@.subrange(from as int, to as int) == lit@),
{
    let n = lit.unicode_len();
    if to - from != n {
        return false;
    }
    let mut i: usize = 0;
    while i < n
        invariant
            n == lit@.len(),
            to - from == n,
            from <= to <= v@.len(),
            i <= n,
            forall|j: int| 0 <= j < i ==> v@[from + j] == lit@[j],
        decreases n - i,
    {
        if v[from + i] != lit.get_char(i) {
            assert(v@.subrange(from as int, to as int)[i as int] != lit@[i as int]);
            return false;
        }
        i = i + 1;
    }
    assert(v@.subrange(from as int, to as int) =~= lit@);
    true
}

/// Whether `v` begins with `lit`.
pub fn has_prefix(v: &Vec<char>, lit: &str) -> (r: bool)
    ensures
        r == starts_with(v@, lit@),
{
    let n = lit.unicode_len();
    if n > v.len() {
        return false;
    }
    let r = range_eq(v, 0, n, lit);
    assert(v@.subrange(0, n as int) == v@.take(n as int));
    r
}

/// The characters `from..to` of `s` as a new string.
pub fn slice_string(s: &str, from: usize, to: usize) -> (r: String)
    requires
        from <= to <= s@.len(),
    ensures
        r@ == s@.subrange(from as int, to as int),
{
    String::from_str(s.substring_char(from, to))
}

} // verus!

verus! {

/// Searching a prefix finds what searching the whole finds, below its end.
pub proof fn lemma_last_index_take(s: Seq<char>, c: char, d: int, end: int)
    requires
        end <= d <= s.len(),
    ensures
        last_index(s.take(d), c, end) == last_index(s, c, end),
    decreases end,
{
    if end > 0 {
        lemma_last_index_take(s, c, d, end - 1);
    }
}

} // verus!

verus! {

/// The first `c` from `start` is at `k` when none comes before it.
pub proof fn lemma_first_index_at(s: Seq<char>, c: char, start: int, k: int)
    requires
        0 <= start <= k <= s.len(),
        forall|j: int| start <= j < k ==> s[j] != c,
        k == s.len() || s[k] == c,
    ensures
        first_index(s, c, start) == k,
    decreases k - start,
{
    if start < k {
        lemma_first_index_at(s, c, start + 1, k);
    }
}

/// No `c` stands between `start` and the first `c` from there.
pub proof fn lemma_first_index_none_before(s: Seq<char>, c: char, start: int)
    requires
        0 <= start <= s.len(),
    ensures
        start <= first_index(s, c, start) <= s.len(),
        forall|j: int| start <= j < first_index(s, c, start) ==> s[j] != c,
        first_index(s, c, start) < s.len() ==> s[first_index(s, c, start)] == c,
    decreases s.len() - start,
{
    if start < s.len() && s[start] != c {
        lemma_first_index_none_before(s, c, start + 1);
    }
}

} // verus!

verus! {

/// Searching from `start` is searching the rest after `start`.
pub proof fn lemma_first_index_skip(s: Seq<char>, c: char, start: int)
    requires
        0 <= start <= s.len(),
    ensures
        first_index(s, c, start) == start + first_index(s.skip(start), c, 0),
{
    lemma_first_index_none_before(s, c, start);
    let k = first_index(s, c, start);
    let w = s.skip(start);
    assert forall|j: int| 0 <= j < k - start implies w[j] != c by {
        assert(w[j] == s[start + j]);
    }
    if k < s.len() {
        assert(w[k - start] == s[k]);
    }
    lemma_first_index_at(w, c, 0, k - start);
}

} // verus!
