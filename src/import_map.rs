//! The import map: a table that remaps specifiers to concrete locations.
use vstd::prelude::*;
use crate::text::{chars_of, has_prefix, slice_string, starts_with};

verus! {

/// A table of (pattern, target) pairs with unique patterns, kept in the
/// order in which they were added.
pub struct ImportMap {
    keys: Vec<String>,
    targets: Vec<String>,
}

pub open spec fn unique_keys(m: Seq<(Seq<char>, Seq<char>)>) -> bool {
    forall|i: int, j: int| 0 <= i < m.len() && 0 <= j < m.len() && i != j ==> m[i].0 != m[j].0
}

/// Index of the entry whose pattern is exactly `s`, among the first `n`.
pub open spec fn find_exact(m: Seq<(Seq<char>, Seq<char>)>, s: Seq<char>, n: int) -> Option<int>
    decreases n,
{
    if n <= 0 {
        None
    } else if m[n - 1].0 == s {
        Some(n - 1)
    } else {
        find_exact(m, s, n - 1)
    }
}

/// A pattern that ends at a path separator and begins `s`.
pub open spec fn is_prefix_entry(m: Seq<(Seq<char>, Seq<char>)>, s: Seq<char>, i: int) -> bool {
    let k = m[i].0;
    k.len() > 0 && k.last() == '/' && starts_with(s, k)
}

/// Index of the longest prefix pattern of `s` among the first `n` entries
/// (the earliest one among equally long patterns).
pub open spec fn best_prefix(m: Seq<(Seq<char>, Seq<char>)>, s: Seq<char>, n: int) -> Option<int>
    decreases n,
{
    if n <= 0 {
        None
    } else {
        let b = best_prefix(m, s, n - 1);
        if is_prefix_entry(m, s, n - 1) && (b is None || m[b->0].0.len() < m[n - 1].0.len()) {
            Some(n - 1)
        } else {
            b
        }
    }
}

/// What the table maps `s` to: the target of an exact match first;
/// otherwise the target of the longest prefix pattern, followed by the rest
/// of `s`; otherwise nothing.
pub open spec fn lookup(m: Seq<(Seq<char>, Seq<char>)>, s: Seq<char>) -> Option<Seq<char>> {
    match find_exact(m, s, m.len() as int) {
        Some(i) => Some(m[i].1),
        None => match best_prefix(m, s, m.len() as int) {
            Some(i) => Some(m[i].1 + s.skip(m[i].0.len() as int)),
            None => None,
        },
    }
}

/// The characters of an optional string.
pub open spec fn opt_view(r: Option<String>) -> Option<Seq<char>> {
    match r {
        Some(t) => Some(t@),
        None => None,
    }
}

proof fn lemma_find_exact_range(m: Seq<(Seq<char>, Seq<char>)>, s: Seq<char>, n: int)
    requires
        n <= m.len(),
    ensures
        find_exact(m, s, n) matches Some(i) ==> 0 <= i < n && m[i].0 == s,
        find_exact(m, s, n) is None ==> forall|j: int| 0 <= j < n ==> m[j].0 != s,
    decreases n,
{
    if n > 0 {
        lemma_find_exact_range(m, s, n - 1);
    }
}

proof fn lemma_best_prefix_range(m: Seq<(Seq<char>, Seq<char>)>, s: Seq<char>, n: int)
    requires
        n <= m.len(),
    ensures
        best_prefix(m, s, n) matches Some(i) ==> 0 <= i < n && is_prefix_entry(m, s, i),
    decreases n,
{
    if n > 0 {
        lemma_best_prefix_range(m, s, n - 1);
    }
}

impl View for ImportMap {
    type V = Seq<(Seq<char>, Seq<char>)>;

    closed spec fn view(&self) -> Seq<(Seq<char>, Seq<char>)> {
        Seq::new(self.keys@.len(), |i: int| (self.keys@[i]@, self.targets@[i]@))
    }
}

impl ImportMap {
    pub closed spec fn wf(&self) -> bool {
        self.keys@.len() == self.targets@.len() && unique_keys(self@)
    }

    /// An empty table.
    pub fn new() -> (r: ImportMap)
        ensures
            r.wf(),
            r@ == Seq::<(Seq<char>, Seq<char>)>::empty(),
    {
        let r = ImportMap { keys: Vec::new(), targets: Vec::new() };
        assert(r@ =~= Seq::<(Seq<char>, Seq<char>)>::empty());
        r
    }

    /// Number of entries.
    pub fn len(&self) -> (r: usize)
        requires
            self.wf(),
        ensures
            r == self@.len(),
    {
        self.keys.len()
    }

    /// Maps `key` to `target`, replacing the target of an equal pattern in
    /// place, or adding the pair at the end.
    pub fn insert(&mut self, key: String, target: String)
        requires
            old(self).wf(),
        ensures
            final(self).wf(),
            match find_exact(old(self)@, key@, old(self)@.len() as int) {
                Some(i) => final(self)@ == old(self)@.update(i, (key@, target@)),
                None => final(self)@ == old(self)@.push((key@, target@)),
            },
    {
        proof {
            lemma_find_exact_range(self@, key@, self@.len() as int);
        }
        let ghost pre = self@;
        let n = self.keys.len();
        let mut i: usize = n;
        while i > 0
            invariant
                i <= n == self.keys@.len() == self.targets@.len(),
                self@ == pre,
                pre == old(self)@,
                unique_keys(pre),
                find_exact(pre, key@, n as int) == find_exact(pre, key@, i as int),
            decreases i,
        {
            assert(pre[i - 1].0 == self.keys@[i - 1]@);
            if self.keys[i - 1] == key {
                self.targets.set(i - 1, target);
                assert(self@ =~= pre.update(i - 1, (key@, target@)));
                assert(pre[i - 1].0 == key@);
                assert forall|a: int, b: int|
                    0 <= a < self@.len() && 0 <= b < self@.len() && a != b implies self@[a].0
                        != self@[b].0 by {
                    assert(self@[a].0 == pre[a].0);
                    assert(self@[b].0 == pre[b].0);
                }
                return;
            }
            i = i - 1;
        }
        self.keys.push(key);
        self.targets.push(target);
        assert(self@ =~= pre.push((key@, target@)));
        assert forall|a: int, b: int|
            0 <= a < self@.len() && 0 <= b < self@.len() && a != b implies self@[a].0
                != self@[b].0 by {
            if a < n && b < n {
                assert(self@[a].0 == pre[a].0);
                assert(self@[b].0 == pre[b].0);
            } else if a < n {
                assert(self@[a].0 == pre[a].0);
            } else {
                assert(self@[b].0 == pre[b].0);
            }
        }
    }

    /// Looks `specifier` up: an exact pattern first, then the longest
    /// pattern that ends at a path separator and begins the specifier.
    pub fn resolve(&self, specifier: &str) -> (r: Option<String>)
        requires
            self.wf(),
        ensures
            opt_view(r) == lookup(self@, specifier@),
    {
        let n = self.keys.len();
        let ghost m = self@;
        let ghost s = specifier@;
        // exact match
        let spec_str = String::from_str(specifier);
        let mut i: usize = n;
        while i > 0
            invariant
                i <= n == self.keys@.len() == self.targets@.len(),
                m == self@,
                s == specifier@,
                spec_str@ == s,
                find_exact(m, s, n as int) == find_exact(m, s, i as int),
            decreases i,
        {
            assert(m[i - 1].0 == self.keys@[i - 1]@);
            assert(m[i - 1].1 == self.targets@[i - 1]@);
            if self.keys[i - 1] == spec_str {
                return Some(self.targets[i - 1].clone());
            }
            i = i - 1;
        }
        // longest prefix match
        let sv = chars_of(specifier);
        let mut best: Option<usize> = None;
        let mut best_len: usize = 0;
        let mut j: usize = 0;
        while j < n
            invariant
                j <= n == self.keys@.len() == self.targets@.len(),
                m == self@,
                s == specifier@,
                sv@ == s,
                match best {
                    Some(b) => best_prefix(m, s, j as int) == Some(b as int),
                    None => best_prefix(m, s, j as int) is None,
                },
                best matches Some(b) ==> b < j && best_len == m[b as int].0.len(),
            decreases n - j,
        {
            let key = self.keys[j].as_str();
            let kv = chars_of(key);
            let kl = kv.len();
            if kl > 0 && kv[kl - 1] == '/' && has_prefix(&sv, key) {
                if best.is_none() || best_len < kl {
                    best = Some(j);
                    best_len = kl;
                }
            }
            j = j + 1;
        }
        match best {
            None => None,
            Some(b) => {
                proof {
                    lemma_best_prefix_range(m, s, n as int);
                }
                let rest = slice_string(specifier, best_len, specifier.unicode_len());
                let mut t = self.targets[b].clone();
                t.append(rest.as_str());
                assert(rest@ == s.skip(best_len as int));
                Some(t)
            },
        }
    }
}

} // verus!
