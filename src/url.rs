//! Module locations: relative resolution against a base, and the pinning of
//! framework versions on registry URLs.
use vstd::prelude::*;
use crate::text::{
    chars_of, find_first, find_last, has_prefix, range_eq, slice_string, first_index, last_index,
    starts_with, lemma_last_index_bounds, lemma_first_index_at, lemma_first_index_none_before,
    lemma_first_index_skip,
};

verus! {

/// A specifier that begins with `./`.
pub open spec fn is_dot_slash(s: Seq<char>) -> bool {
    s.len() >= 2 && s[0] == '.' && s[1] == '/'
}

/// A specifier that begins with `../`.
pub open spec fn is_dot_dot_slash(s: Seq<char>) -> bool {
    s.len() >= 3 && s[0] == '.' && s[1] == '.' && s[2] == '/'
}

pub open spec fn is_relative(s: Seq<char>) -> bool {
    is_dot_slash(s) || is_dot_dot_slash(s)
}

/// Index of the `:` of `scheme://`, when `s` begins with a scheme.
pub open spec fn scheme_colon(s: Seq<char>) -> int {
    first_index(s, ':', 0)
}

pub open spec fn has_scheme(s: Seq<char>) -> bool {
    let c = scheme_colon(s);
    0 < c && c + 2 < s.len() && s[c + 1] == '/' && s[c + 2] == '/'
}

/// Length of the part of `base` that relative resolution never climbs
/// above: `scheme://host/`, or the leading `/` of a rooted path.
pub open spec fn root_len(base: Seq<char>) -> int {
    if has_scheme(base) {
        let e = first_index(base, '/', scheme_colon(base) + 3);
        if e < base.len() {
            e + 1
        } else {
            base.len() as int
        }
    } else if base.len() > 0 && base[0] == '/' {
        1
    } else {
        0
    }
}

/// Where the path of a location ends: at its first `?` or `#`.
pub open spec fn path_end(base: Seq<char>) -> int {
    let q = first_index(base, '?', 0);
    let h = first_index(base, '#', 0);
    if q <= h {
        q
    } else {
        h
    }
}

/// The directory of a location: everything up to and including the last
/// `/` of its path.
pub open spec fn dir_of(base: Seq<char>) -> Seq<char> {
    base.take(last_index(base, '/', path_end(base)) + 1)
}

/// The directory above `dir`, but never shorter than `floor`.
pub open spec fn parent(dir: Seq<char>, floor: int) -> Seq<char> {
    let k = last_index(dir, '/', dir.len() - 1);
    if k + 1 >= floor {
        dir.take(k + 1)
    } else {
        dir
    }
}

/// Resolves the path `p` segment by segment from directory `dir`: a `.`
/// segment stays in place, a `..` segment climbs to the parent directory,
/// and any other segment descends into it; what follows the path (a query
/// or a fragment) is appended as it stands.
pub open spec fn walk(dir: Seq<char>, p: Seq<char>, floor: int) -> Seq<char>
    decreases p.len(),
{
    if p.len() == 0 {
        dir
    } else if is_dot_slash(p) {
        walk(dir, p.skip(2), floor)
    } else if is_dot_dot_slash(p) {
        walk(parent(dir, floor), p.skip(3), floor)
    } else if p == seq!['.'] {
        dir
    } else if p == seq!['.', '.'] {
        parent(dir, floor)
    } else {
        let k = first_index(p, '/', 0);
        if 0 <= k && k < p.len() && k < path_end(p) {
            walk(dir + p.take(k + 1), p.skip(k + 1), floor)
        } else {
            dir + p
        }
    }
}

/// The location that relative specifier `p` names from module `base`.
pub open spec fn join(base: Seq<char>, p: Seq<char>) -> Seq<char> {
    walk(dir_of(base), p, root_len(base))
}


/// Packages whose version is pinned to the configured framework version.
pub open spec fn is_framework(name: Seq<char>) -> bool {
    name == "react"@ || name == "react-dom"@
}

/// Where the package part of a registry path ends: at its first `/` or `?`.
pub open spec fn package_end(rest: Seq<char>) -> int {
    let a = first_index(rest, '/', 0);
    let b = first_index(rest, '?', 0);
    if a <= b {
        a
    } else {
        b
    }
}

/// A registry URL of a framework package, rewritten to carry version `ver`;
/// any other location unchanged.
pub open spec fn pin(u: Seq<char>, reg: Seq<char>, ver: Seq<char>) -> Seq<char> {
    if starts_with(u, reg) {
        let rest = u.skip(reg.len() as int);
        let e = package_end(rest);
        let pkg = rest.take(e);
        let name = pkg.take(first_index(pkg, '@', 0));
        if is_framework(name) {
            reg + name + seq!['@'] + ver + rest.skip(e)
        } else {
            u
        }
    } else {
        u
    }
}

/// Relative resolution is path joining: `./name`, for a file name that is
/// neither `.` nor `..`, names that file inside the directory of the
/// importing module.
pub proof fn law_relative_is_path_join(base: Seq<char>, p: Seq<char>)
    requires
        is_dot_slash(p),
        forall|j: int| 0 <= j < p.skip(2).len() ==> p.skip(2)[j] != '/',
        p.skip(2) != seq!['.'],
        p.skip(2) != seq!['.', '.'],
    ensures
        join(base, p) == dir_of(base) + p.skip(2),
{
    let d = dir_of(base);
    let f = root_len(base);
    let q = p.skip(2);
    assert(walk(d, p, f) == walk(d, q, f));
    if q.len() > 0 {
        lemma_first_index_at(q, '/', 0, q.len() as int);
        assert(!is_dot_slash(q) && !is_dot_dot_slash(q));
    }
    assert(walk(d, q, f) =~= d + q);
}

/// A version that can stand in a registry path segment.
pub open spec fn plain_version(ver: Seq<char>) -> bool {
    forall|j: int| 0 <= j < ver.len() ==> ver[j] != '/' && ver[j] != '?'
}

/// Pinning is idempotent: a URL that was pinned once needs no further
/// rewriting when it is pinned again.
pub proof fn law_pin_idempotent(u: Seq<char>, reg: Seq<char>, ver: Seq<char>)
    requires
        plain_version(ver),
    ensures
        pin(pin(u, reg, ver), reg, ver) == pin(u, reg, ver),
{
    if starts_with(u, reg) {
        let rl = reg.len() as int;
        let rest = u.skip(rl);
        let e = package_end(rest);
        let pkg = rest.take(e);
        let at = first_index(pkg, '@', 0);
        let name = pkg.take(at);
        if is_framework(name) {
            let tail = rest.skip(e);
            let p = reg + name + seq!['@'] + ver + tail;
            assert(pin(u, reg, ver) == p);
            lemma_first_index_none_before(rest, '/', 0);
            lemma_first_index_none_before(rest, '?', 0);
            lemma_first_index_none_before(pkg, '@', 0);
            let rest2 = name + seq!['@'] + ver + tail;
            let l = (name.len() + 1 + ver.len()) as int;
            assert(p.take(rl) =~= reg);
            assert(p.skip(rl) =~= rest2);
            assert forall|j: int| 0 <= j < l implies rest2[j] != '/' && rest2[j] != '?' by {
                if j < name.len() {
                    assert(rest2[j] == rest[j]);
                } else if j > name.len() {
                    assert(rest2[j] == ver[j - name.len() - 1]);
                }
            }
            if tail.len() > 0 {
                assert(rest2[l] == rest[e]);
            }
            if tail.len() == 0 || rest2[l] == '/' {
                lemma_first_index_at(rest2, '/', 0, l);
            } else {
                lemma_first_index_none_before(rest2, '/', 0);
            }
            if tail.len() == 0 || rest2[l] == '?' {
                lemma_first_index_at(rest2, '?', 0, l);
            } else {
                lemma_first_index_none_before(rest2, '?', 0);
            }
            assert(package_end(rest2) == l);
            let pkg2 = rest2.take(l);
            assert forall|j: int| 0 <= j < name.len() implies pkg2[j] != '@' by {
                assert(pkg2[j] == pkg[j]);
            }
            lemma_first_index_at(pkg2, '@', 0, name.len() as int);
            assert(pkg2.take(name.len() as int) =~= name);
            assert(rest2.skip(l) =~= tail);
            assert(reg + name + seq!['@'] + ver + tail =~= p);
        }
    }
}

/// A location that begins with `/`.
pub open spec fn is_rooted(s: Seq<char>) -> bool {
    s.len() > 0 && s[0] == '/'
}

/// An absolute location: a URL or a rooted path.
pub open spec fn is_absolute(base: Seq<char>) -> bool {
    (has_scheme(base) && !is_relative(base)) || (is_rooted(base) && !has_scheme(base))
}

/// Length of the root of `base`.
fn root_length(b: &Vec<char>) -> (r: usize)
    ensures
        r == root_len(b@),
        r <= b@.len(),
{
    let n = b.len();
    let c = find_first(b, ':', 0);
    if 0 < c && n >= 3 && c < n - 2 && b[c + 1] == '/' && b[c + 2] == '/' {
        let e = find_first(b, '/', c + 3);
        if e < n {
            e + 1
        } else {
            n
        }
    } else if n > 0 && b[0] == '/' {
        1
    } else {
        0
    }
}

/// Where the path of `v` ends, searched from `start`.
fn path_end_from(v: &Vec<char>, start: usize) -> (r: usize)
    requires
        start <= v@.len(),
    ensures
        r == start + path_end(v@.skip(start as int)),
        start <= r <= v@.len(),
{
    let ghost w = v@.skip(start as int);
    let q = find_first(v, '?', start);
    let h = find_first(v, '#', start);
    proof {
        lemma_first_index_skip(v@, '?', start as int);
        lemma_first_index_skip(v@, '#', start as int);
    }
    if q <= h {
        q
    } else {
        h
    }
}

/// Characters of the result, each taken from the base (`false`) or from
/// the specifier (`true`) at the given index.
pub open spec fn sourced(
    out: Seq<char>,
    srcs: Seq<(bool, usize)>,
    base: Seq<char>,
    p: Seq<char>,
) -> bool {
    &&& out.len() == srcs.len()
    &&& forall|i: int|
        0 <= i < out.len() ==> {
            let (fp, j) = #[trigger] srcs[i];
            if fp {
                j < p.len() && out[i] == p[j as int]
            } else {
                j < base.len() && out[i] == base[j as int]
            }
        }
}

/// Cuts `out` back to the parent directory.
fn climb(out: &mut Vec<char>, srcs: &mut Vec<(bool, usize)>, floor: usize, base: Ghost<Seq<char>>, p: Ghost<Seq<char>>)
    requires
        sourced(old(out)@, old(srcs)@, base@, p@),
    ensures
        final(out)@ == parent(old(out)@, floor as int),
        sourced(final(out)@, final(srcs)@, base@, p@),
{
    let n = out.len();
    if n == 0 {
        assert(parent(old(out)@, floor as int) =~= old(out)@);
        return;
    }
    proof {
        lemma_last_index_bounds(out@, '/', n - 1);
    }
    let k1: usize = match find_last(out, '/', n - 1) {
        Some(i) => i + 1,
        None => 0,
    };
    if k1 >= floor {
        out.truncate(k1);
        srcs.truncate(k1);
        assert(final(out)@ =~= old(out)@.take(k1 as int));
        assert forall|i: int| 0 <= i < final(out)@.len() implies {
            let (fp, j) = #[trigger] final(srcs)@[i];
            if fp {
                j < p@.len() && final(out)@[i] == p@[j as int]
            } else {
                j < base@.len() && final(out)@[i] == base@[j as int]
            }
        } by {
            assert(final(srcs)@[i] == old(srcs)@[i]);
            assert(final(out)@[i] == old(out)@[i]);
        }
    }
}

/// Appends the characters `from..to` of the specifier to `out`.
fn descend(out: &mut Vec<char>, srcs: &mut Vec<(bool, usize)>, pv: &Vec<char>, from: usize, to: usize, base: Ghost<Seq<char>>)
    requires
        from <= to <= pv@.len(),
        sourced(old(out)@, old(srcs)@, base@, pv@),
    ensures
        final(out)@ == old(out)@ + pv@.subrange(from as int, to as int),
        sourced(final(out)@, final(srcs)@, base@, pv@),
{
    let mut i: usize = from;
    while i < to
        invariant
            from <= i <= to <= pv@.len(),
            out@ == old(out)@ + pv@.subrange(from as int, i as int),
            sourced(out@, srcs@, base@, pv@),
        decreases to - i,
    {
        let ghost o0 = out@;
        let ghost s0 = srcs@;
        out.push(pv[i]);
        srcs.push((true, i));
        assert forall|k: int| 0 <= k < out@.len() implies {
            let (fp, j) = #[trigger] srcs@[k];
            if fp {
                j < pv@.len() && out@[k] == pv@[j as int]
            } else {
                j < base@.len() && out@[k] == base@[j as int]
            }
        } by {
            if k < o0.len() {
                assert(srcs@[k] == s0[k]);
                assert(out@[k] == o0[k]);
            }
        }
        i = i + 1;
        assert(out@ =~= old(out)@ + pv@.subrange(from as int, i as int));
    }
}

/// Resolves relative specifier `p` against module location `base`.
pub fn join_path(base: &str, p: &str) -> (r: String)
    ensures
        r@ == join(base@, p@),
{
    let bv = chars_of(base);
    let pv = chars_of(p);
    let n = bv.len();
    let floor = root_length(&bv);
    let pe = path_end_from(&bv, 0);
    assert(bv@.skip(0) =~= bv@);
    proof {
        lemma_last_index_bounds(bv@, '/', pe as int);
    }
    let d: usize = match find_last(&bv, '/', pe) {
        Some(i) => i + 1,
        None => 0,
    };
    // the directory of the base, character by character
    let mut out: Vec<char> = Vec::new();
    let mut srcs: Vec<(bool, usize)> = Vec::new();
    let mut i: usize = 0;
    while i < d
        invariant
            i <= d <= n == bv@.len(),
            out@ == bv@.take(i as int),
            sourced(out@, srcs@, bv@, pv@),
        decreases d - i,
    {
        let ghost o0 = out@;
        let ghost s0 = srcs@;
        out.push(bv[i]);
        srcs.push((false, i));
        assert forall|k: int| 0 <= k < out@.len() implies {
            let (fp, j) = #[trigger] srcs@[k];
            if fp {
                j < pv@.len() && out@[k] == pv@[j as int]
            } else {
                j < bv@.len() && out@[k] == bv@[j as int]
            }
        } by {
            if k < o0.len() {
                assert(srcs@[k] == s0[k]);
                assert(out@[k] == o0[k]);
            }
        }
        i = i + 1;
        assert(out@ =~= bv@.take(i as int));
    }
    assert(dir_of(base@) == bv@.take(d as int));
    let m = pv.len();
    let mut o: usize = 0;
    assert(pv@.skip(0) =~= pv@);
    while o < m
        invariant
            bv@ == base@,
            pv@ == p@,
            m == pv@.len(),
            floor == root_len(base@),
            o <= m,
            sourced(out@, srcs@, bv@, pv@),
            join(base@, p@) == walk(out@, pv@.skip(o as int), floor as int),
        decreases m - o,
    {
        let rem = m - o;
        let ghost rest = pv@.skip(o as int);
        let ghost dir = out@;
        if rem >= 2 && pv[o] == '.' && pv[o + 1] == '/' {
            assert(rest.skip(2) =~= pv@.skip(o + 2));
            o = o + 2;
        } else if rem >= 3 && pv[o] == '.' && pv[o + 1] == '.' && pv[o + 2] == '/' {
            assert(rest.skip(3) =~= pv@.skip(o + 3));
            climb(&mut out, &mut srcs, floor, Ghost(bv@), Ghost(pv@));
            o = o + 3;
        } else if rem == 1 && pv[o] == '.' {
            assert(rest =~= seq!['.']);
            assert(pv@.skip(o + 1) =~= Seq::<char>::empty());
            o = o + 1;
        } else if rem == 2 && pv[o] == '.' && pv[o + 1] == '.' {
            assert(rest =~= seq!['.', '.']);
            assert(pv@.skip(o + 2) =~= Seq::<char>::empty());
            climb(&mut out, &mut srcs, floor, Ghost(bv@), Ghost(pv@));
            o = o + 2;
        } else {
            assert(rest != seq!['.']);
            assert(rest != seq!['.', '.']);
            let k = find_first(&pv, '/', o);
            let e = path_end_from(&pv, o);
            proof {
                lemma_first_index_skip(pv@, '/', o as int);
            }
            if k < e && k < m {
                descend(&mut out, &mut srcs, &pv, o, k + 1, Ghost(bv@));
                assert(pv@.subrange(o as int, k + 1) =~= rest.take(k + 1 - o));
                assert(rest.skip(k + 1 - o) =~= pv@.skip(k + 1));
                o = k + 1;
            } else {
                descend(&mut out, &mut srcs, &pv, o, m, Ghost(bv@));
                assert(pv@.subrange(o as int, m as int) =~= rest);
                assert(pv@.skip(m as int) =~= Seq::<char>::empty());
                o = m;
            }
        }
    }
    assert(pv@.skip(o as int) =~= Seq::<char>::empty());
    // the result, one character at a time from where each came from
    let mut r = String::new();
    let mut t: usize = 0;
    while t < out.len()
        invariant
            t <= out@.len(),
            sourced(out@, srcs@, bv@, pv@),
            bv@ == base@,
            pv@ == p@,
            m == pv@.len(),
            n == bv@.len(),
            r@ == out@.take(t as int),
        decreases out@.len() - t,
    {
        let (fp, j) = srcs[t];
        assert(srcs@[t as int] == (fp, j));
        assert(fp ==> j < pv@.len() && out@[t as int] == pv@[j as int]);
        assert(!fp ==> j < bv@.len() && out@[t as int] == bv@[j as int]);
        let piece = if fp {
            slice_string(p, j, j + 1)
        } else {
            slice_string(base, j, j + 1)
        };
        r.append(piece.as_str());
        t = t + 1;
        assert(r@ =~= out@.take(t as int));
    }
    assert(out@.take(out@.len() as int) =~= out@);
    r
}

/// Pins the version of a framework package on a registry URL.
pub fn pin_version(u: &str, reg: &str, ver: &str) -> (r: String)
    ensures
        r@ == pin(u@, reg@, ver@),
{
    let uv = chars_of(u);
    if !has_prefix(&uv, reg) {
        return String::from_str(u);
    }
    let rl = reg.unicode_len();
    let rest = slice_string(u, rl, uv.len());
    assert(rest@ =~= u@.skip(reg@.len() as int));
    let rv = chars_of(rest.as_str());
    let e1 = find_first(&rv, '/', 0);
    let e2 = find_first(&rv, '?', 0);
    let e = if e1 <= e2 {
        e1
    } else {
        e2
    };
    let pkg = slice_string(rest.as_str(), 0, e);
    assert(pkg@ =~= rest@.take(e as int));
    let pv = chars_of(pkg.as_str());
    let at = find_first(&pv, '@', 0);
    let ghost name = pkg@.take(at as int);
    assert(pv@.subrange(0, at as int) =~= name);
    if range_eq(&pv, 0, at, "react") || range_eq(&pv, 0, at, "react-dom") {
        let mut r = String::from_str(reg);
        let nm = slice_string(pkg.as_str(), 0, at);
        r.append(nm.as_str());
        r.append("@");
        proof {
            reveal_strlit("@");
        }
        r.append(ver);
        let tail = slice_string(rest.as_str(), e, rv.len());
        r.append(tail.as_str());
        assert(tail@ =~= rest@.skip(e as int));
        r
    } else {
        String::from_str(u)
    }
}

} // verus!
