//! The resolver: turns specifiers into final locations and records each
//! one as a dependency, in the order of discovery.
use vstd::prelude::*;
use crate::import_map::{ImportMap, lookup};
use crate::source_type::file_name;
use crate::text::{
    chars_of, find_first, find_last, slice_string, last_index,
    lemma_last_index_bounds, lemma_first_index_at,
};
use crate::url::{
    has_scheme, is_relative, is_absolute, join, pin, join_path, pin_version,
};
use crate::styles::{InlineStyle, make_style_id, style_id};

verus! {

/// One reference to another module, as the resolver recorded it.
pub struct DependencyDescriptor {
    /// The specifier as written in the source.
    pub specifier: String,
    /// Where it resolved to.
    pub resolved_url: String,
    /// Reached through a dynamic `import()` expression.
    pub is_dynamic: bool,
    /// Reached through an import of types alone.
    pub is_type_only: bool,
    /// Source offset of the reference.
    pub position: u64,
    /// False where the specifier could not be mapped and was passed through.
    pub resolved: bool,
}

/// One specifier as the tree walk discovers it.
pub struct ImportRef {
    pub specifier: String,
    pub is_dynamic: bool,
    pub is_type_only: bool,
    pub position: u64,
}

/// A specifier with no leading path and no scheme: a package name.
pub open spec fn is_bare(s: Seq<char>) -> bool {
    !is_relative(s) && !has_scheme(s) && !(s.len() > 0 && s[0] == '/')
}

/// Where a location that is no package name ends up: relative paths are
/// joined to the module's directory, URLs keep their place with framework
/// versions pinned, rooted paths stay as they are.
pub open spec fn settle(base: Seq<char>, reg: Seq<char>, ver: Seq<char>, s: Seq<char>) -> Seq<char> {
    if is_relative(s) {
        join(base, s)
    } else if has_scheme(s) {
        pin(s, reg, ver)
    } else {
        s
    }
}

/// The location that a non-empty specifier names before bundling: a
/// package name goes through the import map or, failing that, the package
/// registry; the location so found, or the specifier itself, is settled.
pub open spec fn locate(
    base: Seq<char>,
    map: Seq<(Seq<char>, Seq<char>)>,
    reg: Seq<char>,
    ver: Seq<char>,
    s: Seq<char>,
) -> Seq<char> {
    if is_bare(s) {
        match lookup(map, s) {
            Some(t) => settle(base, reg, ver, t),
            None => settle(base, reg, ver, reg + s),
        }
    } else {
        settle(base, reg, ver, s)
    }
}

/// The reference that bundled code uses for a module shipped in the bundle.
pub open spec fn bundle_token(u: Seq<char>) -> Seq<char> {
    "bundle://"@ + file_name(u)
}

/// The location that specifier `s` resolves to, if it resolves: in bundle
/// mode a module whose file name is bundled becomes its bundle reference;
/// what comes out must be absolute (a URL or a rooted path), else the
/// specifier is left unresolved, as is an empty one.
pub open spec fn resolution(
    base: Seq<char>,
    map: Seq<(Seq<char>, Seq<char>)>,
    reg: Seq<char>,
    ver: Seq<char>,
    bundle_mode: bool,
    bundled: Seq<Seq<char>>,
    s: Seq<char>,
) -> Option<Seq<char>> {
    if s.len() == 0 {
        None
    } else {
        let u = locate(base, map, reg, ver, s);
        let v = if bundle_mode && bundled.contains(file_name(u)) {
            bundle_token(u)
        } else {
            u
        };
        if is_absolute(v) {
            Some(v)
        } else {
            None
        }
    }
}

/// The location written back for specifier `s`: where it resolves to, or
/// the specifier itself where it does not resolve.
pub open spec fn final_location(
    base: Seq<char>,
    map: Seq<(Seq<char>, Seq<char>)>,
    reg: Seq<char>,
    ver: Seq<char>,
    bundle_mode: bool,
    bundled: Seq<Seq<char>>,
    s: Seq<char>,
) -> Seq<char> {
    match resolution(base, map, reg, ver, bundle_mode, bundled, s) {
        Some(v) => v,
        None => s,
    }
}

pub open spec fn names_of(v: Seq<String>) -> Seq<Seq<char>> {
    v.map_values(|s: String| s@)
}

/// `d` records specifier `s`, found at `pos`, as written back as `url`,
/// flagged as resolved or not.
pub open spec fn describes(
    d: DependencyDescriptor,
    s: Seq<char>,
    url: Seq<char>,
    is_dynamic: bool,
    is_type_only: bool,
    pos: u64,
    resolved: bool,
) -> bool {
    &&& d.specifier@ == s
    &&& d.resolved_url@ == url
    &&& d.is_dynamic == is_dynamic
    &&& d.is_type_only == is_type_only
    &&& d.position == pos
    &&& d.resolved == resolved
}

/// Outside bundle mode a relative specifier resolves to the location that
/// joining it to the importing module's URL gives, wherever that location
/// is absolute.
pub proof fn law_relative_resolution(r: &Resolver, s: Seq<char>)
    requires
        is_relative(s),
        !r.bundle_mode,
    ensures
        is_absolute(join(r.url@, s)) ==> r.location_of(s) == join(r.url@, s),
        is_absolute(join(r.url@, s)) ==> r.resolution_of(s) is Some,
{
}

proof fn lemma_token_chars(f: Seq<char>)
    ensures
        has_scheme(bundle_token_of(f)),
        !is_relative(bundle_token_of(f)),
        (forall|j: int| 0 <= j < f.len() ==> f[j] != '/') ==> file_name(bundle_token_of(f)) == f,
{
    reveal_strlit("bundle://");
    let t = bundle_token_of(f);
    assert(t[0] == 'b' && t[6] == ':' && t[7] == '/' && t[8] == '/');
    lemma_first_index_at(t, ':', 0, 6);
    if forall|j: int| 0 <= j < f.len() ==> f[j] != '/' {
        let n = t.len() as int;
        lemma_last_index_bounds(t, '/', n);
        lemma_last_is(t, 8, n);
        assert(t.subrange(9, n) =~= f);
    }
}

proof fn lemma_last_is(t: Seq<char>, k: int, n: int)
    requires
        0 <= k < n <= t.len(),
        t[k] == '/',
        forall|j: int| k < j < n ==> t[j] != '/',
    ensures
        last_index(t, '/', n) == k,
    decreases n - k,
{
    if n - 1 > k {
        lemma_last_is(t, k, n - 1);
    }
}

spec fn bundle_token_of(f: Seq<char>) -> Seq<char> {
    "bundle://"@ + f
}

/// Resolution needs no second pass: resolving what resolution wrote back
/// gives the same location again. An unresolved specifier is written back
/// unchanged; a resolved one is left as it is wherever its framework
/// version needs no pinning.
pub proof fn law_resolution_idempotent(r: &Resolver, s: Seq<char>)
    requires
        pin(r.location_of(s), r.registry@, r.react_version@) == r.location_of(s),
    ensures
        r.location_of(r.location_of(s)) == r.location_of(s),
        r.resolution_of(s) is Some ==> r.resolution_of(r.location_of(s)) == r.resolution_of(s),
{
    let base = r.url@;
    let ver = r.react_version@;
    let reg = r.registry@;
    let map = r.import_map@;
    let bundled = names_of(r.bundled_modules@);
    if r.resolution_of(s) is Some {
        let x = locate(base, map, reg, ver, s);
        let u = r.location_of(s);
        if r.bundle_mode && bundled.contains(file_name(x)) {
            let f = file_name(x);
            let n = x.len() as int;
            lemma_last_index_bounds(x, '/', n);
            assert forall|j: int| 0 <= j < f.len() implies f[j] != '/' by {
                assert(f[j] == x[last_index(x, '/', n) + 1 + j]);
            }
            lemma_token_chars(f);
            assert(u == bundle_token_of(f));
            assert(locate(base, map, reg, ver, u) == u);
            reveal_strlit("bundle://");
            assert(u.len() > 0);
        } else {
            assert(u == x);
            assert(is_absolute(x));
            assert(!is_bare(x));
            assert(locate(base, map, reg, ver, x) == x);
        }
    }
}

/// The per-module resolution engine.
pub struct Resolver {
    /// The module under compilation.
    pub url: String,
    pub import_map: ImportMap,
    /// The pinned framework version.
    pub react_version: String,
    /// The package registry that package names go to, as a URL prefix.
    pub registry: String,
    pub bundle_mode: bool,
    /// File names of the modules bundled alongside this one.
    pub bundled_modules: Vec<String>,
    /// Every reference resolved so far, in discovery order.
    pub dep_graph: Vec<DependencyDescriptor>,
    /// Style literals extracted so far, at most one for each id.
    pub inline_styles: Vec<InlineStyle>,
}

pub open spec fn unique_style_ids(v: Seq<InlineStyle>) -> bool {
    forall|i: int, j: int| 0 <= i < v.len() && 0 <= j < v.len() && i != j ==> v[i].id@ != v[j].id@
}

/// Index of the style entry with id `id`, among the first `n`.
pub open spec fn find_style(v: Seq<InlineStyle>, id: Seq<char>, n: int) -> Option<int>
    decreases n,
{
    if n <= 0 {
        None
    } else if v[n - 1].id@ == id {
        Some(n - 1)
    } else {
        find_style(v, id, n - 1)
    }
}

proof fn lemma_find_style_range(v: Seq<InlineStyle>, id: Seq<char>, n: int)
    requires
        n <= v.len(),
    ensures
        find_style(v, id, n) matches Some(i) ==> 0 <= i < n && v[i].id@ == id,
        find_style(v, id, n) is None ==> forall|j: int| 0 <= j < n ==> v[j].id@ != id,
    decreases n,
{
    if n > 0 {
        lemma_find_style_range(v, id, n - 1);
    }
}

impl Resolver {
    pub open spec fn wf(&self) -> bool {
        &&& self.import_map.wf()
        &&& unique_style_ids(self.inline_styles@)
    }

    /// Where specifier `s` resolves to, if it does.
    pub open spec fn resolution_of(&self, s: Seq<char>) -> Option<Seq<char>> {
        resolution(
            self.url@,
            self.import_map@,
            self.registry@,
            self.react_version@,
            self.bundle_mode,
            names_of(self.bundled_modules@),
            s,
        )
    }

    /// What this resolver writes back for specifier `s`.
    pub open spec fn location_of(&self, s: Seq<char>) -> Seq<char> {
        final_location(
            self.url@,
            self.import_map@,
            self.registry@,
            self.react_version@,
            self.bundle_mode,
            names_of(self.bundled_modules@),
            s,
        )
    }

    /// The configuration of `self` and `other` agree.
    pub open spec fn same_config(&self, other: &Resolver) -> bool {
        &&& self.url == other.url
        &&& self.import_map == other.import_map
        &&& self.react_version == other.react_version
        &&& self.registry == other.registry
        &&& self.bundle_mode == other.bundle_mode
        &&& self.bundled_modules == other.bundled_modules
    }

    pub fn new(
        url: String,
        import_map: ImportMap,
        react_version: String,
        registry: String,
        bundle_mode: bool,
        bundled_modules: Vec<String>,
    ) -> (r: Resolver)
        requires
            import_map.wf(),
        ensures
            r.wf(),
            r.url == url,
            r.import_map == import_map,
            r.react_version == react_version,
            r.registry == registry,
            r.bundle_mode == bundle_mode,
            r.bundled_modules == bundled_modules,
            r.dep_graph@.len() == 0,
            r.inline_styles@.len() == 0,
    {
        Resolver {
            url,
            import_map,
            react_version,
            registry,
            bundle_mode,
            bundled_modules,
            dep_graph: Vec::new(),
            inline_styles: Vec::new(),
        }
    }

    /// Records style literal `content`, found at `position`, under its id
    /// and returns that id. An entry of the same id is replaced in place.
    pub fn add_inline_style(&mut self, content: &str, position: u64) -> (r: String)
        requires
            old(self).wf(),
        ensures
            final(self).wf(),
            final(self).same_config(old(self)),
            final(self).dep_graph == old(self).dep_graph,
            r@ == style_id(content@, position),
            ({
                let pre = old(self).inline_styles@;
                let post = final(self).inline_styles@;
                let k = match find_style(pre, r@, pre.len() as int) {
                    Some(i) => i,
                    None => pre.len() as int,
                };
                &&& post.len() == if k < pre.len() {
                    pre.len() as int
                } else {
                    pre.len() + 1int
                }
                &&& post[k].id@ == r@
                &&& post[k].content@ == content@
                &&& forall|j: int| 0 <= j < pre.len() && j != k ==> post[j] == pre[j]
            }),
    {
        let id = make_style_id(content, position);
        let ghost pre = self.inline_styles@;
        let n = self.inline_styles.len();
        proof {
            lemma_find_style_range(pre, id@, n as int);
        }
        if let Some(i) = find_style_exec(&self.inline_styles, &id) {
            let e = InlineStyle { id: id.clone(), content: String::from_str(content) };
            self.inline_styles.set(i, e);
            assert forall|a: int, b: int|
                0 <= a < n && 0 <= b < n && a != b implies self.inline_styles@[a].id@
                    != self.inline_styles@[b].id@ by {
                if a != i && b != i {
                    assert(self.inline_styles@[a] == pre[a]);
                    assert(self.inline_styles@[b] == pre[b]);
                } else if a == i {
                    assert(self.inline_styles@[b] == pre[b]);
                } else {
                    assert(self.inline_styles@[a] == pre[a]);
                }
            }
            return id;
        }
        let e = InlineStyle { id: id.clone(), content: String::from_str(content) };
        self.inline_styles.push(e);
        assert(self.inline_styles@[n as int].id@ == id@);
        assert forall|a: int, b: int|
            0 <= a <= n && 0 <= b <= n && a != b implies self.inline_styles@[a].id@
                != self.inline_styles@[b].id@ by {
            if a < n && b < n {
                assert(self.inline_styles@[a] == pre[a]);
                assert(self.inline_styles@[b] == pre[b]);
            } else if a < n {
                assert(self.inline_styles@[a] == pre[a]);
            } else {
                assert(self.inline_styles@[b] == pre[b]);
            }
        }
        id
    }

    /// Settles a location that is no package name.
    fn settle_exec(&self, s: &str) -> (r: String)
        ensures
            r@ == settle(self.url@, self.registry@, self.react_version@, s@),
    {
        let sv = chars_of(s);
        if is_relative_exec(&sv) {
            join_path(self.url.as_str(), s)
        } else if has_scheme_exec(&sv) {
            pin_version(s, self.registry.as_str(), self.react_version.as_str())
        } else {
            String::from_str(s)
        }
    }

    /// The location of a non-empty specifier before bundling.
    fn locate_exec(&self, s: &str) -> (r: String)
        requires
            self.wf(),
        ensures
            r@ == locate(self.url@, self.import_map@, self.registry@, self.react_version@, s@),
    {
        let sv = chars_of(s);
        let rooted = sv.len() > 0 && sv[0] == '/';
        if is_relative_exec(&sv) || has_scheme_exec(&sv) || rooted {
            return self.settle_exec(s);
        }
        match self.import_map.resolve(s) {
            Some(t) => self.settle_exec(t.as_str()),
            None => {
                let mut u = self.registry.clone();
                u.append(s);
                self.settle_exec(u.as_str())
            },
        }
    }

    /// Whether a module of this location ships in the bundle.
    fn is_bundled(&self, u: &str) -> (r: bool)
        ensures
            r == names_of(self.bundled_modules@).contains(file_name(u@)),
    {
        let name = base_name(u);
        let n = self.bundled_modules.len();
        let ghost names = names_of(self.bundled_modules@);
        let mut i: usize = 0;
        while i < n
            invariant
                n == self.bundled_modules@.len(),
                names == names_of(self.bundled_modules@),
                name@ == file_name(u@),
                i <= n,
                forall|j: int| 0 <= j < i ==> names[j] != name@,
            decreases n - i,
        {
            if self.bundled_modules[i] == name {
                assert(names[i as int] == name@);
                return true;
            }
            i = i + 1;
        }
        false
    }

    /// Resolves one specifier, records it as a dependency, and returns the
    /// location to write back into the module.
    pub fn resolve_import(
        &mut self,
        specifier: &str,
        is_dynamic: bool,
        is_type_only: bool,
        position: u64,
    ) -> (r: String)
        requires
            old(self).wf(),
        ensures
            final(self).wf(),
            final(self).same_config(old(self)),
            r@ == old(self).location_of(specifier@),
            final(self).inline_styles == old(self).inline_styles,
            final(self).dep_graph@.len() == old(self).dep_graph@.len() + 1,
            final(self).dep_graph@.drop_last() == old(self).dep_graph@,
            describes(
                final(self).dep_graph@.last(),
                specifier@,
                r@,
                is_dynamic,
                is_type_only,
                position,
                old(self).resolution_of(specifier@) is Some,
            ),
    {
        let mut resolved = false;
        let mut url = String::from_str(specifier);
        if specifier.unicode_len() > 0 {
            let u = self.locate_exec(specifier);
            let v = if self.bundle_mode && self.is_bundled(u.as_str()) {
                let mut t = String::from_str("bundle://");
                let name = base_name(u.as_str());
                t.append(name.as_str());
                t
            } else {
                u
            };
            let vv = chars_of(v.as_str());
            if is_absolute_exec(&vv) {
                resolved = true;
                url = v;
            }
        }
        let d = DependencyDescriptor {
            specifier: String::from_str(specifier),
            resolved_url: url.clone(),
            is_dynamic,
            is_type_only,
            position,
            resolved,
        };
        let ghost pre = self.dep_graph@;
        self.dep_graph.push(d);
        assert(self.dep_graph@.drop_last() =~= pre);
        url
    }

    /// Resolves references in the order given, as the tree walk discovers
    /// them, appending one dependency for each in that order.
    pub fn resolve_all(&mut self, refs: &Vec<ImportRef>) -> (r: Vec<String>)
        requires
            old(self).wf(),
        ensures
            final(self).wf(),
            final(self).same_config(old(self)),
            final(self).inline_styles == old(self).inline_styles,
            r@.len() == refs@.len(),
            final(self).dep_graph@.len() == old(self).dep_graph@.len() + refs@.len(),
            final(self).dep_graph@.take(old(self).dep_graph@.len() as int) == old(
                self,
            ).dep_graph@,
            forall|i: int|
                #![trigger refs@[i]]
                0 <= i < refs@.len() ==> {
                    &&& r@[i]@ == old(self).location_of(refs@[i].specifier@)
                    &&& describes(
                        final(self).dep_graph@[old(self).dep_graph@.len() + i],
                        refs@[i].specifier@,
                        r@[i]@,
                        refs@[i].is_dynamic,
                        refs@[i].is_type_only,
                        refs@[i].position,
                        old(self).resolution_of(refs@[i].specifier@) is Some,
                    )
                },
    {
        let ghost start = self.dep_graph@;
        let ghost m = start.len();
        let mut out: Vec<String> = Vec::new();
        let mut i: usize = 0;
        while i < refs.len()
            invariant
                self.wf(),
                self.same_config(old(self)),
                self.inline_styles == old(self).inline_styles,
                start == old(self).dep_graph@,
                m == start.len(),
                i <= refs@.len(),
                out@.len() == i,
                self.dep_graph@.len() == m + i,
                self.dep_graph@.take(m as int) == start,
                forall|j: int|
                    #![trigger refs@[j]]
                    0 <= j < i ==> {
                        &&& out@[j]@ == old(self).location_of(refs@[j].specifier@)
                        &&& describes(
                            self.dep_graph@[m + j],
                            refs@[j].specifier@,
                            out@[j]@,
                            refs@[j].is_dynamic,
                            refs@[j].is_type_only,
                            refs@[j].position,
                            old(self).resolution_of(refs@[j].specifier@) is Some,
                        )
                    },
            decreases refs@.len() - i,
        {
            let ghost before = self.dep_graph@;
            let rf = &refs[i];
            let u = self.resolve_import(
                rf.specifier.as_str(),
                rf.is_dynamic,
                rf.is_type_only,
                rf.position,
            );
            assert(self.dep_graph@.take(m as int) =~= before.take(m as int));
            assert(u@ == old(self).location_of(refs@[i as int].specifier@));
            let ghost out_before = out@;
            out.push(u);
            assert forall|j: int| #![trigger refs@[j]] 0 <= j <= i implies {
                &&& out@[j]@ == old(self).location_of(refs@[j].specifier@)
                &&& describes(
                    self.dep_graph@[m + j],
                    refs@[j].specifier@,
                    out@[j]@,
                    refs@[j].is_dynamic,
                    refs@[j].is_type_only,
                    refs@[j].position,
                    old(self).resolution_of(refs@[j].specifier@) is Some,
                )
            } by {
                if j < i {
                    assert(out@[j] == out_before[j]);
                    assert(self.dep_graph@.drop_last()[m + j] == before[m + j]);
                    assert(self.dep_graph@[m + j] == before[m + j]);
                } else {
                    assert(self.dep_graph@[m + j] == self.dep_graph@.last());
                }
            }
            i = i + 1;
        }
        out
    }
}

fn find_style_exec(v: &Vec<InlineStyle>, id: &String) -> (r: Option<usize>)
    ensures
        match r {
            Some(i) => find_style(v@, id@, v@.len() as int) == Some(i as int),
            None => find_style(v@, id@, v@.len() as int) is None,
        },
{
    let n = v.len();
    let mut i: usize = n;
    while i > 0
        invariant
            i <= n == v@.len(),
            find_style(v@, id@, n as int) == find_style(v@, id@, i as int),
        decreases i,
    {
        if v[i - 1].id == *id {
            return Some(i - 1);
        }
        i = i - 1;
    }
    None
}

/// The file name of a location: what follows its last `/`.
pub fn base_name(u: &str) -> (r: String)
    ensures
        r@ == file_name(u@),
{
    let v = chars_of(u);
    let n = v.len();
    proof {
        lemma_last_index_bounds(v@, '/', n as int);
    }
    let start = match find_last(&v, '/', n) {
        Some(i) => i + 1,
        None => 0,
    };
    slice_string(u, start, n)
}

fn is_relative_exec(v: &Vec<char>) -> (r: bool)
    ensures
        r == is_relative(v@),
{
    let n = v.len();
    (n >= 2 && v[0] == '.' && v[1] == '/') || (n >= 3 && v[0] == '.' && v[1] == '.' && v[2] == '/')
}

fn is_absolute_exec(v: &Vec<char>) -> (r: bool)
    ensures
        r == is_absolute(v@),
{
    let rooted = v.len() > 0 && v[0] == '/';
    let scheme = has_scheme_exec(v);
    (scheme && !is_relative_exec(v)) || (rooted && !scheme)
}

fn has_scheme_exec(v: &Vec<char>) -> (r: bool)
    ensures
        r == has_scheme(v@),
{
    let n = v.len();
    let c = find_first(v, ':', 0);
    0 < c && n >= 3 && c < n - 2 && v[c + 1] == '/' && v[c + 2] == '/'
}

} // verus!
