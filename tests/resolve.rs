use aleph_compiler::import_map::ImportMap;
use aleph_compiler::options::{
    default_pragma, default_pragma_frag, default_react_version, default_registry, Options,
    SWCOptions, Target,
    TransformOutput,
};
use aleph_compiler::resolve::{base_name, ImportRef, Resolver};
use aleph_compiler::source_type::SourceType;
use aleph_compiler::styles::{hash_content, make_style_id};
use aleph_compiler::url::{join_path, pin_version};

fn resolver(url: &str, map: ImportMap, bundle: bool, bundled: Vec<&str>) -> Resolver {
    Resolver::new(
        url.to_string(),
        map,
        "17.0.1".to_string(),
        "https://esm.sh/".to_string(),
        bundle,
        bundled.into_iter().map(|s| s.to_string()).collect(),
    )
}

#[test]
fn relative_specifier_joins_module_directory() {
    let mut r = resolver("https://x/y/z.ts", ImportMap::new(), false, vec![]);
    assert_eq!(r.resolve_import("./a", false, false, 0), "https://x/y/a");
    assert_eq!(r.resolve_import("./a.ts", false, false, 10), "https://x/y/a.ts");
    assert_eq!(r.resolve_import("../b.tsx", false, false, 20), "https://x/b.tsx");
    assert_eq!(r.resolve_import("../../c.js", false, false, 30), "https://x/c.js");
    assert_eq!(r.resolve_import("./.././d/e.js", false, false, 40), "https://x/d/e.js");
}

#[test]
fn join_on_rooted_paths() {
    assert_eq!(join_path("/pages/index.tsx", "./about.tsx"), "/pages/about.tsx");
    assert_eq!(join_path("/pages/index.tsx", "../lib/a.ts"), "/lib/a.ts");
    assert_eq!(join_path("/pages/index.tsx", "../../a.ts"), "/a.ts");
}

#[test]
fn bare_framework_specifier_is_pinned() {
    let mut r = resolver("/pages/index.tsx", ImportMap::new(), false, vec![]);
    let u = r.resolve_import("react", false, false, 19);
    assert!(u.ends_with("react@17.0.1"));
    assert_eq!(u, "https://esm.sh/react@17.0.1");
    assert_eq!(r.dep_graph.len(), 1);
    let d = &r.dep_graph[0];
    assert_eq!(d.specifier, "react");
    assert_eq!(d.resolved_url, "https://esm.sh/react@17.0.1");
    assert!(!d.is_dynamic);
    assert!(!d.is_type_only);
    assert_eq!(d.position, 19);
    assert!(d.resolved);
}

#[test]
fn bare_specifiers_use_the_registry() {
    let mut r = resolver("/pages/index.tsx", ImportMap::new(), false, vec![]);
    assert_eq!(r.resolve_import("lodash", false, false, 0), "https://esm.sh/lodash");
    assert_eq!(
        r.resolve_import("react-dom/server", false, false, 1),
        "https://esm.sh/react-dom@17.0.1/server"
    );
    assert_eq!(r.resolve_import("react@16.8.0", false, false, 2), "https://esm.sh/react@17.0.1");
}

#[test]
fn registry_urls_of_the_framework_are_repinned() {
    assert_eq!(
        pin_version("https://esm.sh/react@16.14.0/jsx-runtime", "https://esm.sh/", "17.0.1"),
        "https://esm.sh/react@17.0.1/jsx-runtime"
    );
    assert_eq!(pin_version("https://esm.sh/preact@10", "https://esm.sh/", "17.0.1"), "https://esm.sh/preact@10");
    assert_eq!(
        pin_version("https://esm.sh/react@16?dev", "https://esm.sh/", "17.0.1"),
        "https://esm.sh/react@17.0.1?dev"
    );
    assert_eq!(
        pin_version("https://esm.sh/react-dom?target=es2020", "https://esm.sh/", "18.0.0"),
        "https://esm.sh/react-dom@18.0.0?target=es2020"
    );
    assert_eq!(pin_version("https://cdn.x/react@16", "https://esm.sh/", "17.0.1"), "https://cdn.x/react@16");
    let mut r = resolver("/a.ts", ImportMap::new(), false, vec![]);
    assert_eq!(r.resolve_import("https://esm.sh/react-dom@16", false, false, 0), "https://esm.sh/react-dom@17.0.1");
    assert_eq!(r.resolve_import("https://deno.land/std/fs.ts", false, false, 1), "https://deno.land/std/fs.ts");
}

#[test]
fn import_map_prefix_target_is_joined_to_base() {
    let mut m = ImportMap::new();
    m.insert("@app/".to_string(), "./src/".to_string());
    let mut r = resolver("https://x/y/z.ts", m, false, vec![]);
    assert_eq!(r.resolve_import("@app/util", false, false, 0), "https://x/y/src/util");
}

#[test]
fn import_map_exact_before_prefix_and_longest_prefix() {
    let mut m = ImportMap::new();
    m.insert("a/".to_string(), "https://one/".to_string());
    m.insert("a/b/".to_string(), "https://two/".to_string());
    m.insert("a/b/c".to_string(), "https://three/c.js".to_string());
    assert_eq!(m.len(), 3);
    assert_eq!(m.resolve("a/b/c"), Some("https://three/c.js".to_string()));
    assert_eq!(m.resolve("a/b/d"), Some("https://two/d".to_string()));
    assert_eq!(m.resolve("a/x"), Some("https://one/x".to_string()));
    assert_eq!(m.resolve("b"), None);
    m.insert("a/".to_string(), "https://uno/".to_string());
    assert_eq!(m.len(), 3);
    assert_eq!(m.resolve("a/x"), Some("https://uno/x".to_string()));
}

#[test]
fn bundled_module_becomes_bundle_reference() {
    let mut r = resolver("/pages/index.tsx", ImportMap::new(), true, vec!["utils.js"]);
    assert_eq!(r.resolve_import("./utils.js", false, false, 0), "bundle://utils.js");
    assert_eq!(r.resolve_import("./other.js", false, false, 1), "/pages/other.js");
    let mut off = resolver("/pages/index.tsx", ImportMap::new(), false, vec!["utils.js"]);
    assert_eq!(off.resolve_import("./utils.js", false, false, 0), "/pages/utils.js");
}

#[test]
fn empty_specifier_is_passed_through_unresolved() {
    let mut r = resolver("/a.ts", ImportMap::new(), false, vec![]);
    assert_eq!(r.resolve_import("", true, false, 3), "");
    assert!(!r.dep_graph[0].resolved);
    assert!(r.dep_graph[0].is_dynamic);
}

#[test]
fn dependencies_keep_discovery_order() {
    let mut r = resolver("https://x/y/z.ts", ImportMap::new(), false, vec![]);
    let refs = vec![
        ImportRef { specifier: "react".to_string(), is_dynamic: false, is_type_only: false, position: 0 },
        ImportRef { specifier: "./b.ts".to_string(), is_dynamic: true, is_type_only: false, position: 30 },
        ImportRef { specifier: "./types.ts".to_string(), is_dynamic: false, is_type_only: true, position: 60 },
        ImportRef { specifier: "./a.ts".to_string(), is_dynamic: false, is_type_only: false, position: 90 },
    ];
    let out = r.resolve_all(&refs);
    assert_eq!(
        out,
        vec![
            "https://esm.sh/react@17.0.1".to_string(),
            "https://x/y/b.ts".to_string(),
            "https://x/y/types.ts".to_string(),
            "https://x/y/a.ts".to_string(),
        ]
    );
    let specs: Vec<&str> = r.dep_graph.iter().map(|d| d.specifier.as_str()).collect();
    assert_eq!(specs, vec!["react", "./b.ts", "./types.ts", "./a.ts"]);
    assert!(r.dep_graph[1].is_dynamic);
    assert!(r.dep_graph[2].is_type_only);
    assert_eq!(r.dep_graph[3].position, 90);
}

#[test]
fn base_name_of_locations() {
    assert_eq!(base_name("https://x/y/utils.js"), "utils.js");
    assert_eq!(base_name("utils.js"), "utils.js");
    assert_eq!(base_name("https://x/"), "");
}

#[test]
fn style_ids_are_exact_and_deterministic() {
    assert_eq!(hash_content(""), 0xcbf29ce484222325);
    assert_eq!(hash_content("a"), 0xaf63dc4c8601ec8c);
    assert_eq!(make_style_id("a", 5), "0000000000000005-af63dc4c8601ec8c");
    assert_eq!(make_style_id("color: red", 42), make_style_id("color: red", 42));
    assert_ne!(make_style_id("color: red", 42), make_style_id("color: red", 43));
}

#[test]
fn inline_styles_are_recorded_once_per_id() {
    let mut r = resolver("/a.tsx", ImportMap::new(), false, vec![]);
    let a = r.add_inline_style("color: red", 7);
    let b = r.add_inline_style("color: red", 7);
    let c = r.add_inline_style("color: red", 8);
    assert_eq!(a, b);
    assert_ne!(a, c);
    assert_eq!(r.inline_styles.len(), 2);
    assert_eq!(r.inline_styles[0].id, a);
    assert_eq!(r.inline_styles[0].content, "color: red");
    assert_eq!(r.inline_styles[1].id, c);
    assert!(r.dep_graph.is_empty());
}

#[test]
fn option_defaults() {
    assert_eq!(default_pragma(), "React.createElement");
    assert_eq!(default_pragma_frag(), "React.Fragment");
    assert_eq!(default_react_version(), "17.0.1");
    let s = SWCOptions::default();
    assert_eq!(s.target, Target::Es2020);
    assert_eq!(s.source_type, "");
    assert!(!s.source_map);
    let o = Options::with_url("/a.ts".to_string());
    assert_eq!(o.react_version, "17.0.1");
    assert!(!o.is_dev && !o.bundle_mode);
    assert_eq!(o.specified_source_type(), None);
}

#[test]
fn option_source_type_hint() {
    let mut o = Options::with_url("/a.ts".to_string());
    o.swc_options.source_type = "tsx".to_string();
    assert_eq!(o.specified_source_type(), Some(SourceType::TSX));
    o.swc_options.source_type = "jsx".to_string();
    assert_eq!(o.specified_source_type(), Some(SourceType::JSX));
    o.swc_options.source_type = "mjs".to_string();
    assert_eq!(o.specified_source_type(), None);
}

#[test]
fn options_build_a_fresh_resolver_and_output() {
    let mut o = Options::with_url("/pages/index.tsx".to_string());
    o.bundle_mode = true;
    o.bundled_modules = vec!["utils.js".to_string()];
    let mut r = o.into_resolver();
    assert_eq!(r.resolve_import("./utils.js", false, false, 0), "bundle://utils.js");
    let out = TransformOutput::assemble("code".to_string(), None, r);
    assert_eq!(out.code, "code");
    assert!(out.map.is_none());
    assert_eq!(out.deps.len(), 1);
    assert!(out.inline_styles.is_empty());
}

#[test]
fn rooted_paths_are_kept() {
    let mut r = resolver("/pages/index.tsx", ImportMap::new(), false, vec![]);
    assert_eq!(r.resolve_import("/lib/a.ts", false, false, 0), "/lib/a.ts");
    assert!(r.dep_graph[0].resolved);
}

#[test]
fn import_map_targets_are_settled() {
    let mut m = ImportMap::new();
    m.insert("react".to_string(), "https://esm.sh/react@16.14.0".to_string());
    m.insert("lib".to_string(), "/vendor/lib.js".to_string());
    let mut r = resolver("/pages/index.tsx", m, false, vec![]);
    assert_eq!(r.resolve_import("react", false, false, 0), "https://esm.sh/react@17.0.1");
    assert_eq!(r.resolve_import("lib", false, false, 1), "/vendor/lib.js");
}

#[test]
fn resolving_a_resolved_location_changes_nothing() {
    let mut m = ImportMap::new();
    m.insert("@app/".to_string(), "./src/".to_string());
    let mut r = resolver("https://x/y/z.ts", m, true, vec!["utils.js"]);
    for s in ["./a.ts", "../b.js", "react", "react-dom/server", "@app/util", "lodash", "./utils.js", "https://esm.sh/react@16?dev", "/abs.ts"] {
        let once = r.resolve_import(s, false, false, 0);
        let twice = r.resolve_import(&once, false, false, 0);
        assert_eq!(once, twice, "specifier {}", s);
    }
}

#[test]
fn relative_specifier_on_the_registry_is_not_repinned() {
    let mut r = resolver("https://esm.sh/react@16.0.0/index.js", ImportMap::new(), false, vec![]);
    assert_eq!(r.resolve_import("./x.js", false, false, 0), "https://esm.sh/react@16.0.0/x.js");
    assert!(r.dep_graph[0].resolved);
}

#[test]
fn bare_import_map_target_is_left_unresolved() {
    let mut m = ImportMap::new();
    m.insert("foo".to_string(), "bar".to_string());
    let mut r = resolver("/a.ts", m, false, vec![]);
    assert_eq!(r.resolve_import("foo", false, false, 0), "foo");
    assert!(!r.dep_graph[0].resolved);
    assert_eq!(r.dep_graph[0].resolved_url, "foo");
}

#[test]
fn relative_module_location_leaves_relative_specifiers_unresolved() {
    let mut r = resolver("z.js", ImportMap::new(), false, vec![]);
    assert_eq!(r.resolve_import("./a", false, false, 0), "./a");
    assert!(!r.dep_graph[0].resolved);
    assert_eq!(r.resolve_import("react", false, false, 1), "https://esm.sh/react@17.0.1");
    assert!(r.dep_graph[1].resolved);
}

#[test]
fn query_and_fragment_of_the_module_url_are_not_its_path() {
    assert_eq!(join_path("https://x/y/z.ts?v=a/b", "./a"), "https://x/y/a");
    assert_eq!(join_path("https://x/y/z.ts#p/q", "../a"), "https://x/a");
}

#[test]
fn registry_is_configurable() {
    let mut r = Resolver::new(
        "/a.ts".to_string(),
        ImportMap::new(),
        "18.2.0".to_string(),
        "https://cdn.example/".to_string(),
        false,
        vec![],
    );
    assert_eq!(r.resolve_import("lodash", false, false, 0), "https://cdn.example/lodash");
    assert_eq!(r.resolve_import("react", false, false, 1), "https://cdn.example/react@18.2.0");
    assert_eq!(
        r.resolve_import("https://esm.sh/react@16", false, false, 2),
        "https://esm.sh/react@16"
    );
    assert_eq!(default_registry(), "https://esm.sh/");
}

#[test]
fn dot_segments_inside_the_path_are_removed() {
    assert_eq!(join_path("https://x/y/z.ts", "./.././d/./e.js"), "https://x/d/e.js");
    assert_eq!(join_path("https://x/y/z.ts", "./a/./b/../c.js"), "https://x/y/a/c.js");
    assert_eq!(join_path("https://x/y/z.ts", "./a/.."), "https://x/y/");
    assert_eq!(join_path("https://x/y/z.ts", "./a/."), "https://x/y/a/");
    assert_eq!(join_path("https://x/y/z.ts", "./a?x=../b"), "https://x/y/a?x=../b");
    assert_eq!(join_path("/p/q/i.ts", "../../../r.ts"), "/r.ts");
}
