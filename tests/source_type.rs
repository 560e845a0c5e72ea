use aleph_compiler::source_type::SourceType;

#[test]
fn map_file_extension() {
    assert_eq!(SourceType::from_path("foo/bar.ts"), SourceType::TypeScript);
    assert_eq!(SourceType::from_path("foo/bar.tsx"), SourceType::TSX);
    assert_eq!(SourceType::from_path("foo/bar.js"), SourceType::JavaScript);
    assert_eq!(SourceType::from_path("foo/bar.jsx"), SourceType::JSX);
    assert_eq!(SourceType::from_path("foo/bar.json"), SourceType::Json);
    assert_eq!(SourceType::from_path("foo/bar.wasm"), SourceType::Wasm);
    assert_eq!(SourceType::from_path("foo/bar.txt"), SourceType::Unknown);
    assert_eq!(SourceType::from_path("foo/bar"), SourceType::Unknown);
}

#[test]
fn display() {
    assert_eq!(SourceType::JavaScript.name(), "JavaScript");
    assert_eq!(SourceType::JSX.name(), "JSX");
    assert_eq!(SourceType::TypeScript.name(), "TypeScript");
    assert_eq!(SourceType::TSX.name(), "TSX");
    assert_eq!(SourceType::Json.name(), "Json");
    assert_eq!(SourceType::Wasm.name(), "Wasm");
    assert_eq!(SourceType::Unknown.name(), "Unknown");
}

#[test]
fn mjs_is_javascript() {
    assert_eq!(SourceType::from_path("https://x/mod.mjs"), SourceType::JavaScript);
}

#[test]
fn dot_files_and_dotted_directories() {
    assert_eq!(SourceType::from_path("foo/.ts"), SourceType::Unknown);
    assert_eq!(SourceType::from_path("foo.ts/bar"), SourceType::Unknown);
    assert_eq!(SourceType::from_path(""), SourceType::Unknown);
    assert_eq!(SourceType::from_path("a.b.tsx"), SourceType::TSX);
    assert_eq!(SourceType::from_path("foo/bar.ts/"), SourceType::TypeScript);
    assert_eq!(SourceType::from_path("foo/bar.json//"), SourceType::Json);
}

#[test]
fn hint_wins_over_extension() {
    assert_eq!(SourceType::classify("foo/bar.ts", "jsx"), SourceType::JSX);
    assert_eq!(SourceType::classify("foo/bar.js", "tsx"), SourceType::TSX);
    assert_eq!(SourceType::classify("foo/bar.tsx", "js"), SourceType::JavaScript);
    assert_eq!(SourceType::classify("foo/bar.jsx", "ts"), SourceType::TypeScript);
}

#[test]
fn unrecognised_hint_falls_through() {
    assert_eq!(SourceType::classify("foo/bar.ts", ""), SourceType::TypeScript);
    assert_eq!(SourceType::classify("foo/bar.json", "wasm"), SourceType::Json);
    assert_eq!(SourceType::classify("foo/bar", "TS"), SourceType::Unknown);
}

#[test]
fn numeric_codes() {
    assert_eq!(SourceType::JavaScript.code(), 0);
    assert_eq!(SourceType::JSX.code(), 1);
    assert_eq!(SourceType::TypeScript.code(), 2);
    assert_eq!(SourceType::TSX.code(), 3);
    assert_eq!(SourceType::Json.code(), 4);
    assert_eq!(SourceType::Wasm.code(), 5);
    assert_eq!(SourceType::Unknown.code(), 9);
    assert_eq!(SourceType::default(), SourceType::Unknown);
}
