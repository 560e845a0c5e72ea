//! Classification of a module into the syntax dialect it is parsed as.
use vstd::prelude::*;
use crate::text::{
    chars_of, find_last, range_eq, last_index, lemma_last_index_bounds, lemma_last_index_take,
};

verus! {

/// The syntax dialect of a module.
#[derive(Clone, Copy, PartialEq, Eq, Debug, Structural)]
pub enum SourceType {
    JavaScript,
    JSX,
    TypeScript,
    TSX,
    Json,
    Wasm,
    Unknown,
}

/// The last path segment of `p`: what follows its last `/`.
pub open spec fn file_name(p: Seq<char>) -> Seq<char> {
    p.subrange(last_index(p, '/', p.len() as int) + 1, p.len() as int)
}

/// `p` without the `/` characters that end it.
pub open spec fn trim_end(p: Seq<char>) -> Seq<char>
    decreases p.len(),
{
    if p.len() > 0 && p.last() == '/' {
        trim_end(p.drop_last())
    } else {
        p
    }
}

/// The extension of `p`: what follows the last `.` of the file name of `p`
/// (trailing `/` set aside), where that dot is not the name's first
/// character.
pub open spec fn extension(p: Seq<char>) -> Option<Seq<char>> {
    let n = file_name(trim_end(p));
    let d = last_index(n, '.', n.len() as int);
    if d <= 0 {
        None
    } else {
        Some(n.subrange(d + 1, n.len() as int))
    }
}

pub open spec fn type_of_extension(e: Option<Seq<char>>) -> SourceType {
    match e {
        None => SourceType::Unknown,
        Some(x) => if x == "ts"@ {
            SourceType::TypeScript
        } else if x == "tsx"@ {
            SourceType::TSX
        } else if x == "js"@ || x == "mjs"@ {
            SourceType::JavaScript
        } else if x == "jsx"@ {
            SourceType::JSX
        } else if x == "json"@ {
            SourceType::Json
        } else if x == "wasm"@ {
            SourceType::Wasm
        } else {
            SourceType::Unknown
        },
    }
}

/// The dialect named by an explicit hint, if the hint is one of the four
/// recognised names.
pub open spec fn type_of_hint(h: Seq<char>) -> Option<SourceType> {
    if h == "js"@ {
        Some(SourceType::JavaScript)
    } else if h == "jsx"@ {
        Some(SourceType::JSX)
    } else if h == "ts"@ {
        Some(SourceType::TypeScript)
    } else if h == "tsx"@ {
        Some(SourceType::TSX)
    } else {
        None
    }
}

/// The dialect of a module: the hint wins where it is recognised, the
/// path's extension decides otherwise.
pub open spec fn classify_spec(path: Seq<char>, hint: Seq<char>) -> SourceType {
    match type_of_hint(hint) {
        Some(t) => t,
        None => type_of_extension(extension(path)),
    }
}

impl Default for SourceType {
    fn default() -> (r: SourceType)
        ensures
            r == SourceType::Unknown,
    {
        SourceType::Unknown
    }
}

impl SourceType {
    /// Classifies a module path by its extension.
    pub fn from_path(path: &str) -> (r: SourceType)
        ensures
            r == type_of_extension(extension(path@)),
    {
        let v = chars_of(path);
        let mut n: usize = v.len();
        assert(v@.take(n as int) =~= v@);
        while n > 0 && v[n - 1] == '/'
            invariant
                n <= v@.len(),
                v@ == path@,
                trim_end(path@) == trim_end(v@.take(n as int)),
            decreases n,
        {
            assert(v@.take(n as int).drop_last() =~= v@.take(n - 1));
            n = n - 1;
        }
        let ghost trimmed = v@.take(n as int);
        assert(trim_end(path@) == trimmed);
        proof {
            lemma_last_index_take(v@, '/', n as int, n as int);
        }
        let start = match find_last(&v, '/', n) {
            Some(i) => i + 1,
            None => 0,
        };
        proof {
            lemma_last_index_bounds(v@, '/', n as int);
        }
        let ghost name = v@.subrange(start as int, n as int);
        let ghost ext = extension(path@);
        assert(file_name(trimmed) =~= name);
        // the last dot of the file name, searched for within the path
        let mut k: usize = n;
        while k > start && v[k - 1] != '.'
            invariant
                start <= k <= n <= v@.len(),
                name == v@.subrange(start as int, n as int),
                last_index(name, '.', name.len() as int) == last_index(
                    name,
                    '.',
                    k - start,
                ),
            decreases k,
        {
            assert(name[k - 1 - start] != '.');
            k = k - 1;
        }
        if k == start {
            assert(ext.is_none());
            SourceType::Unknown
        } else {
            let d = k - 1;
            assert(name[d - start] == '.');
            if d == start {
                assert(ext.is_none());
                SourceType::Unknown
            } else {
                assert(last_index(name, '.', name.len() as int) == d - start);
                assert(ext == Some(v@.subrange(d + 1, n as int)));
                if range_eq(&v, d + 1, n, "ts") {
                    SourceType::TypeScript
                } else if range_eq(&v, d + 1, n, "tsx") {
                    SourceType::TSX
                } else if range_eq(&v, d + 1, n, "js") || range_eq(&v, d + 1, n, "mjs") {
                    SourceType::JavaScript
                } else if range_eq(&v, d + 1, n, "jsx") {
                    SourceType::JSX
                } else if range_eq(&v, d + 1, n, "json") {
                    SourceType::Json
                } else if range_eq(&v, d + 1, n, "wasm") {
                    SourceType::Wasm
                } else {
                    SourceType::Unknown
                }
            }
        }
    }

    /// Classifies a module: a recognised hint ("js", "jsx", "ts", "tsx")
    /// wins, any other hint falls back to the path's extension.
    pub fn classify(path: &str, hint: &str) -> (r: SourceType)
        ensures
            r == classify_spec(path@, hint@),
    {
        let h = chars_of(hint);
        let n = h.len();
        assert(h@.subrange(0, n as int) =~= hint@);
        if range_eq(&h, 0, n, "js") {
            SourceType::JavaScript
        } else if range_eq(&h, 0, n, "jsx") {
            SourceType::JSX
        } else if range_eq(&h, 0, n, "ts") {
            SourceType::TypeScript
        } else if range_eq(&h, 0, n, "tsx") {
            SourceType::TSX
        } else {
            SourceType::from_path(path)
        }
    }

    /// The dialect's display name.
    pub fn name(&self) -> (r: String)
        ensures
            r@ == self.name_spec()@,
    {
        match self {
            SourceType::JavaScript => String::from_str("JavaScript"),
            SourceType::JSX => String::from_str("JSX"),
            SourceType::TypeScript => String::from_str("TypeScript"),
            SourceType::TSX => String::from_str("TSX"),
            SourceType::Json => String::from_str("Json"),
            SourceType::Wasm => String::from_str("Wasm"),
            SourceType::Unknown => String::from_str("Unknown"),
        }
    }

    pub open spec fn name_spec(&self) -> &'static str {
        match self {
            SourceType::JavaScript => "JavaScript",
            SourceType::JSX => "JSX",
            SourceType::TypeScript => "TypeScript",
            SourceType::TSX => "TSX",
            SourceType::Json => "Json",
            SourceType::Wasm => "Wasm",
            SourceType::Unknown => "Unknown",
        }
    }

    /// The dialect's numeric code, as hosts receive it.
    pub fn code(&self) -> (r: i32)
        ensures
            r == self.code_spec(),
    {
        match self {
            SourceType::JavaScript => 0,
            SourceType::JSX => 1,
            SourceType::TypeScript => 2,
            SourceType::TSX => 3,
            SourceType::Json => 4,
            SourceType::Wasm => 5,
            SourceType::Unknown => 9,
        }
    }

    pub open spec fn code_spec(&self) -> i32 {
        match self {
            SourceType::JavaScript => 0,
            SourceType::JSX => 1,
            SourceType::TypeScript => 2,
            SourceType::TSX => 3,
            SourceType::Json => 4,
            SourceType::Wasm => 5,
            SourceType::Unknown => 9,
        }
    }
}

} // verus!
