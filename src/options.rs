//! The configuration of one compilation, and what it hands back.
use vstd::prelude::*;
use crate::import_map::ImportMap;
use crate::resolve::{DependencyDescriptor, Resolver};
use crate::source_type::{SourceType, type_of_hint};
use crate::styles::InlineStyle;
use crate::text::{chars_of, range_eq};

verus! {

/// The ECMAScript level that code is emitted at.
#[derive(Clone, Copy, PartialEq, Eq, Debug, Structural)]
pub enum Target {
    Es3,
    Es5,
    Es2015,
    Es2016,
    Es2017,
    Es2018,
    Es2019,
    Es2020,
}

/// Options of the syntax passes.
pub struct SWCOptions {
    pub target: Target,
    pub jsx_factory: String,
    pub jsx_fragment_factory: String,
    /// "js", "jsx", "ts", "tsx", or empty to classify by the module's path.
    pub source_type: String,
    pub source_map: bool,
}

/// The configuration of one compilation.
pub struct Options {
    /// The module under compilation.
    pub url: String,
    pub import_map: ImportMap,
    /// The pinned framework version.
    pub react_version: String,
    /// The package registry that package names go to, as a URL prefix.
    pub registry: String,
    pub swc_options: SWCOptions,
    pub is_dev: bool,
    pub bundle_mode: bool,
    pub bundled_modules: Vec<String>,
}

/// What one compilation produces.
pub struct TransformOutput {
    pub code: String,
    pub map: Option<String>,
    pub deps: Vec<DependencyDescriptor>,
    pub inline_styles: Vec<InlineStyle>,
}

pub fn default_target() -> (r: Target)
    ensures
        r == Target::Es2020,
{
    Target::Es2020
}

pub fn default_pragma() -> (r: String)
    ensures
        r@ == "React.createElement"@,
{
    String::from_str("React.createElement")
}

pub fn default_pragma_frag() -> (r: String)
    ensures
        r@ == "React.Fragment"@,
{
    String::from_str("React.Fragment")
}

pub fn default_react_version() -> (r: String)
    ensures
        r@ == "17.0.1"@,
{
    String::from_str("17.0.1")
}

pub fn default_registry() -> (r: String)
    ensures
        r@ == "https://esm.sh/"@,
{
    String::from_str("https://esm.sh/")
}

impl Default for SWCOptions {
    fn default() -> (r: SWCOptions)
        ensures
            r.target == Target::Es2020,
            r.jsx_factory@ == "React.createElement"@,
            r.jsx_fragment_factory@ == "React.Fragment"@,
            r.source_type@.len() == 0,
            !r.source_map,
    {
        SWCOptions {
            target: default_target(),
            jsx_factory: default_pragma(),
            jsx_fragment_factory: default_pragma_frag(),
            source_type: String::new(),
            source_map: false,
        }
    }
}

impl Options {
    /// Options for module `url` with every other field at its default.
    pub fn with_url(url: String) -> (r: Options)
        ensures
            r.url == url,
            r.import_map.wf(),
            r.import_map@.len() == 0,
            r.react_version@ == "17.0.1"@,
            r.registry@ == "https://esm.sh/"@,
            r.swc_options.target == Target::Es2020,
            r.swc_options.jsx_factory@ == "React.createElement"@,
            r.swc_options.jsx_fragment_factory@ == "React.Fragment"@,
            r.swc_options.source_type@.len() == 0,
            !r.swc_options.source_map,
            !r.is_dev,
            !r.bundle_mode,
            r.bundled_modules@.len() == 0,
    {
        Options {
            url,
            import_map: ImportMap::new(),
            react_version: default_react_version(),
            registry: default_registry(),
            swc_options: SWCOptions::default(),
            is_dev: false,
            bundle_mode: false,
            bundled_modules: Vec::new(),
        }
    }

    /// The dialect that the options name explicitly, if they name one.
    pub fn specified_source_type(&self) -> (r: Option<SourceType>)
        ensures
            r == type_of_hint(self.swc_options.source_type@),
    {
        let h = chars_of(self.swc_options.source_type.as_str());
        let n = h.len();
        assert(h@.subrange(0, n as int) =~= h@);
        if range_eq(&h, 0, n, "js") {
            Some(SourceType::JavaScript)
        } else if range_eq(&h, 0, n, "jsx") {
            Some(SourceType::JSX)
        } else if range_eq(&h, 0, n, "ts") {
            Some(SourceType::TypeScript)
        } else if range_eq(&h, 0, n, "tsx") {
            Some(SourceType::TSX)
        } else {
            None
        }
    }

    /// A fresh resolver for the module these options describe.
    pub fn into_resolver(self) -> (r: Resolver)
        requires
            self.import_map.wf(),
        ensures
            r.wf(),
            r.url == self.url,
            r.import_map == self.import_map,
            r.react_version == self.react_version,
            r.registry == self.registry,
            r.bundle_mode == self.bundle_mode,
            r.bundled_modules == self.bundled_modules,
            r.dep_graph@.len() == 0,
            r.inline_styles@.len() == 0,
    {
        Resolver::new(
            self.url,
            self.import_map,
            self.react_version,
            self.registry,
            self.bundle_mode,
            self.bundled_modules,
        )
    }
}

impl TransformOutput {
    /// Packages emitted code with what the resolver observed during the
    /// compilation: its dependencies in discovery order and its styles.
    pub fn assemble(code: String, map: Option<String>, resolver: Resolver) -> (r: TransformOutput)
        ensures
            r.code == code,
            r.map == map,
            r.deps == resolver.dep_graph,
            r.inline_styles == resolver.inline_styles,
    {
        TransformOutput {
            code,
            map,
            deps: resolver.dep_graph,
            inline_styles: resolver.inline_styles,
        }
    }
}

} // verus!
