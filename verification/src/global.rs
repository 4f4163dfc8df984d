//! The per-build global state: configuration, the virtual file set handed in
//! by the caller, the node arena, the layout cache, site-wide strings and the
//! function registry. The layout resolver lives here: it loads a layout from
//! the file set on first request, memoizes it, and guards the parent chain
//! against cycles.

use vstd::prelude::*;

verus! {

use vstd::string::StrSliceExecFns;
use vstd::string::StringExecFns;
use crate::node::TemplateNode;
use crate::node::arena_extended;
use crate::node::tree_of;
use crate::node::wf_arena;
use crate::parse::parse_control_blocks;
use crate::parse::spec_parse;
use crate::registry::Builtin;
use crate::registry::FunctionRegistry;
use crate::strmap::IdMap;
use crate::strmap::StrMap;
use crate::strmap::assoc_get;
use crate::strmap::assoc_put_all;
use crate::strmap::str_eq;
use crate::strmap::strmap_from_pairs;
use crate::fm::parse_front_matter;
use crate::fm::spec_front_matter_split;
use crate::wrappers::parse_yaml_string_map;
use crate::wrappers::yaml_string_entries_of;

/// The build configuration, as the configuration file states it.
pub struct Config {
    pub config_path: Option<String>,
    pub input_dir: String,
    pub output_dir: String,
    pub watch: bool,
    pub variant: Option<String>,
    pub variants: Option<Vec<String>>,
    pub generate_robots_txt: Option<bool>,
    pub generate_sitemap_xml: Option<bool>,
}

impl Default for Config {
    /// The configuration used when no configuration file exists.
    fn default() -> (r: Config)
        ensures
            r.config_path is None,
            r.input_dir@ == "./"@,
            r.output_dir@ == "output"@,
            !r.watch,
            r.variant is None,
            r.variants is None,
            r.generate_robots_txt is None,
            r.generate_sitemap_xml is None,
    {
        Config::default_config()
    }
}

impl Config {
    /// The configuration used when no configuration file exists.
    pub fn default_config() -> (r: Config)
        ensures
            r.config_path is None,
            r.input_dir@ == "./"@,
            r.output_dir@ == "output"@,
            !r.watch,
            r.variant is None,
            r.variants is None,
            r.generate_robots_txt is None,
            r.generate_sitemap_xml is None,
    {
        Config {
            config_path: None,
            input_dir: String::from_str("./"),
            output_dir: String::from_str("output"),
            watch: false,
            variant: None,
            variants: None,
            generate_robots_txt: None,
            generate_sitemap_xml: None,
        }
    }

    /// A copy with the same fields.
    pub fn duplicate(&self) -> (r: Config)
        ensures
            r.config_path == self.config_path,
            r.input_dir@ == self.input_dir@,
            r.output_dir@ == self.output_dir@,
            r.watch == self.watch,
            r.variant == self.variant,
            match (&r.variants, &self.variants) {
                (Some(a), Some(b)) => a.deep_view() == b.deep_view(),
                (None, None) => true,
                _ => false,
            },
            r.generate_robots_txt == self.generate_robots_txt,
            r.generate_sitemap_xml == self.generate_sitemap_xml,
    {
        Config {
            config_path: match &self.config_path {
                Some(p) => Some(p.clone()),
                None => None,
            },
            input_dir: self.input_dir.clone(),
            output_dir: self.output_dir.clone(),
            watch: self.watch,
            variant: match &self.variant {
                Some(v) => Some(v.clone()),
                None => None,
            },
            variants: match &self.variants {
                Some(v) => Some(v.clone()),
                None => None,
            },
            generate_robots_txt: self.generate_robots_txt,
            generate_sitemap_xml: self.generate_sitemap_xml,
        }
    }

    /// The input directory with the variant tag substituted for
    /// `{{variant}}`, the directory all page paths are read under.
    pub fn full_input_path(&self) -> (r: String)
        ensures
            r@ == (match self.variant {
                Some(v) => crate::text::spec_replace(self.input_dir@, "{{variant}}"@, v@),
                None => self.input_dir@,
            }),
    {
        match &self.variant {
            Some(v) => crate::text::replace_all(self.input_dir.as_str(), "{{variant}}", v.as_str()),
            None => self.input_dir.clone(),
        }
    }

    /// The output directory with the variant tag substituted for
    /// `{{variant}}`.
    pub fn full_output_path(&self) -> (r: String)
        ensures
            r@ == (match self.variant {
                Some(v) => crate::text::spec_replace(self.output_dir@, "{{variant}}"@, v@),
                None => self.output_dir@,
            }),
    {
        match &self.variant {
            Some(v) => crate::text::replace_all(
                self.output_dir.as_str(),
                "{{variant}}",
                v.as_str(),
            ),
            None => self.output_dir.clone(),
        }
    }
}

/// What can go fatally wrong while a site is built.
#[derive(Debug)]
pub enum BuildError {
    /// A page or layout file is not in the build's file set.
    MissingFile { path: String },
    /// A layout names itself as its own ancestor.
    LayoutCycle { name: String },
    /// A page's front matter is not a string-to-string YAML map.
    BadFrontMatter { path: String, detail: String },
    /// Both a single variant and a variant list are configured.
    ConflictingVariants,
}

impl BuildError {
    /// A short description of the error.
    pub fn message(&self) -> (r: String)
        ensures
            match self {
                BuildError::MissingFile { path } => r@ == "missing file: "@ + path@,
                BuildError::LayoutCycle { name } => r@ == "layout cycle at: "@ + name@,
                BuildError::BadFrontMatter { path, detail } => r@ == "bad front matter in "@
                    + path@ + ": "@ + detail@,
                BuildError::ConflictingVariants => r@
                    == "cannot configure both variant and variants"@,
            },
    {
        match self {
            BuildError::MissingFile { path } => {
                let mut m = String::from_str("missing file: ");
                m.append(path.as_str());
                m
            },
            BuildError::LayoutCycle { name } => {
                let mut m = String::from_str("layout cycle at: ");
                m.append(name.as_str());
                m
            },
            BuildError::BadFrontMatter { path, detail } => {
                let mut m = String::from_str("bad front matter in ");
                m.append(path.as_str());
                m.append(": ");
                m.append(detail.as_str());
                m
            },
            BuildError::ConflictingVariants => String::from_str(
                "cannot configure both variant and variants",
            ),
        }
    }
}

/// The configurations to build, one per variant: a lone variant or none
/// builds once; a variant list builds once per entry; both at once is a
/// configuration error.
pub fn build_site_for_each_variant(config: &Config) -> (r: Result<Vec<Config>, BuildError>)
    ensures
        config.variant is Some && config.variants is Some <==> r is Err,
        r matches Ok(cs) ==> match config.variants {
            Some(vs) => cs@.len() == vs@.len() && forall|j: int|
                0 <= j < cs@.len() ==> (#[trigger] cs@[j]).variant == Some(vs@[j])
                    && cs@[j].variants is None && cs@[j].input_dir@ == config.input_dir@
                    && cs@[j].output_dir@ == config.output_dir@ && cs@[j].config_path
                    == config.config_path && cs@[j].watch == config.watch
                    && cs@[j].generate_robots_txt == config.generate_robots_txt
                    && cs@[j].generate_sitemap_xml == config.generate_sitemap_xml,
            None => cs@.len() == 1 && cs@[0].variant == config.variant && cs@[0].input_dir@
                == config.input_dir@ && cs@[0].output_dir@ == config.output_dir@
                && cs@[0].config_path == config.config_path && cs@[0].watch == config.watch
                && cs@[0].generate_robots_txt == config.generate_robots_txt
                && cs@[0].generate_sitemap_xml == config.generate_sitemap_xml
                && cs@[0].variants is None == config.variants is None,
        },
{
    if config.variant.is_some() {
        if config.variants.is_some() {
            return Err(BuildError::ConflictingVariants);
        }
        let mut out: Vec<Config> = Vec::new();
        out.push(config.duplicate());
        return Ok(out);
    }
    match &config.variants {
        Some(vs) => {
            let mut out: Vec<Config> = Vec::new();
            let n = vs.len();
            let mut j: usize = 0;
            while j < n
                invariant
                    n == vs@.len(),
                    j <= n,
                    out@.len() == j,
                    config.variants == Some(*vs),
                    forall|k: int|
                        0 <= k < j ==> (#[trigger] out@[k]).variant == Some(vs@[k])
                            && out@[k].variants is None && out@[k].input_dir@ == config.input_dir@
                            && out@[k].output_dir@ == config.output_dir@ && out@[k].config_path
                            == config.config_path && out@[k].watch == config.watch
                            && out@[k].generate_robots_txt == config.generate_robots_txt
                            && out@[k].generate_sitemap_xml == config.generate_sitemap_xml,
                decreases n - j,
            {
                let mut c = config.duplicate();
                c.variant = Some(vs[j].clone());
                c.variants = None;
                out.push(c);
                j += 1;
            }
            Ok(out)
        },
        None => {
            let mut out: Vec<Config> = Vec::new();
            out.push(config.duplicate());
            Ok(out)
        },
    }
}

/// Scalar YAML entries folded over site constants: an entry with a string
/// key and a scalar value is put, in document order; any other is skipped.
pub open spec fn spec_fold_scalars(
    site: crate::strmap::Entries,
    pairs: Seq<(Option<Seq<char>>, Option<Seq<char>>)>,
) -> crate::strmap::Entries
    decreases pairs.len(),
{
    if pairs.len() == 0 {
        site
    } else {
        let rest = pairs.drop_first();
        match (pairs[0].0, pairs[0].1) {
            (Some(k), Some(v)) => spec_fold_scalars(crate::strmap::assoc_put(site, k, v), rest),
            _ => spec_fold_scalars(site, rest),
        }
    }
}

/// The process-wide state of one site build.
pub struct GlobalContext {
    pub cfg: Config,
    /// The build's file set: path (relative to the input root) to file text.
    pub files: StrMap,
    /// The node arena that all template trees live in.
    pub nodes: Vec<TemplateNode>,
    /// Layout name to arena position of the parsed layout.
    pub layout_cache: IdMap,
    /// Site-wide interpolation constants.
    pub site_strings: StrMap,
    /// The function registry.
    pub functions: FunctionRegistry,
    /// The clock strings captured for this build.
    pub now_date: String,
    pub now_datetime: String,
    pub now_pretty: String,
    /// How many layout files have been parsed in this build.
    pub layout_parses: u64,
}

impl GlobalContext {
    /// The arena is well formed and every cached position holds a layout
    /// node carrying the name it is cached under.
    pub open spec fn wf(&self) -> bool {
        &&& wf_arena(self.nodes@)
        &&& forall|k: Seq<char>|
            #[trigger] assoc_get(self.layout_cache@, k) matches Some(id) ==> (id as int)
                < self.nodes@.len() && (match self.nodes@[id as int] {
                TemplateNode::Layout { name: nm, .. } => nm@ == k,
                _ => false,
            })
    }

    /// The parts of the state that one build never changes.
    pub open spec fn same_build(&self, other: &GlobalContext) -> bool {
        &&& self.cfg == other.cfg
        &&& self.files == other.files
        &&& self.site_strings == other.site_strings
        &&& self.functions == other.functions
        &&& self.now_date == other.now_date
        &&& self.now_datetime == other.now_datetime
        &&& self.now_pretty == other.now_pretty
    }

    /// A bare state: no files, no cache, nothing registered.
    pub fn new(cfg: Config) -> (r: GlobalContext)
        ensures
            r.wf(),
            r.cfg == cfg,
            r.files@ == Seq::<(Seq<char>, Seq<char>)>::empty(),
            r.nodes@ == Seq::<TemplateNode>::empty(),
            r.layout_cache@ == Seq::<(Seq<char>, usize)>::empty(),
            r.site_strings@ == Seq::<(Seq<char>, Seq<char>)>::empty(),
            r.functions@ == Seq::<(Seq<char>, Builtin)>::empty(),
            r.layout_parses == 0,
    {
        let r = GlobalContext {
            cfg,
            files: StrMap::new(),
            nodes: Vec::new(),
            layout_cache: IdMap::new(),
            site_strings: StrMap::new(),
            functions: FunctionRegistry::new(),
            now_date: crate::wrappers::local_date_now(),
            now_datetime: crate::wrappers::local_datetime_now(),
            now_pretty: crate::wrappers::local_datetime_pretty_now(),
            layout_parses: 0,
        };
        proof {
            assert(r.nodes@ =~= Seq::<TemplateNode>::empty());
        }
        r
    }

    /// A state with the default registry, the build revision constant, and
    /// the given file set; `revision` is the caller's version stamp.
    pub fn new_with_defaults(cfg: Config, files: StrMap, revision: String) -> (r: GlobalContext)
        ensures
            r.wf(),
            r.cfg == cfg,
            r.files@ == files@,
            r.nodes@ == Seq::<TemplateNode>::empty(),
            r.layout_cache@ == Seq::<(Seq<char>, usize)>::empty(),
            r.functions@ == crate::registry::spec_default_registry(),
            r.site_strings@ == crate::strmap::assoc_put(
                Seq::<(Seq<char>, Seq<char>)>::empty(),
                "build_revision"@,
                revision@,
            ),
            r.layout_parses == 0,
    {
        let mut r = GlobalContext::new(cfg);
        r.files = files;
        r.with_default_funcs();
        r.with_default_strings(revision);
        r
    }

    /// Binds every built-in behaviour under its standard name.
    pub fn with_default_funcs(&mut self)
        ensures
            final(self).functions@ == crate::registry::spec_default_registry(),
            final(self).cfg == old(self).cfg,
            final(self).files == old(self).files,
            final(self).nodes == old(self).nodes,
            final(self).layout_cache == old(self).layout_cache,
            final(self).site_strings == old(self).site_strings,
            final(self).now_date == old(self).now_date,
            final(self).now_datetime == old(self).now_datetime,
            final(self).now_pretty == old(self).now_pretty,
            final(self).layout_parses == old(self).layout_parses,
    {
        self.functions = FunctionRegistry::with_default_funcs();
    }

    /// Seeds the site-wide constants with the build revision stamp.
    pub fn with_default_strings(&mut self, revision: String)
        ensures
            final(self).site_strings@ == crate::strmap::assoc_put(
                old(self).site_strings@,
                "build_revision"@,
                revision@,
            ),
            final(self).cfg == old(self).cfg,
            final(self).files == old(self).files,
            final(self).nodes == old(self).nodes,
            final(self).layout_cache == old(self).layout_cache,
            final(self).functions == old(self).functions,
            final(self).now_date == old(self).now_date,
            final(self).now_datetime == old(self).now_datetime,
            final(self).now_pretty == old(self).now_pretty,
            final(self).layout_parses == old(self).layout_parses,
    {
        self.site_strings.insert(String::from_str("build_revision"), revision);
    }

    /// Binds a custom name to a built-in behaviour.
    pub fn register_function(&mut self, name: String, f: Builtin)
        ensures
            final(self).functions@ == crate::strmap::assoc_put(old(self).functions@, name@, f),
            final(self).nodes == old(self).nodes,
            final(self).layout_cache == old(self).layout_cache,
    {
        self.functions.register_function(name, f);
    }

    /// Reads site-wide strings from the text of a site data file: every
    /// top-level entry with a string key and a scalar value is put over the
    /// constants already present, in document order. `false`, with nothing
    /// changed, when the text is not a YAML mapping.
    pub fn load_site_data(&mut self, site_yaml: &str) -> (ok: bool)
        ensures
            final(self).cfg == old(self).cfg,
            final(self).files == old(self).files,
            final(self).nodes == old(self).nodes,
            final(self).layout_cache == old(self).layout_cache,
            final(self).functions == old(self).functions,
            final(self).now_date == old(self).now_date,
            final(self).now_datetime == old(self).now_datetime,
            final(self).now_pretty == old(self).now_pretty,
            final(self).layout_parses == old(self).layout_parses,
            ok <==> crate::wrappers::yaml_scalar_map_ok(site_yaml@),
            ok ==> final(self).site_strings@ == spec_fold_scalars(
                old(self).site_strings@,
                crate::wrappers::yaml_scalar_entries_of(site_yaml@),
            ),
            !ok ==> final(self).site_strings == old(self).site_strings,
    {
        match crate::wrappers::parse_yaml_scalar_map(site_yaml) {
            None => false,
            Some(pairs) => {
                let ghost all = pairs.deep_view();
                let n = pairs.len();
                let mut i: usize = 0;
                assert(all.subrange(0, n as int) =~= all);
                while i < n
                    invariant
                        n == pairs@.len(),
                        all == pairs.deep_view(),
                        i <= n,
                        self.cfg == old(self).cfg,
                        self.files == old(self).files,
                        self.nodes == old(self).nodes,
                        self.layout_cache == old(self).layout_cache,
                        self.functions == old(self).functions,
                        self.now_date == old(self).now_date,
                        self.now_datetime == old(self).now_datetime,
                        self.now_pretty == old(self).now_pretty,
                        self.layout_parses == old(self).layout_parses,
                        spec_fold_scalars(
                            self.site_strings@,
                            all.subrange(i as int, n as int),
                        ) == spec_fold_scalars(old(self).site_strings@, all),
                    decreases n - i,
                {
                    let ghost tail = all.subrange(i as int, n as int);
                    assert(tail[0] == all[i as int]);
                    assert(tail.drop_first() =~= all.subrange(i + 1, n as int));
                    assert(pairs@[i as int].deep_view() == all[i as int]);
                    let p = &pairs[i];
                    match (&p.0, &p.1) {
                        (Some(k), Some(v)) => {
                            assert(all[i as int].0 == Some(k@) && all[i as int].1 == Some(v@));
                            self.site_strings.insert(k.clone(), v.clone());
                        },
                        _ => {},
                    }
                    i += 1;
                }
                assert(all.subrange(n as int, n as int) =~= Seq::<
                    (Option<Seq<char>>, Option<Seq<char>>),
                >::empty());
                true
            },
        }
    }

    /// The variant-tagged twin of a file path, when a variant is configured
    /// and non-blank.
    pub fn path_add_variant(&self, path: &str) -> (r: Option<String>)
        ensures
            match self.cfg.variant {
                Some(v) => if crate::text::spec_trim(v@).len() == 0 {
                    r is None
                } else {
                    r matches Some(p) && p@ == crate::paths::spec_path_with_variant(path@, v@)
                },
                None => r is None,
            },
    {
        match &self.cfg.variant {
            Some(v) => {
                let t = crate::text::trim(v.as_str());
                if t.unicode_len() == 0 {
                    None
                } else {
                    Some(crate::paths::path_with_variant(path, v.as_str()))
                }
            },
            None => None,
        }
    }

    /// A path turned into a full site URL against the configured base
    /// `site.url`; without a configured base the path is joined to the empty
    /// base.
    pub fn relative_url(&self, path: &str) -> (r: String)
        ensures
            r@ == crate::url::spec_relative_url(
                match assoc_get(self.site_strings@, "site.url"@) {
                    Some(b) => b,
                    None => Seq::empty(),
                },
                path@,
            ),
    {
        match self.site_strings.get("site.url") {
            Some(base) => crate::url::relative_url_parts(base.as_str(), path),
            None => {
                proof {
                    reveal_strlit("");
                    assert(""@ =~= Seq::<char>::empty());
                }
                crate::url::relative_url_parts("", path)
            },
        }
    }
}


/// Where a layout's source file lives in the build's file set.
pub open spec fn spec_layout_path(name: Seq<char>) -> Seq<char> {
    "templates/"@ + name + ".tpl.html"@
}

/// Exec mirror of `spec_layout_path`.
pub fn layout_path(name: &str) -> (r: String)
    ensures
        r@ == spec_layout_path(name@),
{
    let mut r = String::from_str("templates/");
    r.append(name);
    r.append(".tpl.html");
    r
}

/// Whether some stacked layout carries this name.
fn stack_contains(stack: &Vec<(String, StrMap, String)>, name: &str) -> (r: bool)
    ensures
        r == exists|i: int| 0 <= i < stack@.len() && (#[trigger] stack@[i]).0@ == name@,
{
    let n = stack.len();
    let mut i: usize = 0;
    while i < n
        invariant
            n == stack@.len(),
            i <= n,
            forall|j: int| 0 <= j < i ==> (#[trigger] stack@[j]).0@ != name@,
        decreases n - i,
    {
        if str_eq(stack[i].0.as_str(), name) {
            assert(stack@[i as int].0@ == name@);
            return true;
        }
        i += 1;
    }
    false
}


/// The effective front matter of a layout, from its file text: its YAML
/// string entries (an empty map when the front matter does not read as a
/// string map), with the parent defaulting to `default` unless one is
/// declared or the layout is itself named `default` or `site`.
pub open spec fn spec_layout_fm(name: Seq<char>, text: Seq<char>) -> crate::strmap::Entries {
    let fm_text = spec_front_matter_split(text).0;
    let fm0: crate::strmap::Entries = if crate::wrappers::yaml_string_map_ok(fm_text) {
        assoc_put_all(
            Seq::<(Seq<char>, Seq<char>)>::empty(),
            yaml_string_entries_of(fm_text),
        )
    } else {
        Seq::<(Seq<char>, Seq<char>)>::empty()
    };
    if assoc_get(fm0, "layout"@) is None && name != "default"@ && name != "site"@ {
        crate::strmap::assoc_put(fm0, "layout"@, "default"@)
    } else {
        fm0
    }
}

/// The parent layout a front matter names: none when the key is absent or
/// holds the empty name.
pub open spec fn spec_parent_name(fm: crate::strmap::Entries) -> Option<Seq<char>> {
    match assoc_get(fm, "layout"@) {
        None => None,
        Some(p) => if p.len() == 0 {
            None
        } else {
            Some(p)
        },
    }
}

/// What walking a layout's parent chain comes to.
pub enum ChainVerdict {
    /// Every ancestor is present and the chain ends, at a parentless layout
    /// or at one already cached.
    Resolves,
    /// The chain revisits a name.
    Cycle { name: Seq<char> },
    /// An ancestor's file is not in the file set.
    Missing { path: Seq<char> },
}

/// The step bound of a chain walk: one more than the file count, enough for
/// any chain of distinct layouts that all have files.
pub open spec fn spec_chain_fuel(files: crate::strmap::Entries) -> nat {
    if files.len() < usize::MAX as nat {
        files.len() + 1
    } else {
        files.len()
    }
}

/// The verdict of walking the parent chain from `name`: a revisited name is
/// a cycle (as is running out of the step bound), a cached ancestor or a
/// parentless layout ends the chain, a missing file fails it.
pub open spec fn spec_chain(
    files: crate::strmap::Entries,
    cache: Seq<(Seq<char>, usize)>,
    name: Seq<char>,
    visited: Seq<Seq<char>>,
    fuel: nat,
) -> ChainVerdict
    decreases fuel,
{
    if visited.contains(name) {
        ChainVerdict::Cycle { name }
    } else if visited.len() > 0 && assoc_get(cache, name) is Some {
        ChainVerdict::Resolves
    } else if fuel == 0 {
        ChainVerdict::Cycle { name }
    } else {
        match assoc_get(files, spec_layout_path(name)) {
            None => ChainVerdict::Missing { path: spec_layout_path(name) },
            Some(text) => match spec_parent_name(spec_layout_fm(name, text)) {
                None => ChainVerdict::Resolves,
                Some(p) => spec_chain(files, cache, p, visited.push(name), (fuel - 1) as nat),
            },
        }
    }
}

impl GlobalContext {
    /// Walks the parent chain of an uncached layout, reading and splitting
    /// each uncached ancestor's file, until it reaches a cached layout, a
    /// chain end, a missing file or a cycle. Hands back the uncached part of
    /// the chain, requested layout first, and the cached ancestor if the
    /// chain ended at one; success and the error returned follow the chain
    /// verdict exactly.
    fn resolve_chain(&self, name: &str) -> (r: Result<
        (Vec<(String, StrMap, String)>, Option<usize>),
        BuildError,
    >)
        requires
            self.wf(),
            assoc_get(self.layout_cache@, name@) is None,
        ensures
            r is Ok <==> spec_chain(
                self.files@,
                self.layout_cache@,
                name@,
                Seq::empty(),
                spec_chain_fuel(self.files@),
            ) is Resolves,
            r matches Err(e) ==> (match spec_chain(
                self.files@,
                self.layout_cache@,
                name@,
                Seq::empty(),
                spec_chain_fuel(self.files@),
            ) {
                ChainVerdict::Cycle { name: cn } => e matches BuildError::LayoutCycle {
                    name: n2,
                } && n2@ == cn,
                ChainVerdict::Missing { path: mp } => e matches BuildError::MissingFile {
                    path: p2,
                } && p2@ == mp,
                ChainVerdict::Resolves => false,
            }),
            r matches Ok(p) ==> {
                &&& p.0@.len() >= 1
                &&& p.0@[0].0@ == name@
                &&& forall|i: int|
                    0 <= i < p.0@.len() ==> assoc_get(
                        self.layout_cache@,
                        (#[trigger] p.0@[i]).0@,
                    ) is None
                &&& forall|i: int, j: int|
                    0 <= i < j < p.0@.len() ==> (#[trigger] p.0@[i]).0@ != (
                    #[trigger] p.0@[j]).0@
                &&& forall|i: int|
                    0 <= i < p.0@.len() ==> (match assoc_get(
                        self.files@,
                        spec_layout_path((#[trigger] p.0@[i]).0@),
                    ) {
                        Some(text) => p.0@[i].1@ == spec_layout_fm(p.0@[i].0@, text)
                            && p.0@[i].2@ == spec_front_matter_split(text).1,
                        None => false,
                    })
                &&& forall|i: int|
                    0 <= i < p.0@.len() - 1 ==> spec_parent_name((#[trigger] p.0@[i]).1@)
                        == Some(p.0@[i + 1].0@)
                &&& (match p.1 {
                    None => spec_parent_name(p.0@[p.0@.len() - 1].1@) is None,
                    Some(b) => (b as int) < self.nodes@.len() && self.nodes@[b as int] is Layout
                        && (match spec_parent_name(p.0@[p.0@.len() - 1].1@) {
                        Some(pn) => assoc_get(self.layout_cache@, pn) == Some(b),
                        None => false,
                    }),
                })
            },
    {
        let ghost verdict = spec_chain(
            self.files@,
            self.layout_cache@,
            name@,
            Seq::empty(),
            spec_chain_fuel(self.files@),
        );
        let mut stack: Vec<(String, StrMap, String)> = Vec::new();
        let mut cur: String = String::from_str(name);
        // a chain longer than the file set must repeat a name
        let mut fuel: usize = self.files.len();
        if fuel < usize::MAX {
            fuel = fuel + 1;
        }
        let ghost mut visited: Seq<Seq<char>> = Seq::empty();
        assert(visited =~= Seq::<Seq<char>>::empty());
        loop
            invariant
                self.wf(),
                assoc_get(self.layout_cache@, name@) is None,
                stack@.len() > 0 ==> stack@[0].0@ == name@,
                stack@.len() == 0 ==> cur@ == name@,
                visited =~= Seq::new(stack@.len() as nat, |i: int| stack@[i].0@),
                verdict == spec_chain(
                    self.files@,
                    self.layout_cache@,
                    name@,
                    Seq::empty(),
                    spec_chain_fuel(self.files@),
                ),
                verdict == spec_chain(
                    self.files@,
                    self.layout_cache@,
                    cur@,
                    visited,
                    fuel as nat,
                ),
                forall|i: int|
                    0 <= i < stack@.len() ==> assoc_get(
                        self.layout_cache@,
                        (#[trigger] stack@[i]).0@,
                    ) is None,
                forall|i: int, j: int|
                    0 <= i < j < stack@.len() ==> (#[trigger] stack@[i]).0@ != (
                    #[trigger] stack@[j]).0@,
                forall|i: int|
                    0 <= i < stack@.len() ==> (match assoc_get(
                        self.files@,
                        spec_layout_path((#[trigger] stack@[i]).0@),
                    ) {
                        Some(text) => stack@[i].1@ == spec_layout_fm(stack@[i].0@, text)
                            && stack@[i].2@ == spec_front_matter_split(text).1,
                        None => false,
                    }),
                forall|i: int|
                    0 <= i < stack@.len() - 1 ==> spec_parent_name((#[trigger] stack@[i]).1@)
                        == Some(stack@[i + 1].0@),
                stack@.len() > 0 ==> spec_parent_name(stack@[stack@.len() - 1].1@) == Some(cur@),
            decreases fuel,
        {
            let ghost pre_visited = visited;
            if stack_contains(&stack, cur.as_str()) {
                assert(visited.contains(cur@)) by {
                    let i = choose|i: int|
                        0 <= i < stack@.len() && (#[trigger] stack@[i]).0@ == cur@;
                    assert(visited[i] == cur@);
                }
                assert(verdict == (ChainVerdict::Cycle { name: cur@ }));
                return Err(BuildError::LayoutCycle { name: cur });
            }
            proof {
                if visited.contains(cur@) {
                    let i = choose|i: int| 0 <= i < visited.len() && visited[i] == cur@;
                    assert(stack@[i].0@ == cur@);
                }
            }
            if stack.len() > 0 {
                if let Some(id) = self.layout_cache.get(cur.as_str()) {
                    assert(verdict is Resolves);
                    return Ok((stack, Some(id)));
                }
            } else {
                assert(assoc_get(self.layout_cache@, cur@) is None);
            }
            if fuel == 0 {
                assert(verdict == (ChainVerdict::Cycle { name: cur@ }));
                return Err(BuildError::LayoutCycle { name: cur });
            }
            fuel = fuel - 1;
            let path = layout_path(cur.as_str());
            let text = match self.files.get(path.as_str()) {
                None => {
                    assert(verdict == (ChainVerdict::Missing {
                        path: spec_layout_path(cur@),
                    }));
                    return Err(BuildError::MissingFile { path });
                },
                Some(t) => t,
            };
            let (fm_text, body) = parse_front_matter(text.as_str());
            // a layout with unreadable front matter keeps an empty one
            let fm_pairs = match parse_yaml_string_map(fm_text.as_str()) {
                Ok(v) => v,
                Err(_) => Vec::new(),
            };
            let mut fm = strmap_from_pairs(&fm_pairs);
            proof {
                if !crate::wrappers::yaml_string_map_ok(fm_text@) {
                    assert(fm_pairs.deep_view() =~= Seq::<(Seq<char>, Seq<char>)>::empty());
                    assert(fm@ =~= Seq::<(Seq<char>, Seq<char>)>::empty());
                }
            }
            if !fm.contains_key("layout") && !str_eq(cur.as_str(), "default") && !str_eq(
                cur.as_str(),
                "site",
            ) {
                let ghost pre = fm@;
                fm.insert(String::from_str("layout"), String::from_str("default"));
                proof {
                    crate::strmap::lemma_assoc_put_get(pre, "layout"@, "default"@);
                }
            }
            assert(fm@ == spec_layout_fm(cur@, text@));
            let parent_name = fm.get("layout");
            let this_name = cur.clone();
            let ghost pre_stack = stack@;
            stack.push((this_name, fm, body));
            proof {
                assert(stack@.last().0@ == cur@ && stack@.last().1@ == spec_layout_fm(
                    cur@,
                    text@,
                ) && stack@.last().2@ == spec_front_matter_split(text@).1);
                assert(forall|i: int| 0 <= i < pre_stack.len() ==> stack@[i] == pre_stack[i]);
                visited = visited.push(cur@);
                assert(visited =~= Seq::new(stack@.len() as nat, |i: int| stack@[i].0@));
            }
            match parent_name {
                None => {
                    assert(spec_parent_name(stack@.last().1@) is None);
                    assert(verdict is Resolves);
                    return Ok((stack, None));
                },
                Some(p) => {
                    if p.unicode_len() == 0 {
                        assert(spec_parent_name(stack@.last().1@) is None);
                        assert(verdict is Resolves);
                        return Ok((stack, None));
                    }
                    assert(spec_parent_name(stack@.last().1@) == Some(p@));
                    assert(spec_chain(
                        self.files@,
                        self.layout_cache@,
                        cur@,
                        pre_visited,
                        (fuel + 1) as nat,
                    ) == spec_chain(
                        self.files@,
                        self.layout_cache@,
                        p@,
                        visited,
                        fuel as nat,
                    )) by {
                        assert(pre_visited.push(cur@) =~= visited);
                    }
                    cur = p;
                },
            }
        }
    }

    /// The layout named `name`: answered from the cache when it is there,
    /// and otherwise loaded from the file set, parsed, chained to its parent
    /// and cached. A layout without a `layout` front-matter key inherits the
    /// parent `default`, except for the layouts named `default` and `site`
    /// themselves and for an explicitly empty parent name. Success is owed
    /// exactly when the chain verdict resolves; a self-referring chain is a
    /// `LayoutCycle` error naming the revisited layout; a missing file is a
    /// `MissingFile` error naming its path; an error leaves the state
    /// untouched.
    pub fn get_layout(&mut self, name: &str) -> (r: Result<usize, BuildError>)
        requires
            old(self).wf(),
        ensures
            final(self).wf(),
            final(self).same_build(old(self)),
            arena_extended(old(self).nodes@, final(self).nodes@),
            forall|k: Seq<char>|
                #[trigger] assoc_get(old(self).layout_cache@, k) is Some ==> assoc_get(
                    final(self).layout_cache@,
                    k,
                ) == assoc_get(old(self).layout_cache@, k),
            assoc_get(old(self).layout_cache@, name@) matches Some(id) ==> r == Ok::<
                usize,
                BuildError,
            >(id) && *final(self) == *old(self),
            r matches Ok(id) ==> (id as int) < final(self).nodes@.len()
                && (match final(self).nodes@[id as int] {
                    TemplateNode::Layout { name: nm, .. } => nm@ == name@,
                    _ => false,
                }) && assoc_get(final(self).layout_cache@, name@) == Some(id),
            r matches Ok(id) ==> assoc_get(old(self).layout_cache@, name@) is None ==> (
            match final(self).nodes@[id as int] {
                TemplateNode::Layout { content_node, .. } => (match assoc_get(
                    old(self).files@,
                    spec_layout_path(name@),
                ) {
                    Some(text) => tree_of(final(self).nodes@, content_node as int) == spec_parse(
                        spec_front_matter_split(text).1,
                        old(self).functions@,
                    ),
                    None => false,
                }),
                _ => false,
            }),
            r matches Ok(id) ==> assoc_get(old(self).layout_cache@, name@) is None ==> (
            match final(self).nodes@[id as int] {
                TemplateNode::Layout { front_matter, parent, .. } => (match assoc_get(
                    old(self).files@,
                    spec_layout_path(name@),
                ) {
                    Some(text) => front_matter@ == spec_layout_fm(name@, text) && (match
                    spec_parent_name(front_matter@) {
                        None => parent is None,
                        Some(pn) => parent matches Some(pid) && assoc_get(
                            final(self).layout_cache@,
                            pn,
                        ) == Some(pid),
                    }),
                    None => false,
                }),
                _ => false,
            }),
            assoc_get(old(self).layout_cache@, name@) is None ==> (r is Ok <==> spec_chain(
                old(self).files@,
                old(self).layout_cache@,
                name@,
                Seq::empty(),
                spec_chain_fuel(old(self).files@),
            ) is Resolves),
            r matches Err(e) ==> (match spec_chain(
                old(self).files@,
                old(self).layout_cache@,
                name@,
                Seq::empty(),
                spec_chain_fuel(old(self).files@),
            ) {
                ChainVerdict::Cycle { name: cn } => e matches BuildError::LayoutCycle {
                    name: n2,
                } && n2@ == cn,
                ChainVerdict::Missing { path: mp } => e matches BuildError::MissingFile {
                    path: p2,
                } && p2@ == mp,
                ChainVerdict::Resolves => false,
            }),
            r is Err ==> *final(self) == *old(self),
    {
        if let Some(id) = self.layout_cache.get(name) {
            return Ok(id);
        }
        let (mut stack, base) = match self.resolve_chain(name) {
            Ok(p) => p,
            Err(e) => {
                return Err(e);
            },
        };
        let ghost names0 = stack@;
        let mut parent: Option<usize> = base;
        let mut lid: usize = 0;
        while stack.len() > 0
            invariant
                self.wf(),
                self.cfg == old(self).cfg,
                self.files == old(self).files,
                self.site_strings == old(self).site_strings,
                self.functions == old(self).functions,
                self.now_date == old(self).now_date,
                self.now_datetime == old(self).now_datetime,
                self.now_pretty == old(self).now_pretty,
                arena_extended(old(self).nodes@, self.nodes@),
                stack@.len() <= names0.len(),
                stack@ == names0.subrange(0, stack@.len() as int),
                names0.len() >= 1,
                names0[0].0@ == name@,
                forall|i: int|
                    0 <= i < stack@.len() ==> assoc_get(
                        self.layout_cache@,
                        (#[trigger] names0[i]).0@,
                    ) is None,
                forall|i: int, j: int|
                    0 <= i < j < names0.len() ==> (#[trigger] names0[i]).0@ != (
                    #[trigger] names0[j]).0@,
                forall|k: Seq<char>|
                    #[trigger] assoc_get(old(self).layout_cache@, k) is Some ==> assoc_get(
                        self.layout_cache@,
                        k,
                    ) == assoc_get(old(self).layout_cache@, k),
                parent matches Some(p) ==> (p as int) < self.nodes@.len()
                    && self.nodes@[p as int] is Layout,
                forall|i: int|
                    0 <= i < names0.len() ==> (match assoc_get(
                        self.files@,
                        spec_layout_path((#[trigger] names0[i]).0@),
                    ) {
                        Some(text) => names0[i].1@ == spec_layout_fm(names0[i].0@, text)
                            && names0[i].2@ == spec_front_matter_split(text).1,
                        None => false,
                    }),
                forall|i: int|
                    0 <= i < names0.len() - 1 ==> spec_parent_name((#[trigger] names0[i]).1@)
                        == Some(names0[i + 1].0@),
                stack@.len() > 0 ==> (match spec_parent_name(
                    names0[stack@.len() - 1].1@,
                ) {
                    None => parent is None,
                    Some(pn) => parent matches Some(pid) && assoc_get(
                        self.layout_cache@,
                        pn,
                    ) == Some(pid),
                }),
                stack@.len() == 0 ==> ((parent matches Some(p) && p == lid) && assoc_get(
                    self.layout_cache@,
                    name@,
                ) == Some(lid) && (match self.nodes@[lid as int] {
                    TemplateNode::Layout { name: nm, .. } => nm@ == name@,
                    _ => false,
                }) && (match self.nodes@[lid as int] {
                    TemplateNode::Layout { content_node, .. } => (match assoc_get(
                        self.files@,
                        spec_layout_path(name@),
                    ) {
                        Some(text) => tree_of(self.nodes@, content_node as int) == spec_parse(
                            spec_front_matter_split(text).1,
                            self.functions@,
                        ),
                        None => false,
                    }),
                    _ => false,
                }) && (match self.nodes@[lid as int] {
                    TemplateNode::Layout { front_matter, parent: np, .. } => front_matter@
                        == names0[0].1@ && (match spec_parent_name(front_matter@) {
                        None => np is None,
                        Some(pn) => np matches Some(pid) && assoc_get(
                            self.layout_cache@,
                            pn,
                        ) == Some(pid),
                    }),
                    _ => false,
                })),
            decreases stack@.len(),
        {
            let ghost pre_stack = stack@;
            let (nm, fm, body) = stack.pop().unwrap();
            let ghost k = stack@.len() as int;
            proof {
                assert(pre_stack == names0.subrange(0, pre_stack.len() as int));
                assert(pre_stack[pre_stack.len() - 1] == names0[k]);
                assert((nm, fm, body) == names0[k]);
            }
            let content_id = parse_control_blocks(&mut self.nodes, &self.functions, body.as_str());
            let ghost n_parsed = self.nodes@;
            lid = TemplateNode::new_layout(&mut self.nodes, nm.clone(), fm, content_id, parent);
            proof {
                crate::node::lemma_tree_of_extend(n_parsed, self.nodes@, content_id as int);
            }
            let ghost cache0 = self.layout_cache@;
            self.layout_cache.insert(nm, lid);
            proof {
                crate::strmap::lemma_assoc_put_get(cache0, names0[k].0@, lid);
                assert forall|kk: Seq<char>|
                    #[trigger] assoc_get(old(self).layout_cache@, kk) is Some implies assoc_get(
                    self.layout_cache@,
                    kk,
                ) == assoc_get(old(self).layout_cache@, kk) by {
                    assert(assoc_get(cache0, kk) == assoc_get(old(self).layout_cache@, kk));
                    assert(assoc_get(cache0, names0[k].0@) is None);
                    assert(kk != names0[k].0@);
                }
                assert forall|i: int| 0 <= i < stack@.len() implies assoc_get(
                    self.layout_cache@,
                    (#[trigger] names0[i]).0@,
                ) is None by {
                    assert(names0[i].0@ != names0[k].0@);
                    assert(assoc_get(cache0, names0[i].0@) is None);
                }
                assert(self.wf()) by {
                    assert forall|kk: Seq<char>|
                        #[trigger] assoc_get(self.layout_cache@, kk) is Some implies (assoc_get(
                        self.layout_cache@,
                        kk,
                    )->0 as int) < self.nodes@.len() && (match self.nodes@[assoc_get(
                        self.layout_cache@,
                        kk,
                    )->0 as int] {
                        TemplateNode::Layout { name: nm, .. } => nm@ == kk,
                        _ => false,
                    }) by {
                        if kk != names0[k].0@ {
                            assert(assoc_get(self.layout_cache@, kk) == assoc_get(cache0, kk));
                        }
                    }
                }
                assert(stack@ =~= names0.subrange(0, stack@.len() as int));
                // the new cache entry answers for this layout's name; the
                // pending parent's entry, under a different name, stands
                if k >= 1 {
                    assert(spec_parent_name(names0[k - 1].1@) == Some(names0[k].0@));
                }
                match spec_parent_name(names0[k].1@) {
                    None => {},
                    Some(pn) => {
                        assert(pn != names0[k].0@) by {
                            if k < names0.len() - 1 {
                                assert(pn == names0[k + 1].0@);
                            } else {
                                assert(assoc_get(cache0, pn) is Some);
                                assert(assoc_get(cache0, names0[k].0@) is None);
                            }
                        }
                        assert(assoc_get(self.layout_cache@, pn) == assoc_get(cache0, pn));
                    },
                }
            }
            parent = Some(lid);
            if self.layout_parses < u64::MAX {
                self.layout_parses = self.layout_parses + 1;
            }
        }
        Ok(lid)
    }
}


/// The front matter a page carries: its YAML entries, with the parent layout
/// defaulting to `default` and the title defaulting to the file's stem.
pub open spec fn spec_page_front_matter(fm_text: Seq<char>, path: Seq<char>) -> crate::strmap::Entries {
    let fm0 = assoc_put_all(
        Seq::<(Seq<char>, Seq<char>)>::empty(),
        yaml_string_entries_of(fm_text),
    );
    let fm1 = if assoc_get(fm0, "layout"@) is None {
        crate::strmap::assoc_put(fm0, "layout"@, "default"@)
    } else {
        fm0
    };
    if assoc_get(fm1, "title"@) is None {
        crate::strmap::assoc_put(fm1, "title"@, crate::paths::spec_file_stem(path))
    } else {
        fm1
    }
}

/// Where a page's rendered output is written: the output directory, the
/// page's path relative to the input directory, and the `html` extension.
pub open spec fn spec_output_path(cfg: Config, path: Seq<char>) -> Seq<char> {
    let out_dir = match cfg.variant {
        Some(v) => crate::text::spec_replace(cfg.output_dir@, "{{variant}}"@, v@),
        None => cfg.output_dir@,
    };
    let in_dir = match cfg.variant {
        Some(v) => crate::text::spec_replace(cfg.input_dir@, "{{variant}}"@, v@),
        None => cfg.input_dir@,
    };
    out_dir + "/"@ + crate::paths::spec_with_html_ext(crate::paths::spec_strip_prefix(path, in_dir))
}

/// Whether a page can be built from this state: its file is present, the
/// front matter reads as a string map, and the effective layout chain is
/// already cached or resolves.
pub open spec fn spec_page_buildable(
    files: crate::strmap::Entries,
    cache: Seq<(Seq<char>, usize)>,
    path: Seq<char>,
) -> bool {
    match assoc_get(files, path) {
        Some(text) => crate::wrappers::yaml_string_map_ok(spec_front_matter_split(text).0) && (
        match spec_parent_name(spec_page_front_matter(spec_front_matter_split(text).0, path)) {
            None => true,
            Some(ln) => assoc_get(cache, ln) is Some || spec_chain(
                files,
                cache,
                ln,
                Seq::empty(),
                spec_chain_fuel(files),
            ) is Resolves,
        }),
        None => false,
    }
}

/// The base URL that link rewriting uses: the configured `site.url`, or the
/// empty base when none is configured.
pub open spec fn spec_site_base(site: crate::strmap::Entries) -> Seq<char> {
    match assoc_get(site, "site.url"@) {
        Some(b) => b,
        None => Seq::empty(),
    }
}

impl GlobalContext {
    /// Builds a page from its source file: front matter split off and read,
    /// the markdown body converted to HTML with link targets rewritten
    /// against the site base, the HTML parsed into a tree, and the parent
    /// layout resolved through the cache. Success is owed exactly when the
    /// file is present, its front matter reads as a string map, and the
    /// effective layout chain resolves; a missing file, unreadable front
    /// matter or a failing chain is the matching error.
    pub fn build_page(&mut self, path: &str) -> (r: Result<usize, BuildError>)
        requires
            old(self).wf(),
        ensures
            final(self).wf(),
            final(self).same_build(old(self)),
            arena_extended(old(self).nodes@, final(self).nodes@),
            forall|k: Seq<char>|
                #[trigger] assoc_get(old(self).layout_cache@, k) is Some ==> assoc_get(
                    final(self).layout_cache@,
                    k,
                ) == assoc_get(old(self).layout_cache@, k),
            assoc_get(old(self).files@, path@) is None ==> ((r matches Err(e) && (e matches
                BuildError::MissingFile { path: p } && p@ == path@)) && *final(self) == *old(
                self,
            )),
            r is Ok <==> spec_page_buildable(old(self).files@, old(self).layout_cache@, path@),
            r matches Err(e) ==> (match assoc_get(old(self).files@, path@) {
                Some(text) => !crate::wrappers::yaml_string_map_ok(
                    spec_front_matter_split(text).0,
                ) ==> (e matches BuildError::BadFrontMatter { path: p2, .. } && p2@ == path@),
                None => true,
            }),
            r matches Err(e) ==> (match assoc_get(old(self).files@, path@) {
                Some(text) => crate::wrappers::yaml_string_map_ok(
                    spec_front_matter_split(text).0,
                ) ==> (match spec_parent_name(
                    spec_page_front_matter(spec_front_matter_split(text).0, path@),
                ) {
                    Some(ln) => assoc_get(old(self).layout_cache@, ln) is None ==> (
                    match spec_chain(
                        old(self).files@,
                        old(self).layout_cache@,
                        ln,
                        Seq::empty(),
                        spec_chain_fuel(old(self).files@),
                    ) {
                        ChainVerdict::Cycle { name: cn } => e matches BuildError::LayoutCycle {
                            name: n2,
                        } && n2@ == cn,
                        ChainVerdict::Missing { path: mp } => e
                            matches BuildError::MissingFile { path: p3 } && p3@ == mp,
                        ChainVerdict::Resolves => false,
                    }),
                    None => true,
                }),
                None => true,
            }),
            r matches Ok(id) ==> (id as int) < final(self).nodes@.len()
                && (match final(self).nodes@[id as int] {
                TemplateNode::Page { path: p2, front_matter, content_node, output_path, parent } => {
                    &&& p2@ == path@
                    &&& (match assoc_get(old(self).files@, path@) {
                        Some(text) => {
                            &&& front_matter@ == spec_page_front_matter(
                                spec_front_matter_split(text).0,
                                path@,
                            )
                            &&& tree_of(final(self).nodes@, content_node as int) == spec_parse(
                                crate::wrappers::markdown_html_of(
                                    spec_front_matter_split(text).1,
                                    spec_site_base(old(self).site_strings@),
                                ),
                                old(self).functions@,
                            )
                        },
                        None => false,
                    })
                    &&& output_path@ == spec_output_path(old(self).cfg, path@)
                    &&& (match parent {
                        Some(pid) => (pid as int) < final(self).nodes@.len()
                            && final(self).nodes@[pid as int] is Layout && (match assoc_get(
                            front_matter@,
                            "layout"@,
                        ) {
                            Some(ln) => assoc_get(final(self).layout_cache@, ln) == Some(pid),
                            None => false,
                        }),
                        None => assoc_get(front_matter@, "layout"@) == Some(Seq::<char>::empty()),
                    })
                },
                _ => false,
            }),
    {
        let text = match self.files.get(path) {
            Some(t) => t,
            None => {
                return Err(BuildError::MissingFile { path: String::from_str(path) });
            },
        };
        let (fm_text, md) = parse_front_matter(text.as_str());
        let fm_pairs = match parse_yaml_string_map(fm_text.as_str()) {
            Ok(v) => v,
            Err(detail) => {
                return Err(BuildError::BadFrontMatter { path: String::from_str(path), detail });
            },
        };
        let mut fm = strmap_from_pairs(&fm_pairs);
        if !fm.contains_key("layout") {
            let ghost pre = fm@;
            fm.insert(String::from_str("layout"), String::from_str("default"));
            proof {
                crate::strmap::lemma_assoc_put_get(pre, "layout"@, "default"@);
            }
        }
        if !fm.contains_key("title") {
            let ghost pre = fm@;
            let ghost had_layout = assoc_get(fm@, "layout"@);
            fm.insert(String::from_str("title"), crate::paths::file_stem(path));
            proof {
                crate::strmap::lemma_assoc_put_get(pre, "title"@, crate::paths::spec_file_stem(path@));
                reveal_strlit("title");
                reveal_strlit("layout");
                assert("layout"@.len() != "title"@.len());
                assert(assoc_get(fm@, "layout"@) == had_layout);
            }
        }
        let ghost fm_view = fm@;
        assert(fm_view == spec_page_front_matter(spec_front_matter_split(text@).0, path@));
        let base = match self.site_strings.get("site.url") {
            Some(b) => b,
            None => String::new(),
        };
        assert(base@ == spec_site_base(self.site_strings@));
        let html = crate::wrappers::markdown_to_html(md.as_str(), base.as_str());
        let content_id = parse_control_blocks(&mut self.nodes, &self.functions, html.as_str());
        let ghost n1 = self.nodes@;
        let out_dir = self.cfg.full_output_path();
        let in_dir = self.cfg.full_input_path();
        let rel = crate::paths::file_path_stem(in_dir.as_str(), path);
        let mut out_path = out_dir;
        out_path.append("/");
        let with_ext = crate::paths::with_html_ext(rel.as_str());
        out_path.append(with_ext.as_str());
        assert(out_path@ == spec_output_path(self.cfg, path@));
        assert(self.files@ == old(self).files@ && self.layout_cache@ == old(
            self,
        ).layout_cache@);
        let layout_name = fm.get("layout");
        proof {
            match assoc_get(fm_view, "layout"@) {
                Some(ln) => {
                    if ln.len() == 0 {
                        assert(spec_parent_name(fm_view) is None);
                    } else {
                        assert(spec_parent_name(fm_view) == Some(ln));
                    }
                },
                None => {
                    assert(spec_parent_name(fm_view) is None);
                },
            }
        }
        let parent: Option<usize> = match layout_name {
            Some(l) => {
                if l.unicode_len() == 0 {
                    None
                } else {
                    match self.get_layout(l.as_str()) {
                        Ok(pid) => Some(pid),
                        Err(e) => {
                            return Err(e);
                        },
                    }
                }
            },
            None => None,
        };
        proof {
            if parent is None {
                assert(assoc_get(fm_view, "layout"@) is Some);
            }
        }
        let ghost n2 = self.nodes@;
        proof {
            crate::node::lemma_tree_of_extend(n1, n2, content_id as int);
        }
        let id = TemplateNode::new_page(
            &mut self.nodes,
            String::from_str(path),
            fm,
            content_id,
            out_path,
            parent,
        );
        proof {
            crate::node::lemma_tree_of_extend(n2, self.nodes@, content_id as int);
        }
        Ok(id)
    }
}


/// The front matter carried by a page node; other nodes carry none.
pub open spec fn page_front_matter_of(n: TemplateNode) -> crate::strmap::Entries {
    match n {
        TemplateNode::Page { front_matter, .. } => front_matter@,
        _ => Seq::empty(),
    }
}

impl GlobalContext {
    /// Builds one page and renders it to its final HTML: the page in a root
    /// context seeded with its own front matter, plus where the output goes
    /// and the page's full site URL for the sitemap. Success is owed exactly
    /// as for `build_page`; the HTML is the rendering spec's answer for the
    /// built page tree wherever that spec is defined.
    pub fn build_and_render_page(&mut self, path: &str, fuel: u64) -> (r: Result<
        (String, String, String),
        BuildError,
    >)
        requires
            old(self).wf(),
        ensures
            final(self).wf(),
            final(self).same_build(old(self)),
            arena_extended(old(self).nodes@, final(self).nodes@),
            r is Ok <==> spec_page_buildable(old(self).files@, old(self).layout_cache@, path@),
            r matches Ok(p) ==> p.0@ == spec_output_path(old(self).cfg, path@),
            r matches Ok(p) ==> exists|pid: int|
                0 <= pid < final(self).nodes@.len() && (match #[trigger] final(self).nodes@[pid] {
                    TemplateNode::Page { path: p2, front_matter, .. } => p2@ == path@ && (
                    match assoc_get(old(self).files@, path@) {
                        Some(text) => front_matter@ == spec_page_front_matter(
                            spec_front_matter_split(text).0,
                            path@,
                        ),
                        None => false,
                    }),
                    _ => false,
                }) && (
                crate::render::spec_render(
                    tree_of(final(self).nodes@, pid),
                    seq![
                        (
                            assoc_put_all(
                                Seq::<(Seq<char>, Seq<char>)>::empty(),
                                page_front_matter_of(final(self).nodes@[pid]),
                            ),
                            Seq::<(Seq<char>, crate::strmap::RecordsV)>::empty(),
                        ),
                    ],
                    crate::render::env_of(*old(self)),
                    fuel as nat,
                ) matches Some(s) ==> p.1@ == s),
            r matches Ok(p) ==> p.2@ == crate::url::spec_relative_url(
                spec_site_base(old(self).site_strings@),
                crate::paths::spec_strip_prefix(
                    spec_output_path(old(self).cfg, path@),
                    (match old(self).cfg.variant {
                        Some(v) => crate::text::spec_replace(
                            old(self).cfg.output_dir@,
                            "{{variant}}"@,
                            v@,
                        ),
                        None => old(self).cfg.output_dir@,
                    }),
                ),
            ),
    {
        let pid = match self.build_page(path) {
            Ok(pid) => pid,
            Err(e) => {
                return Err(e);
            },
        };
        let (fm, out_path) = match &self.nodes[pid] {
            TemplateNode::Page { front_matter, output_path, .. } => (
                front_matter.duplicate(),
                output_path.clone(),
            ),
            _ => (StrMap::new(), String::new()),
        };
        let mut ctx = crate::context::TemplateContext::new();
        ctx.add_front_matter(&fm);
        let ghost root_frame = (
            assoc_put_all(Seq::<(Seq<char>, Seq<char>)>::empty(), fm@),
            Seq::<(Seq<char>, crate::strmap::RecordsV)>::empty(),
        );
        assert(ctx@ =~= seq![root_frame]);
        let ghost n_r = self.nodes@;
        let html = self.render(pid, &mut ctx, fuel);
        proof {
            crate::node::lemma_tree_of_extend(n_r, self.nodes@, pid as int);
            assert(self.nodes@[pid as int] == n_r[pid as int]);
            assert(fm@ == page_front_matter_of(self.nodes@[pid as int]));
        }
        let out_base = self.cfg.full_output_path();
        let rel = crate::paths::file_path_stem(out_base.as_str(), out_path.as_str());
        let loc = self.relative_url(rel.as_str());
        Ok((out_path, html, loc))
    }
}

} // verus!



