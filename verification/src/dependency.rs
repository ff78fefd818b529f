//! Library entries of `workspace.metadata.dylint.libraries`, read as Cargo dependency
//! specifications, and the checks that Cargo makes on such a specification before it resolves
//! its source.

use vstd::prelude::*;
use crate::text::{append_str, chars_of, contains_char, copy_opt, copy_strings, starts_with};

verus! {

/// A string or a list of strings in TOML, always stored as a list.
#[derive(Clone, Debug)]
pub struct StringOrVec(pub Vec<String>);

/// A dependency written as a table (`{ git = ..., branch = ... }`), as Cargo's manifest schema
/// has it. `unused_keys` holds the keys of the table that the schema does not know
/// ([`TomlDetailedDependency::unused_keys`] gives them in ascending order, each once).
#[derive(Clone, Debug)]
pub struct TomlDetailedDependency {
    pub version: Option<String>,
    pub registry: Option<String>,
    pub registry_index: Option<String>,
    pub path: Option<String>,
    pub git: Option<String>,
    pub branch: Option<String>,
    pub tag: Option<String>,
    pub rev: Option<String>,
    pub features: Option<Vec<String>>,
    pub optional: Option<bool>,
    pub default_features: Option<bool>,
    pub default_features2: Option<bool>,
    pub package: Option<String>,
    pub public: Option<bool>,
    pub artifact: Option<StringOrVec>,
    pub lib: Option<bool>,
    pub target: Option<String>,
    pub unused_keys: Vec<String>,
}

/// The same table, in the shape of the older Cargo schema.
#[derive(Clone, Debug)]
pub struct DetailedTomlDependency {
    pub version: Option<String>,
    pub registry: Option<String>,
    pub registry_index: Option<String>,
    pub path: Option<String>,
    pub git: Option<String>,
    pub branch: Option<String>,
    pub tag: Option<String>,
    pub rev: Option<String>,
    pub features: Option<Vec<String>>,
    pub optional: Option<bool>,
    pub default_features: Option<bool>,
    pub default_features2: Option<bool>,
    pub package: Option<String>,
    pub public: Option<bool>,
    pub artifact: Option<StringOrVec>,
    pub lib: Option<bool>,
    pub target: Option<String>,
}

/// Cargo's global context. It carries nothing that the checks here read.
pub struct GlobalContext;

/// The older name of [`GlobalContext`].
pub struct Config;

/// Resolution of a dependency's `path` entry to a file-system path.
pub trait ResolveToPath {
    fn resolve(&self, gctx: &GlobalContext) -> (r: String)
        ensures
            r@ == self.resolved_spec(),
    ;

    spec fn resolved_spec(&self) -> Seq<char>;
}

impl ResolveToPath for String {
    /// A path written as a string resolves to itself.
    fn resolve(&self, gctx: &GlobalContext) -> (r: String) {
        self.clone()
    }

    open spec fn resolved_spec(&self) -> Seq<char> {
        self@
    }
}

impl GlobalContext {
    /// Creates the context; this never fails.
    pub fn default() -> (r: Result<GlobalContext, ()>)
        ensures
            r is Ok,
    {
        Ok(GlobalContext)
    }
}

impl Config {
    /// Creates the configuration; this never fails.
    pub fn default() -> (r: Result<Config, ()>)
        ensures
            r is Ok,
    {
        Ok(Config)
    }
}

impl Default for TomlDetailedDependency {
    /// The empty table: no key given.
    fn default() -> (r: Self)
        ensures
            toml_fields(r) == (DepFields {
                version: None,
                registry: None,
                registry_index: None,
                path: None,
                git: None,
                branch: None,
                tag: None,
                rev: None,
                features: Seq::empty(),
                optional: None,
                default_features: None,
                default_features2: None,
                package: None,
                public: None,
            }),
            r.features is None,
            r.artifact is None,
            r.lib is None,
            r.target is None,
            r.unused_keys@.len() == 0,
    {
        TomlDetailedDependency {
            version: None,
            registry: None,
            registry_index: None,
            path: None,
            git: None,
            branch: None,
            tag: None,
            rev: None,
            features: None,
            optional: None,
            default_features: None,
            default_features2: None,
            package: None,
            public: None,
            artifact: None,
            lib: None,
            target: None,
            unused_keys: Vec::new(),
        }
    }
}

impl Default for DetailedTomlDependency {
    /// The empty table: no key given.
    fn default() -> (r: Self)
        ensures
            detailed_fields(r) == (DepFields {
                version: None,
                registry: None,
                registry_index: None,
                path: None,
                git: None,
                branch: None,
                tag: None,
                rev: None,
                features: Seq::empty(),
                optional: None,
                default_features: None,
                default_features2: None,
                package: None,
                public: None,
            }),
            r.features is None,
            r.artifact is None,
            r.lib is None,
            r.target is None,
    {
        DetailedTomlDependency {
            version: None,
            registry: None,
            registry_index: None,
            path: None,
            git: None,
            branch: None,
            tag: None,
            rev: None,
            features: None,
            optional: None,
            default_features: None,
            default_features2: None,
            package: None,
            public: None,
            artifact: None,
            lib: None,
            target: None,
        }
    }
}

impl TomlDetailedDependency {
    /// `default-features`, or else its deprecated spelling `default_features`.
    pub fn default_features(&self) -> (r: Option<bool>)
        ensures
            r == (if self.default_features is Some {
                self.default_features
            } else {
                self.default_features2
            }),
    {
        match self.default_features {
            Some(b) => Some(b),
            None => self.default_features2,
        }
    }

    /// The keys of the table that the schema does not know, in ascending order and each once.
    pub fn unused_keys(&self) -> (r: Vec<String>)
        ensures
            crate::text::lex_strictly_sorted(strings_view(r@)),
            forall|x: Seq<char>|
                strings_view(r@).contains(x) <==> strings_view(self.unused_keys@).contains(x),
    {
        let keys = copy_strings(&self.unused_keys);
        let sorted = crate::text::sort_strings(keys);
        proof {
            lemma_same_multiset_same_views(sorted@, self.unused_keys@);
        }
        crate::text::dedup_sorted(sorted)
    }
}

proof fn lemma_same_multiset_same_views(a: Seq<String>, b: Seq<String>)
    requires
        a.to_multiset() == b.to_multiset(),
    ensures
        forall|x: Seq<char>| strings_view(a).contains(x) <==> strings_view(b).contains(x),
{
    a.to_multiset_ensures();
    b.to_multiset_ensures();
    assert forall|x: Seq<char>| strings_view(a).contains(x) implies strings_view(b).contains(x) by {
        let k = choose|k: int| 0 <= k < strings_view(a).len() && strings_view(a)[k] == x;
        assert(a.contains(a[k]));
        assert(b.to_multiset().count(a[k]) > 0);
        let m = choose|m: int| 0 <= m < b.len() && b[m] == a[k];
        assert(strings_view(b)[m] == x);
    }
    assert forall|x: Seq<char>| strings_view(b).contains(x) implies strings_view(a).contains(x) by {
        let k = choose|k: int| 0 <= k < strings_view(b).len() && strings_view(b)[k] == x;
        assert(b.contains(b[k]));
        assert(a.to_multiset().count(b[k]) > 0);
        let m = choose|m: int| 0 <= m < a.len() && a[m] == b[k];
        assert(strings_view(a)[m] == x);
    }
}

/// The kind of a dependency.
#[derive(Clone, Copy, Debug, PartialEq, Eq, Structural)]
pub enum DepKind {
    Normal,
    Development,
    Build,
}

/// Which commit of a git repository a dependency names.
#[derive(Clone, Debug)]
pub enum GitReference {
    Branch(String),
    Tag(String),
    Rev(String),
    DefaultBranch,
}

/// Where a dependency comes from.
#[derive(Clone, Debug)]
pub enum DependencySource {
    /// A git repository; `url` is the URL as the URL parser serializes it.
    Git { url: String, reference: GitReference },
    /// A path: the `path` entry joined onto the manifest's root directory, normalized.
    Path { path: String },
    /// The source of the manifest that names the dependency.
    Manifest,
    /// A registry named in Cargo's configuration.
    Registry { name: String },
    /// A registry given by the URL of its index (serialized by the URL parser).
    RegistryIndex { url: String },
    /// crates.io.
    CratesIo,
}

/// The registry that a dependency is published to, when the entry names one.
#[derive(Clone, Debug)]
pub enum RegistryId {
    Named(String),
    Index(String),
}

/// A checked dependency specification, as it is handed to Cargo.
#[derive(Clone, Debug)]
pub struct Dependency {
    /// The package's name (`package`, or else the name in the manifest).
    pub name: String,
    pub version: Option<String>,
    pub source: DependencySource,
    pub explicit_name_in_toml: Option<String>,
    pub features: Vec<String>,
    pub default_features: bool,
    pub optional: bool,
    pub registry_id: Option<RegistryId>,
    pub kind: DepKind,
    pub public: bool,
    /// The platform that the dependency is for (as written after `target.`), where there is one.
    pub platform: Option<String>,
}

/// A key that only a git dependency may have.
#[derive(Clone, Copy, Debug, PartialEq, Eq, Structural)]
pub enum GitOnlyKey {
    Branch,
    Tag,
    Rev,
}

/// Why a dependency specification was refused.
#[derive(Clone, Debug)]
pub enum DependencyError {
    /// None of `version`, `path` and `git` is given.
    NoSource { name_in_toml: String },
    /// `branch`, `tag` or `rev` without `git`.
    GitOnlyKey { key: GitOnlyKey, name_in_toml: String },
    /// A feature with a `/`.
    FeatureWithSlash { feature: String, name_in_toml: String },
    /// A feature with the `dep:` prefix.
    FeatureWithDepPrefix { feature: String, name_in_toml: String },
    /// `git` together with `registry` or `registry-index`.
    GitAndRegistry { name_in_toml: String },
    /// `registry` together with `registry-index`.
    RegistryAndIndex { name_in_toml: String },
    /// `git` together with `path`.
    GitAndPath { name_in_toml: String },
    /// More than one of `branch`, `tag` and `rev`.
    MultipleGitReferences { name_in_toml: String },
    /// A URL that does not parse.
    InvalidUrl { url: String },
    /// A version requirement that does not parse.
    InvalidVersionRequirement { version: String, name: String },
    /// `public` without the `public-dependency` Cargo feature.
    PublicDependencyNotEnabled,
    /// `public` on a dependency that is not a regular one.
    PublicOnNonNormal { kind: DepKind },
}

/// What the checks read of the manifest that names the dependency.
pub struct ManifestContext {
    /// Whether the manifest's own source is a path source.
    pub source_is_path: bool,
    /// The manifest's root directory.
    pub root: String,
    /// Warnings collected so far.
    pub warnings: Vec<String>,
    /// The platform of the dependency table being read (`target.<platform>.dependencies`).
    pub platform: Option<String>,
}

/// The older form of [`ManifestContext`].
pub struct Context {
    pub source_is_path: bool,
    pub root: String,
    /// Paths of path dependencies, collected so far.
    pub nested_paths: Vec<String>,
    pub warnings: Vec<String>,
    /// Whether the manifest enables the `public-dependency` Cargo feature.
    pub public_dependency_enabled: bool,
    /// The platform of the dependency table being read (`target.<platform>.dependencies`).
    pub platform: Option<String>,
}

// ---------------------------------------------------------------------------------------------
// Views
// ---------------------------------------------------------------------------------------------

/// The view of an optional string.
pub open spec fn opt_view(o: Option<String>) -> Option<Seq<char>> {
    match o {
        Some(s) => Some(s@),
        None => None,
    }
}

/// The view of a list of strings.
pub open spec fn strings_view(v: Seq<String>) -> Seq<Seq<char>> {
    v.map_values(|s: String| s@)
}

/// The mathematical form of a [`GitReference`].
pub enum GitReferenceView {
    Branch(Seq<char>),
    Tag(Seq<char>),
    Rev(Seq<char>),
    DefaultBranch,
}

/// The mathematical form of a [`DependencySource`].
pub enum SourceView {
    Git { url: Seq<char>, reference: GitReferenceView },
    Path { path: Seq<char> },
    Manifest,
    Registry { name: Seq<char> },
    RegistryIndex { url: Seq<char> },
    CratesIo,
}

/// The mathematical form of a [`RegistryId`].
pub enum RegistryIdView {
    Named(Seq<char>),
    Index(Seq<char>),
}

/// The mathematical form of a [`Dependency`].
pub struct DependencyView {
    pub name: Seq<char>,
    pub version: Option<Seq<char>>,
    pub source: SourceView,
    pub explicit_name_in_toml: Option<Seq<char>>,
    pub features: Seq<Seq<char>>,
    pub default_features: bool,
    pub optional: bool,
    pub registry_id: Option<RegistryIdView>,
    pub kind: DepKind,
    pub public: bool,
    pub platform: Option<Seq<char>>,
}

/// The mathematical form of a [`DependencyError`].
pub enum DependencyErrorView {
    NoSource { name_in_toml: Seq<char> },
    GitOnlyKey { key: GitOnlyKey, name_in_toml: Seq<char> },
    FeatureWithSlash { feature: Seq<char>, name_in_toml: Seq<char> },
    FeatureWithDepPrefix { feature: Seq<char>, name_in_toml: Seq<char> },
    GitAndRegistry { name_in_toml: Seq<char> },
    RegistryAndIndex { name_in_toml: Seq<char> },
    GitAndPath { name_in_toml: Seq<char> },
    MultipleGitReferences { name_in_toml: Seq<char> },
    InvalidUrl { url: Seq<char> },
    InvalidVersionRequirement { version: Seq<char>, name: Seq<char> },
    PublicDependencyNotEnabled,
    PublicOnNonNormal { kind: DepKind },
}

impl View for GitReference {
    type V = GitReferenceView;

    open spec fn view(&self) -> GitReferenceView {
        match *self {
            GitReference::Branch(s) => GitReferenceView::Branch(s@),
            GitReference::Tag(s) => GitReferenceView::Tag(s@),
            GitReference::Rev(s) => GitReferenceView::Rev(s@),
            GitReference::DefaultBranch => GitReferenceView::DefaultBranch,
        }
    }
}

impl View for DependencySource {
    type V = SourceView;

    open spec fn view(&self) -> SourceView {
        match *self {
            DependencySource::Git { url, reference } => SourceView::Git {
                url: url@,
                reference: reference@,
            },
            DependencySource::Path { path } => SourceView::Path { path: path@ },
            DependencySource::Manifest => SourceView::Manifest,
            DependencySource::Registry { name } => SourceView::Registry { name: name@ },
            DependencySource::RegistryIndex { url } => SourceView::RegistryIndex { url: url@ },
            DependencySource::CratesIo => SourceView::CratesIo,
        }
    }
}

impl View for RegistryId {
    type V = RegistryIdView;

    open spec fn view(&self) -> RegistryIdView {
        match *self {
            RegistryId::Named(s) => RegistryIdView::Named(s@),
            RegistryId::Index(s) => RegistryIdView::Index(s@),
        }
    }
}

impl View for Dependency {
    type V = DependencyView;

    open spec fn view(&self) -> DependencyView {
        DependencyView {
            name: self.name@,
            version: opt_view(self.version),
            source: self.source@,
            explicit_name_in_toml: opt_view(self.explicit_name_in_toml),
            features: strings_view(self.features@),
            default_features: self.default_features,
            optional: self.optional,
            registry_id: match self.registry_id {
                Some(id) => Some(id@),
                None => None,
            },
            kind: self.kind,
            public: self.public,
            platform: opt_view(self.platform),
        }
    }
}

impl View for DependencyError {
    type V = DependencyErrorView;

    open spec fn view(&self) -> DependencyErrorView {
        match *self {
            DependencyError::NoSource { name_in_toml } => DependencyErrorView::NoSource {
                name_in_toml: name_in_toml@,
            },
            DependencyError::GitOnlyKey { key, name_in_toml } => DependencyErrorView::GitOnlyKey {
                key,
                name_in_toml: name_in_toml@,
            },
            DependencyError::FeatureWithSlash {
                feature,
                name_in_toml,
            } => DependencyErrorView::FeatureWithSlash {
                feature: feature@,
                name_in_toml: name_in_toml@,
            },
            DependencyError::FeatureWithDepPrefix {
                feature,
                name_in_toml,
            } => DependencyErrorView::FeatureWithDepPrefix {
                feature: feature@,
                name_in_toml: name_in_toml@,
            },
            DependencyError::GitAndRegistry { name_in_toml } => DependencyErrorView::GitAndRegistry {
                name_in_toml: name_in_toml@,
            },
            DependencyError::RegistryAndIndex {
                name_in_toml,
            } => DependencyErrorView::RegistryAndIndex { name_in_toml: name_in_toml@ },
            DependencyError::GitAndPath { name_in_toml } => DependencyErrorView::GitAndPath {
                name_in_toml: name_in_toml@,
            },
            DependencyError::MultipleGitReferences {
                name_in_toml,
            } => DependencyErrorView::MultipleGitReferences { name_in_toml: name_in_toml@ },
            DependencyError::InvalidUrl { url } => DependencyErrorView::InvalidUrl { url: url@ },
            DependencyError::InvalidVersionRequirement {
                version,
                name,
            } => DependencyErrorView::InvalidVersionRequirement { version: version@, name: name@ },
            DependencyError::PublicDependencyNotEnabled =>
                DependencyErrorView::PublicDependencyNotEnabled,
            DependencyError::PublicOnNonNormal { kind } => DependencyErrorView::PublicOnNonNormal {
                kind,
            },
        }
    }
}

// ---------------------------------------------------------------------------------------------
// URL parsing
// ---------------------------------------------------------------------------------------------

/// What the `url` crate's `Url::parse` gives for a string: `None` when it refuses the string,
/// else the URL's serialization and its fragment.
pub uninterp spec fn parsed_url(s: Seq<char>) -> Option<(Seq<char>, Option<Seq<char>>)>;

/// A URL as the URL parser gives it back.
pub struct ParsedUrl {
    pub serialization: String,
    pub fragment: Option<String>,
}

/// Parses a URL with `url::Url::parse` and returns its serialization (`Url::as_str`) and its
/// fragment (`Url::fragment`), or `None` where the parser returns an error.
#[verifier::external_body]
fn parse_url(s: &str) -> (r: Option<ParsedUrl>)
    ensures
        match r {
            Some(u) => parsed_url(s@) == Some((u.serialization@, opt_view(u.fragment))),
            None => parsed_url(s@) is None,
        },
{
    match url::Url::parse(s) {
        Ok(u) => Some(
            ParsedUrl {
                serialization: u.as_str().to_owned(),
                fragment: u.fragment().map(|f| f.to_owned()),
            },
        ),
        Err(_) => None,
    }
}

// ---------------------------------------------------------------------------------------------
// Messages
// ---------------------------------------------------------------------------------------------

/// The warning for a version requirement with build metadata.
pub open spec fn semver_metadata_warning(version: Seq<char>, name: Seq<char>) -> Seq<char> {
    "version requirement `"@ + version + "` for dependency `"@ + name
        + "` includes semver metadata which will be ignored, removing the metadata is recommended to avoid confusion"@
}

/// The warning for a git URL with a fragment.
pub open spec fn url_fragment_warning(fragment: Seq<char>, name: Seq<char>) -> Seq<char> {
    "URL fragment `#"@ + fragment + "` in git URL is ignored for dependency ("@ + name
        + "). If you were trying to specify a specific git revision, use `rev = \""@ + fragment
        + "\"` in the dependency declaration."@
}

/// The warning of the older schema for a dependency without a source.
pub open spec fn no_source_warning(name: Seq<char>) -> Seq<char> {
    "dependency ("@ + name
        + ") specified without providing a local path, Git repository, or version to use. This will be considered an error in future versions"@
}

/// `s` with every `-` replaced by `_`.
pub open spec fn dashes_to_underscores(s: Seq<char>) -> Seq<char> {
    s.map_values(|c: char| if c == '-' { '_' } else { c })
}

/// The warning for a key that is given in both its current and its deprecated spelling.
pub open spec fn deprecated_warning(new_path: Seq<char>, name: Seq<char>, kind: Seq<char>) -> Seq<
    char,
> {
    "conflicting between `"@ + new_path + "` and `"@ + dashes_to_underscores(new_path)
        + "` in the `"@ + name + "` "@ + kind + ".\n\n        `"@ + dashes_to_underscores(
        new_path,
    ) + "` is ignored and not recommended for use in the future"@
}

fn semver_metadata_message(version: &str, name: &str) -> (r: String)
    ensures
        r@ == semver_metadata_warning(version@, name@),
{
    let mut m = String::new();
    append_str(&mut m, "version requirement `");
    append_str(&mut m, version);
    append_str(&mut m, "` for dependency `");
    append_str(&mut m, name);
    append_str(
        &mut m,
        "` includes semver metadata which will be ignored, removing the metadata is recommended to avoid confusion",
    );
    m
}

fn url_fragment_message(fragment: &str, name: &str) -> (r: String)
    ensures
        r@ == url_fragment_warning(fragment@, name@),
{
    let mut m = String::new();
    append_str(&mut m, "URL fragment `#");
    append_str(&mut m, fragment);
    append_str(&mut m, "` in git URL is ignored for dependency (");
    append_str(&mut m, name);
    append_str(
        &mut m,
        "). If you were trying to specify a specific git revision, use `rev = \"",
    );
    append_str(&mut m, fragment);
    append_str(&mut m, "\"` in the dependency declaration.");
    m
}

fn no_source_message(name: &str) -> (r: String)
    ensures
        r@ == no_source_warning(name@),
{
    let mut m = String::new();
    append_str(&mut m, "dependency (");
    append_str(&mut m, name);
    append_str(
        &mut m,
        ") specified without providing a local path, Git repository, or version to use. This will be considered an error in future versions",
    );
    m
}

/// The name of a key that only a git dependency may have.
pub open spec fn git_only_key_name(k: GitOnlyKey) -> Seq<char> {
    match k {
        GitOnlyKey::Branch => "branch"@,
        GitOnlyKey::Tag => "tag"@,
        GitOnlyKey::Rev => "rev"@,
    }
}

/// How a dependency kind is printed (its `Debug` form).
pub open spec fn dep_kind_name(k: DepKind) -> Seq<char> {
    match k {
        DepKind::Normal => "Normal"@,
        DepKind::Development => "Development"@,
        DepKind::Build => "Build"@,
    }
}

/// The text with which each refusal is reported. For an unparsable URL the URL parser's reason,
/// and for `public` the text of Cargo's feature gate, are not reproduced: only their first words.
pub open spec fn dependency_error_message(e: DependencyErrorView) -> Seq<char> {
    match e {
        DependencyErrorView::NoSource { name_in_toml } => "dependency ("@ + name_in_toml
            + ") specified without providing a local path, Git repository, version, or workspace dependency to use"@,
        DependencyErrorView::GitOnlyKey { key, name_in_toml } => "key `"@ + git_only_key_name(key)
            + "` is ignored for dependency ("@ + name_in_toml + ")."@,
        DependencyErrorView::FeatureWithSlash { feature, name_in_toml } => "feature `"@ + feature
            + "` in dependency `"@ + name_in_toml
            + "` is not allowed to contain slashes\nIf you want to enable features of a transitive dependency, the direct dependency needs to re-export those features from the `[features]` table."@,
        DependencyErrorView::FeatureWithDepPrefix { feature, name_in_toml } => "feature `"@
            + feature + "` in dependency `"@ + name_in_toml
            + "` is not allowed to use explicit `dep:` syntax\nIf you want to enable an optional dependency, specify the name of the optional dependency without the `dep:` prefix, or specify a feature from the dependency's `[features]` table that enables the optional dependency."@,
        DependencyErrorView::GitAndRegistry { name_in_toml } => "dependency ("@ + name_in_toml
            + ") specification is ambiguous. Only one of `git` or `registry` is allowed."@,
        DependencyErrorView::RegistryAndIndex { name_in_toml } => "dependency ("@ + name_in_toml
            + ") specification is ambiguous. Only one of `registry` or `registry-index` is allowed."@,
        DependencyErrorView::GitAndPath { name_in_toml } => "dependency ("@ + name_in_toml
            + ") specification is ambiguous. Only one of `git` or `path` is allowed."@,
        DependencyErrorView::MultipleGitReferences { name_in_toml } => "dependency ("@
            + name_in_toml
            + ") specification is ambiguous. Only one of `branch`, `tag` or `rev` is allowed."@,
        DependencyErrorView::InvalidUrl { url } => "invalid url `"@ + url + "`"@,
        DependencyErrorView::InvalidVersionRequirement { version, name } =>
            "failed to parse the version requirement `"@ + version + "` for dependency `"@ + name
            + "`"@,
        DependencyErrorView::PublicDependencyNotEnabled => "feature `public-dependency` is required"@,
        DependencyErrorView::PublicOnNonNormal { kind } =>
            "'public' specifier can only be used on regular dependencies, not "@ + dep_kind_name(kind)
            + " dependencies"@,
    }
}

impl DependencyError {
    /// The text with which the refusal is reported (see [`dependency_error_message`]).
    pub fn message(&self) -> (r: String)
        ensures
            r@ == dependency_error_message(self@),
    {
        let mut m = String::new();
        match self {
            DependencyError::NoSource { name_in_toml } => {
                append_str(&mut m, "dependency (");
                append_str(&mut m, name_in_toml.as_str());
                append_str(
                    &mut m,
                    ") specified without providing a local path, Git repository, version, or workspace dependency to use",
                );
            },
            DependencyError::GitOnlyKey { key, name_in_toml } => {
                append_str(&mut m, "key `");
                match key {
                    GitOnlyKey::Branch => append_str(&mut m, "branch"),
                    GitOnlyKey::Tag => append_str(&mut m, "tag"),
                    GitOnlyKey::Rev => append_str(&mut m, "rev"),
                }
                append_str(&mut m, "` is ignored for dependency (");
                append_str(&mut m, name_in_toml.as_str());
                append_str(&mut m, ").");
            },
            DependencyError::FeatureWithSlash { feature, name_in_toml } => {
                append_str(&mut m, "feature `");
                append_str(&mut m, feature.as_str());
                append_str(&mut m, "` in dependency `");
                append_str(&mut m, name_in_toml.as_str());
                append_str(
                    &mut m,
                    "` is not allowed to contain slashes\nIf you want to enable features of a transitive dependency, the direct dependency needs to re-export those features from the `[features]` table.",
                );
            },
            DependencyError::FeatureWithDepPrefix { feature, name_in_toml } => {
                append_str(&mut m, "feature `");
                append_str(&mut m, feature.as_str());
                append_str(&mut m, "` in dependency `");
                append_str(&mut m, name_in_toml.as_str());
                append_str(
                    &mut m,
                    "` is not allowed to use explicit `dep:` syntax\nIf you want to enable an optional dependency, specify the name of the optional dependency without the `dep:` prefix, or specify a feature from the dependency's `[features]` table that enables the optional dependency.",
                );
            },
            DependencyError::GitAndRegistry { name_in_toml } => {
                append_str(&mut m, "dependency (");
                append_str(&mut m, name_in_toml.as_str());
                append_str(
                    &mut m,
                    ") specification is ambiguous. Only one of `git` or `registry` is allowed.",
                );
            },
            DependencyError::RegistryAndIndex { name_in_toml } => {
                append_str(&mut m, "dependency (");
                append_str(&mut m, name_in_toml.as_str());
                append_str(
                    &mut m,
                    ") specification is ambiguous. Only one of `registry` or `registry-index` is allowed.",
                );
            },
            DependencyError::GitAndPath { name_in_toml } => {
                append_str(&mut m, "dependency (");
                append_str(&mut m, name_in_toml.as_str());
                append_str(
                    &mut m,
                    ") specification is ambiguous. Only one of `git` or `path` is allowed.",
                );
            },
            DependencyError::MultipleGitReferences { name_in_toml } => {
                append_str(&mut m, "dependency (");
                append_str(&mut m, name_in_toml.as_str());
                append_str(
                    &mut m,
                    ") specification is ambiguous. Only one of `branch`, `tag` or `rev` is allowed.",
                );
            },
            DependencyError::InvalidUrl { url } => {
                append_str(&mut m, "invalid url `");
                append_str(&mut m, url.as_str());
                append_str(&mut m, "`");
            },
            DependencyError::InvalidVersionRequirement { version, name } => {
                append_str(&mut m, "failed to parse the version requirement `");
                append_str(&mut m, version.as_str());
                append_str(&mut m, "` for dependency `");
                append_str(&mut m, name.as_str());
                append_str(&mut m, "`");
            },
            DependencyError::PublicDependencyNotEnabled => {
                append_str(&mut m, "feature `public-dependency` is required");
            },
            DependencyError::PublicOnNonNormal { kind } => {
                append_str(
                    &mut m,
                    "'public' specifier can only be used on regular dependencies, not ",
                );
                match kind {
                    DepKind::Normal => append_str(&mut m, "Normal"),
                    DepKind::Development => append_str(&mut m, "Development"),
                    DepKind::Build => append_str(&mut m, "Build"),
                }
                append_str(&mut m, " dependencies");
            },
        }
        m
    }
}

fn replace_dashes(s: &str) -> (r: String)
    ensures
        r@ == dashes_to_underscores(s@),
{
    let cs = chars_of(s);
    let mut r = String::new();
    let mut i: usize = 0;
    while i < cs.len()
        invariant
            i <= cs@.len(),
            cs@ == s@,
            r@ == dashes_to_underscores(s@.take(i as int)),
        decreases cs@.len() - i,
    {
        let c = cs[i];
        crate::text::push_char(&mut r, if c == '-' { '_' } else { c });
        i = i + 1;
        assert(dashes_to_underscores(s@.take(i as int)) =~= dashes_to_underscores(
            s@.take((i - 1) as int),
        ).push(if c == '-' { '_' } else { c }));
    }
    assert(s@.take(cs@.len() as int) =~= s@);
    r
}

/// Warns about a key given in both its current spelling `new_path` and its deprecated one (the
/// same with `_` for `-`).
pub fn warn_on_deprecated(new_path: &str, name: &str, kind: &str, warnings: &mut Vec<String>)
    ensures
        final(warnings)@.len() == old(warnings)@.len() + 1,
        final(warnings)@.take(old(warnings)@.len() as int) == old(warnings)@,
        final(warnings)@.last()@ == deprecated_warning(new_path@, name@, kind@),
{
    let old_path = replace_dashes(new_path);
    let mut m = String::new();
    append_str(&mut m, "conflicting between `");
    append_str(&mut m, new_path);
    append_str(&mut m, "` and `");
    append_str(&mut m, old_path.as_str());
    append_str(&mut m, "` in the `");
    append_str(&mut m, name);
    append_str(&mut m, "` ");
    append_str(&mut m, kind);
    append_str(&mut m, ".\n\n        `");
    append_str(&mut m, old_path.as_str());
    append_str(&mut m, "` is ignored and not recommended for use in the future");
    warnings.push(m);
    assert(warnings@.take(old(warnings)@.len() as int) =~= old(warnings)@);
}


// ---------------------------------------------------------------------------------------------
// The checks
// ---------------------------------------------------------------------------------------------

/// The entries of a dependency table that the checks read.
pub struct DepFields {
    pub version: Option<Seq<char>>,
    pub registry: Option<Seq<char>>,
    pub registry_index: Option<Seq<char>>,
    pub path: Option<Seq<char>>,
    pub git: Option<Seq<char>>,
    pub branch: Option<Seq<char>>,
    pub tag: Option<Seq<char>>,
    pub rev: Option<Seq<char>>,
    pub features: Seq<Seq<char>>,
    pub optional: Option<bool>,
    pub default_features: Option<bool>,
    pub default_features2: Option<bool>,
    pub package: Option<Seq<char>>,
    pub public: Option<bool>,
}

/// The features listed in an optional list (none when the list is absent).
pub open spec fn features_view(fs: Option<Vec<String>>) -> Seq<Seq<char>> {
    match fs {
        Some(v) => strings_view(v@),
        None => Seq::empty(),
    }
}

/// The entries of a table in the current schema.
pub open spec fn toml_fields(d: TomlDetailedDependency) -> DepFields {
    DepFields {
        version: opt_view(d.version),
        registry: opt_view(d.registry),
        registry_index: opt_view(d.registry_index),
        path: opt_view(d.path),
        git: opt_view(d.git),
        branch: opt_view(d.branch),
        tag: opt_view(d.tag),
        rev: opt_view(d.rev),
        features: features_view(d.features),
        optional: d.optional,
        default_features: d.default_features,
        default_features2: d.default_features2,
        package: opt_view(d.package),
        public: d.public,
    }
}

/// The entries of a table in the older schema.
pub open spec fn detailed_fields(d: DetailedTomlDependency) -> DepFields {
    DepFields {
        version: opt_view(d.version),
        registry: opt_view(d.registry),
        registry_index: opt_view(d.registry_index),
        path: opt_view(d.path),
        git: opt_view(d.git),
        branch: opt_view(d.branch),
        tag: opt_view(d.tag),
        rev: opt_view(d.rev),
        features: features_view(d.features),
        optional: d.optional,
        default_features: d.default_features,
        default_features2: d.default_features2,
        package: opt_view(d.package),
        public: d.public,
    }
}

/// None of `version`, `path` and `git` is given.
pub open spec fn lacks_source(d: DepFields) -> bool {
    d.version is None && d.path is None && d.git is None
}

/// The version requirement carries build metadata (a `+`).
pub open spec fn has_semver_metadata(d: DepFields) -> bool {
    d.version matches Some(v) && v.contains('+')
}

/// The first of `branch`, `tag` and `rev` that is given without `git`.
pub open spec fn git_only_key_error(d: DepFields, name: Seq<char>) -> Option<DependencyErrorView> {
    if d.git is Some {
        None
    } else if d.branch is Some {
        Some(DependencyErrorView::GitOnlyKey { key: GitOnlyKey::Branch, name_in_toml: name })
    } else if d.tag is Some {
        Some(DependencyErrorView::GitOnlyKey { key: GitOnlyKey::Tag, name_in_toml: name })
    } else if d.rev is Some {
        Some(DependencyErrorView::GitOnlyKey { key: GitOnlyKey::Rev, name_in_toml: name })
    } else {
        None
    }
}

/// The first feature, in order, that a dependency may not name: one with a `/`, or one with the
/// `dep:` prefix.
pub open spec fn first_bad_feature(fs: Seq<Seq<char>>, name: Seq<char>) -> Option<
    DependencyErrorView,
>
    decreases fs.len(),
{
    if fs.len() == 0 {
        None
    } else if fs[0].contains('/') {
        Some(DependencyErrorView::FeatureWithSlash { feature: fs[0], name_in_toml: name })
    } else if "dep:"@.is_prefix_of(fs[0]) {
        Some(DependencyErrorView::FeatureWithDepPrefix { feature: fs[0], name_in_toml: name })
    } else {
        first_bad_feature(fs.drop_first(), name)
    }
}

/// How many of `branch`, `tag` and `rev` are given.
pub open spec fn n_git_details(d: DepFields) -> int {
    (if d.branch is Some { 1int } else { 0 }) + (if d.tag is Some { 1int } else { 0 }) + (
    if d.rev is Some { 1int } else { 0 })
}

/// The git reference that `branch`, `tag` or `rev` names.
pub open spec fn git_reference(d: DepFields) -> GitReferenceView {
    if let Some(b) = d.branch {
        GitReferenceView::Branch(b)
    } else if let Some(t) = d.tag {
        GitReferenceView::Tag(t)
    } else if let Some(r) = d.rev {
        GitReferenceView::Rev(r)
    } else {
        GitReferenceView::DefaultBranch
    }
}

/// The reference that a git dependency's `branch`, `tag` or `rev` gives (the one of them that is
/// set, with its value; the default branch where none is).
pub open spec fn reference_wanted(d: DepFields, r: GitReferenceView) -> bool {
    &&& d.branch matches Some(b) ==> r == GitReferenceView::Branch(b)
    &&& d.tag matches Some(t) ==> r == GitReferenceView::Tag(t)
    &&& d.rev matches Some(v) ==> r == GitReferenceView::Rev(v)
    &&& (d.branch is None && d.tag is None && d.rev is None) ==> r == GitReferenceView::DefaultBranch
}

/// The source of a dependency, or why the combination of source keys is refused.
pub open spec fn source_outcome(d: DepFields, name: Seq<char>, source_is_path: bool) -> Result<
    SourceView,
    DependencyErrorView,
> {
    if d.git is Some && (d.registry is Some || d.registry_index is Some) {
        Err(DependencyErrorView::GitAndRegistry { name_in_toml: name })
    } else if d.registry is Some && d.registry_index is Some {
        Err(DependencyErrorView::RegistryAndIndex { name_in_toml: name })
    } else if let Some(git) = d.git {
        if d.path is Some {
            Err(DependencyErrorView::GitAndPath { name_in_toml: name })
        } else if n_git_details(d) > 1 {
            Err(DependencyErrorView::MultipleGitReferences { name_in_toml: name })
        } else {
            match parsed_url(git) {
                None => Err(DependencyErrorView::InvalidUrl { url: git }),
                Some(u) => Ok(SourceView::Git { url: u.0, reference: git_reference(d) }),
            }
        }
    } else if let Some(path) = d.path {
        if source_is_path {
            Ok(SourceView::Path { path })
        } else {
            Ok(SourceView::Manifest)
        }
    } else if let Some(reg) = d.registry {
        Ok(SourceView::Registry { name: reg })
    } else if let Some(idx) = d.registry_index {
        match parsed_url(idx) {
            None => Err(DependencyErrorView::InvalidUrl { url: idx }),
            Some(u) => Ok(SourceView::RegistryIndex { url: u.0 }),
        }
    } else {
        Ok(SourceView::CratesIo)
    }
}

/// The source handed to Cargo: as [`source_outcome`] gives it, except that a path source is
/// joined onto the manifest's root directory `root` and normalized (see
/// [`crate::paths::normalized_path`]), so that it no longer depends on where it was written.
pub open spec fn resolved_outcome(
    d: DepFields,
    name: Seq<char>,
    source_is_path: bool,
    root: Seq<char>,
) -> Result<SourceView, DependencyErrorView> {
    match source_outcome(d, name, source_is_path) {
        Ok(SourceView::Path { path }) => Ok(
            SourceView::Path {
                path: crate::paths::normalized_path(crate::paths::path_joined(root, path)),
            },
        ),
        other => other,
    }
}

/// Whether `semver::VersionReq::parse` accepts the text.
pub uninterp spec fn semver_req_parses(s: Seq<char>) -> bool;

/// `semver::VersionReq::parse`: whether the text is a version requirement.
#[verifier::external_body]
fn version_req_ok(s: &str) -> (r: bool)
    ensures
        r == semver_req_parses(s@),
{
    semver::VersionReq::parse(s).is_ok()
}

/// The refusal of a version requirement that does not parse (the name is the package's), if any:
/// Cargo reads the requirement when it builds the dependency.
pub open spec fn version_error(d: DepFields, name: Seq<char>) -> Option<DependencyErrorView> {
    match d.version {
        Some(v) => if semver_req_parses(v) {
            None
        } else {
            Some(
                DependencyErrorView::InvalidVersionRequirement {
                    version: v,
                    name: if let Some(p) = d.package {
                        p
                    } else {
                        name
                    },
                },
            )
        },
        None => None,
    }
}

fn check_version(version: &Option<String>, pkg_name: &String, Ghost(d): Ghost<DepFields>, Ghost(name): Ghost<Seq<char>>) -> (r: Result<(), DependencyError>)
    requires
        d.version == opt_view(*version),
        pkg_name@ == (if let Some(p) = d.package {
            p
        } else {
            name
        }),
    ensures
        match r {
            Ok(_) => version_error(d, name) is None,
            Err(e) => version_error(d, name) == Some(e@),
        },
{
    match version {
        Some(v) => if version_req_ok(v.as_str()) {
            Ok(())
        } else {
            Err(DependencyError::InvalidVersionRequirement { version: v.clone(), name: pkg_name.clone() })
        },
        None => Ok(()),
    }
}

/// The fragment of the git URL that the source step warns about, if any.
pub open spec fn source_fragment(d: DepFields, name: Seq<char>, source_is_path: bool) -> Option<
    Seq<char>,
> {
    if source_outcome(d, name, source_is_path) is Ok {
        match d.git {
            Some(git) => match parsed_url(git) {
                Some(u) => u.1,
                None => None,
            },
            None => None,
        }
    } else {
        None
    }
}

/// The warning about a git URL's fragment, where there is one.
pub open spec fn fragment_warnings(fragment: Option<Seq<char>>, name: Seq<char>) -> Seq<Seq<char>> {
    match fragment {
        Some(f) => seq![url_fragment_warning(f, name)],
        None => Seq::empty(),
    }
}

/// The registry that the dependency names, or the refusal of its index URL.
pub open spec fn registry_outcome(d: DepFields) -> Result<
    Option<RegistryIdView>,
    DependencyErrorView,
> {
    if let Some(idx) = d.registry_index {
        match parsed_url(idx) {
            None => Err(DependencyErrorView::InvalidUrl { url: idx }),
            Some(u) => Ok(Some(RegistryIdView::Index(u.0))),
        }
    } else if let Some(reg) = d.registry {
        Ok(Some(RegistryIdView::Named(reg)))
    } else {
        Ok(None)
    }
}

/// The checked dependency built from its entries and source.
pub open spec fn dependency_of(
    d: DepFields,
    name: Seq<char>,
    source: SourceView,
    registry_id: Option<RegistryIdView>,
    kind: Option<DepKind>,
    public: bool,
    platform: Option<Seq<char>>,
) -> DependencyView {
    DependencyView {
        name: if let Some(p) = d.package {
            p
        } else {
            name
        },
        version: d.version,
        source,
        explicit_name_in_toml: if d.package is Some {
            Some(name)
        } else {
            None
        },
        features: d.features,
        default_features: if let Some(b) = d.default_features {
            b
        } else if let Some(b) = d.default_features2 {
            b
        } else {
            true
        },
        optional: if let Some(b) = d.optional {
            b
        } else {
            false
        },
        registry_id,
        kind: if let Some(k) = kind {
            k
        } else {
            DepKind::Normal
        },
        public,
        platform,
    }
}

/// What checking a dependency in the current schema gives.
pub open spec fn spec_detailed_dep_to_dependency(
    d: DepFields,
    name: Seq<char>,
    source_is_path: bool,
    root: Seq<char>,
    platform: Option<Seq<char>>,
    kind: Option<DepKind>,
) -> Result<DependencyView, DependencyErrorView> {
    if lacks_source(d) {
        Err(DependencyErrorView::NoSource { name_in_toml: name })
    } else if git_only_key_error(d, name) is Some {
        Err(git_only_key_error(d, name)->0)
    } else if first_bad_feature(d.features, name) is Some {
        Err(first_bad_feature(d.features, name)->0)
    } else {
        match resolved_outcome(d, name, source_is_path, root) {
            Err(e) => Err(e),
            Ok(source) => if version_error(d, name) is Some {
                Err(version_error(d, name)->0)
            } else {
                match registry_outcome(d) {
                Err(e) => Err(e),
                Ok(registry_id) => Ok(
                    dependency_of(
                        d,
                        name,
                        source,
                        registry_id,
                        kind,
                        if let Some(p) = d.public {
                            p
                        } else {
                            false
                        },
                        platform,
                    ),
                ),
                }
            },
        }
    }
}

/// The warnings that checking a dependency in the current schema adds, in order.
pub open spec fn detailed_dep_warnings(d: DepFields, name: Seq<char>, source_is_path: bool) -> Seq<
    Seq<char>,
> {
    if lacks_source(d) {
        Seq::empty()
    } else {
        let w1 = if has_semver_metadata(d) {
            seq![semver_metadata_warning(d.version->0, name)]
        } else {
            Seq::empty()
        };
        let w2 = if git_only_key_error(d, name) is None && first_bad_feature(d.features, name)
            is None {
            fragment_warnings(source_fragment(d, name, source_is_path), name)
        } else {
            Seq::empty()
        };
        w1 + w2
    }
}

fn check_git_only_keys(
    git: &Option<String>,
    branch: &Option<String>,
    tag: &Option<String>,
    rev: &Option<String>,
    name_in_toml: &str,
    Ghost(d): Ghost<DepFields>,
) -> (r: Result<(), DependencyError>)
    requires
        d.git == opt_view(*git),
        d.branch == opt_view(*branch),
        d.tag == opt_view(*tag),
        d.rev == opt_view(*rev),
    ensures
        match r {
            Ok(_) => git_only_key_error(d, name_in_toml@) is None,
            Err(e) => git_only_key_error(d, name_in_toml@) == Some(e@),
        },
{
    if git.is_none() {
        if branch.is_some() {
            return Err(
                DependencyError::GitOnlyKey {
                    key: GitOnlyKey::Branch,
                    name_in_toml: name_in_toml.to_owned(),
                },
            );
        }
        if tag.is_some() {
            return Err(
                DependencyError::GitOnlyKey {
                    key: GitOnlyKey::Tag,
                    name_in_toml: name_in_toml.to_owned(),
                },
            );
        }
        if rev.is_some() {
            return Err(
                DependencyError::GitOnlyKey {
                    key: GitOnlyKey::Rev,
                    name_in_toml: name_in_toml.to_owned(),
                },
            );
        }
    }
    Ok(())
}

fn check_features(features: &Option<Vec<String>>, name_in_toml: &str) -> (r: Result<
    (),
    DependencyError,
>)
    ensures
        match r {
            Ok(_) => first_bad_feature(features_view(*features), name_in_toml@) is None,
            Err(e) => first_bad_feature(features_view(*features), name_in_toml@) == Some(e@),
        },
{
    match features {
        None => Ok(()),
        Some(fs) => {
            let ghost all = strings_view(fs@);
            let mut i: usize = 0;
            assert(all.skip(0) =~= all);
            while i < fs.len()
                invariant
                    i <= fs@.len(),
                    all == strings_view(fs@),
                    all == features_view(*features),
                    first_bad_feature(all, name_in_toml@) == first_bad_feature(
                        all.skip(i as int),
                        name_in_toml@,
                    ),
                decreases fs@.len() - i,
            {
                let feature = &fs[i];
                assert(all.skip(i as int)[0] == feature@);
                assert(all.skip(i as int).drop_first() =~= all.skip(i + 1));
                if contains_char(feature.as_str(), '/') {
                    return Err(
                        DependencyError::FeatureWithSlash {
                            feature: feature.clone(),
                            name_in_toml: name_in_toml.to_owned(),
                        },
                    );
                }
                if starts_with(feature.as_str(), "dep:") {
                    return Err(
                        DependencyError::FeatureWithDepPrefix {
                            feature: feature.clone(),
                            name_in_toml: name_in_toml.to_owned(),
                        },
                    );
                }
                i = i + 1;
            }
            assert(all.skip(i as int).len() == 0);
            Ok(())
        },
    }
}

fn git_reference_of(branch: &Option<String>, tag: &Option<String>, rev: &Option<String>, Ghost(
    d,
): Ghost<DepFields>) -> (r: GitReference)
    requires
        d.branch == opt_view(*branch),
        d.tag == opt_view(*tag),
        d.rev == opt_view(*rev),
    ensures
        r@ == git_reference(d),
{
    match branch {
        Some(b) => GitReference::Branch(b.clone()),
        None => match tag {
            Some(t) => GitReference::Tag(t.clone()),
            None => match rev {
                Some(r) => GitReference::Rev(r.clone()),
                None => GitReference::DefaultBranch,
            },
        },
    }
}

/// Determines the source of a dependency from `git`, `path`, `registry` and `registry-index`,
/// pushing the URL-fragment warning where the git URL has one. `nested_paths`, where given,
/// receives the path of a path dependency.
fn source_of(
    git: &Option<String>,
    path: &Option<String>,
    registry: &Option<String>,
    registry_index: &Option<String>,
    branch: &Option<String>,
    tag: &Option<String>,
    rev: &Option<String>,
    name_in_toml: &str,
    source_is_path: bool,
    root: &str,
    warnings: &mut Vec<String>,
    Ghost(d): Ghost<DepFields>,
) -> (r: Result<DependencySource, DependencyError>)
    requires
        d.git == opt_view(*git),
        d.path == opt_view(*path),
        d.registry == opt_view(*registry),
        d.registry_index == opt_view(*registry_index),
        d.branch == opt_view(*branch),
        d.tag == opt_view(*tag),
        d.rev == opt_view(*rev),
    ensures
        match r {
            Ok(s) => resolved_outcome(d, name_in_toml@, source_is_path, root@) == Ok::<
                SourceView,
                DependencyErrorView,
            >(s@),
            Err(e) => resolved_outcome(d, name_in_toml@, source_is_path, root@) == Err::<
                SourceView,
                DependencyErrorView,
            >(e@),
        },
        strings_view(final(warnings)@) == strings_view(old(warnings)@) + fragment_warnings(
            source_fragment(d, name_in_toml@, source_is_path),
            name_in_toml@,
        ),
{
    let ghost w0 = warnings@;
    if git.is_some() && (registry.is_some() || registry_index.is_some()) {
        return Err(DependencyError::GitAndRegistry { name_in_toml: name_in_toml.to_owned() });
    }
    if registry.is_some() && registry_index.is_some() {
        return Err(DependencyError::RegistryAndIndex { name_in_toml: name_in_toml.to_owned() });
    }
    match git {
        Some(g) => {
            if path.is_some() {
                return Err(DependencyError::GitAndPath { name_in_toml: name_in_toml.to_owned() });
            }
            let n: u8 = (if branch.is_some() {
                1u8
            } else {
                0u8
            }) + (if tag.is_some() {
                1u8
            } else {
                0u8
            }) + (if rev.is_some() {
                1u8
            } else {
                0u8
            });
            if n > 1 {
                return Err(
                    DependencyError::MultipleGitReferences { name_in_toml: name_in_toml.to_owned() },
                );
            }
            let reference = git_reference_of(branch, tag, rev, Ghost(d));
            match parse_url(g.as_str()) {
                None => Err(DependencyError::InvalidUrl { url: g.clone() }),
                Some(u) => {
                    match &u.fragment {
                        Some(f) => {
                            let m = url_fragment_message(f.as_str(), name_in_toml);
                            warnings.push(m);
                            assert(strings_view(warnings@) =~= strings_view(w0).push(m@));
                        },
                        None => {},
                    }
                    Ok(DependencySource::Git { url: u.serialization, reference })
                },
            }
        },
        None => {
            match path {
                Some(p) => {
                    if source_is_path {
                        let joined = crate::paths::join_path(root, p.as_str());
                        Ok(DependencySource::Path { path: crate::paths::normalize_path(joined.as_str()) })
                    } else {
                        Ok(DependencySource::Manifest)
                    }
                },
                None => match registry {
                    Some(reg) => Ok(DependencySource::Registry { name: reg.clone() }),
                    None => match registry_index {
                        Some(idx) => match parse_url(idx.as_str()) {
                            None => Err(DependencyError::InvalidUrl { url: idx.clone() }),
                            Some(u) => Ok(DependencySource::RegistryIndex { url: u.serialization }),
                        },
                        None => Ok(DependencySource::CratesIo),
                    },
                },
            }
        },
    }
}

fn registry_id_of(
    registry: &Option<String>,
    registry_index: &Option<String>,
    Ghost(d): Ghost<DepFields>,
) -> (r: Result<Option<RegistryId>, DependencyError>)
    requires
        d.registry == opt_view(*registry),
        d.registry_index == opt_view(*registry_index),
    ensures
        match r {
            Ok(Some(id)) => registry_outcome(d) == Ok::<
                Option<RegistryIdView>,
                DependencyErrorView,
            >(Some(id@)),
            Ok(None) => registry_outcome(d) == Ok::<
                Option<RegistryIdView>,
                DependencyErrorView,
            >(None),
            Err(e) => registry_outcome(d) == Err::<Option<RegistryIdView>, DependencyErrorView>(
                e@,
            ),
        },
{
    match registry_index {
        Some(idx) => match parse_url(idx.as_str()) {
            None => Err(DependencyError::InvalidUrl { url: idx.clone() }),
            Some(u) => Ok(Some(RegistryId::Index(u.serialization))),
        },
        None => match registry {
            Some(reg) => Ok(Some(RegistryId::Named(reg.clone()))),
            None => Ok(None),
        },
    }
}


/// What checking a dependency in the older schema gives, where `public_dependency_enabled` says
/// whether the manifest enables the `public-dependency` feature.
pub open spec fn spec_to_dependency(
    d: DepFields,
    name: Seq<char>,
    source_is_path: bool,
    root: Seq<char>,
    platform: Option<Seq<char>>,
    public_dependency_enabled: bool,
    kind: Option<DepKind>,
) -> Result<DependencyView, DependencyErrorView> {
    let effective_kind = if let Some(k) = kind {
        k
    } else {
        DepKind::Normal
    };
    if git_only_key_error(d, name) is Some {
        Err(git_only_key_error(d, name)->0)
    } else if first_bad_feature(d.features, name) is Some {
        Err(first_bad_feature(d.features, name)->0)
    } else {
        match resolved_outcome(d, name, source_is_path, root) {
            Err(e) => Err(e),
            Ok(source) => if version_error(d, name) is Some {
                Err(version_error(d, name)->0)
            } else {
                match registry_outcome(d) {
                Err(e) => Err(e),
                Ok(registry_id) => if d.public is Some && !public_dependency_enabled {
                    Err(DependencyErrorView::PublicDependencyNotEnabled)
                } else if d.public is Some && effective_kind != DepKind::Normal {
                    Err(DependencyErrorView::PublicOnNonNormal { kind: effective_kind })
                } else {
                    Ok(
                        dependency_of(
                            d,
                            name,
                            source,
                            registry_id,
                            kind,
                            if let Some(p) = d.public {
                                p
                            } else {
                                false
                            },
                            platform,
                        ),
                    )
                },
                }
            },
        }
    }
}

/// The checks of the older schema got past the source keys.
pub open spec fn source_checked(d: DepFields, name: Seq<char>, source_is_path: bool) -> bool {
    git_only_key_error(d, name) is None && first_bad_feature(d.features, name) is None
        && source_outcome(d, name, source_is_path) is Ok
}

/// The warnings that checking a dependency in the older schema adds, in order.
pub open spec fn to_dependency_warnings(d: DepFields, name: Seq<char>, source_is_path: bool) -> Seq<
    Seq<char>,
> {
    let w0 = if lacks_source(d) {
        seq![no_source_warning(name)]
    } else {
        Seq::empty()
    };
    let w1 = if has_semver_metadata(d) {
        seq![semver_metadata_warning(d.version->0, name)]
    } else {
        Seq::empty()
    };
    let w2 = if git_only_key_error(d, name) is None && first_bad_feature(d.features, name) is None {
        fragment_warnings(source_fragment(d, name, source_is_path), name)
    } else {
        Seq::empty()
    };
    let w3 = if source_checked(d, name, source_is_path) && version_error(d, name) is None
        && d.default_features is Some
        && d.default_features2 is Some {
        seq![deprecated_warning("default-features"@, name, "dependency"@)]
    } else {
        Seq::empty()
    };
    w0 + w1 + w2 + w3
}

/// The paths that checking a dependency in the older schema records as nested paths.
pub open spec fn to_dependency_nested_paths(d: DepFields, name: Seq<char>, source_is_path: bool) -> Seq<
    Seq<char>,
> {
    if source_checked(d, name, source_is_path) && d.git is None && d.path is Some {
        seq![d.path->0]
    } else {
        Seq::empty()
    }
}

fn push_semver_warning(version: &Option<String>, name_in_toml: &str, warnings: &mut Vec<String>)
    ensures
        strings_view(final(warnings)@) == strings_view(old(warnings)@) + (if opt_view(*version) matches Some(v) && v.contains('+') {
            seq![semver_metadata_warning(opt_view(*version)->0, name_in_toml@)]
        } else {
            Seq::<Seq<char>>::empty()
        }),
{
    match version {
        Some(v) => {
            if contains_char(v.as_str(), '+') {
                let m = semver_metadata_message(v.as_str(), name_in_toml);
                warnings.push(m);
                assert(strings_view(warnings@) =~= strings_view(old(warnings)@).push(m@));
            } else {
                assert(strings_view(warnings@) =~= strings_view(old(warnings)@) + Seq::<Seq<char>>::empty());
            }
        },
        None => {
            assert(strings_view(warnings@) =~= strings_view(old(warnings)@) + Seq::<Seq<char>>::empty());
        },
    }
}

/// Determines a dependency's source from `git`, `path`, `registry` and `registry-index`.
pub fn to_dependency_source_id(
    orig: &TomlDetailedDependency,
    name_in_toml: &str,
    manifest_ctx: &mut ManifestContext,
) -> (r: Result<DependencySource, DependencyError>)
    ensures
        match r {
            Ok(s) => resolved_outcome(
                toml_fields(*orig),
                name_in_toml@,
                old(manifest_ctx).source_is_path,
                old(manifest_ctx).root@,
            ) == Ok::<SourceView, DependencyErrorView>(s@),
            Err(e) => resolved_outcome(
                toml_fields(*orig),
                name_in_toml@,
                old(manifest_ctx).source_is_path,
                old(manifest_ctx).root@,
            ) == Err::<SourceView, DependencyErrorView>(e@),
        },
        strings_view(final(manifest_ctx).warnings@) == strings_view(old(manifest_ctx).warnings@)
            + fragment_warnings(
            source_fragment(toml_fields(*orig), name_in_toml@, old(manifest_ctx).source_is_path),
            name_in_toml@,
        ),
        final(manifest_ctx).source_is_path == old(manifest_ctx).source_is_path,
        final(manifest_ctx).root == old(manifest_ctx).root,
        final(manifest_ctx).platform == old(manifest_ctx).platform,
{
    source_of(
        &orig.git,
        &orig.path,
        &orig.registry,
        &orig.registry_index,
        &orig.branch,
        &orig.tag,
        &orig.rev,
        name_in_toml,
        manifest_ctx.source_is_path,
        manifest_ctx.root.as_str(),
        &mut manifest_ctx.warnings,
        Ghost(toml_fields(*orig)),
    )
}

fn features_or_empty(features: &Option<Vec<String>>) -> (r: Vec<String>)
    ensures
        strings_view(r@) == features_view(*features),
{
    match features {
        Some(fs) => copy_strings(fs),
        None => {
            let v: Vec<String> = Vec::new();
            assert(strings_view(v@) =~= Seq::<Seq<char>>::empty());
            v
        },
    }
}

fn names_of(package: &Option<String>, name_in_toml: &str) -> (r: (String, Option<String>))
    ensures
        r.0@ == (if let Some(p) = opt_view(*package) {
            p
        } else {
            name_in_toml@
        }),
        opt_view(r.1) == (if package is Some {
            Some(name_in_toml@)
        } else {
            None
        }),
{
    match package {
        Some(p) => (p.clone(), Some(name_in_toml.to_owned())),
        None => (name_in_toml.to_owned(), None),
    }
}

/// Checks a dependency table of the current schema and builds the dependency that Cargo is
/// asked for: the refusals, the warnings and the fields are those of
/// [`spec_detailed_dep_to_dependency`] and [`detailed_dep_warnings`]. Whether Cargo accepts the
/// registry name is Cargo's to decide afterwards.
pub fn detailed_dep_to_dependency(
    orig: &TomlDetailedDependency,
    name_in_toml: &str,
    manifest_ctx: &mut ManifestContext,
    kind: Option<DepKind>,
) -> (r: Result<Dependency, DependencyError>)
    ensures
        match r {
            Ok(dep) => spec_detailed_dep_to_dependency(
                toml_fields(*orig),
                name_in_toml@,
                old(manifest_ctx).source_is_path,
                old(manifest_ctx).root@,
                opt_view(old(manifest_ctx).platform),
                kind,
            ) == Ok::<DependencyView, DependencyErrorView>(dep@),
            Err(e) => spec_detailed_dep_to_dependency(
                toml_fields(*orig),
                name_in_toml@,
                old(manifest_ctx).source_is_path,
                old(manifest_ctx).root@,
                opt_view(old(manifest_ctx).platform),
                kind,
            ) == Err::<DependencyView, DependencyErrorView>(e@),
        },
        strings_view(final(manifest_ctx).warnings@) == strings_view(old(manifest_ctx).warnings@)
            + detailed_dep_warnings(
            toml_fields(*orig),
            name_in_toml@,
            old(manifest_ctx).source_is_path,
        ),
        final(manifest_ctx).source_is_path == old(manifest_ctx).source_is_path,
        final(manifest_ctx).root == old(manifest_ctx).root,
        final(manifest_ctx).platform == old(manifest_ctx).platform,
{
    let ghost d = toml_fields(*orig);
    let ghost w0 = strings_view(manifest_ctx.warnings@);
    if orig.version.is_none() && orig.path.is_none() && orig.git.is_none() {
        assert(w0 + detailed_dep_warnings(d, name_in_toml@, manifest_ctx.source_is_path) =~= w0);
        return Err(DependencyError::NoSource { name_in_toml: name_in_toml.to_owned() });
    }
    push_semver_warning(&orig.version, name_in_toml, &mut manifest_ctx.warnings);
    let ghost w1 = strings_view(manifest_ctx.warnings@);
    match check_git_only_keys(&orig.git, &orig.branch, &orig.tag, &orig.rev, name_in_toml, Ghost(d)) {
        Err(e) => {
            assert(w1 =~= w0 + detailed_dep_warnings(d, name_in_toml@, manifest_ctx.source_is_path));
            return Err(e);
        },
        Ok(_) => {},
    }
    match check_features(&orig.features, name_in_toml) {
        Err(e) => {
            assert(w1 =~= w0 + detailed_dep_warnings(d, name_in_toml@, manifest_ctx.source_is_path));
            return Err(e);
        },
        Ok(_) => {},
    }
    let source = match to_dependency_source_id(orig, name_in_toml, manifest_ctx) {
        Err(e) => {
            assert(strings_view(manifest_ctx.warnings@) =~= w0 + detailed_dep_warnings(d, name_in_toml@, manifest_ctx.source_is_path));
            return Err(e);
        },
        Ok(s) => s,
    };
    assert(strings_view(manifest_ctx.warnings@) =~= w0 + detailed_dep_warnings(d, name_in_toml@, manifest_ctx.source_is_path));
    let (pkg_name, explicit_name_in_toml) = names_of(&orig.package, name_in_toml);
    match check_version(&orig.version, &pkg_name, Ghost(d), Ghost(name_in_toml@)) {
        Err(e) => return Err(e),
        Ok(_) => {},
    }
    let registry_id = match registry_id_of(&orig.registry, &orig.registry_index, Ghost(d)) {
        Err(e) => return Err(e),
        Ok(id) => id,
    };
    let default_features = match orig.default_features() {
        Some(b) => b,
        None => true,
    };
    let optional = match orig.optional {
        Some(b) => b,
        None => false,
    };
    let kind_set = match kind {
        Some(k) => k,
        None => DepKind::Normal,
    };
    let public = match orig.public {
        Some(p) => p,
        None => false,
    };
    let dep = Dependency {
        name: pkg_name,
        version: copy_opt(&orig.version),
        source,
        explicit_name_in_toml,
        features: features_or_empty(&orig.features),
        default_features,
        optional,
        registry_id,
        kind: kind_set,
        public,
        platform: copy_opt(&manifest_ctx.platform),
    };
    Ok(dep)
}

impl DetailedTomlDependency {
    /// Checks a dependency table of the older schema and builds the dependency that Cargo is
    /// asked for: the refusals, the warnings and the recorded nested paths are those of
    /// [`spec_to_dependency`], [`to_dependency_warnings`] and [`to_dependency_nested_paths`].
    #[verifier::rlimit(60)]
    pub fn to_dependency(&self, name_in_toml: &str, cx: &mut Context, kind: Option<DepKind>) -> (r:
        Result<Dependency, DependencyError>)
        ensures
            match r {
                Ok(dep) => spec_to_dependency(
                    detailed_fields(*self),
                    name_in_toml@,
                    old(cx).source_is_path,
                    old(cx).root@,
                    opt_view(old(cx).platform),
                    old(cx).public_dependency_enabled,
                    kind,
                ) == Ok::<DependencyView, DependencyErrorView>(dep@),
                Err(e) => spec_to_dependency(
                    detailed_fields(*self),
                    name_in_toml@,
                    old(cx).source_is_path,
                    old(cx).root@,
                    opt_view(old(cx).platform),
                    old(cx).public_dependency_enabled,
                    kind,
                ) == Err::<DependencyView, DependencyErrorView>(e@),
            },
            strings_view(final(cx).warnings@) == strings_view(old(cx).warnings@)
                + to_dependency_warnings(
                detailed_fields(*self),
                name_in_toml@,
                old(cx).source_is_path,
            ),
            strings_view(final(cx).nested_paths@) == strings_view(old(cx).nested_paths@)
                + to_dependency_nested_paths(
                detailed_fields(*self),
                name_in_toml@,
                old(cx).source_is_path,
            ),
            final(cx).source_is_path == old(cx).source_is_path,
            final(cx).root == old(cx).root,
            final(cx).public_dependency_enabled == old(cx).public_dependency_enabled,
            final(cx).platform == old(cx).platform,
    {
        let ghost d = detailed_fields(*self);
        let ghost w0 = strings_view(cx.warnings@);
        let ghost n0 = strings_view(cx.nested_paths@);
        if self.version.is_none() && self.path.is_none() && self.git.is_none() {
            let m = no_source_message(name_in_toml);
            cx.warnings.push(m);
            assert(strings_view(cx.warnings@) =~= w0.push(m@));
        } else {
            assert(strings_view(cx.warnings@) =~= w0 + Seq::<Seq<char>>::empty());
        }
        push_semver_warning(&self.version, name_in_toml, &mut cx.warnings);
        let ghost w1 = strings_view(cx.warnings@);
        let ghost expected = to_dependency_warnings(d, name_in_toml@, cx.source_is_path);
        match check_git_only_keys(&self.git, &self.branch, &self.tag, &self.rev, name_in_toml, Ghost(d)) {
            Err(e) => {
                assert(w1 =~= w0 + expected);
                assert(n0 + to_dependency_nested_paths(d, name_in_toml@, cx.source_is_path) =~= n0);
                return Err(e);
            },
            Ok(_) => {},
        }
        match check_features(&self.features, name_in_toml) {
            Err(e) => {
                assert(w1 =~= w0 + expected);
                assert(n0 + to_dependency_nested_paths(d, name_in_toml@, cx.source_is_path) =~= n0);
                return Err(e);
            },
            Ok(_) => {},
        }
        let source = match source_of(
            &self.git,
            &self.path,
            &self.registry,
            &self.registry_index,
            &self.branch,
            &self.tag,
            &self.rev,
            name_in_toml,
            cx.source_is_path,
            cx.root.as_str(),
            &mut cx.warnings,
            Ghost(d),
        ) {
            Err(e) => {
                assert(strings_view(cx.warnings@) =~= w0 + expected);
                assert(n0 + to_dependency_nested_paths(d, name_in_toml@, cx.source_is_path) =~= n0);
                return Err(e);
            },
            Ok(s) => s,
        };
        if self.git.is_none() {
            match &self.path {
                Some(p) => {
                    cx.nested_paths.push(p.clone());
                    assert(strings_view(cx.nested_paths@) =~= n0 + seq![p@]);
                },
                None => {
                    assert(strings_view(cx.nested_paths@) =~= n0 + Seq::<Seq<char>>::empty());
                },
            }
        } else {
            assert(strings_view(cx.nested_paths@) =~= n0 + Seq::<Seq<char>>::empty());
        }
        let (pkg_name, explicit_name_in_toml) = names_of(&self.package, name_in_toml);
        match check_version(&self.version, &pkg_name, Ghost(d), Ghost(name_in_toml@)) {
            Err(e) => {
                assert(strings_view(cx.warnings@) =~= w0 + expected);
                return Err(e);
            },
            Ok(_) => {},
        }
        let ghost w2 = strings_view(cx.warnings@);
        if self.default_features.is_some() && self.default_features2.is_some() {
            warn_on_deprecated("default-features", name_in_toml, "dependency", &mut cx.warnings);
            assert(strings_view(cx.warnings@) =~= w2.push(strings_view(cx.warnings@).last()));
        }
        assert(strings_view(cx.warnings@) =~= w0 + expected);
        let registry_id = match registry_id_of(&self.registry, &self.registry_index, Ghost(d)) {
            Err(e) => return Err(e),
            Ok(id) => id,
        };
        let kind_set = match kind {
            Some(k) => k,
            None => DepKind::Normal,
        };
        let public = match self.public {
            Some(p) => {
                if !cx.public_dependency_enabled {
                    return Err(DependencyError::PublicDependencyNotEnabled);
                }
                if kind_set != DepKind::Normal {
                    return Err(DependencyError::PublicOnNonNormal { kind: kind_set });
                }
                p
            },
            None => false,
        };
        let default_features = match self.default_features {
            Some(b) => b,
            None => match self.default_features2 {
                Some(b) => b,
                None => true,
            },
        };
        let optional = match self.optional {
            Some(b) => b,
            None => false,
        };
        Ok(
            Dependency {
                name: pkg_name,
                version: copy_opt(&self.version),
                source,
                explicit_name_in_toml,
                features: features_or_empty(&self.features),
                default_features,
                optional,
                registry_id,
                kind: kind_set,
                public,
                platform: copy_opt(&cx.platform),
            },
        )
    }
}


// ---------------------------------------------------------------------------------------------
// Library entries
// ---------------------------------------------------------------------------------------------

/// The lines that list unknown keys, one `\n    key` per key.
pub open spec fn key_lines(keys: Seq<Seq<char>>) -> Seq<char>
    decreases keys.len(),
{
    if keys.len() == 0 {
        Seq::empty()
    } else {
        key_lines(keys.drop_last()) + "\n    "@ + keys.last()
    }
}

/// The message that refuses a library entry with unknown keys, listed in the given order.
pub open spec fn unknown_keys_message(keys: Seq<Seq<char>>) -> Seq<char> {
    "Unknown library keys:"@ + key_lines(keys)
}

fn render_unknown_keys(keys: &Vec<String>) -> (r: String)
    ensures
        r@ == unknown_keys_message(strings_view(keys@)),
{
    let mut m = String::new();
    append_str(&mut m, "Unknown library keys:");
    let mut i: usize = 0;
    while i < keys.len()
        invariant
            i <= keys@.len(),
            m@ == unknown_keys_message(strings_view(keys@.take(i as int))),
        decreases keys@.len() - i,
    {
        append_str(&mut m, "\n    ");
        append_str(&mut m, keys[i].as_str());
        assert(strings_view(keys@.take(i + 1)).drop_last() =~= strings_view(keys@.take(i as int)));
        assert(strings_view(keys@.take(i + 1)).last() == keys@[i as int]@);
        i = i + 1;
    }
    assert(keys@.take(keys@.len() as int) =~= keys@);
    m
}

/// Refuses a library entry whose table has keys that the schema does not know; the message lists
/// them in ascending order.
pub fn toml_detailed_dependency(details: &TomlDetailedDependency) -> (r: Result<(), String>)
    ensures
        r is Ok <==> details.unused_keys@.len() == 0,
        r matches Err(m) ==> exists|keys: Seq<Seq<char>>|
            #![trigger unknown_keys_message(keys)]
            crate::text::lex_strictly_sorted(keys) && (forall|x: Seq<char>|
                keys.contains(x) <==> strings_view(details.unused_keys@).contains(x)) && m@
                == unknown_keys_message(keys),
{
    let keys = details.unused_keys();
    if keys.is_empty() {
        proof {
            if details.unused_keys@.len() > 0 {
                let x = details.unused_keys@[0]@;
                assert(strings_view(details.unused_keys@)[0] == x);
                assert(strings_view(details.unused_keys@).contains(x));
                assert(strings_view(keys@).contains(x));
                assert(strings_view(keys@).len() == 0);
            }
        }
        return Ok(());
    }
    let m = render_unknown_keys(&keys);
    proof {
        assert(strings_view(keys@).contains(strings_view(keys@)[0]));
        assert(details.unused_keys@.len() > 0);
    }
    Err(m)
}

/// A hexadecimal digit, in lower case.
pub open spec fn hex_digit_char(n: u32) -> char {
    if n < 10 {
        (('0' as u32) + n) as char
    } else {
        (('a' as u32) + n - 10) as char
    }
}

/// How `serde_json` writes one character inside a string literal: `"` and `\` behind a
/// backslash; backspace, tab, line feed, form feed and carriage return as `\b`, `\t`, `\n`,
/// `\f`, `\r`; the other characters below U+0020 as `\u00` and two lower-case hex digits;
/// every other character as itself.
pub open spec fn json_char(c: char) -> Seq<char> {
    let n = c as u32;
    if c == '"' {
        seq!['\\', '"']
    } else if c == '\\' {
        seq!['\\', '\\']
    } else if n == 0x8 {
        seq!['\\', 'b']
    } else if n == 0x9 {
        seq!['\\', 't']
    } else if n == 0xa {
        seq!['\\', 'n']
    } else if n == 0xc {
        seq!['\\', 'f']
    } else if n == 0xd {
        seq!['\\', 'r']
    } else if n < 0x20 {
        seq!['\\', 'u', '0', '0', hex_digit_char(n / 16), hex_digit_char(n % 16)]
    } else {
        seq![c]
    }
}

/// The characters of a string, each as `serde_json` writes it inside a literal.
pub open spec fn json_escaped(s: Seq<char>) -> Seq<char>
    decreases s.len(),
{
    if s.len() == 0 {
        Seq::empty()
    } else {
        json_escaped(s.drop_last()) + json_char(s.last())
    }
}

/// JSON's rendering of a string (a quoted literal), as `serde_json` writes it.
pub open spec fn json_string(s: Seq<char>) -> Seq<char> {
    seq!['"'] + json_escaped(s) + seq!['"']
}

/// Serializes a string with `serde_json::to_string`. For a `str` that call writes the escaped
/// literal (see [`json_string`]: `serde_json`'s escape table) into a `Vec<u8>`, whose writer never
/// fails, so it always returns `Ok`: the result is `Some` of the literal.
#[verifier::external_body]
pub(crate) fn json_quote(s: &str) -> (r: Option<String>)
    ensures
        r is Some,
        r matches Some(j) ==> j@ == json_string(s@),
{
    serde_json::to_string(s).ok()
}

/// JSON's rendering of an optional string (`null` when absent).
pub open spec fn json_opt(s: Option<Seq<char>>) -> Seq<char> {
    match s {
        Some(x) => json_string(x),
        None => "null"@,
    }
}

/// The source id of a git dependency: the JSON object of its URL and reference.
pub open spec fn git_source_id_spec(
    url: Seq<char>,
    branch: Option<Seq<char>>,
    tag: Option<Seq<char>>,
    rev: Option<Seq<char>>,
) -> Seq<char> {
    "{\"url\":"@ + json_string(url) + ",\"branch\":"@ + json_opt(branch) + ",\"tag\":"@ + json_opt(
        tag,
    ) + ",\"rev\":"@ + json_opt(rev) + "}"@
}

fn append_json_opt(m: &mut String, s: &Option<String>) -> (ok: bool)
    ensures
        ok,
        final(m)@ == old(m)@ + json_opt(opt_view(*s)),
{
    match s {
        Some(x) => match json_quote(x.as_str()) {
            Some(j) => {
                append_str(m, j.as_str());
                true
            },
            None => false,
        },
        None => {
            append_str(m, "null");
            true
        },
    }
}

/// The source id of a git dependency: `{"url":...,"branch":...,"tag":...,"rev":...}` as
/// `serde_json` writes that object; serializing strings does not fail, so it is always `Some`.
pub fn git_source_id(url: &str, details: &TomlDetailedDependency) -> (r: Option<String>)
    ensures
        r matches Some(s) && s@ == git_source_id_spec(
            url@,
            opt_view(details.branch),
            opt_view(details.tag),
            opt_view(details.rev),
        ),
{
    let mut m = String::new();
    append_str(&mut m, "{\"url\":");
    match json_quote(url) {
        Some(j) => append_str(&mut m, j.as_str()),
        None => return None,
    }
    append_str(&mut m, ",\"branch\":");
    if !append_json_opt(&mut m, &details.branch) {
        return None;
    }
    append_str(&mut m, ",\"tag\":");
    if !append_json_opt(&mut m, &details.tag) {
        return None;
    }
    append_str(&mut m, ",\"rev\":");
    if !append_json_opt(&mut m, &details.rev) {
        return None;
    }
    append_str(&mut m, "}");
    Some(m)
}

/// How a library entry's source is found: by fetching a git repository, or at a path (the entry's
/// `path` joined onto the workspace root).
#[derive(Clone, Debug)]
pub enum SourcePlan {
    Git { source_id: String, url: String },
    Path { source_id: String, path: String },
}

/// Why a library entry's source cannot be found.
#[derive(Clone, Debug)]
pub enum SourcePlanError {
    /// Both `git` and `path` are given.
    GitAndPath,
    /// Neither `git` nor `path` is given.
    NoGitOrPath,
}

/// Decides how a library entry's source is found: a git entry (which must not also have a path)
/// gets its JSON source id; a path entry gets the empty source id and, as its root, the path
/// joined onto the workspace root; anything else is refused.
pub fn dependency_source_plan(details: &TomlDetailedDependency, workspace_root: &str) -> (r: Result<
    SourcePlan,
    SourcePlanError,
>)
    ensures
        details.git matches Some(url) ==> match r {
            Ok(SourcePlan::Git { source_id, url: u }) => details.path is None && u@ == url@
                && source_id@ == git_source_id_spec(
                url@,
                opt_view(details.branch),
                opt_view(details.tag),
                opt_view(details.rev),
            ),
            Err(SourcePlanError::GitAndPath) => details.path is Some,
            _ => false,
        },
        details.git is None ==> match r {
            Ok(SourcePlan::Path { source_id, path }) => source_id@.len() == 0 && (
            details.path matches Some(p) && path@ == crate::paths::path_joined(
                workspace_root@,
                p@,
            )),
            Err(SourcePlanError::NoGitOrPath) => details.path is None,
            _ => false,
        },
{
    match &details.git {
        Some(url) => {
            if details.path.is_some() {
                return Err(SourcePlanError::GitAndPath);
            }
            let source_id = git_source_id(url.as_str(), details).unwrap();
            Ok(SourcePlan::Git { source_id, url: url.clone() })
        },
        None => match &details.path {
            Some(p) => Ok(
                SourcePlan::Path {
                    source_id: String::new(),
                    path: crate::paths::join_path(workspace_root, p.as_str()),
                },
            ),
            None => Err(SourcePlanError::NoGitOrPath),
        },
    }
}

/// A library entry of `workspace.metadata.dylint.libraries`: a dependency table and an optional
/// `pattern`.
#[derive(Debug)]
pub struct Library {
    pub pattern: Option<StringOrVec>,
    pub details: TomlDetailedDependency,
}

/// More than one library package was named with `--path`.
#[derive(Debug)]
pub struct TooManyPaths;

/// The library entry that `--git` or `--path` names: its `path` (the one `--path`, given here
/// canonicalized), `git`, `branch`, `tag` and `rev`, and its `pattern`. At most one `--path` may
/// be given.
pub fn library_from_selection(
    sel: &crate::opts::LibrarySelection,
    canonical_path: Option<String>,
) -> (r: Result<Library, TooManyPaths>)
    ensures
        sel.paths@.len() > 1 <==> r is Err,
        r matches Ok(lib) ==> {
            &&& toml_fields(lib.details) == (DepFields {
                version: None,
                registry: None,
                registry_index: None,
                path: if sel.paths@.len() == 1 {
                    opt_view(canonical_path)
                } else {
                    None
                },
                git: opt_view(sel.git),
                branch: opt_view(sel.branch),
                tag: opt_view(sel.tag),
                rev: opt_view(sel.rev),
                features: Seq::empty(),
                optional: None,
                default_features: None,
                default_features2: None,
                package: None,
                public: None,
            })
            &&& lib.details.features is None
            &&& lib.details.artifact is None
            &&& lib.details.lib is None
            &&& lib.details.target is None
            &&& lib.details.unused_keys@.len() == 0
            &&& match sel.pattern {
                Some(p) => lib.pattern matches Some(v) && strings_view(v.0@) == seq![p@],
                None => lib.pattern is None,
            }
        },
{
    if sel.paths.len() > 1 {
        return Err(TooManyPaths);
    }
    let path = if sel.paths.len() == 1 {
        canonical_path
    } else {
        None
    };
    let pattern = match &sel.pattern {
        Some(p) => {
            let mut v: Vec<String> = Vec::new();
            v.push(p.clone());
            assert(strings_view(v@) =~= seq![p@]);
            Some(StringOrVec(v))
        },
        None => None,
    };
    let details = TomlDetailedDependency {
        version: None,
        registry: None,
        registry_index: None,
        path,
        git: copy_opt(&sel.git),
        branch: copy_opt(&sel.branch),
        tag: copy_opt(&sel.tag),
        rev: copy_opt(&sel.rev),
        features: None,
        optional: None,
        default_features: None,
        default_features2: None,
        package: None,
        public: None,
        artifact: None,
        lib: None,
        target: None,
        unused_keys: Vec::new(),
    };
    Ok(Library { pattern, details })
}

/// A package's identity: its name, version and source id.
#[derive(Clone, Debug)]
pub struct PackageId {
    name: String,
    version: String,
    source_id: String,
}

impl PackageId {
    /// The identity of package `name` at `version` from `source_id`.
    pub fn new(name: String, version: String, source_id: String) -> (r: Self)
        ensures
            r.name_spec() == name@,
            r.version_spec() == version@,
            r.source_id_spec() == source_id@,
    {
        PackageId { name, version, source_id }
    }

    pub closed spec fn name_spec(&self) -> Seq<char> {
        self.name@
    }

    pub closed spec fn version_spec(&self) -> Seq<char> {
        self.version@
    }

    pub closed spec fn source_id_spec(&self) -> Seq<char> {
        self.source_id@
    }

    /// The package's name.
    pub fn name(&self) -> (r: &str)
        ensures
            r@ == self.name_spec(),
    {
        self.name.as_str()
    }

    /// The package's version.
    pub fn version(&self) -> (r: &str)
        ensures
            r@ == self.version_spec(),
    {
        self.version.as_str()
    }

    /// The package's source id.
    pub fn source_id(&self) -> (r: &str)
        ensures
            r@ == self.source_id_spec(),
    {
        self.source_id.as_str()
    }
}


/// A git dependency resolves to a git source at the URL as parsed, whose reference is the one its
/// `branch`, `tag` or `rev` names (`rev = "x"` gives the commit `x`, and likewise for branches
/// and tags; none gives the default branch); and where it has a URL that parses, no path, no
/// registry and at most one of those keys, it does resolve. This holds of both schemas'
/// checks (see [`detailed_dep_to_dependency`] and [`DetailedTomlDependency::to_dependency`]).
pub proof fn lemma_git_reference_resolved(
    d: DepFields,
    name: Seq<char>,
    source_is_path: bool,
    root: Seq<char>,
    platform: Option<Seq<char>>,
    public_dependency_enabled: bool,
    kind: Option<DepKind>,
)
    requires
        d.git is Some,
    ensures
        source_outcome(d, name, source_is_path) matches Ok(src) ==> (src matches SourceView::Git {
            url,
            reference,
        } && parsed_url(d.git->0) matches Some(u) && url == u.0 && reference_wanted(d, reference)),
        spec_detailed_dep_to_dependency(d, name, source_is_path, root, platform, kind) matches Ok(
            dep,
        ) ==> (dep.source matches SourceView::Git { reference, .. } && reference_wanted(
            d,
            reference,
        )),
        spec_to_dependency(d, name, source_is_path, root, platform, public_dependency_enabled, kind)
            matches Ok(dep) ==> (dep.source matches SourceView::Git { reference, .. }
            && reference_wanted(d, reference)),
        (d.path is None && d.registry is None && d.registry_index is None && n_git_details(d) <= 1
            && parsed_url(d.git->0) is Some) ==> source_outcome(d, name, source_is_path) is Ok,
{
}
} // verus!
