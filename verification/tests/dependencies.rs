use dylint::dependency::{
    dependency_source_plan, detailed_dep_to_dependency, git_source_id, to_dependency_source_id,
    toml_detailed_dependency, warn_on_deprecated, Context, DepKind, DependencyError,
    DependencySource, DetailedTomlDependency, GitOnlyKey, GitReference, GlobalContext,
    ManifestContext, RegistryId, ResolveToPath, SourcePlan, SourcePlanError, StringOrVec,
    TomlDetailedDependency,
};

const DYLINT_URL: &str = "https://github.com/trailofbits/dylint";

fn entry() -> TomlDetailedDependency {
    TomlDetailedDependency {
        version: None,
        registry: None,
        registry_index: None,
        path: None,
        git: None,
        branch: None,
        tag: None,
        rev: None,
        features: None,
        optional: None,
        default_features: None,
        default_features2: None,
        package: None,
        public: None,
        artifact: None,
        lib: None,
        target: None,
        unused_keys: Vec::new(),
    }
}

fn old_entry() -> DetailedTomlDependency {
    DetailedTomlDependency {
        version: None,
        registry: None,
        registry_index: None,
        path: None,
        git: None,
        branch: None,
        tag: None,
        rev: None,
        features: None,
        optional: None,
        default_features: None,
        default_features2: None,
        package: None,
        public: None,
        artifact: None,
        lib: None,
        target: None,
    }
}

fn ctx(source_is_path: bool) -> ManifestContext {
    ManifestContext { source_is_path, root: "/ws".to_owned(), warnings: Vec::new(), platform: None }
}

fn old_ctx(public_dependency_enabled: bool) -> Context {
    Context {
        source_is_path: true,
        root: "/ws".to_owned(),
        nested_paths: Vec::new(),
        warnings: Vec::new(),
        public_dependency_enabled,
        platform: None,
    }
}

#[test]
fn git_entry_with_tag() {
    let mut e = entry();
    e.git = Some(DYLINT_URL.to_owned());
    e.tag = Some("v5.0.0".to_owned());
    let mut c = ctx(true);
    let dep = detailed_dep_to_dependency(&e, "dylint", &mut c, None).unwrap();
    assert_eq!(dep.name, "dylint");
    assert!(dep.version.is_none());
    match &dep.source {
        DependencySource::Git { url, reference: GitReference::Tag(t) } => {
            assert_eq!(url, DYLINT_URL);
            assert_eq!(t, "v5.0.0");
        }
        other => panic!("unexpected source: {other:?}"),
    }
    assert!(dep.explicit_name_in_toml.is_none());
    assert!(dep.features.is_empty());
    assert!(dep.default_features);
    assert!(!dep.optional);
    assert!(dep.registry_id.is_none());
    assert_eq!(dep.kind, DepKind::Normal);
    assert!(!dep.public);
    assert!(c.warnings.is_empty());
}

#[test]
fn git_entry_without_reference_uses_default_branch() {
    let mut e = entry();
    e.git = Some(DYLINT_URL.to_owned());
    let dep = detailed_dep_to_dependency(&e, "dylint", &mut ctx(true), Some(DepKind::Build)).unwrap();
    assert!(matches!(dep.source, DependencySource::Git { reference: GitReference::DefaultBranch, .. }));
    assert_eq!(dep.kind, DepKind::Build);
}

#[test]
fn entry_without_source_is_refused() {
    let mut c = ctx(true);
    let err = detailed_dep_to_dependency(&entry(), "lib", &mut c, None).unwrap_err();
    assert!(matches!(err, DependencyError::NoSource { ref name_in_toml } if name_in_toml == "lib"));
    assert!(c.warnings.is_empty());
}

#[test]
fn git_only_keys_need_git() {
    let mut e = entry();
    e.path = Some("examples".to_owned());
    e.rev = Some("abc".to_owned());
    let err = detailed_dep_to_dependency(&e, "lib", &mut ctx(true), None).unwrap_err();
    assert!(matches!(err, DependencyError::GitOnlyKey { key: GitOnlyKey::Rev, .. }));
    e.branch = Some("main".to_owned());
    let err = detailed_dep_to_dependency(&e, "lib", &mut ctx(true), None).unwrap_err();
    assert!(matches!(err, DependencyError::GitOnlyKey { key: GitOnlyKey::Branch, .. }));
}

#[test]
fn features_with_slash_or_dep_prefix_are_refused() {
    let mut e = entry();
    e.version = Some("1.0".to_owned());
    e.features = Some(vec!["ok".to_owned(), "a/b".to_owned(), "dep:c".to_owned()]);
    let err = detailed_dep_to_dependency(&e, "lib", &mut ctx(true), None).unwrap_err();
    assert!(matches!(err, DependencyError::FeatureWithSlash { ref feature, .. } if feature == "a/b"));
    e.features = Some(vec!["dep:c".to_owned()]);
    let err = detailed_dep_to_dependency(&e, "lib", &mut ctx(true), None).unwrap_err();
    assert!(matches!(err, DependencyError::FeatureWithDepPrefix { ref feature, .. } if feature == "dep:c"));
}

#[test]
fn conflicting_sources_are_refused() {
    let mut e = entry();
    e.git = Some(DYLINT_URL.to_owned());
    e.path = Some("examples".to_owned());
    let err = detailed_dep_to_dependency(&e, "lib", &mut ctx(true), None).unwrap_err();
    assert!(matches!(err, DependencyError::GitAndPath { .. }));

    let mut e = entry();
    e.git = Some(DYLINT_URL.to_owned());
    e.branch = Some("master".to_owned());
    e.tag = Some("v5.0.0".to_owned());
    let err = detailed_dep_to_dependency(&e, "lib", &mut ctx(true), None).unwrap_err();
    assert!(matches!(err, DependencyError::MultipleGitReferences { .. }));

    let mut e = entry();
    e.git = Some(DYLINT_URL.to_owned());
    e.registry = Some("my-registry".to_owned());
    let err = detailed_dep_to_dependency(&e, "lib", &mut ctx(true), None).unwrap_err();
    assert!(matches!(err, DependencyError::GitAndRegistry { .. }));

    let mut e = entry();
    e.version = Some("1.0".to_owned());
    e.registry = Some("my-registry".to_owned());
    e.registry_index = Some("https://example.com/index".to_owned());
    let err = detailed_dep_to_dependency(&e, "lib", &mut ctx(true), None).unwrap_err();
    assert!(matches!(err, DependencyError::RegistryAndIndex { .. }));
}

#[test]
fn invalid_git_url_is_refused() {
    let mut e = entry();
    e.git = Some("not a url".to_owned());
    let err = detailed_dep_to_dependency(&e, "lib", &mut ctx(true), None).unwrap_err();
    assert!(matches!(err, DependencyError::InvalidUrl { ref url } if url == "not a url"));
}

#[test]
fn url_fragment_is_warned_about() {
    let mut e = entry();
    e.git = Some("https://github.com/trailofbits/dylint#abc".to_owned());
    let mut c = ctx(true);
    assert!(detailed_dep_to_dependency(&e, "dylint", &mut c, None).is_ok());
    assert_eq!(
        c.warnings,
        vec![
            "URL fragment `#abc` in git URL is ignored for dependency (dylint). If you were trying \
             to specify a specific git revision, use `rev = \"abc\"` in the dependency declaration."
                .to_owned()
        ]
    );
}

#[test]
fn semver_metadata_is_warned_about() {
    let mut e = entry();
    e.version = Some("1.0.0+meta".to_owned());
    let mut c = ctx(true);
    let dep = detailed_dep_to_dependency(&e, "dylint", &mut c, None).unwrap();
    assert!(matches!(dep.source, DependencySource::CratesIo));
    assert_eq!(dep.version.as_deref(), Some("1.0.0+meta"));
    assert_eq!(
        c.warnings,
        vec![
            "version requirement `1.0.0+meta` for dependency `dylint` includes semver metadata \
             which will be ignored, removing the metadata is recommended to avoid confusion"
                .to_owned()
        ]
    );
}

#[test]
fn path_source_depends_on_the_manifest() {
    let mut e = entry();
    e.path = Some("examples/*".to_owned());
    let mut c = ctx(true);
    match to_dependency_source_id(&e, "lib", &mut c).unwrap() {
        DependencySource::Path { path } => assert_eq!(path, "/ws/examples/*"),
        other => panic!("unexpected source: {other:?}"),
    }
    let mut c = ctx(false);
    assert!(matches!(
        to_dependency_source_id(&e, "lib", &mut c).unwrap(),
        DependencySource::Manifest
    ));
    e.path = Some("./lints/../other//lib/.".to_owned());
    let mut c = ctx(true);
    match to_dependency_source_id(&e, "lib", &mut c).unwrap() {
        DependencySource::Path { path } => assert_eq!(path, "/ws/other/lib"),
        other => panic!("unexpected source: {other:?}"),
    }
    e.path = Some("/abs/../x".to_owned());
    let mut c = ctx(true);
    match to_dependency_source_id(&e, "lib", &mut c).unwrap() {
        DependencySource::Path { path } => assert_eq!(path, "/x"),
        other => panic!("unexpected source: {other:?}"),
    }
}

#[test]
fn registries_are_recorded() {
    let mut e = entry();
    e.version = Some("1.0".to_owned());
    e.registry = Some("my-registry".to_owned());
    let dep = detailed_dep_to_dependency(&e, "lib", &mut ctx(true), None).unwrap();
    match (&dep.source, &dep.registry_id) {
        (DependencySource::Registry { name }, Some(RegistryId::Named(id))) => {
            assert_eq!(name, "my-registry");
            assert_eq!(id, "my-registry");
        }
        other => panic!("unexpected: {other:?}"),
    }
}

#[test]
fn package_renames_the_dependency() {
    let mut e = entry();
    e.version = Some("1.0".to_owned());
    e.package = Some("real-name".to_owned());
    e.optional = Some(true);
    e.default_features2 = Some(false);
    e.features = Some(vec!["x".to_owned()]);
    let dep = detailed_dep_to_dependency(&e, "alias", &mut ctx(true), None).unwrap();
    assert_eq!(dep.name, "real-name");
    assert_eq!(dep.explicit_name_in_toml.as_deref(), Some("alias"));
    assert!(dep.optional);
    assert!(!dep.default_features);
    assert_eq!(dep.features, vec!["x".to_owned()]);
}

#[test]
fn default_features_prefers_the_dashed_key() {
    let mut e = entry();
    assert_eq!(e.default_features(), None);
    e.default_features2 = Some(false);
    assert_eq!(e.default_features(), Some(false));
    e.default_features = Some(true);
    assert_eq!(e.default_features(), Some(true));
}

#[test]
fn older_schema_checks_public_and_records_paths() {
    let mut e = old_entry();
    e.path = Some("lints".to_owned());
    e.public = Some(true);
    let mut c = old_ctx(false);
    let err = e.to_dependency("lib", &mut c, None).unwrap_err();
    assert!(matches!(err, DependencyError::PublicDependencyNotEnabled));

    let mut c = old_ctx(true);
    let err = e.to_dependency("lib", &mut c, Some(DepKind::Development)).unwrap_err();
    assert!(matches!(err, DependencyError::PublicOnNonNormal { kind: DepKind::Development }));

    let mut c = old_ctx(true);
    let dep = e.to_dependency("lib", &mut c, None).unwrap();
    assert!(dep.public);
    assert_eq!(c.nested_paths, vec!["lints".to_owned()]);
    match &dep.source {
        DependencySource::Path { path } => assert_eq!(path, "/ws/lints"),
        other => panic!("unexpected source: {other:?}"),
    }
}

#[test]
fn older_schema_path_source_is_joined_and_normalized() {
    let mut e = old_entry();
    e.path = Some("lints".to_owned());
    e.default_features = Some(false);
    e.default_features2 = Some(true);
    let mut c = old_ctx(false);
    let dep = e.to_dependency("library", &mut c, None).unwrap();
    assert!(!dep.default_features && !dep.optional);
    match &dep.source {
        DependencySource::Path { path } => assert_eq!(path, "/ws/lints"),
        other => panic!("unexpected source: {other:?}"),
    }
    assert_eq!(c.nested_paths, vec!["lints".to_owned()]);
    assert_eq!(c.warnings.len(), 1);
    assert!(c.warnings[0].starts_with(
        "conflicting between `default-features` and `default_features` in the `library` dependency."
    ));
}

#[test]
fn older_schema_warns_about_missing_source_and_duplicate_keys() {
    let mut c = old_ctx(false);
    let dep = old_entry().to_dependency("lib", &mut c, None).unwrap();
    assert!(matches!(dep.source, DependencySource::CratesIo));
    assert_eq!(
        c.warnings,
        vec![
            "dependency (lib) specified without providing a local path, Git repository, or \
             version to use. This will be considered an error in future versions"
                .to_owned()
        ]
    );

    let mut e = old_entry();
    e.version = Some("1".to_owned());
    e.default_features = Some(true);
    e.default_features2 = Some(false);
    let mut c = old_ctx(false);
    let dep = e.to_dependency("lib", &mut c, None).unwrap();
    assert!(dep.default_features);
    assert_eq!(
        c.warnings,
        vec![
            "conflicting between `default-features` and `default_features` in the `lib` \
             dependency.\n\n        `default_features` is ignored and not recommended for use \
             in the future"
                .to_owned()
        ]
    );
}

#[test]
fn deprecated_warning_text() {
    let mut warnings = vec!["earlier".to_owned()];
    warn_on_deprecated("dev-dependencies", "pkg", "package", &mut warnings);
    assert_eq!(warnings.len(), 2);
    assert_eq!(warnings[0], "earlier");
    assert_eq!(
        warnings[1],
        "conflicting between `dev-dependencies` and `dev_dependencies` in the `pkg` package.\n\n        `dev_dependencies` is ignored and not recommended for use in the future"
    );
}

#[test]
fn unknown_keys_are_listed_in_order() {
    let mut e = entry();
    assert!(toml_detailed_dependency(&e).is_ok());
    e.unused_keys = vec!["zeta".to_owned(), "alpha".to_owned(), "zeta".to_owned()];
    assert_eq!(e.unused_keys(), vec!["alpha".to_owned(), "zeta".to_owned()]);
    assert_eq!(
        toml_detailed_dependency(&e).unwrap_err(),
        "Unknown library keys:\n    alpha\n    zeta"
    );
}

#[test]
fn git_source_id_is_json() {
    let mut e = entry();
    e.branch = Some("ma\"in".to_owned());
    assert_eq!(
        git_source_id(DYLINT_URL, &e).unwrap(),
        "{\"url\":\"https://github.com/trailofbits/dylint\",\"branch\":\"ma\\\"in\",\"tag\":null,\"rev\":null}"
    );
}

#[test]
fn source_plans() {
    let mut e = entry();
    assert!(matches!(dependency_source_plan(&e, "/ws"), Err(SourcePlanError::NoGitOrPath)));
    e.path = Some("lints/*".to_owned());
    match dependency_source_plan(&e, "/ws").unwrap() {
        SourcePlan::Path { source_id, path } => {
            assert!(source_id.is_empty());
            assert_eq!(path, "/ws/lints/*");
        }
        other => panic!("unexpected plan: {other:?}"),
    }
    e.git = Some(DYLINT_URL.to_owned());
    assert!(matches!(dependency_source_plan(&e, "/ws"), Err(SourcePlanError::GitAndPath)));
    e.path = None;
    e.rev = Some("76b73b3".to_owned());
    match dependency_source_plan(&e, "/ws").unwrap() {
        SourcePlan::Git { source_id, url } => {
            assert_eq!(url, DYLINT_URL);
            assert_eq!(
                source_id,
                "{\"url\":\"https://github.com/trailofbits/dylint\",\"branch\":null,\"tag\":null,\"rev\":\"76b73b3\"}"
            );
        }
        other => panic!("unexpected plan: {other:?}"),
    }
}

#[test]
fn contexts_and_paths() {
    let gctx = GlobalContext::default().unwrap();
    assert_eq!("lints".to_owned().resolve(&gctx), "lints");
    assert!(dylint::dependency::Config::default().is_ok());
    let artifact = StringOrVec(vec!["cdylib".to_owned()]);
    assert_eq!(artifact.0.len(), 1);
}

#[test]
fn empty_tables() {
    let e = TomlDetailedDependency::default();
    assert!(e.git.is_none() && e.path.is_none() && e.version.is_none());
    assert!(e.unused_keys.is_empty());
    let mut c = ctx(true);
    assert!(matches!(
        detailed_dep_to_dependency(&e, "lib", &mut c, None),
        Err(DependencyError::NoSource { .. })
    ));
    let d = DetailedTomlDependency::default();
    assert!(d.features.is_none() && d.public.is_none());
}

use dylint::dependency::library_from_selection;
use dylint::opts::LibrarySelection;

#[test]
fn library_entry_from_options() {
    let mut sel = LibrarySelection::default();
    sel.git = Some(DYLINT_URL.to_owned());
    sel.tag = Some("v5.0.0".to_owned());
    sel.pattern = Some("examples/general".to_owned());
    let lib = library_from_selection(&sel, None).unwrap();
    assert_eq!(lib.details.git.as_deref(), Some(DYLINT_URL));
    assert_eq!(lib.details.tag.as_deref(), Some("v5.0.0"));
    assert!(lib.details.path.is_none() && lib.details.branch.is_none());
    assert_eq!(lib.pattern.unwrap().0, vec!["examples/general".to_owned()]);

    let mut sel = LibrarySelection::default();
    sel.paths = vec!["lints".to_owned()];
    let lib = library_from_selection(&sel, Some("/ws/lints".to_owned())).unwrap();
    assert_eq!(lib.details.path.as_deref(), Some("/ws/lints"));
    assert!(lib.pattern.is_none());

    sel.paths.push("more".to_owned());
    assert!(library_from_selection(&sel, None).is_err());
}

use dylint::dependency::PackageId;

#[test]
fn package_ids() {
    let id = PackageId::new("clippy".to_owned(), "0.1.65".to_owned(), "{\"url\":\"x\"}".to_owned());
    assert_eq!(id.name(), "clippy");
    assert_eq!(id.version(), "0.1.65");
    assert_eq!(id.source_id(), "{\"url\":\"x\"}");
}

#[test]
fn dependencies_carry_the_platform_of_their_table() {
    let mut e = entry();
    e.version = Some("1".to_owned());
    let mut c = ctx(true);
    c.platform = Some("cfg(unix)".to_owned());
    let dep = detailed_dep_to_dependency(&e, "dylint", &mut c, None).unwrap();
    assert_eq!(dep.platform.as_deref(), Some("cfg(unix)"));
    assert_eq!(c.platform.as_deref(), Some("cfg(unix)"));

    let mut e = old_entry();
    e.version = Some("1".to_owned());
    let mut c = old_ctx(false);
    c.platform = Some("x86_64-unknown-linux-gnu".to_owned());
    let dep = e.to_dependency("dylint", &mut c, None).unwrap();
    assert_eq!(dep.platform.as_deref(), Some("x86_64-unknown-linux-gnu"));
    let dep = detailed_dep_to_dependency(&entry_with_version(), "dylint", &mut ctx(true), None).unwrap();
    assert!(dep.platform.is_none());
}

fn entry_with_version() -> TomlDetailedDependency {
    let mut e = entry();
    e.version = Some("1".to_owned());
    e
}

#[test]
fn refusal_messages() {
    let mut e = entry();
    e.git = Some(DYLINT_URL.to_owned());
    e.path = Some("lints".to_owned());
    let err = detailed_dep_to_dependency(&e, "lib", &mut ctx(true), None).unwrap_err();
    assert_eq!(
        err.message(),
        "dependency (lib) specification is ambiguous. Only one of `git` or `path` is allowed."
    );
    let err = detailed_dep_to_dependency(&entry(), "lib", &mut ctx(true), None).unwrap_err();
    assert_eq!(
        err.message(),
        "dependency (lib) specified without providing a local path, Git repository, version, or \
         workspace dependency to use"
    );
    let mut e = entry();
    e.version = Some("1".to_owned());
    e.tag = Some("v1".to_owned());
    let err = detailed_dep_to_dependency(&e, "lib", &mut ctx(true), None).unwrap_err();
    assert_eq!(err.message(), "key `tag` is ignored for dependency (lib).");
    let err = DependencyError::PublicOnNonNormal { kind: DepKind::Development };
    assert_eq!(
        err.message(),
        "'public' specifier can only be used on regular dependencies, not Development dependencies"
    );
}

#[test]
fn invalid_version_requirements_are_refused() {
    let mut e = entry();
    e.version = Some("not a version".to_owned());
    e.package = Some("real".to_owned());
    let err = detailed_dep_to_dependency(&e, "lib", &mut ctx(true), None).unwrap_err();
    assert_eq!(
        err.message(),
        "failed to parse the version requirement `not a version` for dependency `real`"
    );
    let mut e = old_entry();
    e.version = Some(">=".to_owned());
    e.default_features = Some(true);
    e.default_features2 = Some(true);
    let mut c = old_ctx(false);
    assert!(matches!(
        e.to_dependency("lib", &mut c, None),
        Err(DependencyError::InvalidVersionRequirement { .. })
    ));
    assert!(c.warnings.is_empty());
    let mut e = entry();
    e.version = Some("^1.2, <2".to_owned());
    assert!(detailed_dep_to_dependency(&e, "lib", &mut ctx(true), None).is_ok());
}
