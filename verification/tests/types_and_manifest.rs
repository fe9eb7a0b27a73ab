use cocoatly::config::Config;
use cocoatly::error::CocoatlyError;
use cocoatly::manifest::{
    deps_to_map, parse_dependencies, parse_version_requirement, version_req_to_string,
};
use cocoatly::types::{version_lt, HashAlgorithm, PackageName, Version, VersionRequirement};

#[test]
fn version_parse_accepts_dotted_triples() {
    assert_eq!(Version::parse("1.2.3"), Some(Version::new(1, 2, 3)));
    assert_eq!(Version::parse("0.0.0"), Some(Version::new(0, 0, 0)));
    // anything after the third segment is ignored
    assert_eq!(Version::parse("1.2.3.4"), Some(Version::new(1, 2, 3)));
    assert_eq!(Version::parse("10.20.30"), Some(Version::new(10, 20, 30)));
    assert_eq!(Version::parse("1.2"), None);
    assert_eq!(Version::parse(""), None);
    assert_eq!(Version::parse("1.2.x"), None);
    assert_eq!(Version::parse("1.2.3-alpha"), None);
    assert_eq!(Version::parse("a.b.c"), None);
    assert_eq!(Version::parse("4294967295.0.1"), Some(Version::new(4294967295, 0, 1)));
    assert_eq!(Version::parse("4294967296.0.1"), None);
}

#[test]
fn version_to_string_renders_the_triple() {
    assert_eq!(Version::new(1, 2, 3).to_string(), "1.2.3");
    assert_eq!(Version::new(0, 0, 0).to_string(), "0.0.0");
    assert_eq!(Version::new(10, 0, 300).to_string(), "10.0.300");
}

#[test]
fn version_ordering_is_lexicographic_on_the_triple() {
    let v100 = Version::new(1, 0, 0);
    let v110 = Version::new(1, 1, 0);
    let v090 = Version::new(0, 9, 0);
    assert!(version_lt(&v090, &v100));
    assert!(version_lt(&v100, &v110));
    assert!(!version_lt(&v110, &v100));
    assert!(!version_lt(&v100, &v100));

    // an absent prerelease tag sorts before a present one
    let mut pre = Version::new(1, 0, 0);
    pre.prerelease = Some("alpha".to_string());
    assert!(version_lt(&v100, &pre));
    assert!(!version_lt(&pre, &v100));
    let mut pre_b = Version::new(1, 0, 0);
    pre_b.prerelease = Some("beta".to_string());
    assert!(version_lt(&pre, &pre_b));
}

#[test]
fn package_name_and_algorithm_text() {
    let name = PackageName::new("serde".to_string());
    assert_eq!(name.as_str(), "serde");
    assert_eq!(name, PackageName::new("serde".to_string()));
    assert_ne!(name, PackageName::new("serde_json".to_string()));
    assert_eq!(HashAlgorithm::Blake3.as_str(), "blake3");
    assert_eq!(HashAlgorithm::Sha256.as_str(), "sha256");
    assert_eq!(HashAlgorithm::Sha512.as_str(), "sha512");
}

#[test]
fn version_requirements_parse_as_in_manifests() {
    assert!(matches!(parse_version_requirement("*"), Ok(VersionRequirement::Any)));
    assert!(matches!(parse_version_requirement(""), Ok(VersionRequirement::Any)));
    assert!(matches!(parse_version_requirement("   "), Ok(VersionRequirement::Any)));
    match parse_version_requirement("^1.2.3") {
        Ok(VersionRequirement::Compatible(v)) => assert_eq!(v, Version::new(1, 2, 3)),
        other => panic!("unexpected {:?}", other),
    }
    match parse_version_requirement(">= 1.0.0") {
        Ok(VersionRequirement::GreaterThanOrEqual(v)) => assert_eq!(v, Version::new(1, 0, 0)),
        other => panic!("unexpected {:?}", other),
    }
    match parse_version_requirement("> 0.5.0") {
        Ok(VersionRequirement::GreaterThan(v)) => assert_eq!(v, Version::new(0, 5, 0)),
        other => panic!("unexpected {:?}", other),
    }
    match parse_version_requirement("<=2.0.0") {
        Ok(VersionRequirement::LessThanOrEqual(v)) => assert_eq!(v, Version::new(2, 0, 0)),
        other => panic!("unexpected {:?}", other),
    }
    match parse_version_requirement("<2.0.0") {
        Ok(VersionRequirement::LessThan(v)) => assert_eq!(v, Version::new(2, 0, 0)),
        other => panic!("unexpected {:?}", other),
    }
    match parse_version_requirement("  1.4.7  ") {
        Ok(VersionRequirement::Exact(v)) => assert_eq!(v, Version::new(1, 4, 7)),
        other => panic!("unexpected {:?}", other),
    }
    assert!(matches!(
        parse_version_requirement("^not.a.version"),
        Err(CocoatlyError::InvalidManifest(_))
    ));
    assert!(matches!(
        parse_version_requirement("one"),
        Err(CocoatlyError::InvalidManifest(_))
    ));
}

#[test]
fn version_requirements_render_back_to_text() {
    assert_eq!(version_req_to_string(&VersionRequirement::Any), "*");
    assert_eq!(
        version_req_to_string(&VersionRequirement::Exact(Version::new(1, 2, 3))),
        "1.2.3"
    );
    assert_eq!(
        version_req_to_string(&VersionRequirement::Compatible(Version::new(1, 2, 3))),
        "^1.2.3"
    );
    assert_eq!(
        version_req_to_string(&VersionRequirement::GreaterThanOrEqual(Version::new(1, 0, 0))),
        ">=1.0.0"
    );
    assert_eq!(
        version_req_to_string(&VersionRequirement::LessThan(Version::new(2, 0, 0))),
        "<2.0.0"
    );
    assert_eq!(
        version_req_to_string(&VersionRequirement::Range {
            min: Version::new(1, 0, 0),
            max: Version::new(2, 0, 0),
        }),
        ">=1.0.0,<2.0.0"
    );
}

#[test]
fn dependencies_parse_and_render() {
    let table = Some(vec![
        ("serde".to_string(), "^1.0.0".to_string()),
        ("left-pad".to_string(), "*".to_string()),
    ]);
    let deps = parse_dependencies(&table).expect("both requirements parse");
    assert_eq!(deps.len(), 2);
    assert_eq!(deps[0].name.as_str(), "serde");
    assert!(!deps[0].optional);
    assert!(deps[0].features.is_empty());

    let rendered = deps_to_map(&deps);
    assert_eq!(rendered[0], ("serde".to_string(), "^1.0.0".to_string()));
    assert_eq!(rendered[1], ("left-pad".to_string(), "*".to_string()));

    assert_eq!(parse_dependencies(&None).unwrap().len(), 0);
    let bad = Some(vec![("x".to_string(), "^bogus".to_string())]);
    assert!(parse_dependencies(&bad).is_err());
}

#[test]
fn config_validation() {
    let cfg = Config::default_under("/home/someone");
    assert!(cfg.validate().is_ok());
    assert_eq!(cfg.storage.install_root, "/home/someone/.cocoatly/packages");
    assert_eq!(cfg.storage.state_file, "/home/someone/.cocoatly/state.json");
    assert_eq!(cfg.network.max_concurrent_downloads, 8);
    assert!(cfg.security.verify_checksums);

    let mut no_default = Config::default_under("/home/someone");
    no_default.registry.default_registry = String::new();
    assert!(matches!(no_default.validate(), Err(CocoatlyError::ConfigError(_))));

    let mut unknown = Config::default_under("/home/someone");
    unknown.registry.default_registry = "elsewhere".to_string();
    assert!(matches!(unknown.validate(), Err(CocoatlyError::ConfigError(_))));

    let mut zero = Config::default_under("/home/someone");
    zero.network.max_concurrent_downloads = 0;
    assert!(matches!(zero.validate(), Err(CocoatlyError::ConfigError(_))));
}

#[test]
fn error_messages_name_the_category() {
    let e = CocoatlyError::PackageNotFound("foo".to_string());
    assert_eq!(e.message(), "Package not found: foo");
    let m = CocoatlyError::HashMismatch { expected: "aa".to_string(), actual: "bb".to_string() };
    assert_eq!(m.message(), "Hash mismatch: expected aa, got bb");
}
