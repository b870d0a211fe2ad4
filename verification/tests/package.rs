use ea_compiler::package::{parse_compatibility_info, parse_version_record, VersionRecord};
use ea_compiler::package::{
    compare_versions, is_version_compatible, parse_manifest_metadata, parse_semver, PackageError,
    SemVer,
};

fn v(major: u32, minor: u32, patch: u32) -> SemVer {
    SemVer { major, minor, patch }
}

fn error_message(version: &str) -> String {
    match parse_semver(version) {
        Err(e) => e.to_string(),
        Ok(_) => panic!("expected an error"),
    }
}

#[test]
fn versions_read_as_three_numbers() {
    assert_eq!(parse_semver("1.2.3").unwrap(), v(1, 2, 3));
    assert_eq!(parse_semver("+10.0.4294967295").unwrap(), v(10, 0, 4294967295));
    assert_eq!(error_message("1.2"), "Dependency resolution failed: Invalid semver format: 1.2");
    assert_eq!(error_message("1.2.3.4"), "Dependency resolution failed: Invalid semver format: 1.2.3.4");
    assert_eq!(error_message("a.2.3"), "Dependency resolution failed: Invalid major version: a");
    assert_eq!(error_message("1..3"), "Dependency resolution failed: Invalid minor version: ");
    assert_eq!(error_message("1.2.4294967296"), "Dependency resolution failed: Invalid patch version: 4294967296");
    assert_eq!(error_message("1.2.-3"), "Dependency resolution failed: Invalid patch version: -3");
}

#[test]
fn versions_compare_by_first_difference() {
    assert_eq!(compare_versions(&v(1, 2, 3), &v(1, 2, 3)), 0);
    assert_eq!(compare_versions(&v(2, 0, 0), &v(1, 9, 9)), 1);
    assert_eq!(compare_versions(&v(1, 2, 3), &v(1, 5, 0)), -3);
    assert_eq!(compare_versions(&v(1, 2, 3), &v(1, 2, 10)), -7);
    // Past the largest i32 the difference wraps.
    assert_eq!(compare_versions(&v(3_000_000_000, 0, 0), &v(0, 0, 0)), -1_294_967_296);
}

#[test]
fn requirements_by_prefix() {
    assert!(is_version_compatible("1.2.3", "^1.0.0"));
    assert!(!is_version_compatible("2.0.0", "^1.0.0"));
    assert!(!is_version_compatible("1.2.2", "^1.2.3"));
    assert!(is_version_compatible("1.2.5", "~1.2.3"));
    assert!(!is_version_compatible("1.3.0", "~1.2.3"));
    assert!(is_version_compatible("1.2.3", ">=1.2.3"));
    assert!(!is_version_compatible("1.2.3", ">1.2.3"));
    assert!(is_version_compatible("1.2.4", ">1.2.3"));
    assert!(is_version_compatible("1.2.3", "<=1.2.3"));
    assert!(is_version_compatible("1.9.9", "<2.0.0"));
    assert!(!is_version_compatible("2.0.0", "<2.0.0"));
    assert!(is_version_compatible("1.2.3", "1.2.3"));
    assert!(!is_version_compatible("1.2.4", "1.2.3"));
}

#[test]
fn unreadable_versions_are_incompatible() {
    assert!(!is_version_compatible("abc", "^1.0.0"));
    assert!(!is_version_compatible("1.0.0", "^1.0"));
    assert!(!is_version_compatible("1.0.0", "=1.0.0"));
    assert!(!is_version_compatible("1.0.0", ""));
}

#[test]
fn own_requirements_are_met() {
    for s in ["0.1.0", "3.14.15"] {
        assert!(is_version_compatible(s, &format!("^{}", s)));
        assert!(is_version_compatible(s, &format!("~{}", s)));
        assert!(is_version_compatible(s, &format!(">={}", s)));
        assert!(is_version_compatible(s, &format!("<={}", s)));
    }
}

#[test]
fn package_errors_write_out() {
    assert_eq!(PackageError::NoCompatibleVersion.to_string(), "No compatible version found");
    assert_eq!(PackageError::PerformanceRequirementsNotMet.to_string(), "Performance requirements not met");
    assert_eq!(PackageError::BuildFailed("x".to_string()).to_string(), "Build failed: x");
    assert_eq!(PackageError::CacheError("y".to_string()).to_string(), "Cache error: y");
    assert_eq!(PackageError::BenchmarkFailed("z".to_string()).to_string(), "Benchmark execution failed: z");
}

#[test]
fn manifest_metadata() {
    let m = parse_manifest_metadata(
        "[package]\nname = \"math-lib\"\nversion = \"1.2.3\"\r\ndescription = \"Fast math\"\n",
    );
    assert_eq!(m.name, "math-lib");
    assert_eq!(m.version, "1.2.3");
    assert_eq!(m.description, Some("Fast math".to_string()));
    assert!(m.authors.is_empty() && m.keywords.is_empty() && m.categories.is_empty());
    assert_eq!(m.license, None);
    assert_eq!(m.repository, None);

    let empty = parse_manifest_metadata("");
    assert_eq!(empty.name, "unknown");
    assert_eq!(empty.version, "0.0.0");
    assert_eq!(empty.description, None);
}

#[test]
fn manifest_lines_override_and_trim() {
    let m = parse_manifest_metadata("name = x\nname = \"y\"\n  name = z\nversion = \"\"\"");
    assert_eq!(m.name, "y");
    assert_eq!(m.version, "");
    // A carriage return stays on a last line without a line feed.
    let n = parse_manifest_metadata("version = 2\r");
    assert_eq!(n.version, "2\r");
}

#[test]
fn caret_keeps_the_leftmost_non_zero_part() {
    assert!(is_version_compatible("1.4.0", "^1.2.3"));
    assert!(!is_version_compatible("2.0.0", "^1.2.3"));
    assert!(!is_version_compatible("1.3.0", "~1.2.3"));
    assert!(is_version_compatible("0.2.9", "^0.2.3"));
    assert!(!is_version_compatible("0.3.0", "^0.2.3"));
    assert!(is_version_compatible("0.0.3", "^0.0.3"));
    assert!(!is_version_compatible("0.0.4", "^0.0.3"));
}

#[test]
fn version_records_give_version_and_string_features() {
    let record = VersionRecord {
        version: Some("1.2.0".to_string()),
        features: Some(vec![Some("simd".to_string()), None, Some("avx2".to_string())]),
        min_compiler_version: None,
        supported_targets: None,
    };
    let (version, features) = parse_version_record(&record).unwrap();
    assert_eq!(version, "1.2.0");
    assert_eq!(features, vec!["simd".to_string(), "avx2".to_string()]);
    let bare = VersionRecord {
        version: Some("0.1.0".to_string()),
        features: None,
        min_compiler_version: None,
        supported_targets: None,
    };
    assert!(parse_version_record(&bare).unwrap().1.is_empty());
    let missing = VersionRecord {
        version: None,
        features: Some(vec![]),
        min_compiler_version: None,
        supported_targets: None,
    };
    match parse_version_record(&missing) {
        Err(PackageError::DependencyResolutionFailed(m)) => assert_eq!(m, "Missing version field"),
        _ => panic!("expected a missing version"),
    }
}

#[test]
fn compatibility_defaults_to_the_first_compiler_and_x86_64() {
    let record = VersionRecord {
        version: Some("1.2.0".to_string()),
        features: Some(vec![Some("simd".to_string()), None]),
        min_compiler_version: None,
        supported_targets: None,
    };
    let info = parse_compatibility_info(&record);
    assert_eq!(info.min_compiler_version, "0.1.0");
    assert_eq!(info.supported_targets, vec!["x86_64".to_string()]);
    assert_eq!(info.required_features, vec!["simd".to_string()]);
    assert!(info.conflicts.is_empty());
}

#[test]
fn compatibility_keeps_what_the_record_declares() {
    let record = VersionRecord {
        version: Some("2.0.0".to_string()),
        features: None,
        min_compiler_version: Some("0.3.1".to_string()),
        supported_targets: Some(vec![Some("aarch64".to_string()), None, Some("x86_64".to_string())]),
    };
    let info = parse_compatibility_info(&record);
    assert_eq!(info.min_compiler_version, "0.3.1");
    assert_eq!(info.supported_targets, vec!["aarch64".to_string(), "x86_64".to_string()]);
    assert!(info.required_features.is_empty());
    assert!(info.conflicts.is_empty());
}
