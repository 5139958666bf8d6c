use inspector::manifest::{
    analyze_manifests, check_package_fields, metadata_report, parse_metadata, Dependency,
    FieldChecks, ManifestEntry, ManifestField, Package,
};
use inspector::staleness::{check_dependency, check_package_dependencies, StalenessPolicy};

const PREFIX: &str = "git+https://example.com";

fn policy(tags: &[&str]) -> StalenessPolicy {
    StalenessPolicy {
        source_prefix: PREFIX.to_string(),
        current_tags: tags.iter().map(|t| t.to_string()).collect(),
    }
}

fn all_checks() -> FieldChecks {
    FieldChecks { authors: true, description: true, license: true, repository: true }
}

fn dependency(name: &str, source: Option<&str>) -> Dependency {
    Dependency { name: name.to_string(), source: source.map(|s| s.to_string()) }
}

fn package(name: &str, deps: Vec<Dependency>) -> Package {
    Package {
        name: name.to_string(),
        manifest_path: format!("/tmp/{name}/Cargo.toml"),
        version: "0.1.0".to_string(),
        license: None,
        description: None,
        authors: Vec::new(),
        repository: None,
        dependencies: deps,
    }
}

#[test]
fn current_branch_gives_no_warning() {
    let d = dependency("runtime", Some("git+https://example.com/repo?branch=v1"));
    let entries = check_dependency(&d, &policy(&["v1", "v2"]));
    assert!(entries.is_empty());
}

#[test]
fn stale_branch_gives_one_warning() {
    let d = dependency("runtime", Some("git+https://example.com/repo?branch=v0"));
    let entries = check_dependency(&d, &policy(&["v1", "v2"]));
    assert_eq!(
        entries,
        vec![ManifestEntry::StaleDependency {
            dependency: "runtime".to_string(),
            tag: "v0".to_string(),
        }]
    );
}

#[test]
fn multiple_branch_parameters_checked_independently() {
    let d = dependency("runtime", Some("git+https://example.com/repo?branch=v1&branch=v0"));
    let entries = check_dependency(&d, &policy(&["v1"]));
    assert_eq!(
        entries,
        vec![ManifestEntry::StaleDependency {
            dependency: "runtime".to_string(),
            tag: "v0".to_string(),
        }]
    );
}

#[test]
fn source_without_prefix_is_skipped() {
    let d = dependency("serde", Some("registry+https://github.com/rust-lang/crates.io-index"));
    let entries = check_dependency(&d, &policy(&["v1"]));
    assert!(entries.is_empty());
    let none = dependency("local", None);
    assert!(check_dependency(&none, &policy(&["v1"])).is_empty());
}

#[test]
fn other_parameters_are_not_branches() {
    let d = dependency("runtime", Some("git+https://example.com/repo?tag=v0&rev=abc"));
    let entries = check_dependency(&d, &policy(&["v1"]));
    assert!(entries.is_empty());
}

#[test]
fn malformed_url_is_isolated() {
    let bad = dependency("broken", Some("git+https://example.com:port/repo?branch=v1"));
    let good = dependency("runtime", Some("git+https://example.com/repo?branch=v0"));
    let entries = check_package_dependencies(&vec![bad, good], &policy(&["v1"]));
    assert_eq!(
        entries,
        vec![
            ManifestEntry::MalformedSource { dependency: "broken".to_string() },
            ManifestEntry::StaleDependency {
                dependency: "runtime".to_string(),
                tag: "v0".to_string(),
            },
        ]
    );
}

#[test]
fn completeness_reports_missing_and_present() {
    let mut p = package("demo", Vec::new());
    p.license = Some("MIT".to_string());
    let entries = check_package_fields(&p, &all_checks());
    assert_eq!(
        entries,
        vec![
            ManifestEntry::MissingField { field: ManifestField::Authors },
            ManifestEntry::MissingField { field: ManifestField::Description },
            ManifestEntry::PresentField {
                field: ManifestField::License,
                value: "MIT".to_string(),
            },
            ManifestEntry::MissingField { field: ManifestField::Repository },
        ]
    );
}

#[test]
fn completeness_joins_authors() {
    let mut p = package("demo", Vec::new());
    p.authors = vec!["Ada".to_string(), "Grace".to_string()];
    let checks = FieldChecks { authors: true, description: false, license: false, repository: false };
    let entries = check_package_fields(&p, &checks);
    assert_eq!(
        entries,
        vec![ManifestEntry::PresentField {
            field: ManifestField::Authors,
            value: "Ada, Grace".to_string(),
        }]
    );
}

#[test]
fn disabled_checks_are_omitted() {
    let p = package("demo", Vec::new());
    let checks =
        FieldChecks { authors: false, description: false, license: false, repository: true };
    let entries = check_package_fields(&p, &checks);
    assert_eq!(entries, vec![ManifestEntry::MissingField { field: ManifestField::Repository }]);
}

#[test]
fn metadata_report_orders_packages() {
    let p1 = package("one", vec![dependency("runtime", Some("git+https://example.com/r?branch=v0"))]);
    let p2 = package("two", Vec::new());
    let m = inspector::manifest::Metadata { packages: vec![p1, p2] };
    let entries = metadata_report(&m, &all_checks(), &policy(&["v1"]));
    let headers: Vec<&ManifestEntry> = entries
        .iter()
        .filter(|e| matches!(e, ManifestEntry::Package { .. }))
        .collect();
    assert_eq!(headers.len(), 2);
    assert!(entries.contains(&ManifestEntry::StaleDependency {
        dependency: "runtime".to_string(),
        tag: "v0".to_string(),
    }));
}

#[test]
fn parse_metadata_reads_document() {
    let doc = r#"{
        "packages": [
            {
                "name": "demo",
                "manifest_path": "/tmp/demo/Cargo.toml",
                "version": "1.2.3",
                "license": "MIT",
                "license_file": null,
                "description": null,
                "authors": ["Ada"],
                "repository": "https://example.com/demo",
                "dependencies": [
                    {"name": "serde", "source": "registry+https://github.com/rust-lang/crates.io-index"},
                    {"name": "local", "source": null}
                ]
            }
        ]
    }"#;
    let m = parse_metadata(doc).expect("document should parse");
    assert_eq!(m.packages.len(), 1);
    let p = &m.packages[0];
    assert_eq!(p.name, "demo");
    assert_eq!(p.version, "1.2.3");
    assert_eq!(p.license.as_deref(), Some("MIT"));
    assert_eq!(p.description, None);
    assert_eq!(p.authors, vec!["Ada".to_string()]);
    assert_eq!(p.repository.as_deref(), Some("https://example.com/demo"));
    assert_eq!(p.dependencies.len(), 2);
    assert_eq!(p.dependencies[1].source, None);
}

#[test]
fn parse_metadata_rejects_malformed_document() {
    assert!(parse_metadata("not json at all").is_err());
    assert!(parse_metadata("{\"packages\": 3}").is_err());
    assert!(parse_metadata("{}").is_err());
}

#[test]
fn analyze_manifests_end_to_end() {
    let doc = r#"{
        "packages": [
            {
                "name": "demo",
                "manifest_path": "/tmp/demo/Cargo.toml",
                "version": "1.0.0",
                "license": null,
                "description": "a demo",
                "authors": [],
                "repository": null,
                "dependencies": [
                    {"name": "runtime", "source": "git+https://example.com/repo?branch=old"}
                ]
            }
        ]
    }"#;
    let entries = analyze_manifests(doc, &all_checks(), &policy(&["new"])).expect("should parse");
    assert_eq!(
        entries,
        vec![
            ManifestEntry::Package {
                name: "demo".to_string(),
                manifest_path: "/tmp/demo/Cargo.toml".to_string(),
            },
            ManifestEntry::MissingField { field: ManifestField::Authors },
            ManifestEntry::PresentField {
                field: ManifestField::Description,
                value: "a demo".to_string(),
            },
            ManifestEntry::MissingField { field: ManifestField::License },
            ManifestEntry::MissingField { field: ManifestField::Repository },
            ManifestEntry::StaleDependency {
                dependency: "runtime".to_string(),
                tag: "old".to_string(),
            },
        ]
    );
}
