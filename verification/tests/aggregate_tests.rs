use monocheck::aggregate::{accept, add_to_dependency_map, ingest_manifest, Dependency, DependencyMap};
use monocheck::models::package_json::{Dependencies, PackageJson};
use monocheck::report::project;
use monocheck::Args;

fn default_args() -> Args {
    Args {
        ignore: None,
        matches: None,
        min: 2,
        ignore_workspace: Vec::new(),
        include_root: false,
        match_workspace: None,
        deep: false,
        json: false,
        yaml: false,
        no_color: false,
        dev: false,
        peer: false,
        prod: false,
        check_workspace: false,
    }
}

fn ingest_all(triples: &[(&str, &str, &str)], args: &Args) -> DependencyMap {
    let mut map = DependencyMap::new();
    for (name, version, ws) in triples {
        add_to_dependency_map(
            &mut map,
            &name.to_string(),
            &version.to_string(),
            &ws.to_string(),
            args,
        );
    }
    map
}

#[test]
fn ingestion_is_order_independent() {
    let args = default_args();
    let triples = [
        ("foo", "^1.0.0", "a"),
        ("bar", "2.0.0", "a"),
        ("foo", "1.0.0", "b"),
        ("foo", "^2.0.0", "c"),
        ("bar", "2.0.0", "c"),
    ];
    let permuted = [
        ("bar", "2.0.0", "c"),
        ("foo", "^2.0.0", "c"),
        ("foo", "1.0.0", "b"),
        ("bar", "2.0.0", "a"),
        ("foo", "^1.0.0", "a"),
    ];
    let m1 = ingest_all(&triples, &args);
    let m2 = ingest_all(&permuted, &args);
    assert_eq!(m1.entries.len(), m2.entries.len());
    for (name, record) in &m1.entries {
        let other = m2
            .entries
            .iter()
            .find(|(n, _)| n == name)
            .map(|(_, r)| r)
            .expect("permuted map is missing a dependency name");
        // content equality: sets compared, insertion order ignored
        assert!(record == other);
    }
}

#[test]
fn record_content_equality_ignores_order() {
    let a = Dependency {
        versions: vec!["1.0.0".to_string(), "2.0.0".to_string()],
        workspaces: vec!["x".to_string(), "y".to_string()],
    };
    let b = Dependency {
        versions: vec!["2.0.0".to_string(), "1.0.0".to_string()],
        workspaces: vec!["y".to_string(), "x".to_string()],
    };
    assert!(a == b);
    let c = Dependency {
        versions: vec!["1.0.0".to_string()],
        workspaces: vec!["x".to_string(), "y".to_string()],
    };
    assert!(a != c);
}

#[test]
fn record_len_counts_consumers() {
    let d = Dependency {
        versions: vec!["1.0.0".to_string()],
        workspaces: vec!["x".to_string(), "y".to_string()],
    };
    assert_eq!(d.len(), 2);
    assert!(!d.is_empty());
    let e = Dependency { versions: Vec::new(), workspaces: Vec::new() };
    assert_eq!(e.len(), 0);
    assert!(e.is_empty());
}

#[test]
fn filter_rejects_ignored_dependency() {
    let mut args = default_args();
    args.ignore = Some(vec!["lodash".to_string()]);
    assert!(!accept(
        &"lodash".to_string(),
        &"1.0.0".to_string(),
        &"pkg-a".to_string(),
        &args
    ));
    assert!(accept(
        &"left-pad".to_string(),
        &"1.0.0".to_string(),
        &"pkg-a".to_string(),
        &args
    ));
}

#[test]
fn filter_applies_dependency_pattern() {
    let mut args = default_args();
    args.matches = Some("^@scope/".to_string());
    assert!(accept(
        &"@scope/utils".to_string(),
        &"1.0.0".to_string(),
        &"pkg-a".to_string(),
        &args
    ));
    assert!(!accept(
        &"left-pad".to_string(),
        &"1.0.0".to_string(),
        &"pkg-a".to_string(),
        &args
    ));
}

#[test]
fn filter_applies_workspace_rules() {
    let mut args = default_args();
    args.ignore_workspace = vec!["pkg-b".to_string()];
    assert!(!accept(
        &"foo".to_string(),
        &"1.0.0".to_string(),
        &"pkg-b".to_string(),
        &args
    ));
    args.match_workspace = Some("^apps/".to_string());
    assert!(!accept(
        &"foo".to_string(),
        &"1.0.0".to_string(),
        &"libs/a".to_string(),
        &args
    ));
    assert!(accept(
        &"foo".to_string(),
        &"1.0.0".to_string(),
        &"apps/a".to_string(),
        &args
    ));
}

#[test]
fn filter_drops_workspace_refs_by_default() {
    let args = default_args();
    assert!(!accept(
        &"internal-lib".to_string(),
        &"workspace:^".to_string(),
        &"pkg".to_string(),
        &args
    ));
    let mut inclusive = default_args();
    inclusive.include_root = true;
    assert!(accept(
        &"internal-lib".to_string(),
        &"workspace:^".to_string(),
        &"pkg".to_string(),
        &inclusive
    ));
}

#[test]
fn min_consumer_threshold() {
    let args = default_args();
    let map = ingest_all(&[("dep", "1.0.0", "a"), ("dep", "1.1.0", "b")], &args);
    let included = project(&map, 2);
    assert_eq!(included.len(), 1);
    assert_eq!(included[0].count, 2);
    let excluded = project(&map, 3);
    assert_eq!(excluded.len(), 0);
}

#[test]
fn end_to_end_duplicate_report() {
    let args = default_args();
    let map = ingest_all(
        &[("foo", "^1.0.0", "a"), ("foo", "1.0.0", "b"), ("foo", "^2.0.0", "c")],
        &args,
    );
    let rows = project(&map, 2);
    assert_eq!(rows.len(), 1);
    let row = &rows[0];
    assert_eq!(row.name.as_str(), "foo");
    assert_eq!(row.count, 3);
    assert_eq!(row.versions, vec!["1.0.0".to_string(), "2.0.0".to_string()]);
    assert_eq!(
        row.workspaces,
        vec!["a".to_string(), "b".to_string(), "c".to_string()]
    );
}

#[test]
fn workspace_reference_never_enters_the_map() {
    let args = default_args();
    let map = ingest_all(&[("internal-lib", "workspace:^", "pkg")], &args);
    assert_eq!(map.entries.len(), 0);
    let rows = project(&map, 0);
    assert_eq!(rows.len(), 0);
}

#[test]
fn report_rows_sorted_by_name() {
    let args = default_args();
    let map = ingest_all(
        &[
            ("zeta", "1.0.0", "a"),
            ("zeta", "1.0.0", "b"),
            ("alpha", "2.0.0", "a"),
            ("alpha", "2.0.0", "b"),
        ],
        &args,
    );
    let rows = project(&map, 2);
    assert_eq!(rows.len(), 2);
    assert_eq!(rows[0].name.as_str(), "alpha");
    assert_eq!(rows[1].name.as_str(), "zeta");
}

#[test]
fn versions_sorted_numerically_in_report() {
    let args = default_args();
    let map = ingest_all(
        &[
            ("dep", "1.10.0", "a"),
            ("dep", "1.2.0", "b"),
            ("dep", "1.2.0", "c"),
        ],
        &args,
    );
    let rows = project(&map, 2);
    assert_eq!(rows.len(), 1);
    // numeric comparator: 1.2.0 sorts before 1.10.0, and 1.2.0 appears once
    assert_eq!(rows[0].versions, vec!["1.2.0".to_string(), "1.10.0".to_string()]);
}

#[test]
fn manifest_ingestion_respects_kind_flags() {
    let manifest = PackageJson {
        name: "pkg".to_string(),
        workspaces: None,
        dependencies: Dependencies(vec![("prod-dep".to_string(), "1.0.0".to_string())]),
        dev_dependencies: Dependencies(vec![("dev-dep".to_string(), "1.0.0".to_string())]),
        peer_dependencies: Dependencies(Vec::new()),
    };

    // no kind flag: production only
    let args = default_args();
    let mut map = DependencyMap::new();
    ingest_manifest(&mut map, &manifest, &args);
    assert!(map.entries.iter().any(|(n, _)| n == "prod-dep"));
    assert!(!map.entries.iter().any(|(n, _)| n == "dev-dep"));

    // dev alone: development only
    let mut dev_args = default_args();
    dev_args.dev = true;
    let mut dev_map = DependencyMap::new();
    ingest_manifest(&mut dev_map, &manifest, &dev_args);
    assert!(!dev_map.entries.iter().any(|(n, _)| n == "prod-dep"));
    assert!(dev_map.entries.iter().any(|(n, _)| n == "dev-dep"));

    // prod and dev together: both
    let mut both_args = default_args();
    both_args.dev = true;
    both_args.prod = true;
    let mut both_map = DependencyMap::new();
    ingest_manifest(&mut both_map, &manifest, &both_args);
    assert!(both_map.entries.iter().any(|(n, _)| n == "prod-dep"));
    assert!(both_map.entries.iter().any(|(n, _)| n == "dev-dep"));
}
