use monocheck::models::package_json::{Dependencies, PackageJson, PnpmWorkspace};
use monocheck::models::workspace::Workspace;
use monocheck::search::{search_deps, SearchMap};
use monocheck::Args;

fn default_args() -> Args {
    Args {
        ignore: None,
        matches: None,
        min: 2,
        ignore_workspace: Vec::new(),
        include_root: false,
        match_workspace: None,
        deep: false,
        json: false,
        yaml: false,
        no_color: false,
        dev: false,
        peer: false,
        prod: false,
        check_workspace: false,
    }
}

fn table(entries: &[(&str, &str)]) -> Dependencies {
    Dependencies(
        entries
            .iter()
            .map(|(n, v)| (n.to_string(), v.to_string()))
            .collect(),
    )
}

fn manifest(name: &str, prod: &[(&str, &str)], dev: &[(&str, &str)], peer: &[(&str, &str)]) -> PackageJson {
    PackageJson {
        name: name.to_string(),
        workspaces: None,
        dependencies: table(prod),
        dev_dependencies: table(dev),
        peer_dependencies: table(peer),
    }
}

fn consumers_of<'a>(map: &'a SearchMap, key: &str) -> Option<&'a Vec<String>> {
    map.entries.iter().find(|(k, _)| k == key).map(|(_, v)| v)
}

#[test]
fn search_groups_consumers_by_name() {
    let args = default_args();
    let mut map = SearchMap::new();
    let a = manifest("a", &[("react", "^18.0.0")], &[], &[]);
    let b = manifest("b", &[("react", "18.2.0")], &[], &[]);
    search_deps(&a, &mut map, &args, &"react".to_string());
    search_deps(&b, &mut map, &args, &"react".to_string());
    let consumers = consumers_of(&map, "react").expect("react should be found");
    assert_eq!(consumers.len(), 2);
    assert!(consumers.contains(&"a".to_string()));
    assert!(consumers.contains(&"b".to_string()));
}

#[test]
fn search_deep_keys_by_name_and_version() {
    let mut args = default_args();
    args.deep = true;
    let mut map = SearchMap::new();
    let a = manifest("a", &[("react", "^18.0.0")], &[], &[]);
    let b = manifest("b", &[("react", "18.2.0")], &[], &[]);
    search_deps(&a, &mut map, &args, &"react".to_string());
    search_deps(&b, &mut map, &args, &"react".to_string());
    // the caret is stripped before the key is formed
    assert!(consumers_of(&map, "react@18.0.0").is_some());
    assert!(consumers_of(&map, "react@18.2.0").is_some());
    assert!(consumers_of(&map, "react").is_none());
}

#[test]
fn search_respects_kind_flags() {
    let mut map = SearchMap::new();
    let m = manifest(
        "pkg",
        &[("prod-dep", "1.0.0")],
        &[("dev-dep", "1.0.0")],
        &[("peer-dep", "1.0.0")],
    );
    // no kind flag set: only production is scanned
    let args = default_args();
    search_deps(&m, &mut map, &args, &"dep".to_string());
    assert!(consumers_of(&map, "prod-dep").is_some());
    assert!(consumers_of(&map, "dev-dep").is_none());
    assert!(consumers_of(&map, "peer-dep").is_none());

    // dev flag alone scans dev and omits production
    let mut dev_args = default_args();
    dev_args.dev = true;
    let mut dev_map = SearchMap::new();
    search_deps(&m, &mut dev_map, &dev_args, &"dep".to_string());
    assert!(consumers_of(&dev_map, "prod-dep").is_none());
    assert!(consumers_of(&dev_map, "dev-dep").is_some());

    // dev and peer flags compose
    let mut both_args = default_args();
    both_args.dev = true;
    both_args.peer = true;
    let mut both_map = SearchMap::new();
    search_deps(&m, &mut both_map, &both_args, &"dep".to_string());
    assert!(consumers_of(&both_map, "prod-dep").is_none());
    assert!(consumers_of(&both_map, "dev-dep").is_some());
    assert!(consumers_of(&both_map, "peer-dep").is_some());
}

#[test]
fn search_filters_by_pattern() {
    let args = default_args();
    let mut map = SearchMap::new();
    let m = manifest("pkg", &[("react", "18.0.0"), ("lodash", "4.0.0")], &[], &[]);
    search_deps(&m, &mut map, &args, &"^re".to_string());
    assert!(consumers_of(&map, "react").is_some());
    assert!(consumers_of(&map, "lodash").is_none());
}

#[test]
fn search_deduplicates_consumers() {
    let args = default_args();
    let mut map = SearchMap::new();
    let m = manifest("pkg", &[("react", "18.0.0")], &[], &[]);
    search_deps(&m, &mut map, &args, &"react".to_string());
    search_deps(&m, &mut map, &args, &"react".to_string());
    let consumers = consumers_of(&map, "react").expect("react should be found");
    assert_eq!(consumers.len(), 1);
}

#[test]
fn dependency_table_len() {
    let t = table(&[("a", "1"), ("b", "2")]);
    assert_eq!(t.len(), 2);
    assert!(!t.is_empty());
    let empty = Dependencies::default();
    assert_eq!(empty.len(), 0);
    assert!(empty.is_empty());
}

#[test]
fn manifest_workspace_globs() {
    let m = PackageJson {
        name: "root".to_string(),
        workspaces: Some(vec!["packages/*".to_string()]),
        dependencies: Dependencies::default(),
        dev_dependencies: Dependencies::default(),
        peer_dependencies: Dependencies::default(),
    };
    assert!(!m.has_workspaces());
    let bare = PackageJson {
        name: "root".to_string(),
        workspaces: Some(Vec::new()),
        dependencies: Dependencies::default(),
        dev_dependencies: Dependencies::default(),
        peer_dependencies: Dependencies::default(),
    };
    assert!(bare.has_workspaces());
    let ws = Workspace { packages: vec!["packages/*".to_string()] };
    assert_eq!(ws.packages.len(), 1);
    let pw = PnpmWorkspace { packages: vec!["apps/*".to_string()] };
    assert_eq!(pw.packages.len(), 1);
}
