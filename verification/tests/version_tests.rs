use monocheck::models::semantic_version::{normalize, SemanticVersion};

#[test]
fn parse_full_triple() {
    let v = SemanticVersion::parse("1.2.3");
    assert!(!v.workspace);
    assert_eq!(v.major, 1);
    assert_eq!(v.minor, 2);
    assert_eq!(v.patch, 3);
}

#[test]
fn parse_caret_strips_to_same_result() {
    let a = SemanticVersion::parse("^2.0.0");
    let b = SemanticVersion::parse("2.0.0");
    assert!(a == b);
    assert_eq!(a.major, 2);
    assert_eq!(a.minor, 0);
    assert_eq!(a.patch, 0);
    assert!(!a.workspace);
}

#[test]
fn workspace_spellings_normalize_and_parse() {
    assert_eq!(normalize("workspace:^").as_str(), "workspace");
    assert_eq!(normalize("workspace:*").as_str(), "workspace");
    let v = SemanticVersion::parse(normalize("workspace:^").as_str());
    assert!(v.workspace);
    let w = SemanticVersion::parse(normalize("workspace:*").as_str());
    assert!(w.workspace);
}

#[test]
fn normalize_strips_every_caret() {
    assert_eq!(normalize("^1.2.3").as_str(), "1.2.3");
    assert_eq!(normalize(">=1.0.0").as_str(), ">=1.0.0");
    assert_eq!(normalize("1.^2.^3").as_str(), "1.2.3");
}

#[test]
fn normalize_is_idempotent_on_samples() {
    for raw in ["^1.2.3", "workspace:^", "workspace:*", "workspace", "", "~2.4", "1.0.0"] {
        let once = normalize(raw);
        let twice = normalize(once.as_str());
        assert_eq!(once, twice);
    }
}

#[test]
fn parse_is_lenient() {
    let v = SemanticVersion::parse("");
    assert!(!v.workspace);
    assert_eq!((v.major, v.minor, v.patch), (0, 0, 0));

    let v = SemanticVersion::parse("1.x.3");
    assert_eq!((v.major, v.minor, v.patch), (1, 0, 3));

    let v = SemanticVersion::parse("1.2");
    assert_eq!((v.major, v.minor, v.patch), (1, 2, 0));

    let v = SemanticVersion::parse("1.2.3.4");
    assert_eq!((v.major, v.minor, v.patch), (1, 2, 3));

    let v = SemanticVersion::parse("99999999999999999999999999999.1.2");
    assert_eq!((v.major, v.minor, v.patch), (0, 1, 2));
}

#[test]
fn compare_is_numeric_not_textual() {
    let a = SemanticVersion::parse("1.2.0");
    let b = SemanticVersion::parse("1.10.0");
    assert_eq!(a.partial_cmp(&b), Some(std::cmp::Ordering::Less));
    assert_eq!(b.partial_cmp(&a), Some(std::cmp::Ordering::Greater));
    assert_eq!(a.partial_cmp(&a), Some(std::cmp::Ordering::Equal));
}

#[test]
fn version_equality_tracks_workspace_flag() {
    let ws = SemanticVersion::parse("workspace");
    let zero = SemanticVersion::parse("0.0.0");
    assert!(ws != zero);
    assert!(ws == SemanticVersion::parse("workspace"));
}

#[test]
fn version_display_form() {
    let v = SemanticVersion::parse("1.22.333");
    assert_eq!(v.to_version_string().as_str(), "1.22.333");
    let ws = SemanticVersion::parse("workspace");
    assert_eq!(ws.to_version_string().as_str(), "workspace");
    let big = SemanticVersion::parse("10.0.205");
    assert_eq!(big.to_version_string().as_str(), "10.0.205");
}

#[test]
fn version_from_string() {
    let v = SemanticVersion::from(String::from("3.1.4"));
    assert_eq!((v.major, v.minor, v.patch), (3, 1, 4));
}

#[test]
fn default_version_is_zero() {
    let v = SemanticVersion::default();
    assert!(!v.workspace);
    assert_eq!((v.major, v.minor, v.patch), (0, 0, 0));
}
