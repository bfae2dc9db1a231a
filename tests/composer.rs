use nano::dedupe::plan_dedupe;
use nano::strmap::StrMap;

fn map_of(pairs: &[(&str, &str)]) -> StrMap {
    let mut m = StrMap::new();
    for (k, v) in pairs {
        m.insert(k.to_string(), v.to_string());
    }
    m
}

fn names(v: &[&str]) -> Vec<String> {
    v.iter().map(|s| s.to_string()).collect()
}

fn lock_pairs(json: &str) -> Vec<(String, String)> {
    let doc: serde_json::Value = serde_json::from_str(json).unwrap();
    doc.get("packages")
        .unwrap()
        .as_array()
        .unwrap()
        .iter()
        .map(|p| {
            (
                p.get("name").unwrap().as_str().unwrap().to_string(),
                p.get("version").unwrap().as_str().unwrap().to_string(),
            )
        })
        .collect()
}

#[test]
fn parse_lock() {
    let packages = StrMap::from_pairs(lock_pairs(
        r#"{"packages":[{"name":"blessing/filter","version":"v1.2.0"}]}"#,
    ));
    assert_eq!(
        packages.get(&"blessing/filter".to_string()),
        Some(&"v1.2.0".to_string())
    );
}

#[test]
fn lock_later_entry_wins() {
    let packages = StrMap::from_pairs(vec![
        ("a/b".to_string(), "v1".to_string()),
        ("c/d".to_string(), "v2".to_string()),
        ("a/b".to_string(), "v3".to_string()),
    ]);
    assert_eq!(packages.len(), 2);
    assert_eq!(packages.get(&"a/b".to_string()), Some(&"v3".to_string()));
    assert_eq!(packages.get(&"x/y".to_string()), None);
    assert_eq!(packages.keys(), names(&["a/b", "c/d"]));
}

#[test]
fn dedupe() {
    let bs_lock = map_of(&[
        ("illuminate/support", "v6.20.0"),
        ("blessing/filter", "v1.2.0"),
    ]);
    let composer_lock = StrMap::from_pairs(lock_pairs(
        r#"{"packages":[{"name":"illuminate/support","version":"v6.20.0"},{"name":"local/package","version":"v1.0.0"}]}"#,
    ));
    let present = names(&["illuminate/support", "blessing/filter", "local/package"]);
    let removed = plan_dedupe(&bs_lock, &composer_lock, &present);
    assert_eq!(removed, names(&["illuminate/support"]));
}

#[test]
fn dedupe_mismatched_version_kept() {
    let host = map_of(&[
        ("illuminate/support", "v6.20.0"),
        ("blessing/filter", "v1.2.0"),
    ]);
    let plugin = map_of(&[
        ("illuminate/support", "v6.20.0"),
        ("blessing/filter", "v1.1.0"),
        ("local/package", "v1.0.0"),
    ]);
    let present = names(&["illuminate/support", "blessing/filter", "local/package"]);
    assert_eq!(
        plan_dedupe(&host, &plugin, &present),
        names(&["illuminate/support"])
    );
}

#[test]
fn dedupe_second_pass_removes_nothing() {
    let host = map_of(&[("illuminate/support", "v6.20.0"), ("a/b", "v1")]);
    let plugin = map_of(&[("illuminate/support", "v6.20.0"), ("a/b", "v1")]);
    let present = names(&["illuminate/support", "a/b"]);
    let first = plan_dedupe(&host, &plugin, &present);
    assert_eq!(first, present);
    let left: Vec<String> = present.into_iter().filter(|n| !first.contains(n)).collect();
    assert!(plan_dedupe(&host, &plugin, &left).is_empty());
}

#[test]
fn dedupe_private_dependency_kept() {
    let host = map_of(&[("illuminate/support", "v6.20.0")]);
    let plugin = map_of(&[("local/package", "v6.20.0")]);
    let present = names(&["local/package"]);
    assert!(plan_dedupe(&host, &plugin, &present).is_empty());
}

#[test]
fn dedupe_missing_directory_skipped() {
    let host = map_of(&[("illuminate/support", "v6.20.0")]);
    let plugin = map_of(&[("illuminate/support", "v6.20.0")]);
    assert!(plan_dedupe(&host, &plugin, &Vec::new()).is_empty());
}
