use nano::registry::{
    archive_url, build_package, merge_update, registry_locales, to_list, to_map, to_registry,
    update_registry, I18nStore, LocalizedText, Locale, PackageMap, PluginManifest, PluginText,
    PluginUpdate, REGISTRY_VERSION,
};
use nano::strmap::StrMap;

fn s(x: &str) -> String {
    x.to_string()
}

fn manifest(name: &str, version: &str) -> PluginManifest {
    let mut require = StrMap::new();
    require.insert(s("blessing-skin-server"), s("^5.0.0"));
    PluginManifest {
        name: s(name),
        version: s(version),
        title: s("Own title"),
        description: s("Own description"),
        author: s("someone"),
        require,
    }
}

fn update(name: &str, version: &str) -> PluginUpdate {
    PluginUpdate { name: s(name), version: s(version), manifest: manifest(name, version) }
}

fn store() -> I18nStore {
    let mut i18n = I18nStore::new();
    i18n.insert(
        s("example"),
        PluginText {
            title: LocalizedText { en: s("Example"), zh_cn: s("示例") },
            description: LocalizedText { en: s("An example"), zh_cn: s("一个示例") },
        },
    );
    i18n
}

fn hashes() -> StrMap {
    let mut h = StrMap::new();
    h.insert(s("example"), s("abc123"));
    h
}

#[test]
fn url_of_archive() {
    assert_eq!(
        archive_url(&s("example"), &s("1.0.0")),
        "https://cdn.jsdelivr.net/gh/bs-community/plugins-dist/example_1.0.0.zip"
    );
}

#[test]
fn localized_titles() {
    let en = build_package(update("example", "1.0.0"), &hashes(), Locale::English, &store());
    assert_eq!(en.title, "Example");
    assert_eq!(en.description, "An example");
    let zh = build_package(update("example", "1.0.0"), &hashes(), Locale::SimplifiedChinese, &store());
    assert_eq!(zh.title, "示例");
    assert_eq!(zh.description, "一个示例");
    let other = build_package(update("example", "1.0.0"), &hashes(), Locale::Other, &store());
    assert_eq!(other.title, "Own title");
    assert_eq!(other.description, "Own description");
}

#[test]
fn missing_texts_fall_back_to_manifest() {
    let p = build_package(update("plain", "2.0.0"), &hashes(), Locale::English, &store());
    assert_eq!(p.title, "Own title");
    assert_eq!(p.description, "Own description");
    assert_eq!(p.dist.shasum, "");
}

#[test]
fn package_fields() {
    let p = build_package(update("example", "1.0.0"), &hashes(), Locale::English, &store());
    assert_eq!(p.name, "example");
    assert_eq!(p.version, "1.0.0");
    assert_eq!(p.author, "someone");
    assert_eq!(p.require.get(&s("blessing-skin-server")), Some(&s("^5.0.0")));
    assert_eq!(p.dist.kind, "zip");
    assert_eq!(
        p.dist.url,
        "https://cdn.jsdelivr.net/gh/bs-community/plugins-dist/example_1.0.0.zip"
    );
    assert_eq!(p.dist.shasum, "abc123");
}

#[test]
fn merge_new_and_existing() {
    let mut packages = PackageMap::new();
    merge_update(&mut packages, update("example", "1.0.0"), &hashes(), Locale::English, &store());
    merge_update(&mut packages, update("other", "1.0.0"), &hashes(), Locale::English, &store());
    assert_eq!(packages.len(), 2);
    merge_update(&mut packages, update("example", "1.1.0"), &hashes(), Locale::English, &store());
    assert_eq!(packages.len(), 2);
    let p = packages.get(&s("example")).unwrap();
    assert_eq!(p.version, "1.1.0");
    assert!(p.dist.url.ends_with("example_1.1.0.zip"));
    let list = to_list(packages);
    assert_eq!(list[0].name, "example");
    assert_eq!(list[1].name, "other");
}

#[test]
fn update_in_order() {
    let mut packages = PackageMap::new();
    update_registry(
        &mut packages,
        vec![update("a", "1"), update("b", "1"), update("a", "2")],
        &hashes(),
        Locale::SimplifiedChinese,
        &store(),
    );
    assert_eq!(packages.len(), 2);
    assert_eq!(packages.get(&s("a")).unwrap().version, "2");
    assert!(packages.get(&s("c")).is_none());
}

#[test]
fn list_and_map_round_trip() {
    let mut packages = PackageMap::new();
    update_registry(
        &mut packages,
        vec![update("x", "1"), update("example", "3")],
        &hashes(),
        Locale::English,
        &store(),
    );
    let registry = to_registry(packages);
    assert_eq!(registry.version, REGISTRY_VERSION);
    assert_eq!(registry.version, 1);
    let again = to_map(registry.packages);
    assert_eq!(again.len(), 2);
    let p = again.get(&s("example")).unwrap();
    assert_eq!(p.version, "3");
    assert_eq!(p.dist.shasum, "abc123");
    assert_eq!(
        p.dist.url,
        "https://cdn.jsdelivr.net/gh/bs-community/plugins-dist/example_3.zip"
    );
    assert_eq!(again.get(&s("x")).unwrap().dist.shasum, "");
}

#[test]
fn to_map_later_wins() {
    let first = build_package(update("a", "1"), &hashes(), Locale::English, &store());
    let second = build_package(update("a", "2"), &hashes(), Locale::English, &store());
    let m = to_map(vec![first, second]);
    assert_eq!(m.len(), 1);
    assert_eq!(m.get(&s("a")).unwrap().version, "2");
}

#[test]
fn locales_of_registry() {
    assert_eq!(
        registry_locales(),
        vec![Locale::English, Locale::SimplifiedChinese]
    );
}

#[test]
fn registry_lists_names_ascending() {
    let mut packages = PackageMap::new();
    update_registry(
        &mut packages,
        vec![
            update("zeta", "1"),
            update("alpha", "1"),
            update("mid", "1"),
            update("alphabet", "1"),
            update("Zed", "1"),
        ],
        &hashes(),
        Locale::English,
        &store(),
    );
    let names: Vec<String> = to_registry(packages)
        .packages
        .iter()
        .map(|p| p.name.clone())
        .collect();
    assert_eq!(names, vec![s("Zed"), s("alpha"), s("alphabet"), s("mid"), s("zeta")]);
}

#[test]
fn sorted_list_round_trips() {
    let list = vec![
        build_package(update("a", "1"), &hashes(), Locale::English, &store()),
        build_package(update("b", "1"), &hashes(), Locale::English, &store()),
        build_package(update("c", "1"), &hashes(), Locale::English, &store()),
    ];
    let back = to_list(to_map(list));
    let names: Vec<String> = back.iter().map(|p| p.name.clone()).collect();
    assert_eq!(names, vec![s("a"), s("b"), s("c")]);
}

#[test]
fn to_map_sorts_unsorted_input() {
    let list = vec![
        build_package(update("c", "1"), &hashes(), Locale::English, &store()),
        build_package(update("a", "1"), &hashes(), Locale::English, &store()),
        build_package(update("b", "1"), &hashes(), Locale::English, &store()),
    ];
    let back = to_list(to_map(list));
    let names: Vec<String> = back.iter().map(|p| p.name.clone()).collect();
    assert_eq!(names, vec![s("a"), s("b"), s("c")]);
}
