//! Locale-specific plugin catalogs: package records, the name-keyed map they
//! are merged into, and the merge of updated plugins.
use vstd::prelude::*;
use vstd::string::StringExecFns;
use crate::keyed::{
    keyed, keys_unique, lemma_keyed_domain, lemma_keyed_insert, lemma_keyed_len, lemma_keyed_push,
    lemma_keyed_update, lemma_keyed_value,
};
use crate::order::{
    lemma_name_lt_irreflexive, lemma_name_lt_total, lemma_name_lt_transitive, name_less, name_lt,
};
use crate::strmap::StrMap;

verus! {

/// The schema version written into every registry file.
pub const REGISTRY_VERSION: u8 = 1;

/// Download metadata of a package: archive type, URL and content digest.
pub struct Dist {
    pub kind: String,
    pub url: String,
    pub shasum: String,
}

pub struct DistView {
    pub kind: Seq<char>,
    pub url: Seq<char>,
    pub shasum: Seq<char>,
}

impl View for Dist {
    type V = DistView;

    open spec fn view(&self) -> DistView {
        DistView { kind: self.kind@, url: self.url@, shasum: self.shasum@ }
    }
}

/// One installable plugin of a registry.
pub struct Package {
    pub name: String,
    pub version: String,
    pub title: String,
    pub description: String,
    pub author: String,
    pub require: StrMap,
    pub dist: Dist,
}

pub struct PackageView {
    pub name: Seq<char>,
    pub version: Seq<char>,
    pub title: Seq<char>,
    pub description: Seq<char>,
    pub author: Seq<char>,
    pub require: Map<Seq<char>, Seq<char>>,
    pub dist: DistView,
}

impl View for Package {
    type V = PackageView;

    open spec fn view(&self) -> PackageView {
        PackageView {
            name: self.name@,
            version: self.version@,
            title: self.title@,
            description: self.description@,
            author: self.author@,
            require: self.require@,
            dist: self.dist@,
        }
    }
}

/// A registry file's content: schema version and packages in order.
pub struct Registry {
    pub version: u8,
    pub packages: Vec<Package>,
}

/// The packages of a sequence keyed by name.
pub open spec fn package_pairs(s: Seq<Package>) -> Seq<(Seq<char>, PackageView)> {
    s.map_values(|p: Package| (p.name@, p@))
}

/// The names of `s` ascend strictly.
pub open spec fn names_sorted(s: Seq<Package>) -> bool {
    forall|i: int, j: int| 0 <= i < j < s.len() ==> name_lt(s[i].name@, s[j].name@)
}

/// Every package of `s` has a well-formed `require` map.
pub open spec fn requires_wf(s: Seq<Package>) -> bool {
    forall|i: int| 0 <= i < s.len() ==> (#[trigger] s[i]).require.wf()
}

/// Names that ascend strictly are unique.
pub proof fn lemma_sorted_unique(s: Seq<Package>)
    requires
        names_sorted(s),
    ensures
        keys_unique(package_pairs(s)),
{
    assert forall|i: int, j: int| 0 <= i < j < package_pairs(s).len() implies package_pairs(s)[i].0
        != package_pairs(s)[j].0 by {
        lemma_name_lt_irreflexive(s[i].name@);
    }
}

/// Packages keyed by name, kept in ascending name order.
pub struct PackageMap {
    entries: Vec<Package>,
}

impl View for PackageMap {
    type V = Map<Seq<char>, PackageView>;

    closed spec fn view(&self) -> Map<Seq<char>, PackageView> {
        keyed(package_pairs(self.entries@))
    }
}

impl PackageMap {
    /// The packages in ascending name order.
    pub closed spec fn packages(&self) -> Seq<Package> {
        self.entries@
    }

    pub closed spec fn wf(&self) -> bool {
        names_sorted(self.entries@) && requires_wf(self.entries@)
    }

    /// Listing the packages and keying them by name again gives back the
    /// map; the list ascends by name and has one package per key.
    pub proof fn lemma_round_trip(&self)
        requires
            self.wf(),
        ensures
            names_sorted(self.packages()),
            requires_wf(self.packages()),
            keys_unique(package_pairs(self.packages())),
            keyed(package_pairs(self.packages())) == self@,
            self.packages().len() == self@.dom().len(),
    {
        lemma_sorted_unique(self.entries@);
        lemma_keyed_len(package_pairs(self.entries@));
    }

    /// The empty map.
    pub fn new() -> (r: PackageMap)
        ensures
            r.wf(),
            r@ == Map::<Seq<char>, PackageView>::empty(),
            r.packages().len() == 0,
    {
        let r = PackageMap { entries: Vec::new() };
        assert(package_pairs(r.entries@) =~= Seq::empty());
        r
    }

    /// Number of packages.
    pub fn len(&self) -> (r: usize)
        ensures
            r == self.packages().len(),
    {
        self.entries.len()
    }

    fn find(&self, name: &String) -> (r: Option<usize>)
        ensures
            match r {
                Some(i) => i < self.entries@.len() && self.entries@[i as int].name@ == name@,
                None => forall|i: int| 0 <= i < self.entries@.len() ==> self.entries@[i].name@ != name@,
            },
    {
        let mut i: usize = 0;
        while i < self.entries.len()
            invariant
                i <= self.entries@.len(),
                forall|j: int| 0 <= j < i ==> self.entries@[j].name@ != name@,
            decreases self.entries@.len() - i,
        {
            if self.entries[i].name == *name {
                return Some(i);
            }
            i = i + 1;
        }
        None
    }

    /// The package named `name`, if any.
    pub fn get(&self, name: &String) -> (r: Option<&Package>)
        requires
            self.wf(),
        ensures
            match r {
                Some(p) => self@.contains_key(name@) && self@[name@] == p@ && p.require.wf(),
                None => !self@.contains_key(name@),
            },
    {
        proof {
            lemma_sorted_unique(self.entries@);
            lemma_keyed_domain(package_pairs(self.entries@), name@);
        }
        match self.find(name) {
            Some(i) => {
                proof {
                    lemma_keyed_value(package_pairs(self.entries@), i as int);
                }
                Some(&self.entries[i])
            },
            None => None,
        }
    }

    /// Inserts `p` under its name, keeping names ascending: a package of that
    /// name is overwritten in place (the length stays), a new name goes in at
    /// its place in the order (the length grows by one).
    pub fn insert(&mut self, p: Package)
        requires
            old(self).wf(),
            p.require.wf(),
        ensures
            final(self).wf(),
            final(self)@ == old(self)@.insert(p.name@, p@),
            old(self)@.contains_key(p.name@) ==> final(self).packages().len() == old(self).packages().len(),
            !old(self)@.contains_key(p.name@) ==> final(self).packages().len() == old(self).packages().len() + 1,
            (forall|j: int| 0 <= j < old(self).packages().len() ==> name_lt(
                #[trigger] old(self).packages()[j].name@,
                p.name@,
            )) ==> final(self).packages() == old(self).packages().push(p),
    {
        let ghost s0 = self.entries@;
        let ghost s = package_pairs(s0);
        let ghost kv = (p.name@, p@);
        proof {
            lemma_sorted_unique(s0);
            lemma_keyed_domain(s, p.name@);
        }
        let mut i: usize = 0;
        while i < self.entries.len()
            invariant
                self.entries@ == s0,
                old(self).entries@ == s0,
                s == package_pairs(s0),
                kv == (p.name@, p@),
                names_sorted(s0),
                requires_wf(s0),
                p.require.wf(),
                keys_unique(s),
                keyed(s).contains_key(p.name@) <==> exists|j: int| 0 <= j < s.len() && s[j].0 == p.name@,
                i <= s0.len(),
                forall|j: int| 0 <= j < i ==> name_lt(#[trigger] s0[j].name@, p.name@),
            decreases s0.len() - i,
        {
            if self.entries[i].name == p.name {
                proof {
                    lemma_keyed_update(s, i as int, kv.1);
                    lemma_name_lt_irreflexive(p.name@);
                    assert(s[i as int].0 == kv.0);
                }
                self.entries[i] = p;
                assert(package_pairs(self.entries@) =~= s.update(i as int, (s[i as int].0, kv.1)));
                assert forall|a: int| 0 <= a < s0.len() implies #[trigger] self.entries@[a].name@ == s0[a].name@ by {
                }
                return;
            }
            if name_less(&p.name, &self.entries[i].name) {
                let ghost e = s0[i as int].name@;
                proof {
                    assert forall|k: int| 0 <= k < s.len() implies s[k].0 != kv.0 by {
                        lemma_name_lt_irreflexive(kv.0);
                        if k > i {
                            lemma_name_lt_transitive(kv.0, e, s0[k].name@);
                        }
                    }
                    lemma_keyed_insert(s, i as int, kv.0, kv.1);
                    lemma_name_lt_irreflexive(kv.0);
                    assert(!(forall|j: int| 0 <= j < s0.len() ==> name_lt(#[trigger] s0[j].name@, kv.0))) by {
                        if forall|j: int| 0 <= j < s0.len() ==> name_lt(#[trigger] s0[j].name@, kv.0) {
                            assert(name_lt(s0[i as int].name@, kv.0));
                            lemma_name_lt_transitive(kv.0, e, kv.0);
                        }
                    }
                }
                self.entries.insert(i, p);
                proof {
                    s0.insert_ensures(i as int, p);
                    let u = self.entries@;
                    assert(package_pairs(u) =~= s.insert(i as int, kv));
                    assert forall|a: int, b: int| 0 <= a < b < u.len() implies name_lt(u[a].name@, u[b].name@) by {
                        if b < i {
                        } else if b == i {
                        } else if a < i {
                            assert(u[b] == s0[b - 1]);
                        } else if a == i {
                            assert(u[b] == s0[b - 1]);
                            if b - 1 > i {
                                lemma_name_lt_transitive(kv.0, e, s0[b - 1].name@);
                            }
                        } else {
                            assert(u[a] == s0[a - 1]);
                            assert(u[b] == s0[b - 1]);
                        }
                    }
                    assert forall|a: int| 0 <= a < u.len() implies (#[trigger] u[a]).require.wf() by {
                        if a > i {
                            assert(u[a] == s0[a - 1]);
                        }
                    }
                }
                return;
            }
            proof {
                lemma_name_lt_total(p.name@, s0[i as int].name@);
            }
            i = i + 1;
        }
        self.entries.push(p);
        proof {
            assert forall|k: int| 0 <= k < s.len() implies s[k].0 != kv.0 by {
                lemma_name_lt_irreflexive(kv.0);
            }
            lemma_keyed_push(s, kv.0, kv.1);
            assert(package_pairs(self.entries@) =~= s.push(kv));
        }
    }
}

/// Keys a list of packages by name; of two packages with one name the later
/// wins. The map lists its packages in ascending name order, one per key; a
/// list that already ascends by name is kept as it is.
pub fn to_map(list: Vec<Package>) -> (r: PackageMap)
    requires
        requires_wf(list@),
    ensures
        r.wf(),
        r@ == keyed(package_pairs(list@)),
        names_sorted(r.packages()),
        requires_wf(r.packages()),
        r.packages().len() == r@.dom().len(),
        names_sorted(list@) ==> r.packages() == list@,
{
    let ghost all = list@;
    let mut rest = list;
    let mut r = PackageMap::new();
    while rest.len() > 0
        invariant
            r.wf(),
            rest@.len() <= all.len(),
            rest@ == all.subrange(all.len() - rest@.len(), all.len() as int),
            r@ == keyed(package_pairs(all.subrange(0, all.len() - rest@.len()))),
            names_sorted(all) ==> r.packages() == all.subrange(0, all.len() - rest@.len()),
            requires_wf(all),
        decreases rest@.len(),
    {
        let ghost done = all.len() - rest@.len();
        let p = rest.remove(0);
        assert(p == all[done]);
        assert(p.require.wf());
        let ghost before = r.packages();
        r.insert(p);
        proof {
            let pre = package_pairs(all.subrange(0, done));
            let post = package_pairs(all.subrange(0, done + 1));
            assert(post.drop_last() =~= pre);
            assert(rest@ =~= all.subrange(all.len() - rest@.len(), all.len() as int));
            if names_sorted(all) {
                assert forall|j: int| 0 <= j < before.len() implies name_lt(#[trigger] before[j].name@, p.name@) by {
                    assert(before[j] == all[j]);
                }
                assert(all.subrange(0, done).push(p) =~= all.subrange(0, done + 1));
            }
        }
    }
    assert(all.subrange(0, all.len() as int) =~= all);
    proof {
        r.lemma_round_trip();
    }
    r
}

/// The packages of a map, in ascending name order.
pub fn to_list(map: PackageMap) -> (r: Vec<Package>)
    requires
        map.wf(),
    ensures
        r@ == map.packages(),
        names_sorted(r@),
        requires_wf(r@),
        keyed(package_pairs(r@)) == map@,
{
    proof {
        map.lemma_round_trip();
    }
    map.entries
}

/// The registry file content for a map of packages: the schema version and
/// the packages in ascending name order.
pub fn to_registry(map: PackageMap) -> (r: Registry)
    requires
        map.wf(),
    ensures
        r.version == REGISTRY_VERSION,
        r.packages@ == map.packages(),
        names_sorted(r.packages@),
        requires_wf(r.packages@),
        keyed(package_pairs(r.packages@)) == map@,
{
    Registry { version: REGISTRY_VERSION, packages: to_list(map) }
}

/// The locales for which a registry file is kept.
#[derive(PartialEq, Eq, Structural, Clone, Copy, Debug)]
pub enum Locale {
    English,
    SimplifiedChinese,
    Other,
}

/// The locales whose registry files a sync pass rewrites, in order.
pub fn registry_locales() -> (r: Vec<Locale>)
    ensures
        r@ == seq![Locale::English, Locale::SimplifiedChinese],
{
    let mut r: Vec<Locale> = Vec::new();
    r.push(Locale::English);
    r.push(Locale::SimplifiedChinese);
    assert(r@ =~= seq![Locale::English, Locale::SimplifiedChinese]);
    r
}

/// A text in each recognised locale.
pub struct LocalizedText {
    pub en: String,
    pub zh_cn: String,
}

/// The localised title and description of one plugin.
pub struct PluginText {
    pub title: LocalizedText,
    pub description: LocalizedText,
}

pub struct PluginTextView {
    pub title_en: Seq<char>,
    pub title_zh_cn: Seq<char>,
    pub description_en: Seq<char>,
    pub description_zh_cn: Seq<char>,
}

impl View for PluginText {
    type V = PluginTextView;

    open spec fn view(&self) -> PluginTextView {
        PluginTextView {
            title_en: self.title.en@,
            title_zh_cn: self.title.zh_cn@,
            description_en: self.description.en@,
            description_zh_cn: self.description.zh_cn@,
        }
    }
}

/// The texts of a vector of named plugin texts, as character sequences.
pub open spec fn text_pairs(s: Seq<(String, PluginText)>) -> Seq<(Seq<char>, PluginTextView)> {
    s.map_values(|e: (String, PluginText)| (e.0@, e.1@))
}

/// Localised plugin texts, looked up by plugin name.
pub struct I18nStore {
    entries: Vec<(String, PluginText)>,
}

impl View for I18nStore {
    type V = Map<Seq<char>, PluginTextView>;

    closed spec fn view(&self) -> Map<Seq<char>, PluginTextView> {
        keyed(text_pairs(self.entries@))
    }
}

impl I18nStore {
    pub closed spec fn wf(&self) -> bool {
        keys_unique(text_pairs(self.entries@))
    }

    /// The empty store.
    pub fn new() -> (r: I18nStore)
        ensures
            r.wf(),
            r@ == Map::<Seq<char>, PluginTextView>::empty(),
    {
        let r = I18nStore { entries: Vec::new() };
        assert(text_pairs(r.entries@) =~= Seq::empty());
        r
    }

    fn find(&self, name: &String) -> (r: Option<usize>)
        ensures
            match r {
                Some(i) => i < self.entries@.len() && self.entries@[i as int].0@ == name@,
                None => forall|i: int| 0 <= i < self.entries@.len() ==> self.entries@[i].0@ != name@,
            },
    {
        let mut i: usize = 0;
        while i < self.entries.len()
            invariant
                i <= self.entries@.len(),
                forall|j: int| 0 <= j < i ==> self.entries@[j].0@ != name@,
            decreases self.entries@.len() - i,
        {
            if self.entries[i].0 == *name {
                return Some(i);
            }
            i = i + 1;
        }
        None
    }

    /// The texts of plugin `name`, if the store has them.
    pub fn get(&self, name: &String) -> (r: Option<&PluginText>)
        requires
            self.wf(),
        ensures
            match r {
                Some(t) => self@.contains_key(name@) && self@[name@] == t@,
                None => !self@.contains_key(name@),
            },
    {
        proof {
            lemma_keyed_domain(text_pairs(self.entries@), name@);
        }
        match self.find(name) {
            Some(i) => {
                proof {
                    lemma_keyed_value(text_pairs(self.entries@), i as int);
                }
                Some(&self.entries[i].1)
            },
            None => None,
        }
    }

    /// Stores the texts of plugin `name`, replacing any earlier ones.
    pub fn insert(&mut self, name: String, text: PluginText)
        requires
            old(self).wf(),
        ensures
            final(self).wf(),
            final(self)@ == old(self)@.insert(name@, text@),
    {
        let ghost s = text_pairs(self.entries@);
        let ghost kv = (name@, text@);
        proof {
            lemma_keyed_domain(s, name@);
        }
        match self.find(&name) {
            Some(i) => {
                proof {
                    lemma_keyed_update(s, i as int, kv.1);
                }
                self.entries[i] = (name, text);
                assert(text_pairs(self.entries@) =~= s.update(i as int, (s[i as int].0, kv.1)));
            },
            None => {
                self.entries.push((name, text));
                proof {
                    lemma_keyed_push(s, kv.0, kv.1);
                }
                assert(text_pairs(self.entries@) =~= s.push(kv));
            },
        }
    }
}

/// A plugin's own manifest: identity, declared dependencies, and the default
/// (not localised) display text.
pub struct PluginManifest {
    pub name: String,
    pub version: String,
    pub title: String,
    pub description: String,
    pub author: String,
    pub require: StrMap,
}

pub struct ManifestView {
    pub name: Seq<char>,
    pub version: Seq<char>,
    pub title: Seq<char>,
    pub description: Seq<char>,
    pub author: Seq<char>,
    pub require: Map<Seq<char>, Seq<char>>,
}

impl View for PluginManifest {
    type V = ManifestView;

    open spec fn view(&self) -> ManifestView {
        ManifestView {
            name: self.name@,
            version: self.version@,
            title: self.title@,
            description: self.description@,
            author: self.author@,
            require: self.require@,
        }
    }
}

/// One updated plugin: the name and version its archive was packaged under,
/// and its manifest.
pub struct PluginUpdate {
    pub name: String,
    pub version: String,
    pub manifest: PluginManifest,
}

pub struct UpdateView {
    pub name: Seq<char>,
    pub version: Seq<char>,
    pub manifest: ManifestView,
}

impl View for PluginUpdate {
    type V = UpdateView;

    open spec fn view(&self) -> UpdateView {
        UpdateView { name: self.name@, version: self.version@, manifest: self.manifest@ }
    }
}

/// The archive type of every package.
pub open spec fn archive_kind() -> Seq<char> {
    "zip"@
}

/// Where the archive of `name` at `version` is published.
pub open spec fn cdn_url(name: Seq<char>, version: Seq<char>) -> Seq<char> {
    "https://cdn.jsdelivr.net/gh/bs-community/plugins-dist/"@ + name + "_"@ + version + ".zip"@
}

/// The recorded digest of `name`: the computed one, or empty when none was computed.
pub open spec fn shasum_for(hashes: Map<Seq<char>, Seq<char>>, name: Seq<char>) -> Seq<char> {
    if hashes.contains_key(name) {
        hashes[name]
    } else {
        Seq::empty()
    }
}

/// The localised texts of `name`, when the store has them.
pub open spec fn text_for(i18n: Map<Seq<char>, PluginTextView>, name: Seq<char>) -> Option<PluginTextView> {
    if i18n.contains_key(name) {
        Some(i18n[name])
    } else {
        None
    }
}

/// The title shown in `locale`: the localised one for English or Simplified
/// Chinese when texts exist, the manifest's own otherwise.
pub open spec fn title_for(locale: Locale, own: Seq<char>, text: Option<PluginTextView>) -> Seq<char> {
    match text {
        Some(t) => match locale {
            Locale::English => t.title_en,
            Locale::SimplifiedChinese => t.title_zh_cn,
            Locale::Other => own,
        },
        None => own,
    }
}

/// The description shown in `locale`, by the same rule as the title.
pub open spec fn description_for(locale: Locale, own: Seq<char>, text: Option<PluginTextView>) -> Seq<char> {
    match text {
        Some(t) => match locale {
            Locale::English => t.description_en,
            Locale::SimplifiedChinese => t.description_zh_cn,
            Locale::Other => own,
        },
        None => own,
    }
}

/// The package record that an update yields in `locale`.
pub open spec fn package_of(
    u: UpdateView,
    hashes: Map<Seq<char>, Seq<char>>,
    locale: Locale,
    i18n: Map<Seq<char>, PluginTextView>,
) -> PackageView {
    PackageView {
        name: u.manifest.name,
        version: u.manifest.version,
        title: title_for(locale, u.manifest.title, text_for(i18n, u.name)),
        description: description_for(locale, u.manifest.description, text_for(i18n, u.name)),
        author: u.manifest.author,
        require: u.manifest.require,
        dist: DistView {
            kind: archive_kind(),
            url: cdn_url(u.name, u.version),
            shasum: shasum_for(hashes, u.name),
        },
    }
}

/// A registry after merging `ups` in order: each inserts or overwrites its
/// record by name.
pub open spec fn merged(
    m: Map<Seq<char>, PackageView>,
    ups: Seq<UpdateView>,
    hashes: Map<Seq<char>, Seq<char>>,
    locale: Locale,
    i18n: Map<Seq<char>, PluginTextView>,
) -> Map<Seq<char>, PackageView>
    decreases ups.len(),
{
    if ups.len() == 0 {
        m
    } else {
        let u = ups.last();
        merged(m, ups.drop_last(), hashes, locale, i18n).insert(
            u.manifest.name,
            package_of(u, hashes, locale, i18n),
        )
    }
}

/// The URL of the archive of `name` at `version`.
pub fn archive_url(name: &String, version: &String) -> (r: String)
    ensures
        r@ == cdn_url(name@, version@),
{
    let mut r = String::from_str("https://cdn.jsdelivr.net/gh/bs-community/plugins-dist/");
    r.append(name.as_str());
    r.append("_");
    r.append(version.as_str());
    r.append(".zip");
    r
}

/// The text of `own` or of one of the localised variants, as `locale` picks.
fn pick_text(locale: Locale, own: String, en: &String, zh_cn: &String) -> (r: String)
    ensures
        r@ == match locale {
            Locale::English => en@,
            Locale::SimplifiedChinese => zh_cn@,
            Locale::Other => own@,
        },
{
    match locale {
        Locale::English => en.clone(),
        Locale::SimplifiedChinese => zh_cn.clone(),
        Locale::Other => own,
    }
}

/// Builds the record of one updated plugin for the registry of `locale`.
pub fn build_package(update: PluginUpdate, hashes: &StrMap, locale: Locale, i18n: &I18nStore) -> (r: Package)
    requires
        hashes.wf(),
        i18n.wf(),
        update.manifest.require.wf(),
    ensures
        r@ == package_of(update@, hashes@, locale, i18n@),
        r.require.wf(),
{
    let PluginUpdate { name, version, manifest } = update;
    let PluginManifest { name: own_name, version: own_version, title, description, author, require } = manifest;
    let (title, description) = match i18n.get(&name) {
        Some(t) => (
            pick_text(locale, title, &t.title.en, &t.title.zh_cn),
            pick_text(locale, description, &t.description.en, &t.description.zh_cn),
        ),
        None => (title, description),
    };
    let url = archive_url(&name, &version);
    let shasum = match hashes.get(&name) {
        Some(h) => h.clone(),
        None => String::new(),
    };
    Package {
        name: own_name,
        version: own_version,
        title,
        description,
        author,
        require,
        dist: Dist { kind: String::from_str("zip"), url, shasum },
    }
}

/// Merges one updated plugin into the registry of `locale`: a new name makes
/// the registry one longer; a known name is overwritten in place and the
/// length stays.
pub fn merge_update(
    packages: &mut PackageMap,
    update: PluginUpdate,
    hashes: &StrMap,
    locale: Locale,
    i18n: &I18nStore,
)
    requires
        old(packages).wf(),
        hashes.wf(),
        i18n.wf(),
        update.manifest.require.wf(),
    ensures
        final(packages).wf(),
        final(packages)@ == old(packages)@.insert(
            update.manifest.name@,
            package_of(update@, hashes@, locale, i18n@),
        ),
        !old(packages)@.contains_key(update.manifest.name@) ==> final(packages).packages().len()
            == old(packages).packages().len() + 1,
        old(packages)@.contains_key(update.manifest.name@) ==> final(packages).packages().len()
            == old(packages).packages().len(),
{
    let p = build_package(update, hashes, locale, i18n);
    packages.insert(p);
}

/// A merge never drops or changes an entry whose name no update carries.
pub proof fn lemma_merged_untouched(
    m: Map<Seq<char>, PackageView>,
    ups: Seq<UpdateView>,
    hashes: Map<Seq<char>, Seq<char>>,
    locale: Locale,
    i18n: Map<Seq<char>, PluginTextView>,
    k: Seq<char>,
)
    requires
        forall|i: int| 0 <= i < ups.len() ==> (#[trigger] ups[i]).manifest.name != k,
    ensures
        merged(m, ups, hashes, locale, i18n).contains_key(k) == m.contains_key(k),
        m.contains_key(k) ==> merged(m, ups, hashes, locale, i18n)[k] == m[k],
    decreases ups.len(),
{
    if ups.len() > 0 {
        assert(ups[ups.len() - 1].manifest.name != k);
        lemma_merged_untouched(m, ups.drop_last(), hashes, locale, i18n, k);
    }
}

/// In English and Simplified Chinese a plugin with localised texts shows
/// them; in any other locale, or without texts, it shows its manifest's own.
pub proof fn lemma_localized_text(
    u: UpdateView,
    hashes: Map<Seq<char>, Seq<char>>,
    locale: Locale,
    i18n: Map<Seq<char>, PluginTextView>,
)
    ensures
        i18n.contains_key(u.name) && locale == Locale::English ==> package_of(u, hashes, locale, i18n).title
            == i18n[u.name].title_en && package_of(u, hashes, locale, i18n).description
            == i18n[u.name].description_en,
        i18n.contains_key(u.name) && locale == Locale::SimplifiedChinese ==> package_of(
            u,
            hashes,
            locale,
            i18n,
        ).title == i18n[u.name].title_zh_cn && package_of(u, hashes, locale, i18n).description
            == i18n[u.name].description_zh_cn,
        (!i18n.contains_key(u.name) || locale == Locale::Other) ==> package_of(
            u,
            hashes,
            locale,
            i18n,
        ).title == u.manifest.title && package_of(u, hashes, locale, i18n).description
            == u.manifest.description,
{
}

/// Merges the updated plugins into the registry of `locale`, in order: each
/// record is inserted, or overwrites the one of its name in place.
pub fn update_registry(
    packages: &mut PackageMap,
    updates: Vec<PluginUpdate>,
    hashes: &StrMap,
    locale: Locale,
    i18n: &I18nStore,
)
    requires
        old(packages).wf(),
        hashes.wf(),
        i18n.wf(),
        forall|i: int| 0 <= i < updates@.len() ==> (#[trigger] updates@[i]).manifest.require.wf(),
    ensures
        final(packages).wf(),
        final(packages)@ == merged(
            old(packages)@,
            updates@.map_values(|u: PluginUpdate| u@),
            hashes@,
            locale,
            i18n@,
        ),
{
    let ghost all = updates@;
    let ghost views = all.map_values(|u: PluginUpdate| u@);
    let ghost start = packages@;
    let mut rest = updates;
    while rest.len() > 0
        invariant
            packages.wf(),
            hashes.wf(),
            i18n.wf(),
            rest@.len() <= all.len(),
            views == all.map_values(|u: PluginUpdate| u@),
            rest@ == all.subrange(all.len() - rest@.len(), all.len() as int),
            packages@ == merged(start, views.subrange(0, all.len() - rest@.len()), hashes@, locale, i18n@),
            forall|i: int| 0 <= i < all.len() ==> (#[trigger] all[i]).manifest.require.wf(),
        decreases rest@.len(),
    {
        let ghost done = all.len() - rest@.len();
        let u = rest.remove(0);
        assert(u == all[done]);
        merge_update(packages, u, hashes, locale, i18n);
        proof {
            assert(views.subrange(0, done + 1).drop_last() =~= views.subrange(0, done));
            assert(rest@ =~= all.subrange(all.len() - rest@.len(), all.len() as int));
        }
    }
    assert(views.subrange(0, all.len() as int) =~= views);
}

} // verus!
