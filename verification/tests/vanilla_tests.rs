use creeper::checksum::{blake3, sha1};
use creeper::http::{Client, HttpError, HttpRequest};
use creeper::mc::{
    check_class, check_os, Host, HostArch, HostOs, Os, OsArch, OsName, Unsupported,
};
use creeper::ranges::Version;
use creeper::storage::{StorageError, StorageManager};
use creeper::vanilla::{
    filter_lib, vanilla_install, AssetIndex, Download, Downloads, Library, Manifest,
    ManifestEntry, McArtifact, McVersion, Rule, RuleAction, VanillaError, VanillaManager,
};

const LINUX: Host = Host { os: HostOs::Linux, arch: HostArch::X86_64 };
const MACOS: Host = Host { os: HostOs::Macos, arch: HostArch::X86_64 };
const WINDOWS: Host = Host { os: HostOs::Windows, arch: HostArch::X86_64 };

struct Server {
    pages: Vec<(String, Vec<u8>)>,
    reads: usize,
}

impl HttpRequest for Server {
    fn http_get(&mut self, url: &str) -> Result<Vec<u8>, HttpError> {
        match self.pages.iter().find(|(u, _)| u == url) {
            Some((_, body)) => {
                self.reads += 1;
                Ok(body.clone())
            }
            None => Err(HttpError { message: format!("no such page: {url}") }),
        }
    }
}

fn art(name: &str) -> McArtifact {
    McArtifact {
        path: format!("org/example/{name}.jar"),
        sha1: sha1(name.as_bytes()),
        size: name.len() as u64,
        url: format!("http://libs/{name}.jar"),
    }
}

fn on(name: OsName) -> Option<Os> {
    Some(Os { name: Some(name), version: None, arch: None })
}

fn rule(action: RuleAction, os: Option<Os>) -> Rule {
    Rule { action, os, features: vec![] }
}

fn library(
    artifact: Option<McArtifact>,
    classifiers: Option<Vec<(&str, McArtifact)>>,
    rules: Option<Vec<Rule>>,
) -> Library {
    Library {
        name: "org.example:lib:1.0".into(),
        downloads: Some(Downloads {
            artifact,
            classifiers: classifiers.map(|c| c.into_iter().map(|(k, a)| (k.to_string(), a)).collect()),
        }),
        rules,
    }
}

#[test]
fn host_from_names() {
    assert_eq!(Host::from_names("linux", "x86_64"), LINUX);
    assert_eq!(Host::from_names("macos", "x86_64"), MACOS);
    assert_eq!(Host::from_names("windows", "x86"), Host { os: HostOs::Windows, arch: HostArch::X86 });
    assert_eq!(
        Host::from_names("freebsd", "aarch64"),
        Host { os: HostOs::Other, arch: HostArch::Other }
    );
}

#[test]
fn os_name_matches_the_host() {
    let os = |name| Os { name: Some(name), version: None, arch: None };
    assert_eq!(check_os(&os(OsName::Linux), &LINUX), Ok(true));
    assert_eq!(check_os(&os(OsName::Linux), &MACOS), Ok(false));
    assert_eq!(check_os(&os(OsName::Osx), &MACOS), Ok(true));
    assert_eq!(check_os(&os(OsName::Osx), &LINUX), Ok(false));
    assert_eq!(check_os(&os(OsName::Windows), &WINDOWS), Ok(true));
    assert_eq!(check_os(&os(OsName::Windows), &MACOS), Ok(false));
    assert_eq!(check_os(&Os { name: None, version: None, arch: None }, &LINUX), Ok(true));
}

#[test]
fn os_arch_x86_stands_for_both_kinds() {
    let os = Os { name: None, version: None, arch: Some(OsArch::X86) };
    assert_eq!(check_os(&os, &Host { os: HostOs::Linux, arch: HostArch::X86 }), Ok(true));
    assert_eq!(check_os(&os, &Host { os: HostOs::Linux, arch: HostArch::X86_64 }), Ok(true));
    assert_eq!(check_os(&os, &Host { os: HostOs::Linux, arch: HostArch::Other }), Ok(false));
    let both = Os { name: Some(OsName::Windows), version: None, arch: Some(OsArch::X86) };
    assert_eq!(check_os(&both, &LINUX), Ok(false));
    assert_eq!(check_os(&both, &WINDOWS), Ok(true));
}

#[test]
fn os_version_is_unsupported() {
    let os = Os { name: Some(OsName::Linux), version: Some("^10\\.".into()), arch: None };
    assert_eq!(check_os(&os, &LINUX), Err(Unsupported::OsVersion));
    assert_eq!(check_os(&os, &MACOS), Err(Unsupported::OsVersion));
}

#[test]
fn classifiers() {
    assert_eq!(check_class("natives-linux", &LINUX), Ok(true));
    assert_eq!(check_class("natives-linux", &WINDOWS), Ok(false));
    assert_eq!(check_class("natives-windows", &WINDOWS), Ok(true));
    assert_eq!(check_class("natives-macos", &MACOS), Ok(true));
    assert_eq!(check_class("natives-macos", &LINUX), Ok(false));
    assert_eq!(check_class("natives-osx", &MACOS), Err(Unsupported::Classifier));
    assert_eq!(check_class("sources", &LINUX), Err(Unsupported::Classifier));
}

#[test]
fn rule_filtering() {
    let lib = || {
        library(
            Some(art("lib")),
            None,
            Some(vec![
                rule(RuleAction::Allow, on(OsName::Linux)),
                rule(RuleAction::Disallow, on(OsName::Osx)),
            ]),
        )
    };
    assert_eq!(filter_lib(vec![lib()], &LINUX), Ok(vec![art("lib")]));
    assert_eq!(filter_lib(vec![lib()], &MACOS), Ok(vec![]));
}

#[test]
fn rules_without_qualifier() {
    let allow = library(Some(art("a")), None, Some(vec![rule(RuleAction::Allow, None)]));
    let disallow = library(Some(art("d")), None, Some(vec![rule(RuleAction::Disallow, None)]));
    let none = library(Some(art("n")), None, Some(vec![]));
    let absent = library(Some(art("x")), None, None);
    assert_eq!(
        filter_lib(vec![allow, disallow, none, absent], &LINUX),
        Ok(vec![art("a"), art("n"), art("x")])
    );
}

#[test]
fn disallow_elsewhere_keeps_the_library() {
    let lib = || library(Some(art("lib")), None, Some(vec![rule(RuleAction::Disallow, on(OsName::Osx))]));
    assert_eq!(filter_lib(vec![lib()], &LINUX), Ok(vec![art("lib")]));
    assert_eq!(filter_lib(vec![lib()], &WINDOWS), Ok(vec![art("lib")]));
    assert_eq!(filter_lib(vec![lib()], &MACOS), Ok(vec![]));
}

#[test]
fn classifier_selection() {
    let lib = || library(Some(art("lib")), Some(vec![("natives-linux", art("lib-linux"))]), None);
    assert_eq!(filter_lib(vec![lib()], &LINUX), Ok(vec![art("lib-linux"), art("lib")]));
    assert_eq!(filter_lib(vec![lib()], &WINDOWS), Ok(vec![art("lib")]));
    assert_eq!(filter_lib(vec![lib()], &LINUX).unwrap().len(), 2);
    assert_eq!(filter_lib(vec![lib()], &WINDOWS).unwrap().len(), 1);
}

#[test]
fn classifiers_of_every_platform() {
    let lib = || {
        library(
            None,
            Some(vec![
                ("natives-linux", art("l")),
                ("natives-macos", art("m")),
                ("natives-windows", art("w")),
            ]),
            None,
        )
    };
    assert_eq!(filter_lib(vec![lib()], &LINUX), Ok(vec![art("l")]));
    assert_eq!(filter_lib(vec![lib()], &MACOS), Ok(vec![art("m")]));
    assert_eq!(filter_lib(vec![lib()], &WINDOWS), Ok(vec![art("w")]));
    let other = Host { os: HostOs::Other, arch: HostArch::Other };
    assert_eq!(filter_lib(vec![lib()], &other), Ok(vec![]));
}

#[test]
fn library_without_downloads() {
    let lib = Library { name: "n".into(), downloads: None, rules: None };
    assert_eq!(filter_lib(vec![lib], &LINUX), Ok(vec![]));
    assert_eq!(filter_lib(vec![], &LINUX), Ok(vec![]));
}

#[test]
fn unsupported_rules() {
    let features = Rule {
        action: RuleAction::Allow,
        os: None,
        features: vec![("is_demo_user".into(), true)],
    };
    let lib = library(Some(art("lib")), None, Some(vec![features]));
    assert_eq!(filter_lib(vec![lib], &LINUX), Err(Unsupported::Features));
    let versioned = rule(
        RuleAction::Allow,
        Some(Os { name: Some(OsName::Windows), version: Some("^10\\.".into()), arch: None }),
    );
    let lib = library(Some(art("lib")), None, Some(vec![versioned]));
    assert_eq!(filter_lib(vec![lib], &LINUX), Err(Unsupported::OsVersion));
    let lib = library(Some(art("lib")), Some(vec![("natives-solaris", art("s"))]), None);
    assert_eq!(filter_lib(vec![lib], &LINUX), Err(Unsupported::Classifier));
}

#[test]
fn rules_stop_at_the_first_that_does_not_apply() {
    let features = Rule { action: RuleAction::Allow, os: None, features: vec![("f".into(), true)] };
    let lib = library(
        Some(art("lib")),
        Some(vec![("natives-solaris", art("s"))]),
        Some(vec![rule(RuleAction::Allow, on(OsName::Osx)), features]),
    );
    assert_eq!(filter_lib(vec![lib], &LINUX), Ok(vec![]));
}

#[test]
fn first_unsupported_thing_decides() {
    let features = Rule { action: RuleAction::Allow, os: None, features: vec![("f".into(), true)] };
    let first = library(Some(art("a")), Some(vec![("natives-solaris", art("s"))]), None);
    let second = library(Some(art("b")), None, Some(vec![features]));
    assert_eq!(filter_lib(vec![first, second], &LINUX), Err(Unsupported::Classifier));
}

#[test]
fn same_sha1_collapses() {
    let mut twin = art("one");
    twin.path = "org/example/other-path.jar".into();
    twin.url = "http://mirror/one.jar".into();
    let libs = vec![
        library(Some(art("one")), None, None),
        library(Some(art("two")), None, None),
        library(Some(twin.clone()), None, None),
        library(Some(art("three")), None, None),
        library(Some(art("two")), None, None),
    ];
    assert_eq!(filter_lib(libs, &LINUX), Ok(vec![twin, art("three"), art("two")]));
}

fn version() -> McVersion {
    McVersion {
        main_class: "net.minecraft.client.main.Main".into(),
        asset_index: AssetIndex {
            id: "17".into(),
            sha1: sha1(b"assets"),
            size: 6,
            url: "http://meta/17.json".into(),
        },
        client: Download { sha1: sha1(b"client"), size: 6, url: "http://meta/client.jar".into() },
        libraries: vec![
            library(Some(art("lib")), Some(vec![("natives-linux", art("lib-linux"))]), None),
            library(
                Some(art("mac-only")),
                None,
                Some(vec![rule(RuleAction::Allow, on(OsName::Osx))]),
            ),
            library(Some(art("lib")), None, None),
        ],
    }
}

fn server() -> Server {
    let page = |url: &str, body: &str| (url.to_string(), body.as_bytes().to_vec());
    Server {
        pages: vec![
            page("http://meta/17.json", "assets"),
            page("http://meta/client.jar", "client"),
            page("http://libs/lib.jar", "lib"),
            page("http://libs/lib-linux.jar", "lib-linux"),
            page("http://libs/mac-only.jar", "mac-only"),
        ],
        reads: 0,
    }
}

#[test]
fn install_of_a_version() {
    let mut store = StorageManager::new("/data".into());
    let mut http = Client::new(server());
    let install = vanilla_install(&mut store, &mut http, version(), &LINUX).unwrap();
    assert_eq!(install.java_main_class.as_deref(), Some("net.minecraft.client.main.Main"));
    let jar = install.mc_jar.unwrap();
    assert_eq!(jar.name, "minecraft.jar");
    assert_eq!(jar.src, "http://meta/client.jar");
    assert_eq!(jar.len, 6);
    assert_eq!(jar.sha1, Some(sha1(b"client")));
    assert_eq!(jar.blake3, blake3(b"client"));
    let index = install.mc_asset_index.unwrap();
    assert_eq!(index.name, "17");
    assert_eq!(index.src, "http://meta/17.json");
    assert_eq!(index.blake3, blake3(b"assets"));
    assert_eq!(install.java_lib.len(), 2);
    assert_eq!(install.java_lib[0].name, "org/example/lib-linux.jar");
    assert_eq!(install.java_lib[0].blake3, blake3(b"lib-linux"));
    assert_eq!(install.java_lib[1].name, "org/example/lib.jar");
    assert_eq!(install.java_lib[1].sha1, Some(sha1(b"lib")));
    assert!(install.native.is_empty());
    assert!(install.java_flag.is_empty());
    assert!(install.mc_flag.is_empty());
    assert!(install.mc_mod.is_empty());
    assert_eq!(http.inner().reads, 4);
    assert_eq!(
        http.requests(),
        &vec![
            "http://meta/client.jar".to_string(),
            "http://libs/lib-linux.jar".to_string(),
            "http://libs/lib.jar".to_string(),
            "http://meta/17.json".to_string()
        ]
    );
    assert_eq!(store.rows().len(), 4);
    assert_eq!(store.blobs().len(), 4);
    for art in install.java_lib.iter().chain([&jar, &index]) {
        assert_eq!(store.find(&art.blake3).as_ref(), Some(art));
    }
}

#[test]
fn install_fetches_nothing_twice() {
    let mut store = StorageManager::new("/data".into());
    let mut http = Client::new(server());
    let first = vanilla_install(&mut store, &mut http, version(), &MACOS).unwrap();
    assert_eq!(first.java_lib.len(), 2);
    assert_eq!(http.inner().reads, 4);
    let second = vanilla_install(&mut store, &mut http, version(), &MACOS).unwrap();
    assert_eq!(http.inner().reads, 4);
    assert_eq!(second, first);
    assert_eq!(store.rows().len(), 4);
}

#[test]
fn install_of_unsupported_libraries_touches_nothing() {
    let mut store = StorageManager::new("/data".into());
    let mut http = Client::new(server());
    let mut version = version();
    version.libraries.push(library(None, Some(vec![("natives-solaris", art("s"))]), None));
    let out = vanilla_install(&mut store, &mut http, version, &LINUX);
    assert_eq!(out, Err(VanillaError::Unsupported(Unsupported::Classifier)));
    assert_eq!(http.inner().reads, 0);
    assert!(store.rows().is_empty());
}

#[test]
fn install_fails_with_a_download() {
    let mut store = StorageManager::new("/data".into());
    let mut offline = server();
    offline.pages.retain(|(url, _)| url != "http://libs/lib.jar");
    let mut http = Client::new(offline);
    let out = vanilla_install(&mut store, &mut http, version(), &LINUX);
    assert_eq!(out, Err(VanillaError::Storage(StorageError::Io)));
    assert_eq!(
        http.requests(),
        &vec![
            "http://meta/client.jar".to_string(),
            "http://libs/lib-linux.jar".to_string(),
            "http://libs/lib.jar".to_string()
        ]
    );
    assert_eq!(store.rows().len(), 2);
    let mut store = StorageManager::new("/data".into());
    let mut tampered = server();
    tampered.pages[1].1 = b"tampered".to_vec();
    let mut http = Client::new(tampered);
    let out = vanilla_install(&mut store, &mut http, version(), &LINUX);
    assert_eq!(out, Err(VanillaError::Storage(StorageError::Corruption)));
}

fn manifest() -> Manifest {
    let entry = |id: &str| ManifestEntry { id: id.into(), url: format!("http://meta/{id}.json") };
    Manifest {
        versions: vec![entry("1.21.4"), entry("24w14a"), entry("1.21.0"), entry("1.20"), entry("1.21.4")],
    }
}

#[test]
fn manifest_lookup() {
    let manifest = manifest();
    assert_eq!(manifest.get_version("24w14a").map(|e| e.url.as_str()), Some("http://meta/24w14a.json"));
    assert_eq!(manifest.get_version("1.21.4").map(|e| e.id.as_str()), Some("1.21.4"));
    assert!(manifest.get_version("1.0.0").is_none());
    assert_eq!(
        manifest.version_url(&Version::new(1, 21, 0)),
        Some("http://meta/1.21.0.json".to_string())
    );
    assert_eq!(manifest.version_url(&Version::new(1, 20, 0)), None);
    assert_eq!(manifest.version_url(&Version::new(1, 21, 1)), None);
}

#[test]
fn manifest_game_versions() {
    assert_eq!(
        manifest().game_versions(),
        vec![Version::new(1, 21, 4), Version::new(1, 21, 0), Version::new(1, 21, 4)]
    );
    assert_eq!(Manifest { versions: vec![] }.game_versions(), vec![]);
}

#[test]
fn manager_keeps_what_was_set_first() {
    let mut manager = VanillaManager::new();
    assert!(manager.manifest().is_none());
    assert!(manager.version(&Version::new(1, 21, 4)).is_none());
    assert_eq!(manager.set_manifest(manifest()).versions.len(), 5);
    assert_eq!(manager.set_manifest(Manifest { versions: vec![] }).versions.len(), 5);
    assert_eq!(manager.manifest().map(|m| m.versions.len()), Some(5));
    manager.set_version(Version::new(1, 21, 4), version());
    let mut other = version();
    other.main_class = "other.Main".into();
    manager.set_version(Version::new(1, 21, 4), other);
    manager.set_version(Version::new(1, 21, 0), version());
    let kept = manager.version(&Version::new(1, 21, 4)).unwrap();
    assert_eq!(kept.main_class, "net.minecraft.client.main.Main");
    assert!(manager.version(&Version::new(1, 21, 0)).is_some());
    assert!(manager.version(&Version::new(1, 20, 0)).is_none());
}
