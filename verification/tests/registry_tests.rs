use creeper::id::Id;
use creeper::ranges::{ranges_for, Comparator, Op, Error, Version, VersionReq};
use creeper::registry::{
    choose_listed, choose_version, get_dependencies, get_versions, listed_name, prioritize,
    prioritize_listed, DirEntry, Package, Registry, RegistryError, ResolveError,
};

fn dir(name: &str) -> DirEntry {
    DirEntry { name: name.into(), is_dir: true }
}

fn file(name: &str) -> DirEntry {
    DirEntry { name: name.into(), is_dir: false }
}

fn v(major: u64, minor: u64, patch: u64) -> Version {
    Version::new(major, minor, patch)
}

fn caret(major: u64, minor: u64, patch: u64) -> Comparator {
    Comparator { op: Op::Caret, major, minor: Some(minor), patch: Some(patch) }
}

fn one(c: Comparator) -> VersionReq {
    VersionReq { comparators: vec![c] }
}

#[test]
fn registry_paths() {
    let registry = Registry::new("file:///srv/registry".into());
    let id = Id::from_str("fabric-api").unwrap();
    assert_eq!(registry.location(&id), "file:///srv/registry/fa/br/fabric-api");
    assert_eq!(
        registry.file(&id, "1.20.4", 0),
        "file:///srv/registry/fa/br/fabric-api/1.20.4/0.toml"
    );
    assert_eq!(
        registry.file(&Id::vanilla(), "0.1.0-rc.1", 12),
        "file:///srv/registry/va/ni/vanilla/0.1.0-rc.1/12.toml"
    );
}

#[test]
fn versions_are_ordered_and_deduplicated() {
    let entries =
        vec![dir("2.0.0"), dir("1.0.0"), dir("1.10.0"), dir("1.2.0"), dir("1.0.0"), dir("0.9.9")];
    assert_eq!(
        get_versions(&entries),
        Ok(vec![v(0, 9, 9), v(1, 0, 0), v(1, 2, 0), v(1, 10, 0), v(2, 0, 0)])
    );
    assert_eq!(get_versions(&vec![]), Ok(vec![]));
    assert_eq!(
        get_versions(&vec![dir("1.0.0"), dir("1.0.0-rc.1"), dir("1.0.0-rc.2"), dir("1.0.0+b")]),
        Ok(vec![Version::pre_release(1, 0, 0), v(1, 0, 0)])
    );
    assert_eq!(get_versions(&vec![dir("1.0.0-rc.1")]), Ok(vec![Version::pre_release(1, 0, 0)]));
}

#[test]
fn version_listing_errors() {
    assert_eq!(get_versions(&vec![dir("1.0.0"), file("2.0.0")]), Err(RegistryError::NotDirectory));
    assert_eq!(get_versions(&vec![dir("1.0.0"), dir("latest")]), Err(RegistryError::BadVersion));
    assert_eq!(get_versions(&vec![dir("1.0"), file("README")]), Err(RegistryError::BadVersion));
    assert_eq!(get_versions(&vec![file("README"), dir("1.0")]), Err(RegistryError::NotDirectory));
}

#[test]
fn resolver_picks_the_highest_version() {
    let versions = vec![v(1, 0, 0), v(1, 1, 0), v(2, 0, 0)];
    let range = ranges_for(one(caret(1, 0, 0))).unwrap();
    assert_eq!(choose_version(&versions, &range), Some(v(1, 1, 0)));
    let shuffled = vec![v(1, 1, 0), v(2, 0, 0), v(1, 0, 0)];
    assert_eq!(choose_version(&shuffled, &range), Some(v(1, 1, 0)));
    let any = ranges_for(VersionReq { comparators: vec![] }).unwrap();
    assert_eq!(choose_version(&versions, &any), Some(v(2, 0, 0)));
}

#[test]
fn resolver_finds_nothing_in_an_empty_range() {
    let versions = vec![v(1, 0, 0), v(1, 1, 0), v(2, 0, 0)];
    let conflict = VersionReq {
        comparators: vec![
            Comparator { op: Op::GreaterEq, major: 1, minor: None, patch: None },
            Comparator { op: Op::Less, major: 1, minor: None, patch: None },
        ],
    };
    let range = ranges_for(conflict).unwrap();
    assert_eq!(choose_version(&versions, &range), None);
    let any = ranges_for(VersionReq { comparators: vec![] }).unwrap();
    assert_eq!(choose_version(&vec![], &any), None);
    let three = ranges_for(one(caret(3, 0, 0))).unwrap();
    assert_eq!(choose_version(&versions, &three), None);
}

#[test]
fn priority_counts_the_candidates() {
    let versions = vec![v(1, 0, 0), v(1, 1, 0), v(2, 0, 0), v(1, 1, 0)];
    let range = ranges_for(one(caret(1, 0, 0))).unwrap();
    assert_eq!(prioritize(Some(&versions), &range), 3);
    let two = ranges_for(one(caret(2, 0, 0))).unwrap();
    assert_eq!(prioritize(Some(&versions), &two), 1);
    let three = ranges_for(one(caret(3, 0, 0))).unwrap();
    assert_eq!(prioritize(Some(&versions), &three), 0);
    assert_eq!(prioritize(Some(&vec![]), &range), 0);
    assert_eq!(prioritize(None, &range), 0);
}

#[test]
fn dependencies_become_ranges() {
    let package = Package {
        name: "Example".into(),
        authors: vec!["someone".into()],
        desc: String::new(),
        deps: vec![
            (Id::minecraft(), one(caret(1, 20, 0))),
            (Id::fabric(), VersionReq { comparators: vec![] }),
        ],
        license: Some("MIT".into()),
    };
    let deps = get_dependencies(&package).unwrap();
    assert_eq!(deps.len(), 2);
    assert_eq!(deps[0].0, Id::minecraft());
    assert_eq!(deps[0].1, ranges_for(one(caret(1, 20, 0))).unwrap());
    assert!(deps[0].1.contains(&(1, 21, 3, 1)));
    assert!(!deps[0].1.contains(&(2, 0, 0, 1)));
    assert_eq!(deps[1].0, Id::fabric());
    assert_eq!(deps[1].1, pubgrub::Ranges::full());
}

#[test]
fn dependencies_without_a_range() {
    let bad = Comparator { op: Op::Tilde, major: 1, minor: None, patch: Some(1) };
    let package = Package {
        name: "Example".into(),
        authors: vec![],
        desc: String::new(),
        deps: vec![(Id::minecraft(), one(caret(1, 0, 0))), (Id::forge(), one(bad))],
        license: None,
    };
    assert_eq!(
        get_dependencies(&package),
        Err(ResolveError::Range(Error::PatchWithoutMinor))
    );
}

#[test]
fn choice_from_a_listing() {
    let listing = vec![dir("1.1.0"), dir("2.0.0"), dir("1.0.0"), dir("1.1.0")];
    let range = ranges_for(one(caret(1, 0, 0))).unwrap();
    assert_eq!(choose_listed(&listing, &range), Ok(Some(v(1, 1, 0))));
    assert_eq!(prioritize_listed(&listing, &range), 2);
    let three = ranges_for(one(caret(3, 0, 0))).unwrap();
    assert_eq!(choose_listed(&listing, &three), Ok(None));
    assert_eq!(prioritize_listed(&listing, &three), 0);
}

#[test]
fn unreadable_listing() {
    let range = ranges_for(VersionReq { comparators: vec![] }).unwrap();
    let listing = vec![dir("1.0.0"), file("1.1.0")];
    assert_eq!(
        choose_listed(&listing, &range),
        Err(ResolveError::Registry(RegistryError::NotDirectory))
    );
    assert_eq!(prioritize_listed(&listing, &range), 0);
    let listing = vec![dir("one"), dir("1.1.0")];
    assert_eq!(
        choose_listed(&listing, &range),
        Err(ResolveError::Registry(RegistryError::BadVersion))
    );
    assert_eq!(prioritize_listed(&listing, &range), 0);
}

#[test]
fn release_is_chosen_over_its_pre_release() {
    let any = ranges_for(VersionReq { comparators: vec![] }).unwrap();
    let versions = vec![Version::pre_release(2, 0, 0), v(1, 9, 0), v(2, 0, 0)];
    assert_eq!(choose_version(&versions, &any), Some(v(2, 0, 0)));
    let versions = vec![Version::pre_release(2, 0, 0), v(1, 9, 0)];
    assert_eq!(choose_version(&versions, &any), Some(Version::pre_release(2, 0, 0)));
    let one = ranges_for(one(caret(1, 0, 0))).unwrap();
    assert_eq!(choose_version(&versions, &one), Some(Version::pre_release(2, 0, 0)));
    let listing = vec![dir("1.0.0-rc.1")];
    assert_eq!(choose_listed(&listing, &any), Ok(Some(Version::pre_release(1, 0, 0))));
    assert_eq!(choose_listed(&listing, &one), Ok(None));
}

#[test]
fn directory_of_a_listed_version() {
    let listing = vec![dir("1.0.0-rc.2"), dir("1.0.0"), dir("1.0.0-rc.1"), file("2.0.0")];
    assert_eq!(listed_name(&listing, &v(1, 0, 0)), Some("1.0.0".to_string()));
    assert_eq!(
        listed_name(&listing, &Version::pre_release(1, 0, 0)),
        Some("1.0.0-rc.2".to_string())
    );
    assert_eq!(listed_name(&listing, &v(2, 0, 0)), Some("2.0.0".to_string()));
    assert_eq!(listed_name(&listing, &v(3, 0, 0)), None);
    assert_eq!(listed_name(&vec![], &v(1, 0, 0)), None);
}
