use std::convert::Infallible;
use std::fmt;

use creeper::id::Id;
use creeper::ranges::{ranges_for, Comparator, Key, Op, Version, VersionReq};
use creeper::registry::{choose_version, get_dependencies, get_versions, prioritize, DirEntry, Package};
use pubgrub::{
    DefaultStringReporter, Dependencies, DependencyProvider, PackageResolutionStatistics,
    PubGrubError, Ranges, Reporter, VersionSet,
};

/// A version as the solver orders and prints it.
#[derive(Clone, Debug, PartialEq, Eq, PartialOrd, Ord, Hash)]
struct Ver(Key);

impl fmt::Display for Ver {
    fn fmt(&self, f: &mut fmt::Formatter<'_>) -> fmt::Result {
        f.write_str(&Version::from_key(self.0).to_string())
    }
}

/// A range set as the solver handles it.
#[derive(Clone, Debug, PartialEq, Eq)]
struct Bounds(Ranges<Key>);

impl fmt::Display for Bounds {
    fn fmt(&self, f: &mut fmt::Formatter<'_>) -> fmt::Result {
        f.write_str(&format!("{:?}", self.0))
    }
}

impl VersionSet for Bounds {
    type V = Ver;

    fn empty() -> Self {
        Bounds(Ranges::empty())
    }

    fn singleton(v: Ver) -> Self {
        Bounds(Ranges::singleton(v.0))
    }

    fn complement(&self) -> Self {
        Bounds(self.0.complement())
    }

    fn intersection(&self, other: &Self) -> Self {
        Bounds(self.0.intersection(&other.0))
    }

    fn contains(&self, v: &Ver) -> bool {
        self.0.contains(&v.0)
    }
}

/// A registry held in memory: for each package its directory listing and the
/// metadata of each version.
struct Provider {
    packages: Vec<(String, Vec<DirEntry>, Vec<(Version, Package)>)>,
}

impl Provider {
    fn versions(&self, package: &str) -> Option<Vec<Version>> {
        let (_, listing, _) = self.packages.iter().find(|(id, _, _)| id == package)?;
        get_versions(listing).ok()
    }
}

impl DependencyProvider for Provider {
    type P = String;
    type V = Ver;
    type VS = Bounds;
    type M = String;
    type Priority = std::cmp::Reverse<usize>;
    type Err = Infallible;

    fn prioritize(&self, package: &String, range: &Bounds, _: &PackageResolutionStatistics) -> Self::Priority {
        std::cmp::Reverse(prioritize(self.versions(package).as_ref(), &range.0))
    }

    fn choose_version(&self, package: &String, range: &Bounds) -> Result<Option<Ver>, Infallible> {
        let versions = self.versions(package).unwrap_or_default();
        Ok(choose_version(&versions, &range.0).map(|v| Ver(v.order_key())))
    }

    fn get_dependencies(
        &self,
        package: &String,
        version: &Ver,
    ) -> Result<Dependencies<String, Bounds, String>, Infallible> {
        let found = self
            .packages
            .iter()
            .find(|(id, _, _)| id == package)
            .and_then(|(_, _, nodes)| nodes.iter().find(|(v, _)| v.order_key() == version.0));
        let Some((_, node)) = found else {
            return Ok(Dependencies::Unavailable("no such package".into()));
        };
        match get_dependencies(node) {
            Ok(deps) => Ok(Dependencies::Available(
                deps.into_iter().map(|(id, range)| (id.to_string(), Bounds(range))).collect(),
            )),
            Err(e) => Ok(Dependencies::Unavailable(format!("{e:?}"))),
        }
    }
}

fn node(deps: Vec<(&str, VersionReq)>) -> Package {
    Package {
        name: "node".into(),
        authors: vec![],
        desc: String::new(),
        deps: deps.into_iter().map(|(id, req)| (Id::from_str(id).unwrap(), req)).collect(),
        license: None,
    }
}

fn package(id: &str, nodes: Vec<(Version, Package)>) -> (String, Vec<DirEntry>, Vec<(Version, Package)>) {
    let listing =
        nodes.iter().map(|(v, _)| DirEntry { name: v.to_string(), is_dir: true }).collect();
    (id.to_string(), listing, nodes)
}

fn cmp(op: Op, major: u64, minor: Option<u64>, patch: Option<u64>) -> Comparator {
    Comparator { op, major, minor, patch }
}

fn registry(root: VersionReq) -> Provider {
    let v = Version::new;
    Provider {
        packages: vec![
            package("root", vec![(v(0, 0, 0), node(vec![("a", root)]))]),
            package(
                "a",
                vec![
                    (v(1, 0, 0), node(vec![])),
                    (v(1, 1, 0), node(vec![("b", VersionReq { comparators: vec![] })])),
                    (v(2, 0, 0), node(vec![])),
                ],
            ),
            package("b", vec![(v(0, 3, 0), node(vec![])), (v(0, 4, 1), node(vec![]))]),
        ],
    }
}

#[test]
fn resolver_highest_version() {
    let root = VersionReq { comparators: vec![cmp(Op::Caret, 1, Some(0), Some(0))] };
    let provider = registry(root);
    let solution = pubgrub::resolve(&provider, "root".to_string(), Ver((0, 0, 0, 1))).unwrap();
    assert_eq!(solution.get("a"), Some(&Ver((1, 1, 0, 1))));
    assert_eq!(solution.get("b"), Some(&Ver((0, 4, 1, 1))));
    assert_eq!(solution.get("root"), Some(&Ver((0, 0, 0, 1))));
    assert_eq!(solution.len(), 3);
}

#[test]
fn resolver_conflict() {
    let root = VersionReq {
        comparators: vec![cmp(Op::GreaterEq, 1, None, None), cmp(Op::Less, 1, None, None)],
    };
    assert_eq!(ranges_for(root.clone()), Ok(Ranges::empty()));
    let provider = registry(root);
    match pubgrub::resolve(&provider, "root".to_string(), Ver((0, 0, 0, 1))) {
        Err(PubGrubError::NoSolution(tree)) => {
            let report = DefaultStringReporter::report(&tree);
            assert!(report.contains("a"), "{report}");
            assert!(report.contains("root"), "{report}");
        }
        Err(other) => panic!("{other:?}"),
        Ok(solution) => panic!("{solution:?}"),
    }
}

#[test]
fn resolver_without_a_version_in_range() {
    let root = VersionReq { comparators: vec![cmp(Op::Caret, 3, None, None)] };
    let provider = registry(root);
    let out = pubgrub::resolve(&provider, "root".to_string(), Ver((0, 0, 0, 1)));
    assert!(matches!(out, Err(PubGrubError::NoSolution(_))));
}
