//! The package registry as the resolver sees it: where the file of a
//! package lies, which versions a listing holds, and the three answers the
//! solver asks for.

use vstd::prelude::*;
use vstd::string::*;
use pubgrub::Ranges;
use crate::id::{indexed, Id};
use crate::ranges::{
    contains, key_le, key_lt, range_set, ranges_for, req_holds, req_valid, semver_key, Error, Key,
    Version, VersionReq,
};
use crate::search::{first_index, lemma_first_index};
use crate::text::{decimal, join, joined, push_decimal};

verus! {

/// The metadata of one version of a package.
#[derive(Debug)]
pub struct Package {
    /// Display name of the package.
    pub name: String,
    /// Authors of the package.
    pub authors: Vec<String>,
    /// A short description, possibly empty.
    pub desc: String,
    /// The requirement on each package this one depends on.
    pub deps: Vec<(Id, VersionReq)>,
    /// The license as an SPDX expression.
    pub license: Option<String>,
}

/// A registry rooted at a URL or directory.
#[derive(Debug)]
pub struct Registry {
    url: String,
}

/// One entry of a directory listing.
#[derive(Debug)]
pub struct DirEntry {
    pub name: String,
    pub is_dir: bool,
}

/// Why a registry query failed.
#[derive(Clone, Copy, Debug, PartialEq, Eq, Structural)]
pub enum RegistryError {
    /// An entry of a package directory is no directory.
    NotDirectory,
    /// The name of a version directory is no semver version.
    BadVersion,
}

/// Why the resolver got no answer.
#[derive(Clone, Copy, Debug, PartialEq, Eq, Structural)]
pub enum ResolveError {
    /// The registry could not be read.
    Registry(RegistryError),
    /// A dependency has no range set.
    Range(Error),
}

/// The directory of a package under the registry root.
pub open spec fn package_dir(root: Seq<char>, id: Seq<char>) -> Seq<char> {
    joined(root, indexed(id))
}

/// The file of one revision of one version of a package, where `version`
/// is the name of the directory of the version:
/// `<root>/<indexed path>/<version>/<rev>.toml`.
pub open spec fn package_file(root: Seq<char>, id: Seq<char>, version: Seq<char>, rev: u64) -> Seq<
    char,
> {
    joined(joined(package_dir(root, id), version), decimal(rev as nat) + ".toml"@)
}

impl Registry {
    /// The root of the registry.
    pub closed spec fn root(&self) -> Seq<char> {
        self.url@
    }

    /// The registry rooted at `url`.
    pub fn new(url: String) -> (registry: Self)
        ensures
            registry.root() == url@,
    {
        Registry { url }
    }

    /// The directory that holds the versions of `pack`.
    pub fn location(&self, pack: &Id) -> (dir: String)
        ensures
            dir@ == package_dir(self.root(), pack@),
    {
        let path = pack.indexed_path();
        join(self.url.as_str(), path.as_str())
    }

    /// The file of revision `rev` of the version of `pack` whose directory
    /// is named `version`.
    pub fn file(&self, pack: &Id, version: &str, rev: u64) -> (path: String)
        ensures
            path@ == package_file(self.root(), pack@, version@, rev),
    {
        let dir = self.location(pack);
        let versioned = join(dir.as_str(), version);
        let mut file = String::new();
        push_decimal(&mut file, rev);
        file.append(".toml");
        proof {
            assert(file@ =~= decimal(rev as nat) + ".toml"@);
        }
        join(versioned.as_str(), file.as_str())
    }
}

/// What is wrong with an entry of a package directory, if anything.
pub open spec fn entry_error(entry: DirEntry) -> Option<RegistryError> {
    if !entry.is_dir {
        Some(RegistryError::NotDirectory)
    } else if semver_key(entry.name@) is None {
        Some(RegistryError::BadVersion)
    } else {
        None
    }
}

/// The error of the first entry that has one.
pub open spec fn first_error(entries: Seq<DirEntry>) -> Option<RegistryError>
    decreases entries.len(),
{
    if entries.len() == 0 {
        None
    } else {
        match entry_error(entries[0]) {
            Some(e) => Some(e),
            None => first_error(entries.drop_first()),
        }
    }
}

/// The versions are in strictly increasing order: none occurs twice.
pub open spec fn increasing(vs: Seq<Version>) -> bool {
    forall|i: int, j: int|
        0 <= i < j < vs.len() ==> key_lt((#[trigger] vs[i]).key(), (#[trigger] vs[j]).key())
}

/// Whether one of the entries is named as the version with key `t`.
pub open spec fn names_version(entries: Seq<DirEntry>, t: Key) -> bool {
    exists|k: int| 0 <= k < entries.len() && semver_key((#[trigger] entries[k]).name@) == Some(t)
}

/// Whether the list holds the version with key `t`.
pub open spec fn lists(vs: Seq<Version>, t: Key) -> bool {
    exists|i: int| 0 <= i < vs.len() && (#[trigger] vs[i]).key() == t
}

/// Inserts `v` at its place unless the list holds it.
fn insert_sorted(vs: &mut Vec<Version>, v: Version)
    requires
        increasing(old(vs)@),
    ensures
        increasing(final(vs)@),
        forall|t: Key| #[trigger] lists(final(vs)@, t) <==> (lists(old(vs)@, t) || t == v.key()),
{
    let mut p: usize = 0;
    while p < vs.len() && vs[p].before(&v)
        invariant
            p <= vs@.len(),
            vs@ == old(vs)@,
            forall|i: int| 0 <= i < p ==> key_lt((#[trigger] vs@[i]).key(), v.key()),
        decreases vs@.len() - p,
    {
        p += 1;
    }
    let ghost before = vs@;
    if p < vs.len() && vs[p].major == v.major && vs[p].minor == v.minor && vs[p].patch == v.patch
        && vs[p].pre == v.pre {
        proof {
            assert(before[p as int].key() == v.key());
            assert forall|t: Key| #[trigger] lists(before, t) <==> (lists(before, t) || t
                == v.key()) by {
                if t == v.key() {
                    assert(before[p as int].key() == t);
                }
            }
        }
        return ;
    }
    vs.insert(p, v);
    proof {
        let after = vs@;
        assert(after == before.insert(p as int, v));
        assert forall|i: int, j: int| 0 <= i < j < after.len() implies key_lt(
            (#[trigger] after[i]).key(),
            (#[trigger] after[j]).key(),
        ) by {
            if i < p {
                assert(after[i] == before[i]);
            } else if i > p {
                assert(after[i] == before[i - 1]);
            }
            if j < p {
                assert(after[j] == before[j]);
            } else if j > p {
                assert(after[j] == before[j - 1]);
            }
            if i == p && j > p {
                assert(key_le(before[p as int].key(), before[j - 1].key())) by {
                    if j - 1 > p {
                        assert(key_lt(before[p as int].key(), before[j - 1].key()));
                    }
                }
                assert(!key_lt(before[p as int].key(), v.key()));
                assert(before[p as int].key() != v.key());
            }
        }
        assert forall|t: Key| #[trigger] lists(after, t) <==> (lists(before, t) || t
            == v.key()) by {
            if lists(after, t) {
                let i = choose|i: int| 0 <= i < after.len() && (#[trigger] after[i]).key() == t;
                if i < p {
                    assert(after[i] == before[i]);
                } else if i > p {
                    assert(after[i] == before[i - 1]);
                }
            }
            if lists(before, t) {
                let i = choose|i: int| 0 <= i < before.len() && (#[trigger] before[i]).key() == t;
                if i < p {
                    assert(after[i] == before[i]);
                } else {
                    assert(after[i + 1] == before[i]);
                }
            }
            if t == v.key() {
                assert(after[p as int] == v);
            }
        }
    }
}

/// The versions of a package, from the listing of its directory. Every
/// entry has to be a directory named as a semver version: the first entry
/// that is not decides the error. The result holds each version that is
/// named, once, in increasing order: a pre-release just before its release.
/// Directories that differ only in their pre-release or build tag name one
/// version; [`listed_name`] says which of them stands for it.
pub fn get_versions(entries: &Vec<DirEntry>) -> (out: Result<Vec<Version>, RegistryError>)
    ensures
        match first_error(entries@) {
            Some(e) => out == Err::<Vec<Version>, RegistryError>(e),
            None => {
                &&& out is Ok
                &&& increasing(out->Ok_0@)
                &&& forall|t: Key| #[trigger]
                    lists(out->Ok_0@, t) <==> names_version(entries@, t)
            },
        },
{
    let mut vs: Vec<Version> = Vec::new();
    let mut i: usize = 0;
    proof {
        assert(entries@.skip(0) =~= entries@);
    }
    while i < entries.len()
        invariant
            i <= entries@.len(),
            first_error(entries@) == first_error(entries@.skip(i as int)),
            increasing(vs@),
            forall|t: Key| #[trigger]
                lists(vs@, t) <==> names_version(entries@.take(i as int), t),
        decreases entries@.len() - i,
    {
        let entry = &entries[i];
        proof {
            assert(entries@.skip(i as int)[0] == *entry);
            assert(entries@.skip(i as int).drop_first() =~= entries@.skip(i + 1));
        }
        if !entry.is_dir {
            return Err(RegistryError::NotDirectory);
        }
        let v = match Version::parse(entry.name.as_str()) {
            Some(v) => v,
            None => {
                return Err(RegistryError::BadVersion);
            },
        };
        let ghost before = vs@;
        insert_sorted(&mut vs, v);
        proof {
            let shorter = entries@.take(i as int);
            let longer = entries@.take(i + 1);
            assert forall|t: Key| #[trigger] lists(vs@, t) <==> names_version(longer, t) by {
                if names_version(longer, t) {
                    let k = choose|k: int|
                        0 <= k < longer.len() && semver_key((#[trigger] longer[k]).name@) == Some(
                            t,
                        );
                    if k < i {
                        assert(shorter[k] == longer[k]);
                        assert(names_version(shorter, t));
                        assert(lists(before, t));
                    }
                }
                if lists(before, t) {
                    assert(names_version(shorter, t));
                    let k = choose|k: int|
                        0 <= k < shorter.len() && semver_key((#[trigger] shorter[k]).name@)
                            == Some(t);
                    assert(longer[k] == shorter[k]);
                }
                if t == v.key() {
                    assert(longer[i as int] == *entry);
                }
            }
        }
        i += 1;
    }
    proof {
        assert(entries@.take(i as int) =~= entries@);
    }
    Ok(vs)
}

/// Whether an entry names the version with key `t`.
pub open spec fn names_key(t: Key) -> spec_fn(DirEntry) -> bool {
    |entry: DirEntry| semver_key(entry.name@) == Some(t)
}

/// The index of the first entry that names the version with key `t`, or
/// the number of entries if none does.
pub open spec fn name_position(entries: Seq<DirEntry>, t: Key) -> int {
    first_index(entries, names_key(t))
}

/// The name of the directory of a version: that of the first entry of the
/// listing that names the version. Of several pre-releases of one release
/// the first that is listed stands for all.
pub fn listed_name(entries: &Vec<DirEntry>, version: &Version) -> (name: Option<String>)
    ensures
        match name {
            Some(name) => name_position(entries@, version.key()) < entries@.len() && name@
                == entries@[name_position(entries@, version.key())].name@,
            None => name_position(entries@, version.key()) == entries@.len(),
        },
{
    let mut i: usize = 0;
    while i < entries.len()
        invariant
            i <= entries@.len(),
            forall|j: int|
                0 <= j < i ==> semver_key((#[trigger] entries@[j]).name@) != Some(version.key()),
        decreases entries@.len() - i,
    {
        match Version::parse(entries[i].name.as_str()) {
            Some(v) => {
                if v.major == version.major && v.minor == version.minor && v.patch == version.patch
                    && v.pre == version.pre {
                    proof {
                        lemma_first_index(entries@, names_key(version.key()), i as int);
                    }
                    return Some(entries[i].name.clone());
                }
            },
            None => {},
        }
        i += 1;
    }
    proof {
        lemma_first_index(entries@, names_key(version.key()), i as int);
    }
    None
}

/// How many versions of the list the set holds.
pub open spec fn count_in(versions: Seq<Version>, set: Set<Key>) -> nat
    decreases versions.len(),
{
    if versions.len() == 0 {
        0
    } else {
        count_in(versions.drop_last(), set) + if set.contains(versions.last().key()) {
            1nat
        } else {
            0nat
        }
    }
}

/// The highest version of `versions` that `range` holds, if it holds any.
pub fn choose_version(versions: &Vec<Version>, range: &Ranges<Key>) -> (out: Option<Version>)
    ensures
        match out {
            Some(v) => {
                &&& versions@.contains(v)
                &&& range_set(*range).contains(v.key())
                &&& forall|i: int|
                    0 <= i < versions@.len() && range_set(*range).contains(
                        (#[trigger] versions@[i]).key(),
                    ) ==> key_le(versions@[i].key(), v.key())
            },
            None => forall|i: int|
                0 <= i < versions@.len() ==> !range_set(*range).contains(
                    (#[trigger] versions@[i]).key(),
                ),
        },
{
    let mut best: Option<Version> = None;
    let mut i: usize = 0;
    while i < versions.len()
        invariant
            i <= versions@.len(),
            match best {
                Some(v) => {
                    &&& versions@.contains(v)
                    &&& range_set(*range).contains(v.key())
                    &&& forall|k: int|
                        0 <= k < i && range_set(*range).contains((#[trigger] versions@[k]).key())
                            ==> key_le(versions@[k].key(), v.key())
                },
                None => forall|k: int|
                    0 <= k < i ==> !range_set(*range).contains((#[trigger] versions@[k]).key()),
            },
        decreases versions@.len() - i,
    {
        let v = versions[i];
        if contains(range, &v) {
            let better = match best {
                Some(b) => b.before(&v),
                None => true,
            };
            if better {
                best = Some(v);
            }
        }
        i += 1;
    }
    best
}

/// The priority of a package in the search: the number of versions of
/// `versions` that `range` holds. The fewer there are, the sooner the
/// package is decided. A listing that could not be read counts as empty.
pub fn prioritize(versions: Option<&Vec<Version>>, range: &Ranges<Key>) -> (count: usize)
    ensures
        match versions {
            Some(versions) => count == count_in(versions@, range_set(*range)),
            None => count == 0,
        },
{
    let versions = match versions {
        Some(versions) => versions,
        None => {
            return 0;
        },
    };
    let mut count: usize = 0;
    let mut i: usize = 0;
    while i < versions.len()
        invariant
            i <= versions@.len(),
            count == count_in(versions@.take(i as int), range_set(*range)),
            count <= i,
        decreases versions@.len() - i,
    {
        proof {
            assert(versions@.take(i + 1).drop_last() =~= versions@.take(i as int));
            assert(versions@.take(i + 1).last() == versions@[i as int]);
        }
        if contains(range, &versions[i]) {
            count += 1;
        }
        i += 1;
    }
    proof {
        assert(versions@.take(i as int) =~= versions@);
    }
    count
}

/// The highest version that a directory listing names and `range` holds.
/// A listing that is no list of versions fails the choice.
pub fn choose_listed(entries: &Vec<DirEntry>, range: &Ranges<Key>) -> (out: Result<
    Option<Version>,
    ResolveError,
>)
    ensures
        match first_error(entries@) {
            Some(e) => out == Err::<Option<Version>, ResolveError>(ResolveError::Registry(e)),
            None => match out {
                Ok(Some(v)) => {
                    &&& names_version(entries@, v.key())
                    &&& range_set(*range).contains(v.key())
                    &&& forall|t: Key| #[trigger]
                        names_version(entries@, t) && range_set(*range).contains(t) ==> key_le(
                            t,
                            v.key(),
                        )
                },
                Ok(None) => forall|t: Key| #[trigger]
                    names_version(entries@, t) ==> !range_set(*range).contains(t),
                Err(_) => false,
            },
        },
{
    let versions = match get_versions(entries) {
        Ok(versions) => versions,
        Err(e) => {
            return Err(ResolveError::Registry(e));
        },
    };
    let chosen = choose_version(&versions, range);
    proof {
        match chosen {
            Some(v) => {
                let i = choose|i: int| 0 <= i < versions@.len() && versions@[i] == v;
                assert(lists(versions@, v.key()));
                assert forall|t: Key| #[trigger]
                    names_version(entries@, t) && range_set(*range).contains(t) implies key_le(
                    t,
                    v.key(),
                ) by {
                    assert(lists(versions@, t));
                    let k = choose|k: int| 0 <= k < versions@.len() && (#[trigger] versions@[k]).key() == t;
                    assert(range_set(*range).contains(versions@[k].key()));
                }
            },
            None => {
                assert forall|t: Key| #[trigger] names_version(entries@, t) implies !range_set(
                    *range,
                ).contains(t) by {
                    assert(lists(versions@, t));
                    let k = choose|k: int| 0 <= k < versions@.len() && (#[trigger] versions@[k]).key() == t;
                    assert(!range_set(*range).contains(versions@[k].key()));
                }
            },
        }
    }
    Ok(chosen)
}

/// The priority of a package from the listing of its directory: the number
/// of distinct versions that the listing names and `range` holds. A listing
/// that is no list of versions counts as empty.
pub fn prioritize_listed(entries: &Vec<DirEntry>, range: &Ranges<Key>) -> (count: usize)
    ensures
        first_error(entries@) is Some ==> count == 0,
        first_error(entries@) is None ==> exists|versions: Seq<Version>|
            {
                &&& increasing(versions)
                &&& forall|t: Key| #[trigger] lists(versions, t) <==> names_version(entries@, t)
                &&& count == #[trigger] count_in(versions, range_set(*range))
            },
{
    match get_versions(entries) {
        Ok(versions) => prioritize(Some(&versions), range),
        Err(_) => 0,
    }
}

/// Every dependency of the list has a range set.
pub open spec fn deps_valid(deps: Seq<(Id, VersionReq)>) -> bool {
    forall|i: int| 0 <= i < deps.len() ==> req_valid((#[trigger] deps[i]).1.comparators@)
}

/// The dependencies of a package as the solver takes them: for each
/// package it depends on, the range set of the requirement.
pub fn get_dependencies(package: &Package) -> (out: Result<Vec<(Id, Ranges<Key>)>, ResolveError>)
    ensures
        deps_valid(package.deps@) ==> {
            &&& out is Ok
            &&& out->Ok_0@.len() == package.deps@.len()
            &&& forall|i: int|
                0 <= i < package.deps@.len() ==> {
                    &&& (#[trigger] out->Ok_0@[i]).0@ == package.deps@[i].0@
                    &&& range_set(out->Ok_0@[i].1) == Set::new(
                        |v: Key| req_holds(package.deps@[i].1.comparators@, v),
                    )
                }
        },
        !deps_valid(package.deps@) ==> out == Err::<Vec<(Id, Ranges<Key>)>, ResolveError>(
            ResolveError::Range(Error::PatchWithoutMinor),
        ),
{
    let mut out: Vec<(Id, Ranges<Key>)> = Vec::new();
    let mut i: usize = 0;
    while i < package.deps.len()
        invariant
            i <= package.deps@.len(),
            out@.len() == i,
            deps_valid(package.deps@.take(i as int)),
            forall|k: int|
                0 <= k < i ==> {
                    &&& (#[trigger] out@[k]).0@ == package.deps@[k].0@
                    &&& range_set(out@[k].1) == Set::new(
                        |v: Key| req_holds(package.deps@[k].1.comparators@, v),
                    )
                },
        decreases package.deps@.len() - i,
    {
        let dep = &package.deps[i];
        let ghost so_far = out@;
        match ranges_for(dep.1.clone()) {
            Ok(range) => {
                out.push((dep.0.clone(), range));
                proof {
                    assert forall|k: int| 0 <= k < i + 1 implies {
                        &&& (#[trigger] out@[k]).0@ == package.deps@[k].0@
                        &&& range_set(out@[k].1) == Set::new(
                            |v: Key| req_holds(package.deps@[k].1.comparators@, v),
                        )
                    } by {
                        if k < i {
                            assert(out@[k] == so_far[k]);
                        }
                    }
                    let longer = package.deps@.take(i + 1);
                    assert forall|k: int| 0 <= k < longer.len() implies req_valid(
                        (#[trigger] longer[k]).1.comparators@,
                    ) by {
                        if k < i {
                            assert(package.deps@.take(i as int)[k] == longer[k]);
                        }
                    }
                }
            },
            Err(_) => {
                proof {
                    assert(!req_valid(package.deps@[i as int].1.comparators@));
                }
                return Err(ResolveError::Range(Error::PatchWithoutMinor));
            },
        }
        i += 1;
    }
    proof {
        assert(package.deps@.take(i as int) =~= package.deps@);
    }
    Ok(out)
}

} // verus!
