//! What a package contributes to an instance, and how contributions merge.

use vstd::prelude::*;
use vstd::string::*;
use crate::storage::{artifact_views, opt_artifact, Artifact, ArtifactView};
use crate::text::{opt_text, texts};

verus! {

/// Whether `key` is a path of the map `m`.
pub open spec fn has_key(m: Seq<(Seq<char>, ArtifactView)>, key: Seq<char>) -> bool {
    exists|i: int| 0 <= i < m.len() && (#[trigger] m[i]).0 == key
}

/// No path occurs twice.
pub open spec fn distinct_keys(m: Seq<(Seq<char>, ArtifactView)>) -> bool {
    forall|i: int, j: int|
        0 <= i < m.len() && 0 <= j < m.len() && i != j ==> (#[trigger] m[i]).0 != (#[trigger] m[j]).0
}

/// The map `a` with the entry added unless its path is taken.
pub open spec fn inserted(
    a: Seq<(Seq<char>, ArtifactView)>,
    entry: (Seq<char>, ArtifactView),
) -> Seq<(Seq<char>, ArtifactView)> {
    if has_key(a, entry.0) {
        a
    } else {
        a.push(entry)
    }
}

/// The union of two maps: the entries of `a`, then those of `b` whose path
/// `a` does not hold. On a collision the left entry wins.
pub open spec fn united(
    a: Seq<(Seq<char>, ArtifactView)>,
    b: Seq<(Seq<char>, ArtifactView)>,
) -> Seq<(Seq<char>, ArtifactView)>
    decreases b.len(),
{
    if b.len() == 0 {
        a
    } else {
        inserted(united(a, b.drop_last()), b.last())
    }
}

/// What a list of entries holds, entry by entry.
pub open spec fn entry_views(v: Seq<(String, Artifact)>) -> Seq<(Seq<char>, ArtifactView)> {
    Seq::new(v.len(), |i: int| (v[i].0@, v[i].1@))
}

/// A map from relative path to artifact that remembers the order in which
/// its paths were first inserted.
#[derive(Debug, PartialEq, Eq)]
pub struct FileMap {
    entries: Vec<(String, Artifact)>,
}

impl View for FileMap {
    type V = Seq<(Seq<char>, ArtifactView)>;

    closed spec fn view(&self) -> Seq<(Seq<char>, ArtifactView)> {
        entry_views(self.entries@)
    }
}

impl Clone for FileMap {
    fn clone(&self) -> (copy: Self)
        ensures
            copy@ == self@,
    {
        proof {
            use_type_invariant(self);
        }
        let mut entries: Vec<(String, Artifact)> = Vec::new();
        let mut i: usize = 0;
        while i < self.entries.len()
            invariant
                i <= self.entries@.len(),
                entries@.len() == i,
                forall|j: int|
                    0 <= j < i ==> entries@[j].0@ == self.entries@[j].0@ && entries@[j].1@
                        == self.entries@[j].1@,
            decreases self.entries@.len() - i,
        {
            entries.push((self.entries[i].0.clone(), self.entries[i].1.clone()));
            i += 1;
        }
        proof {
            assert(entry_views(entries@) =~= self@);
        }
        FileMap { entries }
    }
}

impl FileMap {
    #[verifier::type_invariant]
    spec fn well_formed(self) -> bool {
        distinct_keys(self@)
    }

    /// The empty map.
    pub fn new() -> (m: Self)
        ensures
            m@ == Seq::<(Seq<char>, ArtifactView)>::empty(),
    {
        let m = FileMap { entries: Vec::new() };
        proof {
            assert(m@ =~= Seq::<(Seq<char>, ArtifactView)>::empty());
        }
        m
    }

    /// The number of paths. No path occurs twice.
    pub fn len(&self) -> (n: usize)
        ensures
            n == self@.len(),
            distinct_keys(self@),
    {
        proof {
            use_type_invariant(self);
        }
        self.entries.len()
    }

    /// Whether the map holds no path.
    pub fn is_empty(&self) -> (empty: bool)
        ensures
            empty == (self@.len() == 0),
    {
        self.entries.len() == 0
    }

    /// The path of the `i`-th entry.
    pub fn path_at(&self, i: usize) -> (path: &String)
        requires
            i < self@.len(),
        ensures
            path@ == self@[i as int].0,
    {
        &self.entries[i].0
    }

    /// The artifact of the `i`-th entry.
    pub fn artifact_at(&self, i: usize) -> (art: &Artifact)
        requires
            i < self@.len(),
        ensures
            art@ == self@[i as int].1,
    {
        &self.entries[i].1
    }

    /// Whether `path` is a path of the map.
    pub fn contains(&self, path: &str) -> (yes: bool)
        ensures
            yes == has_key(self@, path@),
    {
        let mut i: usize = 0;
        while i < self.entries.len()
            invariant
                i <= self.entries@.len(),
                forall|j: int| 0 <= j < i ==> (#[trigger] self@[j]).0 != path@,
            decreases self.entries@.len() - i,
        {
            if crate::text::str_eq(self.entries[i].0.as_str(), path) {
                assert(self@[i as int].0 == path@);
                return true;
            }
            i += 1;
        }
        false
    }

    /// The artifact filed under `path`, if any.
    pub fn get(&self, path: &str) -> (found: Option<&Artifact>)
        ensures
            found is Some <==> has_key(self@, path@),
            found matches Some(art) ==> exists|i: int|
                0 <= i < self@.len() && (#[trigger] self@[i]) == (path@, art@),
    {
        let mut i: usize = 0;
        while i < self.entries.len()
            invariant
                i <= self.entries@.len(),
                forall|j: int| 0 <= j < i ==> (#[trigger] self@[j]).0 != path@,
            decreases self.entries@.len() - i,
        {
            if crate::text::str_eq(self.entries[i].0.as_str(), path) {
                assert(self@[i as int] == (path@, self.entries@[i as int].1@));
                return Some(&self.entries[i].1);
            }
            i += 1;
        }
        None
    }

    /// Files `art` under `path` unless the path is taken, and says whether
    /// it was filed.
    pub fn insert(&mut self, path: String, art: Artifact) -> (fresh: bool)
        ensures
            fresh == !has_key(old(self)@, path@),
            final(self)@ == inserted(old(self)@, (path@, art@)),
    {
        proof {
            use_type_invariant(&*self);
        }
        if self.contains(path.as_str()) {
            return false;
        }
        let ghost before = self@;
        let mut taken = FileMap::new();
        core::mem::swap(self, &mut taken);
        let FileMap { entries } = taken;
        let mut entries = entries;
        entries.push((path, art));
        proof {
            let after = entry_views(entries@);
            assert(after =~= before.push((path@, art@)));
            assert forall|i: int, j: int|
                0 <= i < after.len() && 0 <= j < after.len() && i != j implies (
            #[trigger] after[i]).0 != (#[trigger] after[j]).0 by {
                if i < before.len() {
                    assert(before[i] == after[i]);
                }
                if j < before.len() {
                    assert(before[j] == after[j]);
                }
            }
        }
        *self = FileMap { entries };
        true
    }

    /// Adds every entry of `other` whose path is not taken, in order.
    pub fn extend(&mut self, other: FileMap)
        ensures
            final(self)@ == united(old(self)@, other@),
    {
        let mut i: usize = 0;
        let n = other.len();
        while i < n
            invariant
                n == other@.len(),
                i <= n,
                self@ == united(old(self)@, other@.take(i as int)),
            decreases n - i,
        {
            let path = other.path_at(i).clone();
            let art = other.artifact_at(i).clone();
            proof {
                assert(other@.take(i + 1).drop_last() =~= other@.take(i as int));
                assert(other@.take(i + 1).last() == other@[i as int]);
            }
            self.insert(path, art);
            i += 1;
        }
        proof {
            assert(other@.take(n as int) =~= other@);
        }
    }
}

/// The merge-friendly aggregate of what packages contribute to an instance.
#[derive(Debug, PartialEq, Eq)]
pub struct Install {
    pub java_lib: Vec<Artifact>,
    pub java_main_class: Option<String>,
    pub native: FileMap,
    pub java_flag: Vec<String>,
    pub mc_jar: Option<Artifact>,
    pub mc_flag: Vec<String>,
    pub mc_asset_index: Option<Artifact>,
    pub mc_mod: Vec<Artifact>,
}

/// What an [`Install`] stands for.
#[verifier::ext_equal]
pub struct InstallView {
    pub java_lib: Seq<ArtifactView>,
    pub java_main_class: Option<Seq<char>>,
    pub native: Seq<(Seq<char>, ArtifactView)>,
    pub java_flag: Seq<Seq<char>>,
    pub mc_jar: Option<ArtifactView>,
    pub mc_flag: Seq<Seq<char>>,
    pub mc_asset_index: Option<ArtifactView>,
    pub mc_mod: Seq<ArtifactView>,
}

impl View for Install {
    type V = InstallView;

    open spec fn view(&self) -> InstallView {
        InstallView {
            java_lib: artifact_views(self.java_lib@),
            java_main_class: opt_text(self.java_main_class),
            native: self.native@,
            java_flag: texts(self.java_flag@),
            mc_jar: opt_artifact(self.mc_jar),
            mc_flag: texts(self.mc_flag@),
            mc_asset_index: opt_artifact(self.mc_asset_index),
            mc_mod: artifact_views(self.mc_mod@),
        }
    }
}

/// The install record that contributes nothing.
pub open spec fn empty_install() -> InstallView {
    InstallView {
        java_lib: Seq::empty(),
        java_main_class: None,
        native: Seq::empty(),
        java_flag: Seq::empty(),
        mc_jar: None,
        mc_flag: Seq::empty(),
        mc_asset_index: None,
        mc_mod: Seq::empty(),
    }
}

/// The first of two optional values that is present.
pub open spec fn first_of<T>(a: Option<T>, b: Option<T>) -> Option<T> {
    if a is Some {
        a
    } else {
        b
    }
}

/// The field-wise merge of two install records: lists concatenate in
/// argument order, optional fields keep the first value that is present, and
/// the native map is the union in which the left entry wins.
pub open spec fn merged(a: InstallView, b: InstallView) -> InstallView {
    InstallView {
        java_lib: a.java_lib + b.java_lib,
        java_main_class: first_of(a.java_main_class, b.java_main_class),
        native: united(a.native, b.native),
        java_flag: a.java_flag + b.java_flag,
        mc_jar: first_of(a.mc_jar, b.mc_jar),
        mc_flag: a.mc_flag + b.mc_flag,
        mc_asset_index: first_of(a.mc_asset_index, b.mc_asset_index),
        mc_mod: a.mc_mod + b.mc_mod,
    }
}

/// The merge of `a` with every record of `rest`, from first to last.
pub open spec fn merged_all(a: InstallView, rest: Seq<InstallView>) -> InstallView
    decreases rest.len(),
{
    if rest.len() == 0 {
        a
    } else {
        merged(merged_all(a, rest.drop_last()), rest.last())
    }
}

/// What a list of install records holds, record by record.
pub open spec fn install_views(v: Seq<Install>) -> Seq<InstallView> {
    Seq::new(v.len(), |i: int| v[i]@)
}

impl Default for Install {
    fn default() -> (install: Self)
        ensures
            install@ == empty_install(),
    {
        Install::new()
    }
}

impl Install {
    /// The install record that contributes nothing.
    pub fn new() -> (install: Self)
        ensures
            install@ == empty_install(),
    {
        let install = Install {
            java_lib: Vec::new(),
            java_main_class: None,
            native: FileMap::new(),
            java_flag: Vec::new(),
            mc_jar: None,
            mc_flag: Vec::new(),
            mc_asset_index: None,
            mc_mod: Vec::new(),
        };
        proof {
            assert(install@ =~= empty_install());
        }
        install
    }

    /// Merges `next` into this record and returns the result.
    pub fn merge(self, next: Self) -> (out: Self)
        ensures
            out@ == merged(self@, next@),
    {
        let mut out = self;
        out.absorb(next);
        out
    }

    /// Merges `next` into this record.
    pub fn absorb(&mut self, next: Self)
        ensures
            final(self)@ == merged(old(self)@, next@),
    {
        let Install {
            java_lib,
            java_main_class,
            native,
            java_flag,
            mc_jar,
            mc_flag,
            mc_asset_index,
            mc_mod,
        } = next;
        let mut java_lib = java_lib;
        let mut java_flag = java_flag;
        let mut mc_flag = mc_flag;
        let mut mc_mod = mc_mod;
        self.java_lib.append(&mut java_lib);
        if self.java_main_class.is_none() {
            self.java_main_class = java_main_class;
        }
        self.native.extend(native);
        self.java_flag.append(&mut java_flag);
        if self.mc_jar.is_none() {
            self.mc_jar = mc_jar;
        }
        self.mc_flag.append(&mut mc_flag);
        if self.mc_asset_index.is_none() {
            self.mc_asset_index = mc_asset_index;
        }
        self.mc_mod.append(&mut mc_mod);
        proof {
            assert(self@ =~= merged(old(self)@, next@));
        }
    }

    /// Merges every record of `iter` into this one, from first to last.
    pub fn extend(&mut self, iter: Vec<Install>)
        ensures
            final(self)@ == merged_all(old(self)@, install_views(iter@)),
    {
        let mut rest = iter;
        let ghost all = install_views(iter@);
        let ghost mut done: int = 0;
        while rest.len() > 0
            invariant
                0 <= done <= all.len(),
                all == install_views(iter@),
                rest@ == iter@.skip(done),
                self@ == merged_all(old(self)@, all.take(done)),
            decreases rest@.len(),
        {
            let next = rest.remove(0);
            proof {
                assert(next == iter@[done]);
                assert(rest@ =~= iter@.skip(done + 1));
                assert(all.take(done + 1).drop_last() =~= all.take(done));
                assert(all.take(done + 1).last() == next@);
            }
            self.absorb(next);
            proof {
                done = done + 1;
            }
        }
        proof {
            assert(all.take(done) =~= all);
        }
    }
}

/// Merging with the empty record changes nothing, on either side.
pub proof fn lemma_merge_empty(a: InstallView)
    requires
        distinct_keys(a.native),
    ensures
        merged(a, empty_install()) == a,
        merged(empty_install(), a) == a,
{
    lemma_united_from_empty(a.native);
    assert(merged(a, empty_install()) =~= a);
    assert(merged(empty_install(), a) =~= a);
}

/// The union of the empty map with a map of distinct paths is that map.
pub proof fn lemma_united_from_empty(b: Seq<(Seq<char>, ArtifactView)>)
    requires
        distinct_keys(b),
    ensures
        united(Seq::empty(), b) == b,
    decreases b.len(),
{
    if b.len() == 0 {
        assert(united(Seq::empty(), b) =~= b);
    } else {
        let front = b.drop_last();
        assert forall|i: int, j: int|
            0 <= i < front.len() && 0 <= j < front.len() && i != j implies (#[trigger] front[i]).0
            != (#[trigger] front[j]).0 by {
            assert(front[i] == b[i]);
            assert(front[j] == b[j]);
        }
        lemma_united_from_empty(front);
        assert(!has_key(front, b.last().0)) by {
            if has_key(front, b.last().0) {
                let i = choose|i: int| 0 <= i < front.len() && (#[trigger] front[i]).0 == b.last().0;
                assert(front[i] == b[i]);
                assert(b[b.len() - 1] == b.last());
            }
        }
        assert(front.push(b.last()) =~= b);
    }
}

/// Merging is associative on the list fields and the optional fields: the
/// order in which records are grouped does not change what accumulates.
pub proof fn lemma_merge_lists_associative(a: InstallView, b: InstallView, c: InstallView)
    ensures
        merged(merged(a, b), c).java_lib == merged(a, merged(b, c)).java_lib,
        merged(merged(a, b), c).java_flag == merged(a, merged(b, c)).java_flag,
        merged(merged(a, b), c).mc_flag == merged(a, merged(b, c)).mc_flag,
        merged(merged(a, b), c).mc_mod == merged(a, merged(b, c)).mc_mod,
        merged(merged(a, b), c).mc_jar == merged(a, merged(b, c)).mc_jar,
        merged(merged(a, b), c).java_main_class == merged(a, merged(b, c)).java_main_class,
        merged(merged(a, b), c).mc_asset_index == merged(a, merged(b, c)).mc_asset_index,
{
    assert((a.java_lib + b.java_lib) + c.java_lib =~= a.java_lib + (b.java_lib + c.java_lib));
    assert((a.java_flag + b.java_flag) + c.java_flag =~= a.java_flag + (b.java_flag + c.java_flag));
    assert((a.mc_flag + b.mc_flag) + c.mc_flag =~= a.mc_flag + (b.mc_flag + c.mc_flag));
    assert((a.mc_mod + b.mc_mod) + c.mc_mod =~= a.mc_mod + (b.mc_mod + c.mc_mod));
}

} // verus!
