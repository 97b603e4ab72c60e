//! Artifact records and the content-addressed store that keeps one verified
//! blob per BLAKE3 digest.
//!
//! The store is a value: the rows of its index and the bytes of its blobs.
//! A front end loads it from disk, lets it work, and writes back what it
//! holds, the file of a blob before its row. Every operation is described by
//! a function from the state before to the state after, and each keeps a
//! consistent store consistent: every blob is named by its BLAKE3 digest, and
//! every row records the length and only digests of the blob it names.

use vstd::prelude::*;
use vstd::string::*;
use crate::checksum::{
    blake3, checksum_matches, digest_hex, digestible, Checksum, ChecksumView, HashFunc,
    MAX_DIGEST_INPUT,
};
use crate::http::{Client, HttpRequest};
use crate::search::{lemma_first_index, lemma_first_index_is_first};
use crate::storage_model::{
    affix_outcome, affix_step, affixed_all, artifact_result, blob_named, blob_position,
    blobs_sound, consistent, describes, distinct, download_log, download_post, find_blob,
    find_row, fresh_row, intact, lemma_affix_step_consistent, lemma_affixed_all,
    lemma_download_hit, lemma_fresh_row, lemma_restore_step_consistent,
    lemma_retrieve_consistent, lemma_retrieve_restores, lemma_store_step_consistent,
    lemma_store_step_describes, lookup, put_blob, restore_step, retrieve_log, retrieve_post,
    row_holds, row_position, rows_hold, store_step, StoreView, text_result,
};
use crate::text::str_eq;
use crate::text::{join, joined, opt_text};

verus! {

/// Metadata of a stored blob. Its identity is the BLAKE3 digest.
#[derive(Debug, PartialEq, Eq)]
pub struct Artifact {
    pub blake3: String,
    pub name: String,
    pub src: String,
    pub len: u64,
    pub sha1: Option<String>,
    pub sha256: Option<String>,
    pub md5: Option<String>,
}

/// What an [`Artifact`] stands for.
#[verifier::ext_equal]
pub struct ArtifactView {
    pub blake3: Seq<char>,
    pub name: Seq<char>,
    pub src: Seq<char>,
    pub len: u64,
    pub sha1: Option<Seq<char>>,
    pub sha256: Option<Seq<char>>,
    pub md5: Option<Seq<char>>,
}

impl View for Artifact {
    type V = ArtifactView;

    open spec fn view(&self) -> ArtifactView {
        ArtifactView {
            blake3: self.blake3@,
            name: self.name@,
            src: self.src@,
            len: self.len,
            sha1: opt_text(self.sha1),
            sha256: opt_text(self.sha256),
            md5: opt_text(self.md5),
        }
    }
}

impl Clone for Artifact {
    fn clone(&self) -> (copy: Self)
        ensures
            copy@ == self@,
    {
        Artifact {
            blake3: self.blake3.clone(),
            name: self.name.clone(),
            src: self.src.clone(),
            len: self.len,
            sha1: self.sha1.clone(),
            sha256: self.sha256.clone(),
            md5: self.md5.clone(),
        }
    }
}

/// What a list of artifacts holds, artifact by artifact.
pub open spec fn artifact_views(v: Seq<Artifact>) -> Seq<ArtifactView> {
    Seq::new(v.len(), |i: int| v[i]@)
}

/// What an optional artifact holds.
pub open spec fn opt_artifact(a: Option<Artifact>) -> Option<ArtifactView> {
    match a {
        Some(a) => Some(a@),
        None => None,
    }
}

impl ArtifactView {
    /// The digest recorded for `function`, if any. The BLAKE3 digest is
    /// always recorded.
    pub open spec fn digest(self, function: HashFunc) -> Option<Seq<char>> {
        match function {
            HashFunc::Blake3 => Some(self.blake3),
            HashFunc::Sha1 => self.sha1,
            HashFunc::Sha256 => self.sha256,
        }
    }

    /// The record with the digest of `c` written into the column of its
    /// algorithm. The BLAKE3 column is the identity and is never rewritten.
    pub open spec fn affixed(self, c: ChecksumView) -> ArtifactView {
        match c.function {
            HashFunc::Blake3 => self,
            HashFunc::Sha1 => ArtifactView { sha1: Some(c.hex_hash), ..self },
            HashFunc::Sha256 => ArtifactView { sha256: Some(c.hex_hash), ..self },
        }
    }

    /// The checksums a record carries: BLAKE3 first, then SHA-1 and SHA-256
    /// where present.
    pub open spec fn checksums(self) -> Seq<ChecksumView> {
        let first = seq![ChecksumView { function: HashFunc::Blake3, hex_hash: self.blake3 }];
        let second = match self.sha1 {
            Some(h) => first.push(ChecksumView { function: HashFunc::Sha1, hex_hash: h }),
            None => first,
        };
        match self.sha256 {
            Some(h) => second.push(ChecksumView { function: HashFunc::Sha256, hex_hash: h }),
            None => second,
        }
    }
}

/// What a list of checksums holds, checksum by checksum.
pub open spec fn checksum_views(v: Seq<Checksum>) -> Seq<ChecksumView> {
    Seq::new(v.len(), |i: int| v[i]@)
}

/// The path of the blob with digest `blake3` under the data directory
/// `root`: `<root>/storage/<first two characters>/<digest>`.
pub open spec fn blob_path(root: Seq<char>, blake3: Seq<char>) -> Seq<char> {
    joined(joined(joined(root, "storage"@), blake3.subrange(0, 2)), blake3)
}

/// Why a store operation failed.
#[derive(Clone, Copy, Debug, PartialEq, Eq, Structural)]
pub enum StorageError {
    /// A checksum does not match the bytes it was supplied for.
    Corruption,
    /// No row exists for the digest.
    NotFound,
    /// A digest too short to be sharded into a path.
    BadDigest,
    /// The request for the source failed, a blob that has to be read is
    /// missing, or it is too long to digest.
    Io,
}

impl Artifact {
    /// A record without secondary digests.
    pub fn new(blake3: String, name: String, src: String, len: u64) -> (art: Self)
        ensures
            art@ == (ArtifactView {
                blake3: blake3@,
                name: name@,
                src: src@,
                len,
                sha1: None,
                sha256: None,
                md5: None,
            }),
    {
        Artifact { blake3, name, src, len, sha1: None, sha256: None, md5: None }
    }

    /// The checksums this record carries: BLAKE3 first, then SHA-1 and
    /// SHA-256 where present.
    pub fn checksum(self) -> (out: Vec<Checksum>)
        ensures
            checksum_views(out@) == self@.checksums(),
    {
        let mut out: Vec<Checksum> = Vec::new();
        out.push(Checksum::blake3(self.blake3));
        if let Some(h) = self.sha1 {
            out.push(Checksum::sha1(h));
        }
        if let Some(h) = self.sha256 {
            out.push(Checksum::sha256(h));
        }
        proof {
            assert(checksum_views(out@) =~= self@.checksums());
        }
        out
    }

    /// Where the blob of this record lies under the data directory `root`.
    pub fn path(&self, root: &str) -> (path: Result<String, StorageError>)
        ensures
            self@.blake3.len() >= 2 ==> path is Ok && path->Ok_0@ == blob_path(root@, self@.blake3),
            self@.blake3.len() < 2 ==> path == Err::<String, StorageError>(
                StorageError::BadDigest,
            ),
    {
        Self::storage_path(root, self.blake3.as_str())
    }

    /// Whether a digest is recorded for `function`.
    pub fn has_checksum(&self, function: HashFunc) -> (has: bool)
        ensures
            has == self@.digest(function).is_some(),
    {
        match function {
            HashFunc::Blake3 => true,
            HashFunc::Sha1 => self.sha1.is_some(),
            HashFunc::Sha256 => self.sha256.is_some(),
        }
    }

    /// Whether the row lacks a digest for one of the algorithms. Only for
    /// such a row does affixing checksums of these algorithms read the blob.
    pub fn lacks(&self, functions: &Vec<HashFunc>) -> (yes: bool)
        ensures
            yes == exists|i: int|
                0 <= i < functions@.len() && self@.digest(#[trigger] functions@[i]) is None,
    {
        let mut i: usize = 0;
        while i < functions.len()
            invariant
                i <= functions@.len(),
                forall|j: int| 0 <= j < i ==> self@.digest(#[trigger] functions@[j]) is Some,
            decreases functions@.len() - i,
        {
            if !self.has_checksum(functions[i]) {
                return true;
            }
            i += 1;
        }
        false
    }

    /// Writes a checksum into the column of its algorithm. A BLAKE3 checksum
    /// changes nothing.
    pub fn affix_checksum(&mut self, checksum: Checksum)
        ensures
            final(self)@ == old(self)@.affixed(checksum@),
    {
        match checksum.function {
            HashFunc::Blake3 => {},
            HashFunc::Sha1 => {
                self.sha1 = Some(checksum.hex_hash);
            },
            HashFunc::Sha256 => {
                self.sha256 = Some(checksum.hex_hash);
            },
        }
    }

    /// Where the blob with digest `blake3` lies under the data directory
    /// `root`. A digest of fewer than two characters has no shard.
    pub fn storage_path(root: &str, blake3: &str) -> (path: Result<String, StorageError>)
        ensures
            blake3@.len() >= 2 ==> path is Ok && path->Ok_0@ == blob_path(root@, blake3@),
            blake3@.len() < 2 ==> path == Err::<String, StorageError>(StorageError::BadDigest),
    {
        if blake3.unicode_len() < 2 {
            return Err(StorageError::BadDigest);
        }
        let storage = join(root, "storage");
        let shard = join(storage.as_str(), blake3.substring_char(0, 2));
        Ok(join(shard.as_str(), blake3))
    }
}

/// A stored blob: the bytes of the file named by `digest`.
#[derive(Debug, PartialEq, Eq)]
pub struct Blob {
    pub digest: String,
    pub data: Vec<u8>,
}

/// What a [`Blob`] stands for.
pub struct BlobView {
    pub digest: Seq<char>,
    pub data: Seq<u8>,
}

impl View for Blob {
    type V = BlobView;

    open spec fn view(&self) -> BlobView {
        BlobView { digest: self.digest@, data: self.data@ }
    }
}

impl Clone for Blob {
    fn clone(&self) -> (copy: Self)
        ensures
            copy@ == self@,
    {
        Blob { digest: self.digest.clone(), data: self.data.clone() }
    }
}

/// What a list of blobs holds, blob by blob.
pub open spec fn blob_views(v: Seq<Blob>) -> Seq<BlobView> {
    Seq::new(v.len(), |i: int| v[i]@)
}

/// A content-addressed store: an index of artifact rows and the blobs they
/// describe, one blob per BLAKE3 digest.
#[derive(Debug)]
pub struct StorageManager {
    root: String,
    index: Vec<Artifact>,
    blobs: Vec<Blob>,
}

impl View for StorageManager {
    type V = StoreView;

    closed spec fn view(&self) -> StoreView {
        StoreView {
            root: self.root@,
            rows: artifact_views(self.index@),
            blobs: blob_views(self.blobs@),
        }
    }
}

/// Whether the `function` column of a row holds `hex`.
fn row_has(art: &Artifact, function: HashFunc, hex: &str) -> (yes: bool)
    ensures
        yes == (art@.digest(function) == Some(hex@)),
{
    match function {
        HashFunc::Blake3 => str_eq(art.blake3.as_str(), hex),
        HashFunc::Sha1 => match &art.sha1 {
            Some(h) => str_eq(h.as_str(), hex),
            None => false,
        },
        HashFunc::Sha256 => match &art.sha256 {
            Some(h) => str_eq(h.as_str(), hex),
            None => false,
        },
    }
}

/// A copy of every checksum of a list, in order.
fn clone_checksums(v: &Vec<Checksum>) -> (out: Vec<Checksum>)
    ensures
        checksum_views(out@) == checksum_views(v@),
{
    let mut out: Vec<Checksum> = Vec::new();
    let mut i: usize = 0;
    while i < v.len()
        invariant
            i <= v@.len(),
            out@.len() == i,
            forall|j: int| 0 <= j < i ==> out@[j]@ == v@[j]@,
        decreases v@.len() - i,
    {
        out.push(v[i].clone());
        i += 1;
    }
    proof {
        assert(checksum_views(out@) =~= checksum_views(v@));
    }
    out
}

impl StorageManager {
    /// The data directory under which the blobs lie.
    pub open spec fn root(&self) -> Seq<char> {
        self@.root
    }

    /// An empty store under the data directory `root`.
    pub fn new(root: String) -> (s: Self)
        ensures
            s.root() == root@,
            s@ == (StoreView { root: root@, rows: Seq::empty(), blobs: Seq::empty() }),
            consistent(s@),
    {
        let s = StorageManager { root, index: Vec::new(), blobs: Vec::new() };
        proof {
            assert(s@ =~= (StoreView { root: root@, rows: Seq::empty(), blobs: Seq::empty() }));
        }
        s
    }

    /// The store that holds the given rows and blobs, as they were found.
    /// Nothing is assumed of them: what was read from disk may be damaged.
    pub fn from_parts(root: String, rows: Vec<Artifact>, blobs: Vec<Blob>) -> (s: Self)
        ensures
            s.root() == root@,
            s@ == (StoreView {
                root: root@,
                rows: artifact_views(rows@),
                blobs: blob_views(blobs@),
            }),
    {
        StorageManager { root, index: rows, blobs }
    }

    /// The data directory under which the blobs lie.
    pub fn root_dir(&self) -> (root: &str)
        ensures
            root@ == self.root(),
    {
        self.root.as_str()
    }

    /// The rows of the index.
    pub fn rows(&self) -> (rows: &Vec<Artifact>)
        ensures
            artifact_views(rows@) == self@.rows,
    {
        &self.index
    }

    /// The stored blobs.
    pub fn blobs(&self) -> (blobs: &Vec<Blob>)
        ensures
            blob_views(blobs@) == self@.blobs,
    {
        &self.blobs
    }

    fn row_index(&self, function: HashFunc, hex: &str) -> (at: usize)
        ensures
            at == row_position(self@.rows, function, hex@),
            at <= self.index@.len(),
    {
        let mut i: usize = 0;
        while i < self.index.len()
            invariant
                i <= self.index@.len(),
                forall|j: int| 0 <= j < i ==> (#[trigger] self@.rows[j]).digest(function) != Some(hex@),
            decreases self.index@.len() - i,
        {
            if row_has(&self.index[i], function, hex) {
                proof {
                    assert(self@.rows[i as int] == self.index@[i as int]@);
                    lemma_first_index(self@.rows, row_holds(function, hex@), i as int);
                }
                return i;
            }
            assert(self@.rows[i as int] == self.index@[i as int]@);
            i += 1;
        }
        proof {
            lemma_first_index(self@.rows, row_holds(function, hex@), i as int);
        }
        i
    }

    fn blob_index(&self, digest: &str) -> (at: usize)
        ensures
            at == blob_position(self@.blobs, digest@),
            at <= self.blobs@.len(),
    {
        let mut i: usize = 0;
        while i < self.blobs.len()
            invariant
                i <= self.blobs@.len(),
                forall|j: int| 0 <= j < i ==> (#[trigger] self@.blobs[j]).digest != digest@,
            decreases self.blobs@.len() - i,
        {
            if str_eq(self.blobs[i].digest.as_str(), digest) {
                proof {
                    assert(self@.blobs[i as int] == self.blobs@[i as int]@);
                    lemma_first_index(self@.blobs, blob_named(digest@), i as int);
                }
                return i;
            }
            assert(self@.blobs[i as int] == self.blobs@[i as int]@);
            i += 1;
        }
        proof {
            lemma_first_index(self@.blobs, blob_named(digest@), i as int);
        }
        i
    }

    /// The row with the BLAKE3 digest `blake3`.
    pub fn find(&self, blake3: &str) -> (found: Option<Artifact>)
        ensures
            opt_artifact(found) == find_row(self@.rows, HashFunc::Blake3, blake3@),
    {
        let at = self.row_index(HashFunc::Blake3, blake3);
        if at < self.index.len() {
            assert(self@.rows[at as int] == self.index@[at as int]@);
            Some(self.index[at].clone())
        } else {
            None
        }
    }

    /// The first row that records the digest of `checksum` under its
    /// algorithm.
    pub fn find_checksum(&self, checksum: &Checksum) -> (found: Option<Artifact>)
        ensures
            opt_artifact(found) == find_row(
                self@.rows,
                checksum@.function,
                checksum@.hex_hash,
            ),
    {
        let at = self.row_index(checksum.function, checksum.hex_hash.as_str());
        if at < self.index.len() {
            assert(self@.rows[at as int] == self.index@[at as int]@);
            Some(self.index[at].clone())
        } else {
            None
        }
    }

    /// The bytes of the blob named `digest`.
    pub fn blob(&self, digest: &str) -> (found: Option<&Vec<u8>>)
        ensures
            match found {
                Some(data) => find_blob(self@.blobs, digest@) == Some(data@),
                None => find_blob(self@.blobs, digest@) is None,
            },
    {
        let at = self.blob_index(digest);
        if at < self.blobs.len() {
            assert(self@.blobs[at as int] == self.blobs@[at as int]@);
            Some(&self.blobs[at].data)
        } else {
            None
        }
    }

    /// Adds a row unless a row with the same BLAKE3 digest exists. The row
    /// is taken as it stands: the store stays consistent if the row
    /// describes the blob under its digest, where there is one.
    pub fn add(&mut self, artifact: &Artifact)
        ensures
            final(self).root() == old(self).root(),
            final(self)@ == (if find_row(old(self)@.rows, HashFunc::Blake3, artifact@.blake3)
                is Some {
                old(self)@
            } else {
                StoreView {
                    root: old(self)@.root,
                    rows: old(self)@.rows.push(artifact@),
                    blobs: old(self)@.blobs,
                }
            }),
            consistent(old(self)@) && (forall|j: int|
                0 <= j < old(self)@.blobs.len() && (#[trigger] old(self)@.blobs[j]).digest
                    == artifact@.blake3 ==> describes(artifact@, old(self)@.blobs[j].data))
                ==> consistent(final(self)@),
    {
        let at = self.row_index(HashFunc::Blake3, artifact.blake3.as_str());
        if at < self.index.len() {
            return ;
        }
        self.index.push(artifact.clone());
        proof {
            let before = old(self)@;
            let after = self@;
            assert(after.rows =~= before.rows.push(artifact@));
            lemma_first_index_is_first(before.rows, row_holds(HashFunc::Blake3, artifact@.blake3));
            if consistent(before) && (forall|j: int|
                0 <= j < before.blobs.len() && (#[trigger] before.blobs[j]).digest
                    == artifact@.blake3 ==> describes(artifact@, before.blobs[j].data)) {
                assert forall|i: int, j: int|
                    0 <= i < after.rows.len() && 0 <= j < after.rows.len() && i != j implies (
                #[trigger] after.rows[i]).blake3 != (#[trigger] after.rows[j]).blake3 by {
                    if i < before.rows.len() {
                        assert(after.rows[i] == before.rows[i]);
                        assert(before.rows[i].digest(HashFunc::Blake3) != Some(artifact@.blake3));
                    }
                    if j < before.rows.len() {
                        assert(after.rows[j] == before.rows[j]);
                        assert(before.rows[j].digest(HashFunc::Blake3) != Some(artifact@.blake3));
                    }
                }
                assert forall|i: int, j: int|
                    0 <= i < after.rows.len() && 0 <= j < after.blobs.len() && (
                    #[trigger] after.rows[i]).blake3 == (#[trigger] after.blobs[j]).digest implies describes(
                    after.rows[i],
                    after.blobs[j].data,
                ) by {
                    if i < before.rows.len() {
                        assert(after.rows[i] == before.rows[i]);
                        assert(describes(before.rows[i], before.blobs[j].data));
                    }
                }
            }
        }
    }

    /// Writes `data` under the name `digest`, over a blob of that name if
    /// there is one.
    fn put(&mut self, digest: String, data: Vec<u8>)
        ensures
            final(self).root() == old(self).root(),
            final(self)@ == (StoreView {
                root: old(self)@.root,
                rows: old(self)@.rows,
                blobs: put_blob(old(self)@.blobs, digest@, data@),
            }),
    {
        let at = self.blob_index(digest.as_str());
        if at < self.blobs.len() {
            self.blobs.set(at, Blob { digest, data });
            proof {
                assert(self@.blobs =~= old(self)@.blobs.update(
                    at as int,
                    BlobView { digest: digest@, data: data@ },
                ));
            }
        } else {
            self.blobs.push(Blob { digest, data });
            proof {
                assert(self@.blobs =~= old(self)@.blobs.push(
                    BlobView { digest: digest@, data: data@ },
                ));
            }
        }
    }

    /// Upgrades the row with digest `blake3`: each checksum whose column is
    /// still empty is verified against the stored blob and written. A
    /// mismatch is corruption and changes nothing, and a row that gains
    /// nothing is not written.
    pub fn affix_checksum(&mut self, blake3: &str, checksum: Vec<Checksum>) -> (out: Result<
        Artifact,
        StorageError,
    >)
        ensures
            final(self).root() == old(self).root(),
            (final(self)@, artifact_result(out)) == affix_step(
                old(self)@,
                blake3@,
                checksum_views(checksum@),
            ),
            rows_hold(old(self)@) ==> rows_hold(final(self)@),
            blobs_sound(old(self)@) ==> blobs_sound(final(self)@),
    {
        let ghost cs = checksum_views(checksum@);
        proof {
            lemma_affix_step_consistent(self@, blake3@, cs);
        }
        let at = self.row_index(HashFunc::Blake3, blake3);
        if at >= self.index.len() {
            return Err(StorageError::NotFound);
        }
        let mut art = self.index[at].clone();
        let ghost row = art@;
        assert(self@.rows[at as int] == row);
        let place = self.blob_index(blake3);
        let ghost blob = find_blob(self@.blobs, blake3@);
        let mut added = false;
        let mut i: usize = 0;
        proof {
            assert(cs.skip(0) =~= cs);
        }
        while i < checksum.len()
            invariant
                i <= checksum@.len(),
                cs == checksum_views(checksum@),
                self@ == old(self)@,
                self.root() == old(self).root(),
                rows_hold(old(self)@) ==> rows_hold(affix_step(old(self)@, blake3@, cs).0),
                blobs_sound(old(self)@) ==> blobs_sound(affix_step(old(self)@, blake3@, cs).0),
                at == row_position(self@.rows, HashFunc::Blake3, blake3@),
                at < self.index@.len(),
                self@.rows[at as int] == row,
                place == blob_position(self@.blobs, blake3@),
                place <= self.blobs@.len(),
                blob == find_blob(self@.blobs, blake3@),
                !added ==> art@ == row,
                affix_outcome(row, blob, cs) == affix_outcome(art@, blob, cs.skip(i as int)),
            decreases checksum@.len() - i,
        {
            let c = &checksum[i];
            proof {
                assert(cs.skip(i as int)[0] == c@);
                assert(cs.skip(i as int).drop_first() =~= cs.skip(i + 1));
            }
            if !art.has_checksum(c.function) {
                if place >= self.blobs.len() {
                    return Err(StorageError::Io);
                }
                assert(self@.blobs[place as int] == self.blobs@[place as int]@);
                let data = self.blobs[place].data.as_slice();
                if !digestible(data) {
                    return Err(StorageError::Io);
                }
                if !c.check(data) {
                    return Err(StorageError::Corruption);
                }
                art.affix_checksum(c.clone());
                added = true;
            }
            i += 1;
        }
        if added {
            self.index.set(at, art.clone());
            proof {
                assert(self@.rows =~= old(self)@.rows.update(at as int, art@));
            }
        } else {
            proof {
                assert(old(self)@.rows.update(at as int, art@) =~= old(self)@.rows);
            }
        }
        Ok(art)
    }

    /// Takes the bytes `data` into the store. If their BLAKE3 digest is
    /// indexed, the bytes are dropped and the checksums are affixed to the
    /// existing row. Otherwise every checksum has to match the bytes; then
    /// the blob is written under its digest and its row is added, in this
    /// order. A mismatch is corruption and changes nothing.
    pub fn store(&mut self, data: Vec<u8>, name: String, src: String, checksum: Vec<Checksum>) -> (out:
        Result<Artifact, StorageError>)
        ensures
            final(self).root() == old(self).root(),
            (final(self)@, artifact_result(out)) == store_step(
                old(self)@,
                data@,
                name@,
                src@,
                checksum_views(checksum@),
            ),
            rows_hold(old(self)@) ==> rows_hold(final(self)@),
            blobs_sound(old(self)@) ==> blobs_sound(final(self)@),
            rows_hold(old(self)@) ==> (out matches Ok(art) ==> {
                &&& find_row(final(self)@.rows, HashFunc::Blake3, art@.blake3) == Some(art@)
                &&& find_blob(final(self)@.blobs, art@.blake3) matches Some(blob) ==> describes(
                    art@,
                    blob,
                )
            }),
    {
        let ghost cs = checksum_views(checksum@);
        proof {
            lemma_store_step_consistent(self@, data@, name@, src@, cs);
            if rows_hold(self@) && store_step(self@, data@, name@, src@, cs).1 is Ok {
                lemma_store_step_describes(self@, data@, name@, src@, cs);
            }
        }
        let b3 = blake3(data.as_slice());
        if self.row_index(HashFunc::Blake3, b3.as_str()) < self.index.len() {
            return self.affix_checksum(b3.as_str(), checksum);
        }
        if !digestible(data.as_slice()) {
            return Err(StorageError::Io);
        }
        let len = data.len() as u64;
        let mut art = Artifact::new(b3.clone(), name, src, len);
        let ghost fresh = art@;
        assert(fresh == fresh_row(data@, name@, src@));
        let mut i: usize = 0;
        proof {
            assert(cs.skip(0) =~= cs);
        }
        while i < checksum.len()
            invariant
                i <= checksum@.len(),
                cs == checksum_views(checksum@),
                self@ == old(self)@,
                self.root() == old(self).root(),
                rows_hold(old(self)@) ==> rows_hold(
                    store_step(old(self)@, data@, name@, src@, cs).0,
                ),
                blobs_sound(old(self)@) ==> blobs_sound(
                    store_step(old(self)@, data@, name@, src@, cs).0,
                ),
                row_position(self@.rows, HashFunc::Blake3, digest_hex(HashFunc::Blake3, data@))
                    >= self@.rows.len(),
                b3@ == digest_hex(HashFunc::Blake3, data@),
                fresh == fresh_row(data@, name@, src@),
                data@.len() <= MAX_DIGEST_INPUT,
                forall|j: int| 0 <= j < i ==> checksum_matches(#[trigger] cs[j], data@),
                affixed_all(fresh, cs) == affixed_all(art@, cs.skip(i as int)),
            decreases checksum@.len() - i,
        {
            let c = &checksum[i];
            proof {
                assert(cs[i as int] == c@);
                assert(cs.skip(i as int)[0] == c@);
                assert(cs.skip(i as int).drop_first() =~= cs.skip(i + 1));
            }
            if !c.check(data.as_slice()) {
                return Err(StorageError::Corruption);
            }
            art.affix_checksum(c.clone());
            i += 1;
        }
        proof {
            assert(cs.skip(cs.len() as int) =~= Seq::<ChecksumView>::empty());
            lemma_fresh_row(data@, name@, src@);
            lemma_affixed_all(fresh, cs, data@);
        }
        self.put(b3, data);
        self.add(&art);
        Ok(art)
    }

    /// The short-circuit of a download: the first row that one of the
    /// checksums finds, in their order, has all of them affixed. Without
    /// such a row nothing happens.
    pub fn reuse(&mut self, checksum: &Vec<Checksum>) -> (out: Option<Result<Artifact, StorageError>>)
        ensures
            final(self).root() == old(self).root(),
            match lookup(old(self)@.rows, checksum_views(checksum@)) {
                Some(row) => out is Some && (final(self)@, artifact_result(out->Some_0))
                    == affix_step(old(self)@, row.blake3, checksum_views(checksum@)),
                None => out is None && final(self)@ == old(self)@,
            },
            rows_hold(old(self)@) ==> rows_hold(final(self)@),
            blobs_sound(old(self)@) ==> blobs_sound(final(self)@),
    {
        let ghost cs = checksum_views(checksum@);
        let mut i: usize = 0;
        proof {
            assert(cs.skip(0) =~= cs);
        }
        while i < checksum.len()
            invariant
                i <= checksum@.len(),
                cs == checksum_views(checksum@),
                self@ == old(self)@,
                self.root() == old(self).root(),
                lookup(self@.rows, cs) == lookup(self@.rows, cs.skip(i as int)),
            decreases checksum@.len() - i,
        {
            let c = &checksum[i];
            proof {
                assert(cs.skip(i as int)[0] == c@);
                assert(cs.skip(i as int).drop_first() =~= cs.skip(i + 1));
            }
            let at = self.row_index(c.function, c.hex_hash.as_str());
            if at < self.index.len() {
                assert(self@.rows[at as int] == self.index@[at as int]@);
                let blake3 = self.index[at].blake3.clone();
                let all = clone_checksums(checksum);
                return Some(self.affix_checksum(blake3.as_str(), all));
            }
            i += 1;
        }
        None
    }

    /// Makes sure the artifact behind `src` is stored. Where one of the
    /// checksums finds a row, that row is upgraded and nothing is fetched.
    /// Otherwise the body is fetched and stored. `len` is the length the
    /// caller expects; it is not held against the body.
    #[allow(unused_variables)]
    pub fn download<H: HttpRequest>(
        &mut self,
        http: &mut Client<H>,
        name: String,
        src: String,
        len: Option<u64>,
        checksum: Vec<Checksum>,
    ) -> (out: Result<Artifact, StorageError>)
        ensures
            final(self).root() == old(self).root(),
            download_post(
                old(self)@,
                name@,
                src@,
                checksum_views(checksum@),
                final(self)@,
                artifact_result(out),
            ),
            lookup(old(self)@.rows, checksum_views(checksum@)) is Some ==> *final(http) == *old(
                http,
            ),
            final(http).requested() == old(http).requested() + download_log(
                old(self)@,
                src@,
                checksum_views(checksum@),
            ),
            distinct(old(self)@) && (lookup(old(self)@.rows, checksum_views(checksum@))
                matches Some(row) && forall|i: int|
                0 <= i < checksum@.len() ==> row.digest((#[trigger] checksum@[i])@.function)
                    is Some) ==> artifact_result(out) == Ok::<ArtifactView, StorageError>(
                lookup(old(self)@.rows, checksum_views(checksum@))->Some_0,
            ) && final(self)@ == old(self)@,
            rows_hold(old(self)@) ==> rows_hold(final(self)@),
            blobs_sound(old(self)@) ==> blobs_sound(final(self)@),
    {
        let ghost cs = checksum_views(checksum@);
        match self.reuse(&checksum) {
            Some(out) => {
                proof {
                    if distinct(old(self)@) && (lookup(old(self)@.rows, cs) matches Some(row)
                        && forall|i: int|
                        0 <= i < cs.len() ==> row.digest((#[trigger] cs[i]).function) is Some) {
                        lemma_download_hit(
                            old(self)@,
                            name@,
                            src@,
                            cs,
                            self@,
                            artifact_result(out),
                        );
                    }
                }
                return out;
            },
            None => {},
        }
        match http.http_get(src.as_str()) {
            Err(_) => Err(StorageError::Io),
            Ok(body) => {
                let ghost bytes = body@;
                let out = self.store(body, name, src, checksum);
                proof {
                    assert((self@, artifact_result(out)) == store_step(
                        old(self)@,
                        bytes,
                        name@,
                        src@,
                        cs,
                    ));
                }
                out
            },
        }
    }

    /// Replaces the blob of `row` by `body` if `body` is what the row
    /// describes: its BLAKE3 digest, its length and every secondary digest
    /// the row records.
    pub fn restore(&mut self, row: &Artifact, body: Vec<u8>) -> (out: Result<(), StorageError>)
        ensures
            final(self).root() == old(self).root(),
            (final(self)@, out) == restore_step(old(self)@, row@, body@),
            old(self)@.rows.contains(row@) ==> {
                &&& rows_hold(old(self)@) ==> rows_hold(final(self)@)
                &&& blobs_sound(old(self)@) ==> blobs_sound(final(self)@)
            },
    {
        proof {
            if self@.rows.contains(row@) {
                lemma_restore_step_consistent(self@, row@, body@);
            }
        }
        if !digestible(body.as_slice()) {
            return Err(StorageError::Io);
        }
        let b3 = blake3(body.as_slice());
        if !str_eq(b3.as_str(), row.blake3.as_str()) {
            return Err(StorageError::Corruption);
        }
        if body.len() as u64 != row.len {
            return Err(StorageError::Corruption);
        }
        match &row.sha1 {
            Some(h) => {
                let got = crate::checksum::sha1(body.as_slice());
                if !str_eq(got.as_str(), h.as_str()) {
                    return Err(StorageError::Corruption);
                }
            },
            None => {},
        }
        match &row.sha256 {
            Some(h) => {
                let got = crate::checksum::sha256(body.as_slice());
                if !str_eq(got.as_str(), h.as_str()) {
                    return Err(StorageError::Corruption);
                }
            },
            None => {},
        }
        self.put(b3, body);
        Ok(())
    }

    /// The local path of the verified blob of `artifact`. An indexed
    /// artifact whose blob is intact is served as it is. One whose blob is
    /// damaged or missing is fetched again from the source of `artifact`,
    /// and the blob is replaced only by a body that the row describes. An
    /// artifact that is not indexed is downloaded.
    pub fn retrieve<H: HttpRequest>(&mut self, http: &mut Client<H>, artifact: &Artifact) -> (out: Result<
        String,
        StorageError,
    >)
        ensures
            final(self).root() == old(self).root(),
            retrieve_post(
                old(self)@,
                artifact@,
                final(self)@,
                text_result(out),
            ),
            find_row(old(self)@.rows, HashFunc::Blake3, artifact@.blake3) matches Some(row)
                && intact(old(self)@.blobs, row.blake3) ==> *final(http) == *old(http),
            final(http).requested() == old(http).requested() + retrieve_log(old(self)@, artifact@),
            find_row(old(self)@.rows, HashFunc::Blake3, artifact@.blake3) is Some && out is Ok
                ==> intact(final(self)@.blobs, artifact@.blake3),
            rows_hold(old(self)@) ==> rows_hold(final(self)@),
            blobs_sound(old(self)@) ==> blobs_sound(final(self)@),
    {
        let at = self.row_index(HashFunc::Blake3, artifact.blake3.as_str());
        if at < self.index.len() {
            let row = self.index[at].clone();
            assert(self@.rows[at as int] == self.index@[at as int]@);
            let place = self.blob_index(row.blake3.as_str());
            let mut whole = false;
            if place < self.blobs.len() {
                assert(self@.blobs[place as int] == self.blobs@[place as int]@);
                let b3 = blake3(self.blobs[place].data.as_slice());
                whole = str_eq(b3.as_str(), row.blake3.as_str());
            }
            if whole {
                let out = row.path(self.root.as_str());
                proof {
                    if out is Ok {
                        lemma_retrieve_restores(
                            old(self)@,
                            artifact@,
                            self@,
                            text_result(out),
                        );
                    }
                }
                return out;
            }
            match http.http_get(artifact.src.as_str()) {
                Err(_) => {
                    return Err(StorageError::Io);
                },
                Ok(body) => {
                    let ghost bytes = body@;
                    let out = match self.restore(&row, body) {
                        Ok(_) => row.path(self.root.as_str()),
                        Err(e) => Err(e),
                    };
                    proof {
                        assert(self@ == restore_step(old(self)@, row@, bytes).0);
                        lemma_retrieve_consistent(
                            old(self)@,
                            artifact@,
                            self@,
                            text_result(out),
                        );
                        if out is Ok {
                            lemma_retrieve_restores(
                                old(self)@,
                                artifact@,
                                self@,
                                text_result(out),
                            );
                        }
                    }
                    return out;
                },
            }
        }
        let got = self.download(
            http,
            artifact.name.clone(),
            artifact.src.clone(),
            Some(artifact.len),
            artifact.clone().checksum(),
        );
        let out = match &got {
            Ok(art) => art.path(self.root.as_str()),
            Err(e) => Err(*e),
        };
        proof {
            assert(download_post(
                old(self)@,
                artifact@.name,
                artifact@.src,
                artifact@.checksums(),
                self@,
                artifact_result(got),
            ));
        }
        out
    }
}

/// A store that can serve and take in artifacts over a client. What a
/// store does is up to the implementation; [`StorageManager`] states what
/// its own does.
pub trait StorageManage {
    fn retrieve<H: HttpRequest>(&mut self, http: &mut Client<H>, artifact: &Artifact) -> Result<
        String,
        StorageError,
    >;

    fn download<H: HttpRequest>(
        &mut self,
        http: &mut Client<H>,
        name: String,
        src: String,
        len: Option<u64>,
        checksum: Vec<Checksum>,
    ) -> Result<Artifact, StorageError>;
}

impl StorageManage for StorageManager {
    fn retrieve<H: HttpRequest>(&mut self, http: &mut Client<H>, artifact: &Artifact) -> (out: Result<
        String,
        StorageError,
    >)
        ensures
            final(self).root() == old(self).root(),
            retrieve_post(
                old(self)@,
                artifact@,
                final(self)@,
                text_result(out),
            ),
            find_row(old(self)@.rows, HashFunc::Blake3, artifact@.blake3) matches Some(row)
                && intact(old(self)@.blobs, row.blake3) ==> *final(http) == *old(http),
            final(http).requested() == old(http).requested() + retrieve_log(old(self)@, artifact@),
            find_row(old(self)@.rows, HashFunc::Blake3, artifact@.blake3) is Some && out is Ok
                ==> intact(final(self)@.blobs, artifact@.blake3),
            rows_hold(old(self)@) ==> rows_hold(final(self)@),
            blobs_sound(old(self)@) ==> blobs_sound(final(self)@),
    {
        StorageManager::retrieve(self, http, artifact)
    }

    fn download<H: HttpRequest>(
        &mut self,
        http: &mut Client<H>,
        name: String,
        src: String,
        len: Option<u64>,
        checksum: Vec<Checksum>,
    ) -> (out: Result<Artifact, StorageError>)
        ensures
            final(self).root() == old(self).root(),
            download_post(
                old(self)@,
                name@,
                src@,
                checksum_views(checksum@),
                final(self)@,
                artifact_result(out),
            ),
            lookup(old(self)@.rows, checksum_views(checksum@)) is Some ==> *final(http) == *old(
                http,
            ),
            final(http).requested() == old(http).requested() + download_log(
                old(self)@,
                src@,
                checksum_views(checksum@),
            ),
            distinct(old(self)@) && (lookup(old(self)@.rows, checksum_views(checksum@))
                matches Some(row) && forall|i: int|
                0 <= i < checksum@.len() ==> row.digest((#[trigger] checksum@[i])@.function)
                    is Some) ==> artifact_result(out) == Ok::<ArtifactView, StorageError>(
                lookup(old(self)@.rows, checksum_views(checksum@))->Some_0,
            ) && final(self)@ == old(self)@,
            rows_hold(old(self)@) ==> rows_hold(final(self)@),
            blobs_sound(old(self)@) ==> blobs_sound(final(self)@),
    {
        StorageManager::download(self, http, name, src, len, checksum)
    }
}

} // verus!
