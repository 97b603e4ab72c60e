//! The model of the content-addressed store: its state, what each
//! operation makes of it, and why a consistent store stays consistent.

use vstd::prelude::*;
use crate::checksum::{checksum_matches, digest_hex, ChecksumView, HashFunc, MAX_DIGEST_INPUT};
use crate::search::{first_index, lemma_first_index, lemma_first_index_is_first};
use crate::storage::{blob_path, Artifact, ArtifactView, BlobView, StorageError};

verus! {

/// The state of a store: the data directory it lies under, the rows of
/// its index and the blobs on disk.
#[verifier::ext_equal]
pub struct StoreView {
    pub root: Seq<char>,
    pub rows: Seq<ArtifactView>,
    pub blobs: Seq<BlobView>,
}

/// Whether the `function` column of a row holds `hex`.
pub open spec fn row_holds(function: HashFunc, hex: Seq<char>) -> spec_fn(ArtifactView) -> bool {
    |row: ArtifactView| row.digest(function) == Some(hex)
}

/// Whether a blob is named `digest`.
pub open spec fn blob_named(digest: Seq<char>) -> spec_fn(BlobView) -> bool {
    |blob: BlobView| blob.digest == digest
}

/// The index of the first row whose `function` column holds `hex`, or the
/// number of rows if none does.
pub open spec fn row_position(rows: Seq<ArtifactView>, function: HashFunc, hex: Seq<char>) -> int {
    first_index(rows, row_holds(function, hex))
}

/// The first row whose `function` column holds `hex`.
pub open spec fn find_row(rows: Seq<ArtifactView>, function: HashFunc, hex: Seq<char>) -> Option<
    ArtifactView,
> {
    let at = row_position(rows, function, hex);
    if at < rows.len() {
        Some(rows[at])
    } else {
        None
    }
}

/// The index of the first blob named `digest`, or the number of blobs if
/// none is.
pub open spec fn blob_position(blobs: Seq<BlobView>, digest: Seq<char>) -> int {
    first_index(blobs, blob_named(digest))
}

/// The bytes of the blob named `digest`.
pub open spec fn find_blob(blobs: Seq<BlobView>, digest: Seq<char>) -> Option<Seq<u8>> {
    let at = blob_position(blobs, digest);
    if at < blobs.len() {
        Some(blobs[at].data)
    } else {
        None
    }
}

/// The blobs after `data` was written under the name `digest`: a blob of
/// that name is replaced, otherwise the blob is new.
pub open spec fn put_blob(blobs: Seq<BlobView>, digest: Seq<char>, data: Seq<u8>) -> Seq<BlobView> {
    let at = blob_position(blobs, digest);
    if at < blobs.len() {
        blobs.update(at, BlobView { digest, data })
    } else {
        blobs.push(BlobView { digest, data })
    }
}

/// What `affix` makes of a row, given the stored blob if there is one: each
/// checksum, in order, whose column is still empty is verified against the
/// blob and written; a checksum whose column is taken is passed over. The
/// blob is only read where a checksum has to be verified.
pub open spec fn affix_outcome(
    art: ArtifactView,
    blob: Option<Seq<u8>>,
    cs: Seq<ChecksumView>,
) -> Result<ArtifactView, StorageError>
    decreases cs.len(),
{
    if cs.len() == 0 {
        Ok(art)
    } else if art.digest(cs[0].function) is Some {
        affix_outcome(art, blob, cs.drop_first())
    } else {
        match blob {
            None => Err(StorageError::Io),
            Some(data) => if data.len() > MAX_DIGEST_INPUT {
                Err(StorageError::Io)
            } else if !checksum_matches(cs[0], data) {
                Err(StorageError::Corruption)
            } else {
                affix_outcome(art.affixed(cs[0]), blob, cs.drop_first())
            },
        }
    }
}

/// The store and the result after `affix` on the row with digest `blake3`:
/// without such a row nothing changes and the result is `NotFound`; on
/// success the row is rewritten; on failure nothing changes.
pub open spec fn affix_step(s: StoreView, blake3: Seq<char>, cs: Seq<ChecksumView>) -> (
    StoreView,
    Result<ArtifactView, StorageError>,
) {
    let at = row_position(s.rows, HashFunc::Blake3, blake3);
    if at >= s.rows.len() {
        (s, Err(StorageError::NotFound))
    } else {
        match affix_outcome(s.rows[at], find_blob(s.blobs, blake3), cs) {
            Ok(art) => (StoreView { root: s.root, rows: s.rows.update(at, art), blobs: s.blobs }, Ok(art)),
            Err(e) => (s, Err(e)),
        }
    }
}

/// Every checksum is the digest of `data` under its algorithm.
pub open spec fn verified(cs: Seq<ChecksumView>, data: Seq<u8>) -> bool {
    forall|i: int| 0 <= i < cs.len() ==> checksum_matches(#[trigger] cs[i], data)
}

/// The row with every checksum written into its column, in order.
pub open spec fn affixed_all(art: ArtifactView, cs: Seq<ChecksumView>) -> ArtifactView
    decreases cs.len(),
{
    if cs.len() == 0 {
        art
    } else {
        affixed_all(art.affixed(cs[0]), cs.drop_first())
    }
}

/// The row of a fresh blob.
pub open spec fn fresh_row(data: Seq<u8>, name: Seq<char>, src: Seq<char>) -> ArtifactView {
    ArtifactView {
        blake3: digest_hex(HashFunc::Blake3, data),
        name,
        src,
        len: data.len() as u64,
        sha1: None,
        sha256: None,
        md5: None,
    }
}

/// The store and the result after `store` of the bytes `data`: if their
/// BLAKE3 digest is indexed, the bytes are dropped and the checksums are
/// affixed to the existing row; otherwise every checksum has to match, the
/// blob is written under its digest and its row is added.
pub open spec fn store_step(
    s: StoreView,
    data: Seq<u8>,
    name: Seq<char>,
    src: Seq<char>,
    cs: Seq<ChecksumView>,
) -> (StoreView, Result<ArtifactView, StorageError>) {
    let b3 = digest_hex(HashFunc::Blake3, data);
    if row_position(s.rows, HashFunc::Blake3, b3) < s.rows.len() {
        affix_step(s, b3, cs)
    } else if data.len() > MAX_DIGEST_INPUT {
        (s, Err(StorageError::Io))
    } else if !verified(cs, data) {
        (s, Err(StorageError::Corruption))
    } else {
        let art = affixed_all(fresh_row(data, name, src), cs);
        (
            StoreView { root: s.root, rows: s.rows.push(art), blobs: put_blob(s.blobs, b3, data) },
            Ok(art),
        )
    }
}

/// The first row, in the order of the checksums, that one of them finds.
pub open spec fn lookup(rows: Seq<ArtifactView>, cs: Seq<ChecksumView>) -> Option<ArtifactView>
    decreases cs.len(),
{
    if cs.len() == 0 {
        None
    } else {
        match find_row(rows, cs[0].function, cs[0].hex_hash) {
            Some(row) => Some(row),
            None => lookup(rows, cs.drop_first()),
        }
    }
}

/// What `download` may leave behind. Where a checksum finds a row, the
/// checksums are affixed to it and nothing is fetched. Otherwise either the
/// request fails and nothing changes, or some body came back and was stored.
pub open spec fn download_post(
    before: StoreView,
    name: Seq<char>,
    src: Seq<char>,
    cs: Seq<ChecksumView>,
    after: StoreView,
    result: Result<ArtifactView, StorageError>,
) -> bool {
    match lookup(before.rows, cs) {
        Some(row) => (after, result) == affix_step(before, row.blake3, cs),
        None => {
            ||| after == before && result == Err::<ArtifactView, StorageError>(StorageError::Io)
            ||| exists|body: Seq<u8>| (after, result) == #[trigger] store_step(before, body, name, src, cs)
        },
    }
}

/// The requests that `download` makes: none where a checksum finds a row,
/// otherwise one for the source.
pub open spec fn download_log(before: StoreView, src: Seq<char>, cs: Seq<ChecksumView>) -> Seq<
    Seq<char>,
> {
    if lookup(before.rows, cs) is Some {
        Seq::empty()
    } else {
        seq![src]
    }
}

/// The row records the length of `data` and no digest that `data` lacks.
pub open spec fn describes(row: ArtifactView, data: Seq<u8>) -> bool {
    &&& row.len == data.len()
    &&& row.sha1 matches Some(h) ==> digest_hex(HashFunc::Sha1, data) == h
    &&& row.sha256 matches Some(h) ==> digest_hex(HashFunc::Sha256, data) == h
}

/// The store and the result after the blob of `row` was found damaged and
/// `body` came back for it: the body replaces the blob if it is what the
/// row describes, and otherwise nothing changes.
pub open spec fn restore_step(s: StoreView, row: ArtifactView, body: Seq<u8>) -> (
    StoreView,
    Result<(), StorageError>,
) {
    if body.len() > MAX_DIGEST_INPUT {
        (s, Err(StorageError::Io))
    } else if digest_hex(HashFunc::Blake3, body) != row.blake3 || !describes(row, body) {
        (s, Err(StorageError::Corruption))
    } else {
        (
            StoreView { root: s.root, rows: s.rows, blobs: put_blob(s.blobs, row.blake3, body) },
            Ok(()),
        )
    }
}

/// The blob named `blake3` exists and its BLAKE3 digest is its name.
pub open spec fn intact(blobs: Seq<BlobView>, blake3: Seq<char>) -> bool {
    find_blob(blobs, blake3) matches Some(data) && digest_hex(HashFunc::Blake3, data) == blake3
}

/// The path of a blob, or `BadDigest` where the digest has no shard.
pub open spec fn path_result(root: Seq<char>, blake3: Seq<char>) -> Result<Seq<char>, StorageError> {
    if blake3.len() >= 2 {
        Ok(blob_path(root, blake3))
    } else {
        Err(StorageError::BadDigest)
    }
}

/// What `retrieve` may leave behind. A row with an intact blob gives its
/// path and changes nothing. A row whose blob is damaged or missing has the
/// source fetched again: the request fails, or a body came back and was
/// restored. Without a row the artifact is downloaded.
pub open spec fn retrieve_post(
    before: StoreView,
    artifact: ArtifactView,
    after: StoreView,
    result: Result<Seq<char>, StorageError>,
) -> bool {
    match find_row(before.rows, HashFunc::Blake3, artifact.blake3) {
        Some(row) => if intact(before.blobs, row.blake3) {
            after == before && result == path_result(before.root, row.blake3)
        } else {
            ||| after == before && result == Err::<Seq<char>, StorageError>(StorageError::Io)
            ||| exists|body: Seq<u8>|
                after == (#[trigger] restore_step(before, row, body)).0 && result == (
                match restore_step(before, row, body).1 {
                    Ok(_) => path_result(before.root, row.blake3),
                    Err(e) => Err(e),
                })
        },
        None => exists|got: Result<ArtifactView, StorageError>|
            #[trigger] download_post(
                before,
                artifact.name,
                artifact.src,
                artifact.checksums(),
                after,
                got,
            ) && result == (match got {
                Ok(art) => path_result(before.root, art.blake3),
                Err(e) => Err(e),
            }),
    }
}

/// The requests that `retrieve` makes: none for a row with an intact blob,
/// one for the source of the artifact where the blob of its row is damaged
/// or missing, and those of a download where the artifact has no row.
pub open spec fn retrieve_log(before: StoreView, artifact: ArtifactView) -> Seq<Seq<char>> {
    match find_row(before.rows, HashFunc::Blake3, artifact.blake3) {
        Some(row) => if intact(before.blobs, row.blake3) {
            Seq::empty()
        } else {
            seq![artifact.src]
        },
        None => download_log(before, artifact.src, artifact.checksums()),
    }
}

/// No two rows share a BLAKE3 digest and no two blobs share a name.
pub open spec fn distinct(s: StoreView) -> bool {
    &&& forall|i: int, j: int|
        0 <= i < s.rows.len() && 0 <= j < s.rows.len() && i != j ==> (#[trigger] s.rows[i]).blake3
            != (#[trigger] s.rows[j]).blake3
    &&& forall|i: int, j: int|
        0 <= i < s.blobs.len() && 0 <= j < s.blobs.len() && i != j ==> (#[trigger] s.blobs[i]).digest
            != (#[trigger] s.blobs[j]).digest
}

/// Every blob is named by its own BLAKE3 digest.
pub open spec fn blobs_sound(s: StoreView) -> bool {
    forall|j: int|
        0 <= j < s.blobs.len() ==> digest_hex(HashFunc::Blake3, (#[trigger] s.blobs[j]).data)
            == s.blobs[j].digest
}

/// Every row describes the blob stored under its digest: the length and
/// each secondary digest that the row records are those of the blob.
pub open spec fn rows_sound(s: StoreView) -> bool {
    forall|i: int, j: int|
        0 <= i < s.rows.len() && 0 <= j < s.blobs.len() && (#[trigger] s.rows[i]).blake3 == (
        #[trigger] s.blobs[j]).digest ==> describes(s.rows[i], s.blobs[j].data)
}

/// The store is consistent: rows and blobs are keyed without collision,
/// every blob is named by its BLAKE3 digest, and every row describes its
/// blob.
pub open spec fn consistent(s: StoreView) -> bool {
    distinct(s) && blobs_sound(s) && rows_sound(s)
}

/// What a result with an artifact holds.
pub open spec fn artifact_result(r: Result<Artifact, StorageError>) -> Result<
    ArtifactView,
    StorageError,
> {
    match r {
        Ok(art) => Ok(art@),
        Err(e) => Err(e),
    }
}

/// What a result with a path holds.
pub open spec fn text_result(r: Result<String, StorageError>) -> Result<Seq<char>, StorageError> {
    match r {
        Ok(s) => Ok(s@),
        Err(e) => Err(e),
    }
}

/// Affixing keeps what identifies a row, and a row that describes the blob
/// still describes it afterwards. Without a blob a successful affix changes
/// nothing.
pub proof fn lemma_affix_outcome(art: ArtifactView, blob: Option<Seq<u8>>, cs: Seq<ChecksumView>)
    ensures
        affix_outcome(art, blob, cs) matches Ok(a) ==> {
            &&& a.blake3 == art.blake3
            &&& a.name == art.name
            &&& a.src == art.src
            &&& a.len == art.len
            &&& a.md5 == art.md5
            &&& blob matches Some(data) ==> (describes(art, data) ==> describes(a, data))
            &&& blob is None ==> a == art
        },
    decreases cs.len(),
{
    if cs.len() == 0 {
    } else if art.digest(cs[0].function) is Some {
        lemma_affix_outcome(art, blob, cs.drop_first());
    } else {
        match blob {
            None => {},
            Some(data) => {
                if data.len() <= MAX_DIGEST_INPUT && checksum_matches(cs[0], data) {
                    lemma_affix_outcome(art.affixed(cs[0]), blob, cs.drop_first());
                }
            },
        }
    }
}

/// Where a row records a digest for the algorithm of every checksum,
/// `affix` leaves the row as it is and does not read its blob: with or
/// without the blob the outcome is the same.
pub proof fn lemma_affix_without_blob(art: ArtifactView, blob: Option<Seq<u8>>, cs: Seq<ChecksumView>)
    requires
        forall|i: int| 0 <= i < cs.len() ==> art.digest((#[trigger] cs[i]).function) is Some,
    ensures
        affix_outcome(art, blob, cs) == Ok::<ArtifactView, StorageError>(art),
    decreases cs.len(),
{
    if cs.len() > 0 {
        let rest = cs.drop_first();
        assert(art.digest(cs[0].function) is Some);
        assert forall|i: int| 0 <= i < rest.len() implies art.digest(
            (#[trigger] rest[i]).function,
        ) is Some by {
            assert(rest[i] == cs[i + 1]);
        }
        lemma_affix_without_blob(art, blob, rest);
    }
}

/// What `lookup` finds is a row of the index that records the digest of
/// one of the checksums.
pub proof fn lemma_lookup_finds_a_row(rows: Seq<ArtifactView>, cs: Seq<ChecksumView>)
    ensures
        lookup(rows, cs) matches Some(row) ==> rows.contains(row) && exists|i: int|
            0 <= i < cs.len() && row.digest((#[trigger] cs[i]).function) == Some(cs[i].hex_hash),
    decreases cs.len(),
{
    if cs.len() > 0 {
        lemma_first_index_is_first(rows, row_holds(cs[0].function, cs[0].hex_hash));
        match find_row(rows, cs[0].function, cs[0].hex_hash) {
            Some(row) => {
                assert(row.digest(cs[0].function) == Some(cs[0].hex_hash));
            },
            None => {
                let rest = cs.drop_first();
                lemma_lookup_finds_a_row(rows, rest);
                if lookup(rows, rest) is Some {
                    let row = lookup(rows, rest)->Some_0;
                    let i = choose|i: int|
                        0 <= i < rest.len() && row.digest((#[trigger] rest[i]).function) == Some(
                            rest[i].hex_hash,
                        );
                    assert(rest[i] == cs[i + 1]);
                }
            },
        }
    }
}

/// A download succeeds without a request and changes nothing where a
/// checksum finds a row that records a digest for the algorithm of every
/// checksum, in an index whose rows do not share a BLAKE3 digest.
pub proof fn lemma_download_hit(
    before: StoreView,
    name: Seq<char>,
    src: Seq<char>,
    cs: Seq<ChecksumView>,
    after: StoreView,
    result: Result<ArtifactView, StorageError>,
)
    requires
        distinct(before),
        download_post(before, name, src, cs, after, result),
        lookup(before.rows, cs) matches Some(row) && forall|i: int|
            0 <= i < cs.len() ==> row.digest((#[trigger] cs[i]).function) is Some,
    ensures
        result == Ok::<ArtifactView, StorageError>(lookup(before.rows, cs)->Some_0),
        after == before,
        download_log(before, src, cs) == Seq::<Seq<char>>::empty(),
{
    let row = lookup(before.rows, cs)->Some_0;
    lemma_lookup_finds_a_row(before.rows, cs);
    lemma_first_index_is_first(before.rows, row_holds(HashFunc::Blake3, row.blake3));
    let at = row_position(before.rows, HashFunc::Blake3, row.blake3);
    let k = choose|k: int| 0 <= k < before.rows.len() && before.rows[k] == row;
    assert(before.rows[k].digest(HashFunc::Blake3) == Some(row.blake3));
    assert(at < before.rows.len());
    if at != k {
        assert(before.rows[at].blake3 != before.rows[k].blake3);
    }
    lemma_affix_without_blob(row, find_blob(before.blobs, row.blake3), cs);
    assert(before.rows.update(at, row) =~= before.rows);
    assert(affix_step(before, row.blake3, cs).0 =~= before);
}

/// Writing verified checksums into a row that describes the bytes gives a
/// row that describes them, under the same digest.
pub proof fn lemma_affixed_all(art: ArtifactView, cs: Seq<ChecksumView>, data: Seq<u8>)
    requires
        verified(cs, data),
        describes(art, data),
    ensures
        describes(affixed_all(art, cs), data),
        affixed_all(art, cs).blake3 == art.blake3,
        affixed_all(art, cs).name == art.name,
        affixed_all(art, cs).src == art.src,
    decreases cs.len(),
{
    if cs.len() > 0 {
        let rest = cs.drop_first();
        assert(checksum_matches(cs[0], data));
        assert forall|i: int| 0 <= i < rest.len() implies checksum_matches(
            #[trigger] rest[i],
            data,
        ) by {
            assert(rest[i] == cs[i + 1]);
        }
        lemma_affixed_all(art.affixed(cs[0]), rest, data);
    }
}

/// After a blob was written, the blob of that name holds the written bytes.
pub proof fn lemma_put_blob_found(blobs: Seq<BlobView>, digest: Seq<char>, data: Seq<u8>)
    ensures
        find_blob(put_blob(blobs, digest, data), digest) == Some(data),
{
    lemma_first_index_is_first(blobs, blob_named(digest));
    let at = blob_position(blobs, digest);
    let after = put_blob(blobs, digest, data);
    assert forall|j: int| 0 <= j < at implies (#[trigger] after[j]).digest != digest by {
        assert(after[j] == blobs[j]);
    }
    lemma_first_index(after, blob_named(digest), at);
}

/// After a blob was written, the blob of that name holds the written bytes,
/// every other blob is as before, and names still do not collide.
pub proof fn lemma_put_blob(blobs: Seq<BlobView>, digest: Seq<char>, data: Seq<u8>)
    requires
        forall|i: int, j: int|
            0 <= i < blobs.len() && 0 <= j < blobs.len() && i != j ==> (#[trigger] blobs[i]).digest
                != (#[trigger] blobs[j]).digest,
    ensures
        forall|i: int, j: int|
            0 <= i < put_blob(blobs, digest, data).len() && 0 <= j < put_blob(
                blobs,
                digest,
                data,
            ).len() && i != j ==> (#[trigger] put_blob(blobs, digest, data)[i]).digest != (
            #[trigger] put_blob(blobs, digest, data)[j]).digest,
        forall|j: int|
            0 <= j < put_blob(blobs, digest, data).len() ==> {
                ||| (#[trigger] put_blob(blobs, digest, data)[j]) == (BlobView { digest, data })
                ||| j < blobs.len() && put_blob(blobs, digest, data)[j] == blobs[j]
                    && blobs[j].digest != digest
            },
        find_blob(put_blob(blobs, digest, data), digest) == Some(data),
{
    lemma_first_index_is_first(blobs, blob_named(digest));
    let at = blob_position(blobs, digest);
    let after = put_blob(blobs, digest, data);
    assert forall|j: int| 0 <= j < after.len() implies {
        ||| (#[trigger] after[j]) == (BlobView { digest, data })
        ||| j < blobs.len() && after[j] == blobs[j] && blobs[j].digest != digest
    } by {
        if j != at && j < blobs.len() {
            assert(after[j] == blobs[j]);
            if at < blobs.len() {
                assert(blobs[at].digest == digest);
            }
        }
    }
    assert forall|i: int, j: int|
        0 <= i < after.len() && 0 <= j < after.len() && i != j implies (#[trigger] after[i]).digest
        != (#[trigger] after[j]).digest by {
        if i != at && i < blobs.len() {
            assert(after[i] == blobs[i]);
        }
        if j != at && j < blobs.len() {
            assert(after[j] == blobs[j]);
        }
        if at < blobs.len() {
            assert(blobs[at].digest == digest);
        }
    }
    assert forall|j: int| 0 <= j < at implies (#[trigger] after[j]).digest != digest by {
        assert(after[j] == blobs[j]);
    }
    lemma_first_index(after, blob_named(digest), at);
}

/// Keys do not collide and every row describes its blob.
pub open spec fn rows_hold(s: StoreView) -> bool {
    distinct(s) && rows_sound(s)
}

/// After a blob was written, every blob is the written one or one that was
/// there before.
pub proof fn lemma_put_blob_elements(blobs: Seq<BlobView>, digest: Seq<char>, data: Seq<u8>)
    ensures
        forall|j: int|
            0 <= j < put_blob(blobs, digest, data).len() ==> {
                ||| (#[trigger] put_blob(blobs, digest, data)[j]) == (BlobView { digest, data })
                ||| j < blobs.len() && put_blob(blobs, digest, data)[j] == blobs[j]
            },
{
    lemma_first_index_is_first(blobs, blob_named(digest));
    let at = blob_position(blobs, digest);
    let after = put_blob(blobs, digest, data);
    assert forall|j: int| 0 <= j < after.len() implies {
        ||| (#[trigger] after[j]) == (BlobView { digest, data })
        ||| j < blobs.len() && after[j] == blobs[j]
    } by {
        if j != at && j < blobs.len() {
            assert(after[j] == blobs[j]);
        }
    }
}

/// `affix` keeps each part of consistency on its own: where every row
/// describes its blob, every row still does; where every blob is named by
/// its BLAKE3 digest, every blob still is.
pub proof fn lemma_affix_step_consistent(s: StoreView, blake3: Seq<char>, cs: Seq<ChecksumView>)
    ensures
        rows_hold(s) ==> rows_hold(affix_step(s, blake3, cs).0),
        blobs_sound(s) ==> blobs_sound(affix_step(s, blake3, cs).0),
{
    let at = row_position(s.rows, HashFunc::Blake3, blake3);
    lemma_first_index_is_first(s.rows, row_holds(HashFunc::Blake3, blake3));
    if at < s.rows.len() && rows_hold(s) {
        let blob = find_blob(s.blobs, blake3);
        lemma_affix_outcome(s.rows[at], blob, cs);
        lemma_first_index_is_first(s.blobs, blob_named(blake3));
        match affix_outcome(s.rows[at], blob, cs) {
            Ok(a) => {
                let t = affix_step(s, blake3, cs).0;
                assert(s.rows[at].blake3 == blake3);
                assert forall|i: int, j: int|
                    0 <= i < t.rows.len() && 0 <= j < t.rows.len() && i != j implies (
                #[trigger] t.rows[i]).blake3 != (#[trigger] t.rows[j]).blake3 by {
                    assert(t.rows[i].blake3 == s.rows[i].blake3);
                    assert(t.rows[j].blake3 == s.rows[j].blake3);
                }
                assert forall|i: int, j: int|
                    0 <= i < t.rows.len() && 0 <= j < t.blobs.len() && (#[trigger] t.rows[i]).blake3
                        == (#[trigger] t.blobs[j]).digest implies describes(
                    t.rows[i],
                    t.blobs[j].data,
                ) by {
                    if i == at {
                        let p = blob_position(s.blobs, blake3);
                        if p < s.blobs.len() {
                            if j != p {
                                assert(s.blobs[j].digest != s.blobs[p].digest);
                            }
                            assert(describes(s.rows[at], s.blobs[j].data));
                        } else {
                            assert(s.blobs[j].digest != blake3);
                        }
                    } else {
                        assert(t.rows[i] == s.rows[i]);
                        assert(describes(s.rows[i], s.blobs[j].data));
                    }
                }
            },
            Err(_) => {},
        }
    }
}

/// A fresh row describes the bytes it was made for.
pub proof fn lemma_fresh_row(data: Seq<u8>, name: Seq<char>, src: Seq<char>)
    requires
        data.len() <= MAX_DIGEST_INPUT,
    ensures
        describes(fresh_row(data, name, src), data),
{
}

/// `store` keeps each part of consistency on its own: where every row
/// describes its blob, every row still does, the new one included; where
/// every blob is named by its BLAKE3 digest, every blob still is.
pub proof fn lemma_store_step_consistent(
    s: StoreView,
    data: Seq<u8>,
    name: Seq<char>,
    src: Seq<char>,
    cs: Seq<ChecksumView>,
)
    ensures
        rows_hold(s) ==> rows_hold(store_step(s, data, name, src, cs).0),
        blobs_sound(s) ==> blobs_sound(store_step(s, data, name, src, cs).0),
{
    let b3 = digest_hex(HashFunc::Blake3, data);
    lemma_first_index_is_first(s.rows, row_holds(HashFunc::Blake3, b3));
    if row_position(s.rows, HashFunc::Blake3, b3) < s.rows.len() {
        lemma_affix_step_consistent(s, b3, cs);
    } else if data.len() > MAX_DIGEST_INPUT {
    } else if !verified(cs, data) {
    } else {
        let t = store_step(s, data, name, src, cs).0;
        let art = affixed_all(fresh_row(data, name, src), cs);
        lemma_fresh_row(data, name, src);
        lemma_affixed_all(fresh_row(data, name, src), cs, data);
        assert(art.blake3 == b3);
        if blobs_sound(s) {
            lemma_put_blob_elements(s.blobs, b3, data);
            assert forall|j: int| 0 <= j < t.blobs.len() implies digest_hex(
                HashFunc::Blake3,
                (#[trigger] t.blobs[j]).data,
            ) == t.blobs[j].digest by {
                if t.blobs[j] != (BlobView { digest: b3, data }) {
                    assert(t.blobs[j] == s.blobs[j]);
                }
            }
        }
        if rows_hold(s) {
            lemma_put_blob(s.blobs, b3, data);
            assert forall|i: int, j: int|
                0 <= i < t.rows.len() && 0 <= j < t.rows.len() && i != j implies (
            #[trigger] t.rows[i]).blake3 != (#[trigger] t.rows[j]).blake3 by {
                if i < s.rows.len() {
                    assert(t.rows[i] == s.rows[i]);
                    assert(s.rows[i].digest(HashFunc::Blake3) != Some(b3));
                }
                if j < s.rows.len() {
                    assert(t.rows[j] == s.rows[j]);
                    assert(s.rows[j].digest(HashFunc::Blake3) != Some(b3));
                }
            }
            assert forall|i: int, j: int|
                0 <= i < t.rows.len() && 0 <= j < t.blobs.len() && (#[trigger] t.rows[i]).blake3
                    == (#[trigger] t.blobs[j]).digest implies describes(
                t.rows[i],
                t.blobs[j].data,
            ) by {
                if i < s.rows.len() {
                    assert(t.rows[i] == s.rows[i]);
                    assert(s.rows[i].digest(HashFunc::Blake3) != Some(b3));
                    assert(t.blobs[j] == s.blobs[j]);
                    assert(describes(s.rows[i], s.blobs[j].data));
                } else {
                    assert(t.rows[i] == art);
                    if t.blobs[j] != (BlobView { digest: b3, data }) {
                        assert(s.blobs[j].digest != b3);
                    }
                }
            }
        }
    }
}

/// What `store` returns in a consistent store is the row that is read back
/// under its digest, and it describes the blob stored under that digest:
/// its length and each digest it records are those of the blob.
pub proof fn lemma_store_step_describes(
    s: StoreView,
    data: Seq<u8>,
    name: Seq<char>,
    src: Seq<char>,
    cs: Seq<ChecksumView>,
)
    requires
        rows_hold(s),
        store_step(s, data, name, src, cs).1 is Ok,
    ensures
        find_row(
            store_step(s, data, name, src, cs).0.rows,
            HashFunc::Blake3,
            store_step(s, data, name, src, cs).1->Ok_0.blake3,
        ) == Some(store_step(s, data, name, src, cs).1->Ok_0),
        find_blob(
            store_step(s, data, name, src, cs).0.blobs,
            store_step(s, data, name, src, cs).1->Ok_0.blake3,
        ) matches Some(blob) ==> describes(store_step(s, data, name, src, cs).1->Ok_0, blob),
{
    let t = store_step(s, data, name, src, cs).0;
    let art = store_step(s, data, name, src, cs).1->Ok_0;
    let b3 = digest_hex(HashFunc::Blake3, data);
    lemma_store_step_consistent(s, data, name, src, cs);
    lemma_first_index_is_first(s.rows, row_holds(HashFunc::Blake3, b3));
    let at = row_position(s.rows, HashFunc::Blake3, b3);
    if at < s.rows.len() {
        lemma_affix_outcome(s.rows[at], find_blob(s.blobs, b3), cs);
        assert(t.rows[at] == art);
    } else {
        lemma_fresh_row(data, name, src);
        lemma_affixed_all(fresh_row(data, name, src), cs, data);
        assert(t.rows[at] == art);
    }
    assert(art.blake3 == b3);
    assert forall|j: int| 0 <= j < at implies (#[trigger] t.rows[j]).digest(HashFunc::Blake3)
        != Some(b3) by {
        assert(t.rows[j] == s.rows[j]);
    }
    lemma_first_index(t.rows, row_holds(HashFunc::Blake3, b3), at);
    lemma_first_index_is_first(t.blobs, blob_named(b3));
    let place = blob_position(t.blobs, b3);
    if place < t.blobs.len() {
        assert(describes(t.rows[at], t.blobs[place].data));
    }
}

/// Restoring the blob of a row keeps each part of consistency on its own.
pub proof fn lemma_restore_step_consistent(s: StoreView, row: ArtifactView, body: Seq<u8>)
    requires
        s.rows.contains(row),
    ensures
        rows_hold(s) ==> rows_hold(restore_step(s, row, body).0),
        blobs_sound(s) ==> blobs_sound(restore_step(s, row, body).0),
{
    let t = restore_step(s, row, body).0;
    if t != s {
        let k = choose|k: int| 0 <= k < s.rows.len() && s.rows[k] == row;
        if blobs_sound(s) {
            lemma_put_blob_elements(s.blobs, row.blake3, body);
            assert forall|j: int| 0 <= j < t.blobs.len() implies digest_hex(
                HashFunc::Blake3,
                (#[trigger] t.blobs[j]).data,
            ) == t.blobs[j].digest by {
                if t.blobs[j] != (BlobView { digest: row.blake3, data: body }) {
                    assert(t.blobs[j] == s.blobs[j]);
                }
            }
        }
        if rows_hold(s) {
            lemma_put_blob(s.blobs, row.blake3, body);
            assert forall|i: int, j: int|
                0 <= i < t.rows.len() && 0 <= j < t.blobs.len() && (#[trigger] t.rows[i]).blake3
                    == (#[trigger] t.blobs[j]).digest implies describes(
                t.rows[i],
                t.blobs[j].data,
            ) by {
                if t.blobs[j] != (BlobView { digest: row.blake3, data: body }) {
                    assert(t.blobs[j] == s.blobs[j]);
                    assert(describes(s.rows[i], s.blobs[j].data));
                } else {
                    if i != k {
                        assert(s.rows[i].blake3 != s.rows[k].blake3);
                    }
                }
            }
        }
    }
}

/// `download` keeps each part of consistency on its own, whatever the
/// network hands back.
pub proof fn lemma_download_consistent(
    before: StoreView,
    name: Seq<char>,
    src: Seq<char>,
    cs: Seq<ChecksumView>,
    after: StoreView,
    result: Result<ArtifactView, StorageError>,
)
    requires
        download_post(before, name, src, cs, after, result),
    ensures
        rows_hold(before) ==> rows_hold(after),
        blobs_sound(before) ==> blobs_sound(after),
{
    match lookup(before.rows, cs) {
        Some(row) => {
            lemma_affix_step_consistent(before, row.blake3, cs);
        },
        None => {
            if !(after == before && result == Err::<ArtifactView, StorageError>(StorageError::Io)) {
                let body = choose|body: Seq<u8>|
                    (after, result) == #[trigger] store_step(before, body, name, src, cs);
                lemma_store_step_consistent(before, body, name, src, cs);
            }
        },
    }
}

/// `retrieve` keeps each part of consistency on its own, whatever the
/// network hands back.
pub proof fn lemma_retrieve_consistent(
    before: StoreView,
    artifact: ArtifactView,
    after: StoreView,
    result: Result<Seq<char>, StorageError>,
)
    requires
        retrieve_post(before, artifact, after, result),
    ensures
        rows_hold(before) ==> rows_hold(after),
        blobs_sound(before) ==> blobs_sound(after),
{
    lemma_first_index_is_first(before.rows, row_holds(HashFunc::Blake3, artifact.blake3));
    match find_row(before.rows, HashFunc::Blake3, artifact.blake3) {
        Some(row) => {
            if !intact(before.blobs, row.blake3) && after != before {
                let body = choose|body: Seq<u8>|
                    after == (#[trigger] restore_step(before, row, body)).0 && result == (
                    match restore_step(before, row, body).1 {
                        Ok(_) => path_result(before.root, row.blake3),
                        Err(e) => Err(e),
                    });
                lemma_restore_step_consistent(before, row, body);
            }
        },
        None => {
            let got = choose|got: Result<ArtifactView, StorageError>|
                #[trigger] download_post(
                    before,
                    artifact.name,
                    artifact.src,
                    artifact.checksums(),
                    after,
                    got,
                ) && result == (match got {
                    Ok(art) => path_result(before.root, art.blake3),
                    Err(e) => Err(e),
                });
            lemma_download_consistent(
                before,
                artifact.name,
                artifact.src,
                artifact.checksums(),
                after,
                got,
            );
        },
    }
}

/// After a successful `retrieve` of an indexed artifact, the blob under its
/// digest exists and its BLAKE3 digest is the digest of the artifact,
/// whatever state the blob was in before.
pub proof fn lemma_retrieve_restores(
    before: StoreView,
    artifact: ArtifactView,
    after: StoreView,
    result: Result<Seq<char>, StorageError>,
)
    requires
        retrieve_post(before, artifact, after, result),
        find_row(before.rows, HashFunc::Blake3, artifact.blake3) is Some,
        result is Ok,
    ensures
        intact(after.blobs, artifact.blake3),
        result == Ok::<Seq<char>, StorageError>(blob_path(before.root, artifact.blake3)),
        after.rows == before.rows,
{
    lemma_first_index_is_first(before.rows, row_holds(HashFunc::Blake3, artifact.blake3));
    let row = find_row(before.rows, HashFunc::Blake3, artifact.blake3)->Some_0;
    assert(row.blake3 == artifact.blake3);
    if !intact(before.blobs, row.blake3) {
        let body = choose|body: Seq<u8>|
            after == (#[trigger] restore_step(before, row, body)).0 && result == (
            match restore_step(before, row, body).1 {
                Ok(_) => path_result(before.root, row.blake3),
                Err(e) => Err(e),
            });
        lemma_put_blob_found(before.blobs, row.blake3, body);
    }
}

/// Whether a row with the BLAKE3 digest `blake3` exists.
pub open spec fn indexed(rows: Seq<ArtifactView>, blake3: Seq<char>) -> bool {
    exists|i: int| 0 <= i < rows.len() && (#[trigger] rows[i]).blake3 == blake3
}

/// `affix` deletes no row, and the row it returns is indexed.
pub proof fn lemma_affix_step_keeps_rows(s: StoreView, blake3: Seq<char>, cs: Seq<ChecksumView>)
    ensures
        forall|b: Seq<char>| #[trigger]
            indexed(s.rows, b) ==> indexed(affix_step(s, blake3, cs).0.rows, b),
        affix_step(s, blake3, cs).1 matches Ok(art) ==> indexed(
            affix_step(s, blake3, cs).0.rows,
            art.blake3,
        ),
{
    let at = row_position(s.rows, HashFunc::Blake3, blake3);
    lemma_first_index_is_first(s.rows, row_holds(HashFunc::Blake3, blake3));
    let t = affix_step(s, blake3, cs).0;
    if at < s.rows.len() {
        lemma_affix_outcome(s.rows[at], find_blob(s.blobs, blake3), cs);
        match affix_outcome(s.rows[at], find_blob(s.blobs, blake3), cs) {
            Ok(a) => {
                assert(t.rows[at] == a);
                assert forall|b: Seq<char>| #[trigger] indexed(s.rows, b) implies indexed(
                    t.rows,
                    b,
                ) by {
                    let i = choose|i: int| 0 <= i < s.rows.len() && (#[trigger] s.rows[i]).blake3 == b;
                    assert(t.rows[i].blake3 == b);
                }
            },
            Err(_) => {},
        }
    }
}

/// `store` deletes no row, and the row it returns is indexed.
pub proof fn lemma_store_step_keeps_rows(
    s: StoreView,
    data: Seq<u8>,
    name: Seq<char>,
    src: Seq<char>,
    cs: Seq<ChecksumView>,
)
    ensures
        forall|b: Seq<char>| #[trigger]
            indexed(s.rows, b) ==> indexed(store_step(s, data, name, src, cs).0.rows, b),
        store_step(s, data, name, src, cs).1 matches Ok(art) ==> indexed(
            store_step(s, data, name, src, cs).0.rows,
            art.blake3,
        ),
{
    let b3 = digest_hex(HashFunc::Blake3, data);
    let t = store_step(s, data, name, src, cs).0;
    if row_position(s.rows, HashFunc::Blake3, b3) < s.rows.len() {
        lemma_affix_step_keeps_rows(s, b3, cs);
    } else if data.len() <= MAX_DIGEST_INPUT && verified(cs, data) {
        let art = affixed_all(fresh_row(data, name, src), cs);
        assert(t.rows[s.rows.len() as int] == art);
        assert forall|b: Seq<char>| #[trigger] indexed(s.rows, b) implies indexed(t.rows, b) by {
            let i = choose|i: int| 0 <= i < s.rows.len() && (#[trigger] s.rows[i]).blake3 == b;
            assert(t.rows[i] == s.rows[i]);
        }
    }
}

/// `download` deletes no row, and the row it returns is indexed.
pub proof fn lemma_download_keeps_rows(
    before: StoreView,
    name: Seq<char>,
    src: Seq<char>,
    cs: Seq<ChecksumView>,
    after: StoreView,
    result: Result<ArtifactView, StorageError>,
)
    requires
        download_post(before, name, src, cs, after, result),
    ensures
        forall|b: Seq<char>| #[trigger] indexed(before.rows, b) ==> indexed(after.rows, b),
        result matches Ok(art) ==> indexed(after.rows, art.blake3),
{
    match lookup(before.rows, cs) {
        Some(row) => {
            lemma_affix_step_keeps_rows(before, row.blake3, cs);
        },
        None => {
            if !(after == before && result == Err::<ArtifactView, StorageError>(StorageError::Io)) {
                let body = choose|body: Seq<u8>|
                    (after, result) == #[trigger] store_step(before, body, name, src, cs);
                lemma_store_step_keeps_rows(before, body, name, src, cs);
            }
        },
    }
}

} // verus!
