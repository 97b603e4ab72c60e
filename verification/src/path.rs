//! Where the files of the application lie, given the directories of the
//! host platform.

use vstd::prelude::*;
use vstd::string::*;
use crate::checksum::{blake3, digest_hex, HashFunc};
use crate::text::{join, joined};

verus! {

/// The data directory of the application under the user's local data
/// directory.
pub fn creeper_data_dir(local_data: &str) -> (dir: String)
    ensures
        dir@ == joined(local_data@, "creeper"@),
{
    join(local_data, "creeper")
}

/// The cache directory of the application under the user's cache
/// directory.
pub fn creeper_cache_dir(cache: &str) -> (dir: String)
    ensures
        dir@ == joined(cache@, "creeper"@),
{
    join(cache, "creeper")
}

/// The directory of the managed Minecraft instances under the user's local
/// data directory.
pub fn creeper_mc_dir(local_data: &str) -> (dir: String)
    ensures
        dir@ == joined(joined(local_data@, "creeper"@), "minecraft"@),
{
    let data = creeper_data_dir(local_data);
    join(data.as_str(), "minecraft")
}

/// The file of the index of the store under the application's data
/// directory.
pub fn index_file(data_dir: &str) -> (file: String)
    ensures
        file@ == joined(data_dir@, "storage-index.db"@),
{
    join(data_dir, "storage-index.db")
}

/// Where the body behind `url` is staged under the application's cache
/// directory: in the file named by the BLAKE3 digest of the URL.
pub fn staging_file(cache_dir: &str, url: &str) -> (file: String)
    ensures
        file@ == joined(cache_dir@, digest_hex(HashFunc::Blake3, url.spec_bytes())),
{
    let name = blake3(url.as_bytes());
    join(cache_dir, name.as_str())
}

} // verus!
