//! Descriptions that the web backend serves: where its public files come from, and what
//! it tells about the system.
use vstd::prelude::*;

verus! {

/// Defines the access method to public files.
#[derive(Debug)]
pub enum PublicPath {
    /// Path to a specific directory which contains `index.html`.
    Path(String),
    /// A URI from which an archive of public files can be downloaded. It is downloaded and
    /// extracted into a temporary directory named after the archive's checksum.
    ArchiveDownloadUri(String),
    /// Local path to an archive file. Once found, it works as `ArchiveDownloadUri` does.
    ArchivePath(String),
}

impl Default for PublicPath {
    /// The directory `static`.
    fn default() -> (r: PublicPath)
        ensures
            r matches PublicPath::Path(p) && p@ == "static"@,
    {
        PublicPath::Path("static".to_string())
    }
}

/// Where the monitor's public files come from.
#[derive(Debug)]
pub enum PublicFile {
    DownloadArchive(String),
    DownloadUri(String),
    LocalPath(String),
}

/// What the web backend tells about the system it runs in.
#[derive(Debug)]
pub struct SystemInfo {
    pub alias: String,
    pub description: String,
    pub epoch: u64,
    pub version: String,
    pub hostname: String,
    pub num_cores: usize,
}

} // verus!
