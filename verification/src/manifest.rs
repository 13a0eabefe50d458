//! The manifest: for every synchronised file, its size, change time and the
//! ordered list of encrypted chunk names that make up its content.

use vstd::prelude::*;
use crate::strmap::StrMap;

verus! {

/// The only manifest layout this version reads and writes.
pub const SCHEMA_VERSION: u32 = 1;

pub struct FileInfo {
    pub path: String,
    pub size: u64,
    pub modified_at: u64,
    /// Raw chunk names (HMAC-SHA256 of the plaintext chunk), in file order.
    pub chunks: Vec<[u8; 32]>,
}

pub struct Manifest {
    pub schema_version: u32,
    pub revision: u64,
    /// Relative path → file record.
    pub files: StrMap<FileInfo>,
}

impl Manifest {
    pub open spec fn wf(&self) -> bool {
        self.files.wf()
    }

    /// An empty manifest of the current schema, at revision 0.
    pub fn new() -> (r: Self)
        ensures
            r.wf(),
            r.schema_version == SCHEMA_VERSION,
            r.revision == 0,
            r.files@ == Map::<Seq<char>, FileInfo>::empty(),
    {
        Manifest { schema_version: SCHEMA_VERSION, revision: 0, files: StrMap::new() }
    }
}

impl Default for Manifest {
    fn default() -> (r: Self)
        ensures
            r.wf(),
            r.schema_version == SCHEMA_VERSION,
            r.revision == 0,
            r.files@ == Map::<Seq<char>, FileInfo>::empty(),
    {
        Manifest::new()
    }
}

} // verus!
