//! Arguments controlling a scan of the manifests directory.

use vstd::prelude::*;

verus! {

/// Arguments controlling a scan of the manifests directory.
#[derive(Debug, Clone)]
pub struct ScanArgs {
    /// Root of the manifests tree.
    pub root: String,
    /// Root of the blobs directory.
    pub blobs_root: String,
    /// Include entries whose segments start with `.`.
    pub include_hidden: bool,
    /// Include extra detail: layer list, total size, mtime, and blob info.
    pub verbose: bool,
    /// Report blob paths even without the other verbose detail.
    pub blob_paths: bool,
}

impl ScanArgs {
    /// Creates scan arguments for the given roots, with every flag off.
    pub fn new(root: String, blobs_root: String) -> (r: ScanArgs)
        ensures
            r.root@ == root@,
            r.blobs_root@ == blobs_root@,
            !r.include_hidden,
            !r.verbose,
            !r.blob_paths,
    {
        ScanArgs { root, blobs_root, include_hidden: false, verbose: false, blob_paths: false }
    }

    /// The same arguments with the hidden-inclusion flag set as given.
    pub fn with_include_hidden(self, include_hidden: bool) -> (r: ScanArgs)
        ensures
            r == (ScanArgs { include_hidden, ..self }),
    {
        ScanArgs { include_hidden, ..self }
    }

    /// The same arguments with the verbose flag set as given.
    pub fn with_verbose(self, verbose: bool) -> (r: ScanArgs)
        ensures
            r == (ScanArgs { verbose, ..self }),
    {
        ScanArgs { verbose, ..self }
    }
}

} // verus!
