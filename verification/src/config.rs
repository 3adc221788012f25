//! The run's configuration: roots, plain-copy size cutoff, clean flag.

use vstd::prelude::*;

verus! {

/// Bytes in one MiB.
pub const MIB: u64 = 1048576;

/// Default plain-file size cutoff, in MiB.
pub const DEFAULT_MAX_FILE_SIZE_MIB: u64 = 20;

/// Configuration of one pipeline run, constructed once at startup and never
/// mutated: the tree roots, the plain-copy size cutoff in bytes, and whether
/// existing derivatives are regenerated (`clean`) or trusted (incremental).
pub struct RunConfig {
    pub source_root: Vec<u8>,
    pub dest_root: Vec<u8>,
    pub size_cutoff: u64,
    pub clean: bool,
}

impl RunConfig {
    /// A configuration with the cutoff given in MiB, as on the command line.
    pub fn new(source_root: Vec<u8>, dest_root: Vec<u8>, max_file_size_mib: u64, clean: bool) -> (r:
        RunConfig)
        requires
            max_file_size_mib * MIB <= u64::MAX,
        ensures
            r.source_root@ == source_root@,
            r.dest_root@ == dest_root@,
            r.size_cutoff == max_file_size_mib * MIB,
            r.clean == clean,
    {
        RunConfig {
            source_root,
            dest_root,
            size_cutoff: max_file_size_mib * MIB,
            clean,
        }
    }
}

} // verus!
