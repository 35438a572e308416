//! The linker's input record: the patches to apply and the mod objects to
//! merge, already read from disk and parsed. Reading and parsing the
//! configuration file itself is the caller's concern.

use vstd::prelude::*;

verus! {

use crate::coff::ObjectFile;
use crate::patch::Patch;

/// The pre-parsed configuration: patches in application order and mod
/// objects in input order.
#[derive(Debug)]
pub struct Configuration {
    pub patches: Vec<Patch>,
    pub modfiles: Vec<ObjectFile>,
}

impl Configuration {
    /// Structural soundness: every input object parses cleanly and mod
    /// files have pairwise-distinct names.
    pub open spec fn wf(self) -> bool {
        &&& forall|i: int| 0 <= i < self.patches@.len() ==> (#[trigger] self.patches@[i]).wf()
        &&& forall|i: int| 0 <= i < self.modfiles@.len() ==> (#[trigger] self.modfiles@[i]).wf()
        &&& forall|i: int, j: int|
            0 <= i < j < self.modfiles@.len() ==> (#[trigger] self.modfiles@[i]).filename@ != (
            #[trigger] self.modfiles@[j]).filename@
    }

    /// Bundles the two input lists.
    pub fn new(patches: Vec<Patch>, modfiles: Vec<ObjectFile>) -> (r: Configuration)
        ensures
            r.patches == patches,
            r.modfiles == modfiles,
    {
        Configuration { patches, modfiles }
    }
}

} // verus!
