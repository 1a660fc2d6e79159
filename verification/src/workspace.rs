use crate::errors::ScaffoldError;
use crate::names::str_eq;
use vstd::prelude::*;

verus! {

/// The store listing all buildable module directories included in the
/// overall build.  Insertion order is preserved for determinism; this
/// component performs no uniqueness check of its own (uniqueness is the
/// orchestrator's responsibility through the registry invariant).
#[derive(Debug)]
pub struct WorkspaceManifest {
    pub members: Vec<String>,
}

impl WorkspaceManifest {
    /// Does some member equal this directory name?
    pub open spec fn has_member(self, dir: Seq<char>) -> bool {
        exists|i: int| 0 <= i < self.members@.len() && self.members@[i]@ == dir
    }

    /// An empty workspace manifest.
    pub fn new() -> (r: WorkspaceManifest)
        ensures
            r.members@.len() == 0,
    {
        WorkspaceManifest { members: Vec::new() }
    }

    /// Appends a module directory to the member list.  Duplicates are
    /// tolerated (but discouraged): no check is performed here.
    pub fn add_member(&mut self, dir: String)
        ensures
            final(self).members@ == old(self).members@.push(dir),
    {
        self.members.push(dir);
    }

    /// Removes the first member equal to this directory name; fails with
    /// `NotFound`, leaving the manifest unchanged, exactly when absent.
    pub fn remove_member(&mut self, dir: &str) -> (r: Result<(), ScaffoldError>)
        ensures
            match r {
                Ok(()) => old(self).has_member(dir@) && exists|i: int|
                    0 <= i < old(self).members@.len() && old(self).members@[i]@ == dir@ && (forall|
                        k: int,
                    | 0 <= k < i ==> old(self).members@[k]@ != dir@)
                        && final(self).members@ == old(self).members@.remove(i),
                Err(e) => e == ScaffoldError::NotFound && !old(self).has_member(dir@)
                    && *final(self) == *old(self),
            },
    {
        let n = self.members.len();
        for i in 0..n
            invariant
                n == self.members@.len(),
                *self == *old(self),
                forall|k: int| 0 <= k < i ==> self.members@[k]@ != dir@,
        {
            if str_eq(self.members[i].as_str(), dir) {
                self.members.remove(i);
                return Ok(());
            }
        }
        Err(ScaffoldError::NotFound)
    }
}

} // verus!
