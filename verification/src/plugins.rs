use vstd::prelude::*;

verus! {

/// One statically contributed plugin: a game name and the simulation
/// handle (or factory) the compiled-in module registered for it.
pub struct PluginEntry<T> {
    pub name: String,
    pub simulation: T,
}

/// Lookup failure: the requested name is unknown; the payload carries the
/// full list of registered names for diagnostic display.
#[derive(Debug)]
pub struct PluginNotFound {
    pub known_names: Vec<String>,
}

/// The process-wide plugin index: built once from the descriptors the
/// compiled-in modules contribute, read-only thereafter.  The simulation
/// handle type is left generic; callers typically instantiate it with a
/// shared, individually locked handle.
pub struct PluginRegistry<T> {
    pub entries: Vec<PluginEntry<T>>,
}

impl<T> PluginRegistry<T> {
    /// Is some entry registered under this name?
    pub open spec fn has_name(self, n: Seq<char>) -> bool {
        exists|i: int| 0 <= i < self.entries@.len() && self.entries@[i].name@ == n
    }

    /// Builds the index from the collected descriptors; the explicit
    /// initialization step that replaces implicit link-time side effects.
    pub fn new(entries: Vec<PluginEntry<T>>) -> (r: PluginRegistry<T>)
        ensures
            r.entries == entries,
    {
        PluginRegistry { entries }
    }

    /// Enumerates all registered names, in registration order.
    pub fn game_list(&self) -> (names: Vec<String>)
        ensures
            names@.len() == self.entries@.len(),
            forall|i: int| 0 <= i < names@.len() ==> names@[i]@ == self.entries@[i].name@,
    {
        let mut names: Vec<String> = Vec::new();
        let n = self.entries.len();
        for i in 0..n
            invariant
                n == self.entries@.len(),
                names@.len() == i,
                forall|k: int| 0 <= k < i ==> names@[k]@ == self.entries@[k].name@,
        {
            names.push(self.entries[i].name.clone());
        }
        names
    }

    /// Resolves a game name to the registered simulation handle, by exact
    /// match on the first matching entry; fails with `PluginNotFound`,
    /// carrying every registered name, exactly when no entry matches.
    pub fn get_simulation_by_name(&self, name: &str) -> (r: Result<&T, PluginNotFound>)
        ensures
            match r {
                Ok(sim) => exists|i: int|
                    #![trigger self.entries@[i]]
                    0 <= i < self.entries@.len() && self.entries@[i].name@ == name@ && *sim
                        == self.entries@[i].simulation && (forall|k: int|
                        0 <= k < i ==> self.entries@[k].name@ != name@),
                Err(e) => !self.has_name(name@) && e.known_names@.len() == self.entries@.len() && (
                forall|i: int|
                    0 <= i < e.known_names@.len() ==> e.known_names@[i]@ == self.entries@[i].name@),
            },
    {
        let n = self.entries.len();
        for i in 0..n
            invariant
                n == self.entries@.len(),
                forall|k: int| 0 <= k < i ==> self.entries@[k].name@ != name@,
        {
            if crate::names::str_eq(self.entries[i].name.as_str(), name) {
                return Ok(&self.entries[i].simulation);
            }
        }
        Err(PluginNotFound { known_names: self.game_list() })
    }
}

} // verus!
