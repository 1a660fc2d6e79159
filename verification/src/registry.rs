use crate::errors::ScaffoldError;
use crate::names::str_eq;
use vstd::prelude::*;

verus! {

/// One known game: canonical id (primary key), module directory, and
/// entry-point class.  Entries are created by `add`, removed by `remove`,
/// and never mutated in place.
#[derive(Clone, Debug)]
pub struct GameEntry {
    pub id: String,
    pub module_dir: String,
    pub entry_class: String,
}

/// The ghost shape of one registry entry: the views of its three fields.
#[verifier::ext_equal]
pub ghost struct GameEntryModel {
    pub id: Seq<char>,
    pub module_dir: Seq<char>,
    pub entry_class: Seq<char>,
}

impl View for GameEntry {
    type V = GameEntryModel;

    open spec fn view(&self) -> GameEntryModel {
        GameEntryModel { id: self.id@, module_dir: self.module_dir@, entry_class: self.entry_class@ }
    }
}

/// The store of known games: an ordered sequence of entries, no two of
/// which share an id.
#[derive(Debug)]
pub struct GameRegistry {
    pub games: Vec<GameEntry>,
}

impl GameRegistry {
    /// The registry invariant: ids are unique across the sequence.
    pub open spec fn wf(self) -> bool {
        forall|i: int, j: int|
            0 <= i < j < self.games@.len() ==> self.games@[i].id@ != self.games@[j].id@
    }

    /// Does some entry carry this id?
    pub open spec fn contains_id(self, id: Seq<char>) -> bool {
        exists|i: int| 0 <= i < self.games@.len() && self.games@[i].id@ == id
    }

    /// An empty registry; trivially well formed.
    pub fn new() -> (r: GameRegistry)
        ensures
            r.games@.len() == 0,
            r.wf(),
    {
        GameRegistry { games: Vec::new() }
    }

    /// Appends a new entry.  Fails with `AlreadyExists`, leaving the
    /// registry unchanged, exactly when the id is already present
    /// (case-sensitive exact match); uniqueness of ids is preserved.
    pub fn add(&mut self, entry: GameEntry) -> (r: Result<(), ScaffoldError>)
        requires
            old(self).wf(),
        ensures
            final(self).wf(),
            match r {
                Ok(()) => !old(self).contains_id(entry.id@)
                    && final(self).games@ == old(self).games@.push(entry),
                Err(e) => e == ScaffoldError::AlreadyExists && old(self).contains_id(entry.id@)
                    && *final(self) == *old(self),
            },
    {
        let n = self.games.len();
        for i in 0..n
            invariant
                n == self.games@.len(),
                *self == *old(self),
                old(self).wf(),
                forall|k: int| 0 <= k < i ==> self.games@[k].id@ != entry.id@,
        {
            if str_eq(self.games[i].id.as_str(), entry.id.as_str()) {
                return Err(ScaffoldError::AlreadyExists);
            }
        }
        self.games.push(entry);
        proof {
            assert forall|a: int, b: int|
                0 <= a < b < self.games@.len() implies self.games@[a].id@
                != self.games@[b].id@ by {
                if b < old(self).games@.len() {
                    assert(old(self).wf());
                } else {
                    assert(self.games@[b] == entry);
                }
            }
        }
        Ok(())
    }

    /// Removes the entry with this id.  Fails with `NotFound`, leaving the
    /// registry unchanged, exactly when no entry matches; otherwise the
    /// first (under the invariant, only) match is removed.
    pub fn remove(&mut self, id: &str) -> (r: Result<(), ScaffoldError>)
        requires
            old(self).wf(),
        ensures
            final(self).wf(),
            match r {
                Ok(()) => old(self).contains_id(id@) && exists|i: int|
                    0 <= i < old(self).games@.len() && old(self).games@[i].id@ == id@
                        && final(self).games@ == old(self).games@.remove(i),
                Err(e) => e == ScaffoldError::NotFound && !old(self).contains_id(id@)
                    && *final(self) == *old(self),
            },
            !final(self).contains_id(id@),
    {
        let n = self.games.len();
        for i in 0..n
            invariant
                n == self.games@.len(),
                *self == *old(self),
                old(self).wf(),
                forall|k: int| 0 <= k < i ==> self.games@[k].id@ != id@,
        {
            if str_eq(self.games[i].id.as_str(), id) {
                self.games.remove(i);
                proof {
                    let g0 = old(self).games@;
                    assert(self.games@ == g0.remove(i as int));
                    assert forall|a: int, b: int|
                        0 <= a < b < self.games@.len() implies self.games@[a].id@
                        != self.games@[b].id@ by {
                        let a0: int = if a < i { a } else { a + 1 };
                        let b0: int = if b < i { b } else { b + 1 };
                        assert(self.games@[a] == g0[a0]);
                        assert(self.games@[b] == g0[b0]);
                        assert(g0[a0].id@ != g0[b0].id@);
                    }
                    assert forall|k: int| 0 <= k < self.games@.len() implies self.games@[k].id@
                        != id@ by {
                        if k < i {
                            assert(self.games@[k] == g0[k]);
                        } else {
                            assert(self.games@[k] == g0[k + 1]);
                            assert(g0[i as int].id@ != g0[k + 1].id@);
                        }
                    }
                }
                return Ok(());
            }
        }
        Err(ScaffoldError::NotFound)
    }

    /// Read-only view of the entries, in order; no side effect.
    pub fn list(&self) -> (r: &Vec<GameEntry>)
        ensures
            r@ == self.games@,
    {
        &self.games
    }
}

} // verus!
