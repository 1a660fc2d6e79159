use crate::errors::ScaffoldError;
use crate::module_manifest::clashes_with_newgame_deps;
use crate::module_manifest::contains_name;
use crate::module_manifest::DepSpec;
use crate::module_manifest::default_names;
use crate::module_manifest::game_dep_for;
use crate::module_manifest::newgame_cargo_shape;
use crate::module_manifest::populate_files;
use crate::module_manifest::spec_enable;
use crate::module_manifest::ModuleManifest;
use crate::names::derive_names;
use crate::names::spec_entry_class;
use crate::names::spec_game_id;
use crate::names::NamePlan;
use crate::registry::GameEntry;
use crate::registry::GameRegistry;
use crate::workspace::WorkspaceManifest;
use vstd::prelude::*;

verus! {

/// The phases of an add operation, in the order the orchestrator commits
/// them: registry first (cheapest to reverse by hand), module-directory
/// materialization in the middle, manifest wiring last.
#[derive(Clone, Copy, Debug, PartialEq, Eq, Structural)]
pub enum AddPhase {
    Start,
    RegistryUpdated,
    WorkspaceUpdated,
    ModuleDirCreated,
    ManifestUpdated,
    Done,
}

/// One add operation in flight: the derived names and how far the sequence
/// has committed.  Each step is guarded by the success of the corresponding
/// leaf operation; the first failure aborts the sequence, and no step rolls
/// back what an earlier step committed.
pub struct AddSaga {
    pub plan: NamePlan,
    pub phase: AddPhase,
}

impl AddSaga {
    /// The saga invariant: the bare id is non-empty and the entry-point
    /// class name is the one derived from it.
    pub open spec fn wf(self) -> bool {
        &&& self.plan.game_id@.len() > 0
        &&& self.plan.entry_class@ == spec_entry_class(self.plan.game_id@)
    }

    /// Derives the names for a user-supplied identifier and opens the
    /// sequence; fails with `InvalidName` exactly when the bare id is empty
    /// after prefix stripping.
    pub fn new(raw: &String) -> (r: Result<AddSaga, ScaffoldError>)
        ensures
            match r {
                Ok(s) => spec_game_id(raw@).len() > 0 && s.plan.derived_from(raw@) && s.phase
                    == AddPhase::Start && s.wf(),
                Err(e) => e == ScaffoldError::InvalidName && spec_game_id(raw@).len() == 0,
            },
    {
        match derive_names(raw) {
            Ok(plan) => Ok(AddSaga { plan, phase: AddPhase::Start }),
            Err(e) => Err(e),
        }
    }

    /// First arrow: append the new entry to the game registry.  Fails with
    /// `AlreadyExists`, leaving registry and phase unchanged, exactly when
    /// the id is already registered.
    pub fn step_registry(&mut self, reg: &mut GameRegistry) -> (r: Result<(), ScaffoldError>)
        requires
            old(self).phase == AddPhase::Start,
            old(self).wf(),
            old(reg).wf(),
        ensures
            final(self).plan == old(self).plan,
            final(self).wf(),
            final(reg).wf(),
            match r {
                Ok(()) => final(self).phase == AddPhase::RegistryUpdated && !old(reg).contains_id(
                    old(self).plan.game_id@,
                ) && final(reg).games@ == old(reg).games@.push(
                    (GameEntry {
                        id: old(self).plan.game_id,
                        module_dir: old(self).plan.module_dir,
                        entry_class: old(self).plan.entry_class,
                    }),
                ),
                Err(e) => e == ScaffoldError::AlreadyExists && old(reg).contains_id(
                    old(self).plan.game_id@,
                ) && *final(reg) == *old(reg) && final(self).phase == AddPhase::Start,
            },
    {
        let entry = GameEntry {
            id: self.plan.game_id.clone(),
            module_dir: self.plan.module_dir.clone(),
            entry_class: self.plan.entry_class.clone(),
        };
        match reg.add(entry) {
            Ok(()) => {
                self.phase = AddPhase::RegistryUpdated;
                Ok(())
            },
            Err(e) => Err(e),
        }
    }

    /// Second arrow: append the module directory to the workspace member
    /// list.  This leaf operation cannot fail in memory.
    pub fn step_workspace(&mut self, ws: &mut WorkspaceManifest)
        requires
            old(self).phase == AddPhase::RegistryUpdated,
            old(self).wf(),
        ensures
            final(self).plan == old(self).plan,
            final(self).wf(),
            final(self).phase == AddPhase::WorkspaceUpdated,
            final(ws).members@ == old(ws).members@.push(old(self).plan.module_dir),
    {
        ws.add_member(self.plan.module_dir.clone());
        self.phase = AddPhase::WorkspaceUpdated;
    }

    /// Third arrow: record the outcome of the external module-directory
    /// initialization.  Fails with `ExternalToolFailure`, leaving the phase
    /// unchanged, exactly when the collaborator reported failure.
    pub fn note_module_dir(&mut self, created: bool) -> (r: Result<(), ScaffoldError>)
        requires
            old(self).phase == AddPhase::WorkspaceUpdated,
            old(self).wf(),
        ensures
            final(self).plan == old(self).plan,
            final(self).wf(),
            match r {
                Ok(()) => created && final(self).phase == AddPhase::ModuleDirCreated,
                Err(e) => !created && e == ScaffoldError::ExternalToolFailure && final(self).phase
                    == AddPhase::WorkspaceUpdated,
            },
    {
        if created {
            self.phase = AddPhase::ModuleDirCreated;
            Ok(())
        } else {
            Err(ScaffoldError::ExternalToolFailure)
        }
    }

    /// Fourth arrow: wire the game into the aggregator module's manifest as
    /// an optional path dependency and a default-feature entry.  Fails with
    /// `MissingFeatureSection`, leaving manifest and phase unchanged,
    /// exactly when the aggregator has no feature section; on success both
    /// updates are committed together.
    pub fn step_manifest(&mut self, aggregator: &mut ModuleManifest) -> (r: Result<
        (),
        ScaffoldError,
    >)
        requires
            old(self).phase == AddPhase::ModuleDirCreated,
            old(self).wf(),
            old(aggregator).wf(),
        ensures
            final(self).plan == old(self).plan,
            final(self).wf(),
            final(aggregator).wf(),
            match r {
                Ok(()) => {
                    &&& final(self).phase == AddPhase::ManifestUpdated
                    &&& old(aggregator).features is Some
                    &&& final(aggregator).package == old(aggregator).package
                    &&& final(aggregator).has_dep(old(self).plan.game_id@)
                    &&& !old(aggregator).has_dep(old(self).plan.game_id@) ==> exists|d: DepSpec|
                        #[trigger] game_dep_for(d, old(self).plan.module_dir@)
                            && final(aggregator).dependencies@
                            == old(aggregator).dependencies@.push(((old(self).plan.game_id, d)))
                    &&& final(aggregator).features is Some
                    &&& default_names(*final(aggregator)) == spec_enable(
                        default_names(*old(aggregator)),
                        old(self).plan.game_id@,
                    )
                },
                Err(e) => e == ScaffoldError::MissingFeatureSection && old(
                    aggregator,
                ).features is None && *final(aggregator) == *old(aggregator) && final(self).phase
                    == AddPhase::ModuleDirCreated,
            },
    {
        match &aggregator.features {
            None => {
                return Err(ScaffoldError::MissingFeatureSection);
            },
            Some(_) => {
            },
        }
        aggregator.add_game_dependency(&self.plan.game_id, &self.plan.module_dir);
        match aggregator.enable_feature(&self.plan.game_id) {
            Ok(()) => {
                self.phase = AddPhase::ManifestUpdated;
                Ok(())
            },
            Err(e) => {
                proof {
                    assert(false);
                }
                Err(e)
            },
        }
    }

    /// Fifth arrow: populate the freshly generated module (manifest rewrite
    /// plus entry-point validation).  Fails with `SchemaError`, leaving the
    /// module manifest and phase unchanged, exactly when the generated
    /// manifest already holds a key the rewrite would add.
    pub fn step_populate(&mut self, module: &mut ModuleManifest) -> (r: Result<(), ScaffoldError>)
        requires
            old(self).phase == AddPhase::ManifestUpdated,
            old(self).wf(),
            old(module).wf(),
        ensures
            final(self).plan == old(self).plan,
            final(self).wf(),
            final(module).wf(),
            match r {
                Ok(()) => final(self).phase == AddPhase::Done && !clashes_with_newgame_deps(
                    *old(module),
                ) && newgame_cargo_shape(*old(module), *final(module), old(self).plan.game_id@),
                Err(e) => e == ScaffoldError::SchemaError && clashes_with_newgame_deps(
                    *old(module),
                ) && *final(module) == *old(module) && final(self).phase
                    == AddPhase::ManifestUpdated,
            },
    {
        match populate_files(module, &self.plan.game_id, &self.plan.entry_class) {
            Ok(()) => {
                self.phase = AddPhase::Done;
                Ok(())
            },
            Err(e) => Err(e),
        }
    }
}

/// Removal is deliberately narrower than add: it cleans the registry and
/// nothing else, so a human can always re-run it using the registry as the
/// single source of truth.  This lemma states the documented asymmetry:
/// after a successful add and a registry-only remove, the registry no
/// longer holds the id while the workspace manifest still lists the module
/// directory and the aggregator manifest keeps both the dependency entry
/// and the feature entry.
pub proof fn lemma_remove_leaves_residue(
    reg1: GameRegistry,
    reg2: GameRegistry,
    ws: WorkspaceManifest,
    aggregator: ModuleManifest,
    id: Seq<char>,
    dir: Seq<char>,
    i: int,
)
    requires
        reg1.wf(),
        0 <= i < reg1.games@.len(),
        reg1.games@[i].id@ == id,
        reg2.games@ == reg1.games@.remove(i),
        ws.has_member(dir),
        aggregator.has_dep(id),
        aggregator.features is Some,
        contains_name(default_names(aggregator), id),
    ensures
        !reg2.contains_id(id),
        ws.has_member(dir),
        aggregator.has_dep(id),
        contains_name(default_names(aggregator), id),
{
    assert forall|k: int| 0 <= k < reg2.games@.len() implies reg2.games@[k].id@ != id by {
        if k < i {
            assert(reg2.games@[k] == reg1.games@[k]);
            assert(reg1.games@[k].id@ != reg1.games@[i].id@);
        } else {
            assert(reg2.games@[k] == reg1.games@[k + 1]);
            assert(reg1.games@[i].id@ != reg1.games@[k + 1].id@);
        }
    }
}

} // verus!
