use crate::errors::ScaffoldError;
use crate::names::entry_class_name;
use crate::names::find_str_index;
use crate::names::spec_entry_class;
use crate::names::str_eq;
use crate::names::vec_contains_str;
use vstd::prelude::*;

verus! {

/// The `package` section of a module manifest.
#[derive(Clone, Debug)]
pub struct PackageInfo {
    pub name: String,
    pub version: String,
    pub authors: Vec<String>,
    pub edition: String,
    pub publish: Option<bool>,
}

/// One dependency declaration: an optional sibling-directory path, a
/// version requirement, and whether the dependency is optional.
#[derive(Clone, Debug)]
pub struct DepSpec {
    pub path: Option<String>,
    pub version: String,
    pub optional: bool,
}

/// The feature section: the default feature's activation list.
#[derive(Clone, Debug)]
pub struct FeatureList {
    pub default: Vec<String>,
}

/// A module's dependency/feature manifest.  The dependency table maps
/// dependency names to specs; keys are unique (the store invariant).
#[derive(Debug)]
pub struct ModuleManifest {
    pub package: PackageInfo,
    pub dependencies: Vec<(String, DepSpec)>,
    pub features: Option<FeatureList>,
}

/// The views of a sequence of strings.
pub open spec fn views_of(v: Seq<String>) -> Seq<Seq<char>> {
    v.map_values(|s: String| s@)
}

/// Does the sequence hold this name?
pub open spec fn contains_name(s: Seq<Seq<char>>, x: Seq<char>) -> bool {
    exists|i: int| 0 <= i < s.len() && s[i] == x
}

/// How many elements of the sequence equal this name?
pub open spec fn count_in(s: Seq<Seq<char>>, x: Seq<char>) -> nat
    decreases s.len(),
{
    if s.len() == 0 {
        0
    } else {
        (if s[0] == x {
            1nat
        } else {
            0nat
        }) + count_in(s.drop_first(), x)
    }
}

/// Enabling a feature appends the name unless it is already present.
pub open spec fn spec_enable(s: Seq<Seq<char>>, x: Seq<char>) -> Seq<Seq<char>> {
    if contains_name(s, x) {
        s
    } else {
        s.push(x)
    }
}

/// Appending a name to a list raises its occurrence count by one.
proof fn lemma_count_push(s: Seq<Seq<char>>, x: Seq<char>)
    ensures
        count_in(s.push(x), x) == count_in(s, x) + 1,
    decreases s.len(),
{
    if s.len() == 0 {
        assert(s.push(x).drop_first() =~= s);
    } else {
        assert(s.push(x).drop_first() =~= s.drop_first().push(x));
        lemma_count_push(s.drop_first(), x);
    }
}

/// A name is absent from a list exactly when its occurrence count is zero.
proof fn lemma_count_zero_iff_absent(s: Seq<Seq<char>>, x: Seq<char>)
    ensures
        (count_in(s, x) == 0) <==> !contains_name(s, x),
    decreases s.len(),
{
    if s.len() == 0 {
    } else {
        lemma_count_zero_iff_absent(s.drop_first(), x);
        assert(contains_name(s, x) == (s[0] == x || contains_name(s.drop_first(), x))) by {
            if contains_name(s, x) {
                let i = choose|i: int| 0 <= i < s.len() && s[i] == x;
                if i > 0 {
                    assert(s.drop_first()[i - 1] == x);
                }
            }
            if contains_name(s.drop_first(), x) {
                let i = choose|i: int| 0 <= i < s.drop_first().len() && s.drop_first()[i] == x;
                assert(s[i + 1] == x);
            }
        }
    }
}

/// Enabling a feature is idempotent: enabling the same name a second time
/// leaves the activation list exactly as the first enabling left it.
pub proof fn lemma_enable_feature_idempotent(s: Seq<Seq<char>>, x: Seq<char>)
    ensures
        spec_enable(spec_enable(s, x), x) == spec_enable(s, x),
{
    if !contains_name(s, x) {
        assert(s.push(x)[s.len() as int] == x);
        assert(contains_name(s.push(x), x));
    }
}

/// Enabling a feature that was not yet enabled, once or twice over, yields
/// an activation list holding that name exactly once.
pub proof fn lemma_enable_feature_exactly_once(s: Seq<Seq<char>>, x: Seq<char>)
    requires
        !contains_name(s, x),
    ensures
        count_in(spec_enable(s, x), x) == 1,
        count_in(spec_enable(spec_enable(s, x), x), x) == 1,
{
    lemma_count_zero_iff_absent(s, x);
    lemma_count_push(s, x);
    lemma_enable_feature_idempotent(s, x);
}

/// The dependency spec a registered game is wired with: a path-type,
/// optional dependency on the sibling module directory, unconstrained
/// version.
pub open spec fn game_dep_for(d: DepSpec, module_dir: Seq<char>) -> bool {
    &&& d.path matches Some(p) && p@ == "../"@ + module_dir
    &&& d.version@ == "*"@
    &&& d.optional == true
}

/// The dependency spec of a universal (unconditional, registry-independent)
/// dependency: no path, unconstrained version, not optional.
pub open spec fn universal_dep_for(d: DepSpec) -> bool {
    &&& d.path is None
    &&& d.version@ == "*"@
    &&& d.optional == false
}

/// `contains_name` over the views of a string sequence agrees with a direct
/// search through the strings themselves.
pub proof fn lemma_contains_name_views(v: Seq<String>, x: Seq<char>)
    ensures
        contains_name(views_of(v), x) == exists|i: int| 0 <= i < v.len() && v[i]@ == x,
{
    if exists|i: int| 0 <= i < v.len() && v[i]@ == x {
        let i = choose|i: int| 0 <= i < v.len() && v[i]@ == x;
        assert(views_of(v)[i] == x);
    }
    if contains_name(views_of(v), x) {
        let i = choose|i: int| 0 <= i < views_of(v).len() && views_of(v)[i] == x;
        assert(v[i]@ == x);
    }
}

/// The default feature's activation list, as strings.
pub open spec fn default_list(m: ModuleManifest) -> Seq<String>
    recommends
        m.features is Some,
{
    m.features->Some_0.default@
}

/// The default feature's activation list, as character sequences.
pub open spec fn default_names(m: ModuleManifest) -> Seq<Seq<char>>
    recommends
        m.features is Some,
{
    views_of(default_list(m))
}

impl ModuleManifest {
    /// The store invariant: dependency keys are unique.
    pub open spec fn wf(self) -> bool {
        forall|i: int, j: int|
            0 <= i < j < self.dependencies@.len() ==> self.dependencies@[i].0@
                != self.dependencies@[j].0@
    }

    /// Is this name a key of the dependency table?
    pub open spec fn has_dep(self, key: Seq<char>) -> bool {
        exists|i: int| 0 <= i < self.dependencies@.len() && self.dependencies@[i].0@ == key
    }

    /// Exec query: is this name a key of the dependency table?
    pub fn has_dependency(&self, key: &str) -> (b: bool)
        ensures
            b == self.has_dep(key@),
    {
        let n = self.dependencies.len();
        for i in 0..n
            invariant
                n == self.dependencies@.len(),
                forall|k: int| 0 <= k < i ==> self.dependencies@[k].0@ != key@,
        {
            if str_eq(self.dependencies[i].0.as_str(), key) {
                return true;
            }
        }
        false
    }

    /// Exec query: does the default feature's activation list hold this id?
    pub fn feature_enabled(&self, id: &str) -> (b: bool)
        ensures
            b == (self.features matches Some(f) && contains_name(views_of(f.default@), id@)),
    {
        match &self.features {
            None => false,
            Some(f) => {
                let r = vec_contains_str(&f.default, id);
                proof {
                    lemma_contains_name_views(f.default@, id@);
                }
                r
            },
        }
    }

    /// Inserts a path-type, optional dependency keyed by the game id,
    /// pointing at the sibling directory, with an unconstrained version.
    /// A present key is overwritten (map semantics); key uniqueness is
    /// preserved either way.
    pub fn add_game_dependency(&mut self, id: &String, module_dir: &String)
        requires
            old(self).wf(),
        ensures
            final(self).wf(),
            final(self).package == old(self).package,
            final(self).features == old(self).features,
            final(self).has_dep(id@),
            !old(self).has_dep(id@) ==> exists|d: DepSpec|
                #[trigger] game_dep_for(d, module_dir@) && final(self).dependencies@ == old(
                    self,
                ).dependencies@.push((((*id), d))),
            old(self).has_dep(id@) ==> exists|i: int, d: DepSpec|
                #![trigger old(self).dependencies@.update(i, (((*id), d)))]
                0 <= i < old(self).dependencies@.len() && old(self).dependencies@[i].0@ == id@
                    && game_dep_for(d, module_dir@) && final(self).dependencies@ == old(
                    self,
                ).dependencies@.update(i, (((*id), d))),
    {
        let path = String::from_str("../").concat(module_dir.as_str());
        let dep = DepSpec { path: Some(path), version: String::from_str("*"), optional: true };
        let ghost depg = dep;
        let n = self.dependencies.len();
        for i in 0..n
            invariant
                n == self.dependencies@.len(),
                *self == *old(self),
                old(self).wf(),
                forall|k: int| 0 <= k < i ==> self.dependencies@[k].0@ != id@,
                game_dep_for(depg, module_dir@),
                dep == depg,
        {
            if str_eq(self.dependencies[i].0.as_str(), id.as_str()) {
                self.dependencies.remove(i);
                self.dependencies.insert(i, (id.clone(), dep));
                proof {
                    let g0 = old(self).dependencies@;
                    assert(self.dependencies@ =~= g0.update(i as int, (((*id), depg))));
                    assert(self.dependencies@[i as int].0@ == id@);
                    assert forall|a: int, b: int|
                        0 <= a < b < self.dependencies@.len() implies self.dependencies@[a].0@
                        != self.dependencies@[b].0@ by {
                        assert(g0[a].0@ != g0[b].0@);
                        if a != i {
                            assert(self.dependencies@[a] == g0[a]);
                        }
                        if b != i {
                            assert(self.dependencies@[b] == g0[b]);
                        }
                    }
                }
                return ;
            }
        }
        self.dependencies.push((id.clone(), dep));
        proof {
            let g0 = old(self).dependencies@;
            assert(self.dependencies@[g0.len() as int].0@ == id@);
            assert forall|a: int, b: int|
                0 <= a < b < self.dependencies@.len() implies self.dependencies@[a].0@
                != self.dependencies@[b].0@ by {
            }
        }
    }

    /// Appends the id to the default feature's activation list unless it is
    /// already present, so that enabling is idempotent.  Fails with
    /// `MissingFeatureSection`, leaving the manifest unchanged, exactly when
    /// the manifest has no feature section at all.
    pub fn enable_feature(&mut self, id: &String) -> (r: Result<(), ScaffoldError>)
        ensures
            final(self).package == old(self).package,
            final(self).dependencies == old(self).dependencies,
            match r {
                Ok(()) => old(self).features matches Some(f0) && final(self).features matches Some(
                    f,
                ) && views_of(f.default@) == spec_enable(views_of(f0.default@), id@),
                Err(e) => e == ScaffoldError::MissingFeatureSection && old(self).features is None
                    && *final(self) == *old(self),
            },
    {
        match &self.features {
            None => {
                return Err(ScaffoldError::MissingFeatureSection);
            },
            Some(f) => {
                if vec_contains_str(&f.default, id.as_str()) {
                    proof {
                        lemma_contains_name_views(f.default@, id@);
                    }
                    return Ok(());
                }
                proof {
                    lemma_contains_name_views(f.default@, id@);
                }
            },
        }
        match &mut self.features {
            Some(f) => {
                f.default.push(id.clone());
                proof {
                    let s0 = views_of(old(self).features->Some_0.default@);
                    assert(views_of(f.default@) =~= s0.push(id@));
                }
            },
            None => {
                proof {
                    assert(false);
                }
            },
        }
        Ok(())
    }

    /// Removes the first occurrence of the id from the default feature's
    /// activation list; silently does nothing when the id is absent or the
    /// manifest has no feature section (idempotent removal).
    pub fn disable_feature(&mut self, id: &String)
        ensures
            final(self).package == old(self).package,
            final(self).dependencies == old(self).dependencies,
            old(self).features is None ==> *final(self) == *old(self),
            (old(self).features is Some && !contains_name(default_names(*old(self)), id@))
                ==> *final(self) == *old(self),
            (old(self).features is Some && contains_name(default_names(*old(self)), id@)) ==> (
            final(self).features is Some && exists|i: int|
                0 <= i < default_list(*old(self)).len() && default_list(*old(self))[i]@ == id@ && (
                forall|k: int| 0 <= k < i ==> default_list(*old(self))[k]@ != id@) && default_list(
                    *final(self),
                ) == default_list(*old(self)).remove(i)),
    {
        let idx = match &self.features {
            None => {
                return ;
            },
            Some(f) => {
                proof {
                    lemma_contains_name_views(f.default@, id@);
                }
                find_str_index(&f.default, id.as_str())
            },
        };
        match idx {
            None => { },
            Some(i) => {
                match &mut self.features {
                    Some(f) => {
                        f.default.remove(i);
                    },
                    None => {
                        proof {
                            assert(false);
                        }
                    },
                }
            },
        }
    }

    /// Removes the first (under the invariant, only) dependency entry keyed
    /// by the id; silently does nothing when absent (idempotent removal).
    pub fn remove_game_dependency(&mut self, id: &String)
        requires
            old(self).wf(),
        ensures
            final(self).wf(),
            final(self).package == old(self).package,
            final(self).features == old(self).features,
            !old(self).has_dep(id@) ==> *final(self) == *old(self),
            old(self).has_dep(id@) ==> exists|i: int|
                0 <= i < old(self).dependencies@.len() && old(self).dependencies@[i].0@ == id@
                    && final(self).dependencies@ == old(self).dependencies@.remove(i),
            !final(self).has_dep(id@),
    {
        let n = self.dependencies.len();
        for i in 0..n
            invariant
                n == self.dependencies@.len(),
                *self == *old(self),
                old(self).wf(),
                forall|k: int| 0 <= k < i ==> self.dependencies@[k].0@ != id@,
        {
            if str_eq(self.dependencies[i].0.as_str(), id.as_str()) {
                self.dependencies.remove(i);
                proof {
                    let g0 = old(self).dependencies@;
                    assert forall|a: int, b: int|
                        0 <= a < b < self.dependencies@.len() implies self.dependencies@[a].0@
                        != self.dependencies@[b].0@ by {
                        let a0: int = if a < i { a } else { a + 1 };
                        let b0: int = if b < i { b } else { b + 1 };
                        assert(self.dependencies@[a] == g0[a0]);
                        assert(self.dependencies@[b] == g0[b0]);
                        assert(g0[a0].0@ != g0[b0].0@);
                    }
                    assert forall|k: int|
                        0 <= k < self.dependencies@.len() implies self.dependencies@[k].0@
                        != id@ by {
                        if k < i {
                            assert(self.dependencies@[k] == g0[k]);
                        } else {
                            assert(self.dependencies@[k] == g0[k + 1]);
                            assert(g0[i as int].0@ != g0[k + 1].0@);
                        }
                    }
                }
                return ;
            }
        }
    }
}

/// The names of the universal dependencies every generated module gets,
/// together with the path-based dependency on the shared core, are the six
/// keys below; `m1` extends `m0` by exactly these, renames the package, and
/// touches nothing else.
pub open spec fn newgame_cargo_shape(m0: ModuleManifest, m1: ModuleManifest, game: Seq<char>) -> bool {
    &&& m1.features == m0.features
    &&& m1.package.name@ == game
    &&& m1.package.version == m0.package.version
    &&& m1.package.authors == m0.package.authors
    &&& m1.package.edition == m0.package.edition
    &&& m1.package.publish == m0.package.publish
    &&& m1.dependencies@.len() == m0.dependencies@.len() + 6
    &&& m1.dependencies@.take(m0.dependencies@.len() as int) == m0.dependencies@
    &&& m1.dependencies@[m0.dependencies@.len() as int].0@ == "serde"@
    &&& universal_dep_for(m1.dependencies@[m0.dependencies@.len() as int].1)
    &&& m1.dependencies@[m0.dependencies@.len() as int + 1].0@ == "serde_json"@
    &&& universal_dep_for(m1.dependencies@[m0.dependencies@.len() as int + 1].1)
    &&& m1.dependencies@[m0.dependencies@.len() as int + 2].0@ == "serde_derive"@
    &&& universal_dep_for(m1.dependencies@[m0.dependencies@.len() as int + 2].1)
    &&& m1.dependencies@[m0.dependencies@.len() as int + 3].0@ == "lazy_static"@
    &&& universal_dep_for(m1.dependencies@[m0.dependencies@.len() as int + 3].1)
    &&& m1.dependencies@[m0.dependencies@.len() as int + 4].0@ == "schemars"@
    &&& universal_dep_for(m1.dependencies@[m0.dependencies@.len() as int + 4].1)
    &&& m1.dependencies@[m0.dependencies@.len() as int + 5].0@ == "toybox-core"@
    &&& m1.dependencies@[m0.dependencies@.len() as int + 5].1.path matches Some(p) && p@ == "../core"@
    &&& m1.dependencies@[m0.dependencies@.len() as int + 5].1.version@ == "*"@
    &&& m1.dependencies@[m0.dependencies@.len() as int + 5].1.optional == false
}

/// Does the manifest already hold one of the six keys the newgame rewrite
/// would add?
pub open spec fn clashes_with_newgame_deps(m: ModuleManifest) -> bool {
    ||| m.has_dep("serde"@)
    ||| m.has_dep("serde_json"@)
    ||| m.has_dep("serde_derive"@)
    ||| m.has_dep("lazy_static"@)
    ||| m.has_dep("schemars"@)
    ||| m.has_dep("toybox-core"@)
}

/// Rewrites a freshly generated module's manifest: renames the package to
/// the bare game id and adds the universal dependencies plus the path-based
/// dependency on the shared core.  Fails with `SchemaError`, leaving the
/// manifest unchanged, exactly when one of those keys is already present
/// (a defensive check against manual edits).
pub fn update_newgame_cargo(manifest: &mut ModuleManifest, game: &String) -> (r: Result<
    (),
    ScaffoldError,
>)
    requires
        old(manifest).wf(),
    ensures
        final(manifest).wf(),
        match r {
            Ok(()) => !clashes_with_newgame_deps(*old(manifest)) && newgame_cargo_shape(
                *old(manifest),
                *final(manifest),
                game@,
            ),
            Err(e) => e == ScaffoldError::SchemaError && clashes_with_newgame_deps(*old(manifest))
                && *final(manifest) == *old(manifest),
        },
{
    if manifest.has_dependency("serde") || manifest.has_dependency("serde_json")
        || manifest.has_dependency("serde_derive") || manifest.has_dependency("lazy_static")
        || manifest.has_dependency("schemars") || manifest.has_dependency("toybox-core") {
        return Err(ScaffoldError::SchemaError);
    }
    manifest.package.name = game.clone();
    let ghost g0 = manifest.dependencies@;
    let e0 = (String::from_str("serde"), DepSpec {
        path: None,
        version: String::from_str("*"),
        optional: false,
    });
    let ghost p0 = e0;
    manifest.dependencies.push(e0);
    let e1 = (String::from_str("serde_json"), DepSpec {
        path: None,
        version: String::from_str("*"),
        optional: false,
    });
    let ghost p1 = e1;
    manifest.dependencies.push(e1);
    let e2 = (String::from_str("serde_derive"), DepSpec {
        path: None,
        version: String::from_str("*"),
        optional: false,
    });
    let ghost p2 = e2;
    manifest.dependencies.push(e2);
    let e3 = (String::from_str("lazy_static"), DepSpec {
        path: None,
        version: String::from_str("*"),
        optional: false,
    });
    let ghost p3 = e3;
    manifest.dependencies.push(e3);
    let e4 = (String::from_str("schemars"), DepSpec {
        path: None,
        version: String::from_str("*"),
        optional: false,
    });
    let ghost p4 = e4;
    manifest.dependencies.push(e4);
    let e5 = (String::from_str("toybox-core"), DepSpec {
        path: Some(String::from_str("../core")),
        version: String::from_str("*"),
        optional: false,
    });
    let ghost p5 = e5;
    manifest.dependencies.push(e5);
    proof {
        reveal_strlit("serde");
        reveal_strlit("serde_json");
        reveal_strlit("serde_derive");
        reveal_strlit("lazy_static");
        reveal_strlit("schemars");
        reveal_strlit("toybox-core");
        assert("serde"@.len() == 5);
        assert("serde_json"@.len() == 10);
        assert("serde_derive"@.len() == 12);
        assert("lazy_static"@.len() == 11);
        assert("schemars"@.len() == 8);
        assert("toybox-core"@.len() == 11);
        assert("lazy_static"@[0] == 'l' && "toybox-core"@[0] == 't');
        let gl = manifest.dependencies@;
        assert(gl =~= g0 + seq![p0, p1, p2, p3, p4, p5]);
        assert(gl.take(g0.len() as int) =~= g0);
        assert forall|a: int, b: int|
            0 <= a < b < gl.len() implies gl[a].0@ != gl[b].0@ by {
            if b < g0.len() {
                assert(old(manifest).wf());
            } else if a < g0.len() {
                assert(gl[a] == g0[a]);
                assert(!old(manifest).has_dep(gl[b].0@));
            }
        }
    }
    Ok(())
}

/// Validates the parameters of the generated entry-point source: the bare
/// game id must be non-empty and the class name must be its derived
/// entry-point class name; fails with `InvalidName` otherwise.
pub fn update_newgame_lib(gamename: &String, classname: &String) -> (r: Result<(), ScaffoldError>)
    ensures
        match r {
            Ok(()) => gamename@.len() > 0 && classname@ == spec_entry_class(gamename@),
            Err(e) => e == ScaffoldError::InvalidName && (gamename@.len() == 0 || classname@
                != spec_entry_class(gamename@)),
        },
{
    match entry_class_name(gamename) {
        Ok(expected) => {
            if str_eq(expected.as_str(), classname.as_str()) {
                Ok(())
            } else {
                Err(ScaffoldError::InvalidName)
            }
        },
        Err(e) => Err(e),
    }
}

/// Populates a freshly generated module: rewrites its manifest and
/// validates the entry-point source parameters, in that order; the first
/// failure aborts without rolling back what an earlier step committed.
pub fn populate_files(manifest: &mut ModuleManifest, game: &String, mainclass: &String) -> (r:
    Result<(), ScaffoldError>)
    requires
        old(manifest).wf(),
    ensures
        final(manifest).wf(),
        match r {
            Ok(()) => !clashes_with_newgame_deps(*old(manifest)) && newgame_cargo_shape(
                *old(manifest),
                *final(manifest),
                game@,
            ) && game@.len() > 0 && mainclass@ == spec_entry_class(game@),
            Err(e) => (e == ScaffoldError::SchemaError && clashes_with_newgame_deps(*old(manifest))
                && *final(manifest) == *old(manifest)) || (e == ScaffoldError::InvalidName && (
            game@.len() == 0 || mainclass@ != spec_entry_class(game@))
                && !clashes_with_newgame_deps(*old(manifest)) && newgame_cargo_shape(
                *old(manifest),
                *final(manifest),
                game@,
            )),
        },
{
    match update_newgame_cargo(manifest, game) {
        Ok(()) => {
            match update_newgame_lib(game, mainclass) {
                Ok(()) => Ok(()),
                Err(e) => Err(e),
            }
        },
        Err(e) => Err(e),
    }
}

} // verus!
