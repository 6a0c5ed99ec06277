use vstd::prelude::*;

use crate::model::{
    is_needed, names_for_module, needed_modules, synthesized_groups, BindingModel, GroupModel,
};

verus! {

/// A named binding: one identifier and the module specifier it is (or would
/// be) imported from.
pub struct ImportBinding {
    pub name: String,
    pub module: String,
}

/// One synthesized import declaration: the module specifier and the
/// identifiers to import from it, in order.
pub struct ImportGroup {
    pub module: String,
    pub names: Vec<String>,
}

pub open spec fn binding_view(b: ImportBinding) -> BindingModel {
    (b.name@, b.module@)
}

pub open spec fn bindings_view(s: Seq<ImportBinding>) -> Seq<BindingModel> {
    s.map_values(|b: ImportBinding| binding_view(b))
}

pub open spec fn names_view(s: Seq<String>) -> Seq<Seq<char>> {
    s.map_values(|n: String| n@)
}

pub open spec fn group_view(g: ImportGroup) -> GroupModel {
    (g.module@, names_view(g.names@))
}

pub open spec fn groups_view(s: Seq<ImportGroup>) -> Seq<GroupModel> {
    s.map_values(|g: ImportGroup| group_view(g))
}

/// The default auto-import catalog: composition utilities from `#imports`.
pub open spec fn default_catalog() -> Seq<BindingModel> {
    seq![
        ("defineNuxtComponent"@, "#imports"@),
        ("useState"@, "#imports"@),
        ("useRuntimeConfig"@, "#imports"@),
        ("useFetch"@, "#imports"@),
        ("NuxtLink"@, "#components"@),
        ("Suspense"@, "#components"@),
        ("NuxtLayout"@, "#components"@),
        ("NuxtPage"@, "#components"@),
    ]
}

/// The default set of recognized UI component tag names.
pub open spec fn default_components() -> Seq<Seq<char>> {
    seq!["NuxtLink"@, "Suspense"@, "NuxtLayout"@, "NuxtPage"@]
}

fn string_eq(a: &String, b: &String) -> (r: bool)
    ensures
        r == (a@ == b@),
{
    a.eq(b)
}

fn make_binding(name: &str, module: &str) -> (b: ImportBinding)
    ensures
        binding_view(b) == (name@, module@),
{
    ImportBinding { name: String::from_str(name), module: String::from_str(module) }
}

fn contains_name(v: &Vec<String>, name: &String) -> (r: bool)
    ensures
        r == names_view(v@).contains(name@),
{
    let mut i: usize = 0;
    while i < v.len()
        invariant
            0 <= i <= v@.len(),
            forall|j: int| 0 <= j < i ==> names_view(v@)[j] != name@,
        decreases v@.len() - i,
    {
        if string_eq(&v[i], name) {
            proof {
                assert(names_view(v@)[i as int] == name@);
            }
            return true;
        }
        i += 1;
    }
    proof {
        assert(forall|j: int| 0 <= j < names_view(v@).len() ==> names_view(v@)[j] != name@);
    }
    false
}

fn contains_binding(v: &Vec<ImportBinding>, name: &String, module: &String) -> (r: bool)
    ensures
        r == bindings_view(v@).contains((name@, module@)),
{
    let mut i: usize = 0;
    while i < v.len()
        invariant
            0 <= i <= v@.len(),
            forall|j: int| 0 <= j < i ==> bindings_view(v@)[j] != (name@, module@),
        decreases v@.len() - i,
    {
        if string_eq(&v[i].name, name) && string_eq(&v[i].module, module) {
            proof {
                assert(bindings_view(v@)[i as int] == (name@, module@));
            }
            return true;
        }
        i += 1;
    }
    proof {
        assert(forall|j: int|
            0 <= j < bindings_view(v@).len() ==> bindings_view(v@)[j] != (name@, module@));
    }
    false
}

impl ImportBinding {
    pub fn duplicate(&self) -> (r: ImportBinding)
        ensures
            r == *self,
    {
        ImportBinding { name: self.name.clone(), module: self.module.clone() }
    }
}

/// The usage resolution and import synthesis engine. It accumulates the
/// already-imported bindings and the identifiers seen in call or component-tag
/// position, and computes the minimal set of import declarations still needed.
///
/// The usage analysis is syntactic by design: a name in call position is
/// recorded regardless of any local rebinding of the same name.
pub struct ImportInserter {
    /// The auto-import catalog: recognized identifiers and the module each
    /// would be imported from. Fixed for the lifetime of one engine instance.
    pub imports: Vec<ImportBinding>,
    /// Named bindings already declared by top-level import declarations.
    pub existing_imports: Vec<ImportBinding>,
    /// Identifiers seen in call or recognized-component-tag position, in
    /// order of first use, each recorded at most once.
    pub used_functions: Vec<String>,
    /// Tag names recognized as UI components.
    pub components: Vec<String>,
}

impl ImportInserter {
    pub open spec fn catalog(self) -> Seq<BindingModel> {
        bindings_view(self.imports@)
    }

    pub open spec fn existing(self) -> Seq<BindingModel> {
        bindings_view(self.existing_imports@)
    }

    pub open spec fn used(self) -> Seq<Seq<char>> {
        names_view(self.used_functions@)
    }

    pub open spec fn recognized(self) -> Seq<Seq<char>> {
        names_view(self.components@)
    }

    /// The import declarations this engine would synthesize in its current
    /// state.
    pub open spec fn synthesized(self) -> Seq<GroupModel> {
        synthesized_groups(self.catalog(), self.used(), self.existing())
    }

    /// An engine over the default catalog, with nothing recorded yet.
    pub fn new() -> (r: ImportInserter)
        ensures
            r.catalog() == default_catalog(),
            r.recognized() == default_components(),
            r.existing() == Seq::<BindingModel>::empty(),
            r.used() == Seq::<Seq<char>>::empty(),
    {
        let mut imports: Vec<ImportBinding> = Vec::new();
        imports.push(make_binding("defineNuxtComponent", "#imports"));
        imports.push(make_binding("useState", "#imports"));
        imports.push(make_binding("useRuntimeConfig", "#imports"));
        imports.push(make_binding("useFetch", "#imports"));
        imports.push(make_binding("NuxtLink", "#components"));
        imports.push(make_binding("Suspense", "#components"));
        imports.push(make_binding("NuxtLayout", "#components"));
        imports.push(make_binding("NuxtPage", "#components"));
        let mut components: Vec<String> = Vec::new();
        components.push(String::from_str("NuxtLink"));
        components.push(String::from_str("Suspense"));
        components.push(String::from_str("NuxtLayout"));
        components.push(String::from_str("NuxtPage"));
        let r = ImportInserter {
            imports,
            existing_imports: Vec::new(),
            used_functions: Vec::new(),
            components,
        };
        proof {
            assert(r.catalog() =~= default_catalog());
            assert(r.recognized() =~= default_components());
            assert(r.existing() =~= Seq::<BindingModel>::empty());
            assert(r.used() =~= Seq::<Seq<char>>::empty());
        }
        r
    }

    /// An engine over a caller-supplied catalog and recognized component set,
    /// with nothing recorded yet.
    pub fn with_catalog(imports: Vec<ImportBinding>, components: Vec<String>) -> (r: ImportInserter)
        ensures
            r.catalog() == bindings_view(imports@),
            r.recognized() == names_view(components@),
            r.existing() == Seq::<BindingModel>::empty(),
            r.used() == Seq::<Seq<char>>::empty(),
    {
        let r = ImportInserter {
            imports,
            existing_imports: Vec::new(),
            used_functions: Vec::new(),
            components,
        };
        proof {
            assert(r.existing() =~= Seq::<BindingModel>::empty());
            assert(r.used() =~= Seq::<Seq<char>>::empty());
        }
        r
    }

    /// Record one named binding found in a top-level import declaration.
    pub fn record_existing_import(&mut self, name: String, module: String)
        ensures
            final(self).imports == old(self).imports,
            final(self).components == old(self).components,
            final(self).used_functions == old(self).used_functions,
            final(self).existing() == old(self).existing().push((name@, module@)),
    {
        let ghost prev = self.existing();
        self.existing_imports.push(ImportBinding { name, module });
        proof {
            assert(self.existing() =~= prev.push((name@, module@)));
        }
    }

    /// Record every named binding of `found`, in order.
    pub fn load_existing_imports(&mut self, found: &Vec<ImportBinding>)
        ensures
            final(self).imports == old(self).imports,
            final(self).components == old(self).components,
            final(self).used_functions == old(self).used_functions,
            final(self).existing() == old(self).existing() + bindings_view(found@),
    {
        let ghost base = self.existing();
        let mut i: usize = 0;
        while i < found.len()
            invariant
                0 <= i <= found@.len(),
                self.imports == old(self).imports,
                self.components == old(self).components,
                self.used_functions == old(self).used_functions,
                self.existing() == base + bindings_view(found@.take(i as int)),
            decreases found@.len() - i,
        {
            let ghost prev = self.existing();
            let b = found[i].duplicate();
            self.existing_imports.push(b);
            proof {
                assert(self.existing() =~= prev.push(binding_view(found@[i as int])));
                assert(self.existing() =~= base + bindings_view(found@.take(i as int + 1)));
            }
            i += 1;
        }
        proof {
            assert(found@.take(found@.len() as int) =~= found@);
            assert(self.existing() == base + bindings_view(found@));
        }
    }

    /// Record an identifier seen as the callee of a call expression. A name
    /// already recorded is not recorded again.
    pub fn record_call(&mut self, name: String)
        ensures
            final(self).imports == old(self).imports,
            final(self).components == old(self).components,
            final(self).existing_imports == old(self).existing_imports,
            old(self).used().contains(name@) ==> final(self).used() == old(self).used(),
            !old(self).used().contains(name@) ==> final(self).used() == old(self).used().push(
                name@,
            ),
    {
        let ghost prev = self.used();
        if !contains_name(&self.used_functions, &name) {
            self.used_functions.push(name);
            proof {
                assert(self.used() =~= prev.push(name@));
            }
        }
    }

    /// Record an identifier seen as the tag name of a UI-template element.
    /// Only tags in the recognized component set are recorded; a name already
    /// recorded is not recorded again.
    pub fn record_component_tag(&mut self, name: String)
        ensures
            final(self).imports == old(self).imports,
            final(self).components == old(self).components,
            final(self).existing_imports == old(self).existing_imports,
            !old(self).recognized().contains(name@) ==> final(self).used() == old(self).used(),
            old(self).recognized().contains(name@) && old(self).used().contains(name@)
                ==> final(self).used() == old(self).used(),
            old(self).recognized().contains(name@) && !old(self).used().contains(name@)
                ==> final(self).used() == old(self).used().push(name@),
    {
        if contains_name(&self.components, &name) {
            self.record_call(name);
        }
    }

    fn binding_needed(&self, b: &ImportBinding) -> (r: bool)
        ensures
            r == is_needed(binding_view(*b), self.used(), self.existing()),
    {
        contains_name(&self.used_functions, &b.name) && !contains_binding(
            &self.existing_imports,
            &b.name,
            &b.module,
        )
    }

    /// Compute the import declarations still needed: for each catalog entry
    /// whose identifier is used but not already imported from the exact
    /// module the catalog names, one identifier in the group of its module.
    /// Groups follow the catalog's first-occurrence order, so the output is
    /// deterministic.
    pub fn needed_imports(&self) -> (r: Vec<ImportGroup>)
        ensures
            groups_view(r@) == self.synthesized(),
    {
        let ghost cat = self.catalog();
        let ghost usedv = self.used();
        let ghost exv = self.existing();
        // first pass: the module specifiers that need a new declaration, in
        // first-occurrence order
        let mut mods: Vec<String> = Vec::new();
        let mut i: usize = 0;
        while i < self.imports.len()
            invariant
                0 <= i <= self.imports@.len(),
                cat == self.catalog(),
                usedv == self.used(),
                exv == self.existing(),
                names_view(mods@) == needed_modules(cat.take(i as int), usedv, exv),
            decreases self.imports@.len() - i,
        {
            let ghost prevmods = names_view(mods@);
            proof {
                assert(cat.take(i as int + 1).drop_last() =~= cat.take(i as int));
                assert(cat.take(i as int + 1).last() == cat[i as int]);
                assert(binding_view(self.imports@[i as int]) == cat[i as int]);
            }
            let e = &self.imports[i];
            if self.binding_needed(e) {
                if !contains_name(&mods, &e.module) {
                    mods.push(e.module.clone());
                    proof {
                        assert(names_view(mods@) =~= prevmods.push(cat[i as int].1));
                    }
                }
            }
            i += 1;
        }
        proof {
            assert(cat.take(cat.len() as int) =~= cat);
        }
        let ghost modseq = needed_modules(cat, usedv, exv);
        // second pass: for each such module, the needed identifiers in
        // catalog order
        let mut r: Vec<ImportGroup> = Vec::new();
        let mut k: usize = 0;
        while k < mods.len()
            invariant
                0 <= k <= mods@.len(),
                cat == self.catalog(),
                usedv == self.used(),
                exv == self.existing(),
                names_view(mods@) == modseq,
                modseq == needed_modules(cat, usedv, exv),
                groups_view(r@) == modseq.take(k as int).map_values(
                    |m: Seq<char>| (m, names_for_module(cat, usedv, exv, m)),
                ),
            decreases mods@.len() - k,
        {
            let ghost m = modseq[k as int];
            let mut names: Vec<String> = Vec::new();
            let mut i2: usize = 0;
            while i2 < self.imports.len()
                invariant
                    0 <= i2 <= self.imports@.len(),
                    cat == self.catalog(),
                    usedv == self.used(),
                    exv == self.existing(),
                    0 <= k < mods@.len(),
                    names_view(mods@) == modseq,
                    m == modseq[k as int],
                    names_view(names@) == names_for_module(cat.take(i2 as int), usedv, exv, m),
                decreases self.imports@.len() - i2,
            {
                let ghost prevnames = names_view(names@);
                proof {
                    assert(cat.take(i2 as int + 1).drop_last() =~= cat.take(i2 as int));
                    assert(cat.take(i2 as int + 1).last() == cat[i2 as int]);
                    assert(binding_view(self.imports@[i2 as int]) == cat[i2 as int]);
                    assert(names_view(mods@)[k as int] == m);
                }
                let e = &self.imports[i2];
                if self.binding_needed(e) {
                    if string_eq(&e.module, &mods[k]) {
                        if !contains_name(&names, &e.name) {
                            names.push(e.name.clone());
                            proof {
                                assert(names_view(names@) =~= prevnames.push(cat[i2 as int].0));
                            }
                        }
                    }
                }
                i2 += 1;
            }
            proof {
                assert(cat.take(cat.len() as int) =~= cat);
            }
            let ghost prevgroups = groups_view(r@);
            let g = ImportGroup { module: mods[k].clone(), names };
            proof {
                assert(group_view(g) == (m, names_for_module(cat, usedv, exv, m)));
            }
            r.push(g);
            proof {
                assert(groups_view(r@) =~= prevgroups.push(
                    (m, names_for_module(cat, usedv, exv, m)),
                ));
                assert(modseq.take(k as int + 1).drop_last() =~= modseq.take(k as int));
                assert(groups_view(r@) =~= modseq.take(k as int + 1).map_values(
                    |mm: Seq<char>| (mm, names_for_module(cat, usedv, exv, mm)),
                ));
            }
            k += 1;
        }
        proof {
            assert(modseq.take(modseq.len() as int) =~= modseq);
            assert(groups_view(r@) =~= synthesized_groups(cat, usedv, exv));
        }
        r
    }
}

} // verus!
