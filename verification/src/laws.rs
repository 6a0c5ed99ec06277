use vstd::prelude::*;

use crate::model::{
    distinct_seq, groups_bindings, in_groups, is_needed, lemma_groups_bindings_contains,
    lemma_in_groups_iff_needed, lemma_names_for_module_contains, lemma_names_for_module_distinct,
    lemma_needed_modules_contains, lemma_needed_modules_distinct, lemma_synthesized_empty_iff,
    names_for_module, needed_modules, synthesized_groups, BindingModel,
};

verus! {

/// Idempotence: once the bindings declared by the synthesized groups are
/// present among the existing imports, a second synthesis over the same
/// catalog and the same used identifiers produces nothing. Re-running the
/// transform on its own output therefore adds no further imports.
pub proof fn lemma_transform_idempotent(
    cat: Seq<BindingModel>,
    used: Seq<Seq<char>>,
    existing: Seq<BindingModel>,
    existing2: Seq<BindingModel>,
)
    requires
        forall|b: BindingModel| existing.contains(b) ==> existing2.contains(b),
        forall|b: BindingModel|
            groups_bindings(synthesized_groups(cat, used, existing)).contains(b)
                ==> existing2.contains(b),
    ensures
        synthesized_groups(cat, used, existing2).len() == 0,
{
    lemma_synthesized_empty_iff(cat, used, existing2);
    assert forall|i: int| 0 <= i < cat.len() implies !is_needed(
        #[trigger] cat[i],
        used,
        existing2,
    ) by {
        if is_needed(cat[i], used, existing2) {
            assert(!existing.contains(cat[i]));
            assert(is_needed(cat[i], used, existing));
            lemma_in_groups_iff_needed(cat, used, existing, cat[i].0, cat[i].1);
            assert(in_groups(synthesized_groups(cat, used, existing), cat[i].0, cat[i].1));
            lemma_groups_bindings_contains(
                synthesized_groups(cat, used, existing),
                cat[i].0,
                cat[i].1,
            );
            assert(existing2.contains((cat[i].0, cat[i].1)));
            assert(cat[i] == (cat[i].0, cat[i].1));
        }
    }
}

/// No-op when satisfied: if every used catalog identifier already has an
/// import of the exact (identifier, module) pair its catalog entry names,
/// nothing is synthesized.
pub proof fn lemma_no_op_when_satisfied(
    cat: Seq<BindingModel>,
    used: Seq<Seq<char>>,
    existing: Seq<BindingModel>,
)
    requires
        forall|i: int|
            0 <= i < cat.len() && used.contains(#[trigger] cat[i].0) ==> existing.contains(cat[i]),
    ensures
        synthesized_groups(cat, used, existing).len() == 0,
{
    lemma_synthesized_empty_iff(cat, used, existing);
}

/// Minimal addition: when two identifiers of the same catalog module are
/// used and uncovered, exactly one group is synthesized for that module, it
/// names both identifiers, and no group repeats a module or an identifier.
pub proof fn lemma_minimal_addition(
    cat: Seq<BindingModel>,
    used: Seq<Seq<char>>,
    existing: Seq<BindingModel>,
    a: Seq<char>,
    b: Seq<char>,
    m: Seq<char>,
)
    requires
        cat.contains((a, m)),
        cat.contains((b, m)),
        used.contains(a),
        used.contains(b),
        !existing.contains((a, m)),
        !existing.contains((b, m)),
    ensures
        exists|g: int|
            0 <= g < synthesized_groups(cat, used, existing).len()
                && #[trigger] synthesized_groups(cat, used, existing)[g].0 == m
                && synthesized_groups(cat, used, existing)[g].1.contains(a)
                && synthesized_groups(cat, used, existing)[g].1.contains(b),
        forall|g1: int, g2: int|
            0 <= g1 < g2 < synthesized_groups(cat, used, existing).len()
                ==> #[trigger] synthesized_groups(cat, used, existing)[g1].0
                != #[trigger] synthesized_groups(cat, used, existing)[g2].0,
        forall|g: int|
            0 <= g < synthesized_groups(cat, used, existing).len() ==> distinct_seq(
                #[trigger] synthesized_groups(cat, used, existing)[g].1,
            ),
{
    let gs = synthesized_groups(cat, used, existing);
    let mods = needed_modules(cat, used, existing);
    let ia = choose|i: int| 0 <= i < cat.len() && cat[i] == (a, m);
    let ib = choose|i: int| 0 <= i < cat.len() && cat[i] == (b, m);
    assert(is_needed(cat[ia], used, existing));
    assert(is_needed(cat[ib], used, existing));
    lemma_needed_modules_contains(cat, used, existing, m);
    assert(mods.contains(m));
    let g = choose|g: int| 0 <= g < mods.len() && mods[g] == m;
    assert(gs[g] == (mods[g], names_for_module(cat, used, existing, mods[g])));
    lemma_names_for_module_contains(cat, used, existing, m, a);
    lemma_names_for_module_contains(cat, used, existing, m, b);
    assert(gs[g].0 == m && gs[g].1.contains(a) && gs[g].1.contains(b));
    lemma_needed_modules_distinct(cat, used, existing);
    assert forall|g1: int, g2: int| 0 <= g1 < g2 < gs.len() implies #[trigger] gs[g1].0
        != #[trigger] gs[g2].0 by {
        assert(gs[g1] == (mods[g1], names_for_module(cat, used, existing, mods[g1])));
        assert(gs[g2] == (mods[g2], names_for_module(cat, used, existing, mods[g2])));
    }
    assert forall|gg: int| 0 <= gg < gs.len() implies distinct_seq(#[trigger] gs[gg].1) by {
        assert(gs[gg] == (mods[gg], names_for_module(cat, used, existing, mods[gg])));
        lemma_names_for_module_distinct(cat, used, existing, mods[gg]);
    }
}

/// Partial coverage: an identifier already imported from its catalog module
/// is never synthesized again for that module, while an uncovered identifier
/// of the same module is; the engine only ever appends to the recorded state,
/// so the existing import itself is untouched.
pub proof fn lemma_partial_coverage(
    cat: Seq<BindingModel>,
    used: Seq<Seq<char>>,
    existing: Seq<BindingModel>,
    a: Seq<char>,
    b: Seq<char>,
    m: Seq<char>,
)
    requires
        existing.contains((a, m)),
        cat.contains((b, m)),
        used.contains(b),
        !existing.contains((b, m)),
    ensures
        in_groups(synthesized_groups(cat, used, existing), b, m),
        !in_groups(synthesized_groups(cat, used, existing), a, m),
{
    let ib = choose|i: int| 0 <= i < cat.len() && cat[i] == (b, m);
    assert(is_needed(cat[ib], used, existing));
    lemma_in_groups_iff_needed(cat, used, existing, b, m);
    lemma_in_groups_iff_needed(cat, used, existing, a, m);
    if in_groups(synthesized_groups(cat, used, existing), a, m) {
        let i = choose|i: int|
            0 <= i < cat.len() && is_needed(#[trigger] cat[i], used, existing) && cat[i] == (a, m);
        assert(!existing.contains(cat[i]));
    }
}

/// Unrecognized identifiers are ignored: a name that no catalog entry
/// carries never appears in any synthesized group, whatever is used or
/// already imported.
pub proof fn lemma_unrecognized_ignored(
    cat: Seq<BindingModel>,
    used: Seq<Seq<char>>,
    existing: Seq<BindingModel>,
    n: Seq<char>,
)
    requires
        forall|i: int| 0 <= i < cat.len() ==> (#[trigger] cat[i]).0 != n,
    ensures
        forall|m: Seq<char>| !in_groups(synthesized_groups(cat, used, existing), n, m),
{
    assert forall|m: Seq<char>| !in_groups(
        synthesized_groups(cat, used, existing),
        n,
        m,
    ) by {
        lemma_in_groups_iff_needed(cat, used, existing, n, m);
        if in_groups(synthesized_groups(cat, used, existing), n, m) {
            let i = choose|i: int|
                0 <= i < cat.len() && is_needed(#[trigger] cat[i], used, existing) && cat[i] == (
                n,
                m,
                );
            assert(cat[i].0 == n);
        }
    }
}

} // verus!
