use vstd::prelude::*;

verus! {

/// A named binding at the specification level: an identifier together with
/// the module specifier it is bound to.
pub type BindingModel = (Seq<char>, Seq<char>);

/// A synthesized import declaration at the specification level: a module
/// specifier together with the identifiers imported from it, in order.
pub type GroupModel = (Seq<char>, Seq<Seq<char>>);

/// A catalog entry is needed exactly when its identifier is used somewhere in
/// the module and the exact (identifier, module) pair is not already imported.
/// An identifier imported from a different module than the catalog names does
/// not satisfy the entry.
pub open spec fn is_needed(
    entry: BindingModel,
    used: Seq<Seq<char>>,
    existing: Seq<BindingModel>,
) -> bool {
    used.contains(entry.0) && !existing.contains(entry)
}

/// The module specifiers of the needed catalog entries, in order of first
/// needed occurrence in the catalog, without duplicates.
pub open spec fn needed_modules(
    cat: Seq<BindingModel>,
    used: Seq<Seq<char>>,
    existing: Seq<BindingModel>,
) -> Seq<Seq<char>>
    decreases cat.len(),
{
    if cat.len() == 0 {
        Seq::empty()
    } else {
        let prev = needed_modules(cat.drop_last(), used, existing);
        if is_needed(cat.last(), used, existing) && !prev.contains(cat.last().1) {
            prev.push(cat.last().1)
        } else {
            prev
        }
    }
}

/// The identifiers of the needed catalog entries whose module specifier is
/// `m`, in catalog order, without duplicates.
pub open spec fn names_for_module(
    cat: Seq<BindingModel>,
    used: Seq<Seq<char>>,
    existing: Seq<BindingModel>,
    m: Seq<char>,
) -> Seq<Seq<char>>
    decreases cat.len(),
{
    if cat.len() == 0 {
        Seq::empty()
    } else {
        let prev = names_for_module(cat.drop_last(), used, existing, m);
        let e = cat.last();
        if is_needed(e, used, existing) && e.1 == m && !prev.contains(e.0) {
            prev.push(e.0)
        } else {
            prev
        }
    }
}

/// The synthesized import declarations: one group per module specifier that
/// has at least one needed entry, in order of first needed occurrence, each
/// group holding the needed identifiers of that module in catalog order.
pub open spec fn synthesized_groups(
    cat: Seq<BindingModel>,
    used: Seq<Seq<char>>,
    existing: Seq<BindingModel>,
) -> Seq<GroupModel> {
    needed_modules(cat, used, existing).map_values(
        |m: Seq<char>| (m, names_for_module(cat, used, existing, m)),
    )
}

/// Whether some group of `gs` imports `name` from `module`.
pub open spec fn in_groups(gs: Seq<GroupModel>, name: Seq<char>, module: Seq<char>) -> bool {
    exists|i: int, j: int|
        0 <= i < gs.len() && 0 <= j < gs[i].1.len() && gs[i].0 == module && gs[i].1[j] == name
}

/// The (identifier, module) pairs one group declares, in order.
pub open spec fn group_bindings(g: GroupModel) -> Seq<BindingModel> {
    g.1.map_values(|n: Seq<char>| (n, g.0))
}

/// Every (identifier, module) pair declared by the groups, flattened.
pub open spec fn groups_bindings(gs: Seq<GroupModel>) -> Seq<BindingModel>
    decreases gs.len(),
{
    if gs.len() == 0 {
        Seq::empty()
    } else {
        groups_bindings(gs.drop_last()) + group_bindings(gs.last())
    }
}

/// A sequence without duplicate elements.
pub open spec fn distinct_seq<A>(s: Seq<A>) -> bool {
    forall|i: int, j: int| 0 <= i < j < s.len() ==> s[i] != s[j]
}

pub proof fn lemma_contains_push<A>(s: Seq<A>, x: A, y: A)
    ensures
        s.push(x).contains(y) <==> (s.contains(y) || x == y),
{
    if s.push(x).contains(y) {
        let i = choose|i: int| 0 <= i < s.push(x).len() && s.push(x)[i] == y;
        if i < s.len() {
            assert(s[i] == y);
        }
    }
    if s.contains(y) {
        let i = choose|i: int| 0 <= i < s.len() && s[i] == y;
        assert(s.push(x)[i] == y);
    }
    if x == y {
        assert(s.push(x)[s.len() as int] == y);
    }
}

pub proof fn lemma_contains_add<A>(a: Seq<A>, b: Seq<A>, y: A)
    ensures
        (a + b).contains(y) <==> (a.contains(y) || b.contains(y)),
{
    if (a + b).contains(y) {
        let i = choose|i: int| 0 <= i < (a + b).len() && (a + b)[i] == y;
        if i < a.len() {
            assert(a[i] == y);
        } else {
            assert(b[i - a.len()] == y);
        }
    }
    if a.contains(y) {
        let i = choose|i: int| 0 <= i < a.len() && a[i] == y;
        assert((a + b)[i] == y);
    }
    if b.contains(y) {
        let i = choose|i: int| 0 <= i < b.len() && b[i] == y;
        assert((a + b)[a.len() + i] == y);
    }
}

/// `needed_modules` holds exactly the modules of the needed catalog entries.
pub proof fn lemma_needed_modules_contains(
    cat: Seq<BindingModel>,
    used: Seq<Seq<char>>,
    existing: Seq<BindingModel>,
    m: Seq<char>,
)
    ensures
        needed_modules(cat, used, existing).contains(m) <==> exists|i: int|
            0 <= i < cat.len() && is_needed(#[trigger] cat[i], used, existing) && cat[i].1 == m,
    decreases cat.len(),
{
    if cat.len() == 0 {
    } else {
        let head = cat.drop_last();
        lemma_needed_modules_contains(head, used, existing, m);
        let prev = needed_modules(head, used, existing);
        let e = cat.last();
        assert(e == cat[cat.len() - 1]);
        assert(forall|i: int| 0 <= i < head.len() ==> head[i] == cat[i]);
        if is_needed(e, used, existing) && !prev.contains(e.1) {
            lemma_contains_push(prev, e.1, m);
            if prev.push(e.1).contains(m) {
                if prev.contains(m) {
                    let i = choose|i: int|
                        0 <= i < head.len() && is_needed(#[trigger] head[i], used, existing)
                            && head[i].1 == m;
                    assert(is_needed(cat[i], used, existing) && cat[i].1 == m);
                } else {
                    assert(is_needed(cat[cat.len() - 1], used, existing) && cat[cat.len()
                        - 1].1 == m);
                }
            }
            if exists|i: int|
                0 <= i < cat.len() && is_needed(#[trigger] cat[i], used, existing) && cat[i].1
                    == m {
                let i = choose|i: int|
                    0 <= i < cat.len() && is_needed(#[trigger] cat[i], used, existing) && cat[i].1
                        == m;
                if i < cat.len() - 1 {
                    assert(is_needed(head[i], used, existing) && head[i].1 == m);
                }
            }
        } else {
            if exists|i: int|
                0 <= i < cat.len() && is_needed(#[trigger] cat[i], used, existing) && cat[i].1
                    == m {
                let i = choose|i: int|
                    0 <= i < cat.len() && is_needed(#[trigger] cat[i], used, existing) && cat[i].1
                        == m;
                if i < cat.len() - 1 {
                    assert(is_needed(head[i], used, existing) && head[i].1 == m);
                } else {
                    // the last entry matches m; it is needed, so its module is
                    // already present in prev
                    assert(is_needed(e, used, existing) && e.1 == m);
                    assert(prev.contains(m));
                }
            }
        }
    }
}

/// `names_for_module` holds exactly the identifiers of the needed catalog
/// entries bound to module `m`.
pub proof fn lemma_names_for_module_contains(
    cat: Seq<BindingModel>,
    used: Seq<Seq<char>>,
    existing: Seq<BindingModel>,
    m: Seq<char>,
    n: Seq<char>,
)
    ensures
        names_for_module(cat, used, existing, m).contains(n) <==> exists|i: int|
            0 <= i < cat.len() && is_needed(#[trigger] cat[i], used, existing) && cat[i] == (n, m),
    decreases cat.len(),
{
    if cat.len() == 0 {
    } else {
        let head = cat.drop_last();
        lemma_names_for_module_contains(head, used, existing, m, n);
        let prev = names_for_module(head, used, existing, m);
        let e = cat.last();
        assert(e == cat[cat.len() - 1]);
        assert(forall|i: int| 0 <= i < head.len() ==> head[i] == cat[i]);
        if is_needed(e, used, existing) && e.1 == m && !prev.contains(e.0) {
            lemma_contains_push(prev, e.0, n);
            if prev.push(e.0).contains(n) {
                if prev.contains(n) {
                    let i = choose|i: int|
                        0 <= i < head.len() && is_needed(#[trigger] head[i], used, existing)
                            && head[i] == (n, m);
                    assert(is_needed(cat[i], used, existing) && cat[i] == (n, m));
                } else {
                    assert(e == (n, m));
                    assert(is_needed(cat[cat.len() - 1], used, existing) && cat[cat.len() - 1] == (
                    n,
                    m,
                    ));
                }
            }
            if exists|i: int|
                0 <= i < cat.len() && is_needed(#[trigger] cat[i], used, existing) && cat[i] == (
                n,
                m,
                ) {
                let i = choose|i: int|
                    0 <= i < cat.len() && is_needed(#[trigger] cat[i], used, existing) && cat[i]
                        == (n, m);
                if i < cat.len() - 1 {
                    assert(is_needed(head[i], used, existing) && head[i] == (n, m));
                }
            }
        } else {
            if exists|i: int|
                0 <= i < cat.len() && is_needed(#[trigger] cat[i], used, existing) && cat[i] == (
                n,
                m,
                ) {
                let i = choose|i: int|
                    0 <= i < cat.len() && is_needed(#[trigger] cat[i], used, existing) && cat[i]
                        == (n, m);
                if i < cat.len() - 1 {
                    assert(is_needed(head[i], used, existing) && head[i] == (n, m));
                } else {
                    assert(e == (n, m));
                    assert(prev.contains(n));
                }
            }
        }
    }
}

/// The synthesized module list never repeats a module specifier.
pub proof fn lemma_needed_modules_distinct(
    cat: Seq<BindingModel>,
    used: Seq<Seq<char>>,
    existing: Seq<BindingModel>,
)
    ensures
        distinct_seq(needed_modules(cat, used, existing)),
    decreases cat.len(),
{
    if cat.len() == 0 {
    } else {
        let head = cat.drop_last();
        lemma_needed_modules_distinct(head, used, existing);
        let prev = needed_modules(head, used, existing);
        let e = cat.last();
        if is_needed(e, used, existing) && !prev.contains(e.1) {
            let cur = prev.push(e.1);
            assert forall|i: int, j: int| 0 <= i < j < cur.len() implies cur[i] != cur[j] by {
                if j == cur.len() - 1 {
                    assert(cur[i] == prev[i]);
                    assert(prev.contains(prev[i]));
                } else {
                    assert(cur[i] == prev[i] && cur[j] == prev[j]);
                }
            }
        }
    }
}

/// No group repeats an identifier.
pub proof fn lemma_names_for_module_distinct(
    cat: Seq<BindingModel>,
    used: Seq<Seq<char>>,
    existing: Seq<BindingModel>,
    m: Seq<char>,
)
    ensures
        distinct_seq(names_for_module(cat, used, existing, m)),
    decreases cat.len(),
{
    if cat.len() == 0 {
    } else {
        let head = cat.drop_last();
        lemma_names_for_module_distinct(head, used, existing, m);
        let prev = names_for_module(head, used, existing, m);
        let e = cat.last();
        if is_needed(e, used, existing) && e.1 == m && !prev.contains(e.0) {
            let cur = prev.push(e.0);
            assert forall|i: int, j: int| 0 <= i < j < cur.len() implies cur[i] != cur[j] by {
                if j == cur.len() - 1 {
                    assert(cur[i] == prev[i]);
                    assert(prev.contains(prev[i]));
                } else {
                    assert(cur[i] == prev[i] && cur[j] == prev[j]);
                }
            }
        }
    }
}

/// A group is synthesized for (name, module) exactly when some needed catalog
/// entry binds that name to that module.
pub proof fn lemma_in_groups_iff_needed(
    cat: Seq<BindingModel>,
    used: Seq<Seq<char>>,
    existing: Seq<BindingModel>,
    n: Seq<char>,
    m: Seq<char>,
)
    ensures
        in_groups(synthesized_groups(cat, used, existing), n, m) <==> exists|i: int|
            0 <= i < cat.len() && is_needed(#[trigger] cat[i], used, existing) && cat[i] == (n, m),
{
    let mods = needed_modules(cat, used, existing);
    let gs = synthesized_groups(cat, used, existing);
    lemma_needed_modules_contains(cat, used, existing, m);
    lemma_names_for_module_contains(cat, used, existing, m, n);
    if in_groups(gs, n, m) {
        let (i, j) = choose|i: int, j: int|
            0 <= i < gs.len() && 0 <= j < gs[i].1.len() && gs[i].0 == m && gs[i].1[j] == n;
        assert(gs[i] == (mods[i], names_for_module(cat, used, existing, mods[i])));
        assert(names_for_module(cat, used, existing, m).contains(n));
    }
    if exists|i: int|
        0 <= i < cat.len() && is_needed(#[trigger] cat[i], used, existing) && cat[i] == (n, m) {
        assert(mods.contains(m));
        let i = choose|i: int| 0 <= i < mods.len() && mods[i] == m;
        let names = names_for_module(cat, used, existing, m);
        assert(names.contains(n));
        let j = choose|j: int| 0 <= j < names.len() && names[j] == n;
        assert(gs[i] == (mods[i], names_for_module(cat, used, existing, mods[i])));
        assert(0 <= i < gs.len() && 0 <= j < gs[i].1.len() && gs[i].0 == m && gs[i].1[j] == n);
    }
}

/// Nothing is synthesized exactly when no catalog entry is needed.
pub proof fn lemma_synthesized_empty_iff(
    cat: Seq<BindingModel>,
    used: Seq<Seq<char>>,
    existing: Seq<BindingModel>,
)
    ensures
        synthesized_groups(cat, used, existing).len() == 0 <==> forall|i: int|
            0 <= i < cat.len() ==> !is_needed(#[trigger] cat[i], used, existing),
{
    let mods = needed_modules(cat, used, existing);
    if mods.len() > 0 {
        assert(mods.contains(mods[0]));
        lemma_needed_modules_contains(cat, used, existing, mods[0]);
    }
    if exists|i: int| 0 <= i < cat.len() && is_needed(#[trigger] cat[i], used, existing) {
        let i = choose|i: int| 0 <= i < cat.len() && is_needed(#[trigger] cat[i], used, existing);
        lemma_needed_modules_contains(cat, used, existing, cat[i].1);
        assert(mods.contains(cat[i].1));
    }
}

/// The flattened bindings of the groups are exactly the pairs some group
/// imports.
pub proof fn lemma_groups_bindings_contains(gs: Seq<GroupModel>, n: Seq<char>, m: Seq<char>)
    ensures
        groups_bindings(gs).contains((n, m)) <==> in_groups(gs, n, m),
    decreases gs.len(),
{
    if gs.len() == 0 {
    } else {
        let head = gs.drop_last();
        lemma_groups_bindings_contains(head, n, m);
        let e = gs.last();
        let tailpairs = group_bindings(e);
        lemma_contains_add(groups_bindings(head), tailpairs, (n, m));
        assert(e == gs[gs.len() - 1]);
        assert(forall|i: int| 0 <= i < head.len() ==> head[i] == gs[i]);
        // tailpairs membership matches the last group
        if tailpairs.contains((n, m)) {
            let j = choose|j: int| 0 <= j < tailpairs.len() && tailpairs[j] == (n, m);
            assert(e.1[j] == n && e.0 == m);
            assert(in_groups(gs, n, m));
        }
        if in_groups(gs, n, m) {
            let (i, j) = choose|i: int, j: int|
                0 <= i < gs.len() && 0 <= j < gs[i].1.len() && gs[i].0 == m && gs[i].1[j] == n;
            if i < gs.len() - 1 {
                assert(0 <= j < head[i].1.len() && head[i].0 == m && head[i].1[j] == n);
                assert(in_groups(head, n, m));
            } else {
                assert(tailpairs[j] == (n, m));
            }
        }
        if in_groups(head, n, m) {
            let (i, j) = choose|i: int, j: int|
                0 <= i < head.len() && 0 <= j < head[i].1.len() && head[i].0 == m && head[i].1[j]
                    == n;
            assert(0 <= j < gs[i].1.len() && gs[i].0 == m && gs[i].1[j] == n);
            assert(in_groups(gs, n, m));
        }
    }
}

} // verus!
