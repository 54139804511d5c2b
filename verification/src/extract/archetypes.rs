//! Archetype definitions and the element kind each archetype resolves to.

use vstd::prelude::*;

use crate::extract::fields::{norm_text, normalized_text};
use crate::extract::symbol_model::{first_kind_entry, kind_lookup};
use crate::extract::symbols::{kinds_view, lookup_kind};
use crate::symbols::SymbolKind;
use crate::syntax::{field_child, SyntaxNode};
use crate::text::lower_seq;

verus! {

/// The definition a node states itself: `(identifier, normalized base)` of an
/// `archetype_definition` with both fields.
pub open spec fn own_definition(n: SyntaxNode) -> Seq<(Seq<char>, Seq<char>)> {
    if n.kind@ == "archetype_definition"@ {
        match (field_child(n, "identifier"@), field_child(n, "base"@)) {
            (Some(i), Some(b)) => seq![(i.text@, norm_text(b))],
            _ => Seq::empty(),
        }
    } else {
        Seq::empty()
    }
}

/// Every archetype definition in the subtree rooted at `n`, in pre-order over named nodes.
pub open spec fn archetype_definitions(n: SyntaxNode) -> Seq<(Seq<char>, Seq<char>)>
    decreases n,
{
    own_definition(n) + archetype_definitions_list(n.children@)
}

pub open spec fn archetype_definitions_list(cs: Seq<SyntaxNode>) -> Seq<(Seq<char>, Seq<char>)>
    decreases cs,
{
    if cs.len() == 0 {
        Seq::empty()
    } else if cs.last().is_named {
        archetype_definitions_list(cs.drop_last()) + archetype_definitions(cs.last())
    } else {
        archetype_definitions_list(cs.drop_last())
    }
}

/// The element kind a base name denotes by itself, ignoring ASCII case.
pub open spec fn builtin_kind(base: Seq<char>) -> Option<SymbolKind> {
    let l = lower_seq(base);
    if l == "person"@ {
        Some(SymbolKind::Person)
    } else if l == "softwaresystem"@ {
        Some(SymbolKind::SoftwareSystem)
    } else if l == "container"@ {
        Some(SymbolKind::Container)
    } else if l == "component"@ {
        Some(SymbolKind::Component)
    } else {
        None
    }
}

/// The kind a base resolves to: a built-in element kind, else an already resolved archetype.
pub open spec fn base_kind(base: Seq<char>, resolved: Seq<(Seq<char>, SymbolKind)>) -> Option<SymbolKind> {
    if builtin_kind(base) is Some {
        builtin_kind(base)
    } else {
        kind_lookup(resolved, base)
    }
}

/// Whether `id` is a key of `kinds`.
pub open spec fn has_key(kinds: Seq<(Seq<char>, SymbolKind)>, id: Seq<char>) -> bool {
    exists|i: int| 0 <= i < kinds.len() && (#[trigger] kinds[i]).0 == id
}

/// No key occurs twice in `kinds`.
pub open spec fn distinct_keys(kinds: Seq<(Seq<char>, SymbolKind)>) -> bool {
    forall|i: int, j: int| 0 <= i < j < kinds.len() ==> (#[trigger] kinds[i]).0 != (#[trigger] kinds[j]).0
}

/// Entry `a` of `resolved` comes from a definition whose base resolves, through the entries
/// before `a` only, to the entry's kind.
pub open spec fn justified(defs: Seq<(Seq<char>, Seq<char>)>, resolved: Seq<(Seq<char>, SymbolKind)>, a: int) -> bool {
    exists|j: int|
        0 <= j < defs.len() && (#[trigger] defs[j]).0 == resolved[a].0 && base_kind(defs[j].1, resolved.take(a))
            == Some(resolved[a].1)
}

/// Every definition left out of `resolved` has a base that resolves to nothing.
pub open spec fn closed_under(defs: Seq<(Seq<char>, Seq<char>)>, resolved: Seq<(Seq<char>, SymbolKind)>) -> bool {
    forall|j: int| 0 <= j < defs.len() ==> has_key(resolved, (#[trigger] defs[j]).0) || base_kind(defs[j].1, resolved) is None
}

/// `resolved` is the closure of `defs`: keys are distinct, each entry is justified by a
/// definition whose base resolves through earlier entries only, and every definition left
/// out has a base that resolves to nothing.
pub open spec fn resolution_ok(defs: Seq<(Seq<char>, Seq<char>)>, resolved: Seq<(Seq<char>, SymbolKind)>) -> bool {
    &&& distinct_keys(resolved)
    &&& forall|a: int| 0 <= a < resolved.len() ==> #[trigger] justified(defs, resolved, a)
    &&& closed_under(defs, resolved)
}

pub proof fn lemma_lookup_has_key(kinds: Seq<(Seq<char>, SymbolKind)>, id: Seq<char>)
    ensures
        (first_kind_entry(kinds, id) < kinds.len()) == has_key(kinds, id),
        first_kind_entry(kinds, id) < kinds.len() ==> kinds[first_kind_entry(kinds, id) as int].0 == id,
    decreases kinds.len(),
{
    if kinds.len() > 0 {
        lemma_lookup_has_key(kinds.drop_first(), id);
        if has_key(kinds, id) && kinds[0].0 != id {
            let i = choose|i: int| 0 <= i < kinds.len() && (#[trigger] kinds[i]).0 == id;
            assert(kinds.drop_first()[i - 1] == kinds[i]);
        }
        if has_key(kinds.drop_first(), id) {
            let i = choose|i: int| 0 <= i < kinds.drop_first().len() && (#[trigger] kinds.drop_first()[i]).0 == id;
            assert(kinds[i + 1] == kinds.drop_first()[i]);
        }
    }
}

fn collect_definitions(n: &SyntaxNode, out: &mut Vec<(String, String)>)
    ensures
        defs_view(final(out)@) == defs_view(old(out)@) + archetype_definitions(*n),
    decreases n,
{
    let ghost before = defs_view(out@);
    if n.has_kind("archetype_definition") {
        if let Some(i) = n.child_by_field_name("identifier") {
            if let Some(b) = n.child_by_field_name("base") {
                let ghost o = out@;
                out.push((i.text.clone(), normalized_text(b)));
                assert(defs_view(out@) =~= defs_view(o).push((i.text@, norm_text(*b))));
            }
        }
    }
    assert(defs_view(out@) =~= before + own_definition(*n));
    let ghost mid = defs_view(out@);
    let mut k: usize = 0;
    while k < n.children.len()
        invariant
            k <= n.children.len(),
            defs_view(out@) == mid + archetype_definitions_list(n.children@.take(k as int)),
        decreases n.children.len() - k,
    {
        let c = &n.children[k];
        proof {
            assert(n.children@.take(k + 1).drop_last() =~= n.children@.take(k as int));
        }
        if c.is_named {
            collect_definitions(c, out);
        }
        assert(defs_view(out@) =~= mid + archetype_definitions_list(n.children@.take(k + 1)));
        k = k + 1;
    }
    assert(n.children@.take(n.children.len() as int) =~= n.children@);
    assert(defs_view(out@) =~= before + archetype_definitions(*n));
}

/// Definitions taken by their views.
pub open spec fn defs_view(v: Seq<(String, String)>) -> Seq<(Seq<char>, Seq<char>)> {
    v.map_values(|e: (String, String)| (e.0@, e.1@))
}

/// The archetype definitions of the tree rooted at `root`, in pre-order.
pub fn collect_archetype_definitions(root: &SyntaxNode) -> (r: Vec<(String, String)>)
    ensures
        defs_view(r@) == archetype_definitions(*root),
{
    let mut out: Vec<(String, String)> = Vec::new();
    assert(defs_view(out@) =~= Seq::<(Seq<char>, Seq<char>)>::empty());
    collect_definitions(root, &mut out);
    assert(defs_view(out@) =~= archetype_definitions(*root));
    out
}

/// The kind `base` resolves to through the built-in element kinds and `resolved`.
pub fn resolve_archetype_base_symbol_kind(base: &str, resolved: &Vec<(String, SymbolKind)>) -> (r: Option<SymbolKind>)
    ensures
        r == base_kind(base@, kinds_view(resolved@)),
{
    let lower = crate::text::to_ascii_lowercase(base);
    if crate::text::str_eq(lower.as_str(), "person") {
        Some(SymbolKind::Person)
    } else if crate::text::str_eq(lower.as_str(), "softwaresystem") {
        Some(SymbolKind::SoftwareSystem)
    } else if crate::text::str_eq(lower.as_str(), "container") {
        Some(SymbolKind::Container)
    } else if crate::text::str_eq(lower.as_str(), "component") {
        Some(SymbolKind::Component)
    } else {
        lookup_kind(resolved, base)
    }
}

/// The keys of `kinds`.
pub open spec fn keys_of(kinds: Seq<(Seq<char>, SymbolKind)>) -> Seq<Seq<char>> {
    kinds.map_values(|e: (Seq<char>, SymbolKind)| e.0)
}

/// The identifiers of `defs`.
pub open spec fn def_ids(defs: Seq<(Seq<char>, Seq<char>)>) -> Seq<Seq<char>> {
    defs.map_values(|e: (Seq<char>, Seq<char>)| e.0)
}

proof fn lemma_resolved_bound(defs: Seq<(Seq<char>, Seq<char>)>, resolved: Seq<(Seq<char>, SymbolKind)>)
    requires
        distinct_keys(resolved),
        forall|a: int| 0 <= a < resolved.len() ==> #[trigger] justified(defs, resolved, a),
    ensures
        resolved.len() <= defs.len(),
{
    let ks = keys_of(resolved);
    let ds = def_ids(defs);
    assert(ks.no_duplicates()) by {
        assert forall|i: int, j: int| 0 <= i < ks.len() && 0 <= j < ks.len() && i != j implies ks[i] != ks[j] by {
            if i < j {
                assert(resolved[i].0 != resolved[j].0);
            } else {
                assert(resolved[j].0 != resolved[i].0);
            }
        }
    }
    assert forall|i: int| 0 <= i < ks.len() implies ds.contains(#[trigger] ks[i]) by {
        assert(justified(defs, resolved, i));
        let j = choose|j: int|
            0 <= j < defs.len() && (#[trigger] defs[j]).0 == resolved[i].0 && base_kind(defs[j].1, resolved.take(i))
                == Some(resolved[i].1);
        assert(ds[j] == ks[i]);
    }
    crate::text::lemma_distinct_within_bound(ks, ds);
}

/// Resolves each archetype definition to the element kind its base chain reaches, repeating
/// rounds over the definitions until a round adds nothing.
pub fn resolve_archetype_kinds(definitions: &Vec<(String, String)>) -> (r: Vec<(String, SymbolKind)>)
    ensures
        resolution_ok(defs_view(definitions@), kinds_view(r@)),
{
    let ghost defs = defs_view(definitions@);
    let mut resolved: Vec<(String, SymbolKind)> = Vec::new();
    let mut changed = true;
    proof {
        assert(kinds_view(resolved@) =~= Seq::<(Seq<char>, SymbolKind)>::empty());
    }
    while changed
        invariant
            defs == defs_view(definitions@),
            distinct_keys(kinds_view(resolved@)),
            forall|a: int| 0 <= a < kinds_view(resolved@).len() ==> #[trigger] justified(defs, kinds_view(resolved@), a),
            !changed ==> closed_under(defs, kinds_view(resolved@)),
        decreases 2 * (definitions.len() - resolved.len()) + (if changed { 1int } else { 0int }),
    {
        proof {
            lemma_resolved_bound(defs, kinds_view(resolved@));
        }
        let ghost len0 = resolved.len();
        changed = false;
        let mut i: usize = 0;
        while i < definitions.len()
            invariant
                defs == defs_view(definitions@),
                i <= definitions.len(),
                len0 <= resolved.len(),
                changed == (resolved.len() > len0),
                distinct_keys(kinds_view(resolved@)),
                forall|a: int| 0 <= a < kinds_view(resolved@).len() ==> #[trigger] justified(defs, kinds_view(resolved@), a),
                forall|j: int|
                    0 <= j < i ==> changed || has_key(kinds_view(resolved@), (#[trigger] defs[j]).0) || base_kind(
                        defs[j].1,
                        kinds_view(resolved@),
                    ) is None,
            decreases definitions.len() - i,
        {
            let ghost kv = kinds_view(resolved@);
            let present = lookup_kind(&resolved, definitions[i].0.as_str()).is_some();
            proof {
                lemma_lookup_has_key(kv, defs[i as int].0);
            }
            if !present {
                if let Some(kind) = resolve_archetype_base_symbol_kind(definitions[i].1.as_str(), &resolved) {
                    let id = definitions[i].0.clone();
                    resolved.push((id, kind));
                    changed = true;
                    proof {
                        let kv2 = kinds_view(resolved@);
                        assert(kv2 =~= kv.push((defs[i as int].0, kind)));
                        assert(kv2.take(kv.len() as int) =~= kv);
                        assert forall|a: int, b: int| 0 <= a < b < kv2.len() implies (#[trigger] kv2[a]).0 != (#[trigger] kv2[b]).0 by {
                            if b == kv.len() {
                                assert(kv[a].0 != defs[i as int].0) by {
                                    if kv[a].0 == defs[i as int].0 {
                                        assert(has_key(kv, defs[i as int].0));
                                    }
                                }
                            } else {
                                assert(kv2[a] == kv[a] && kv2[b] == kv[b]);
                            }
                        }
                        assert forall|a: int| 0 <= a < kv2.len() implies #[trigger] justified(defs, kv2, a) by {
                            if a == kv.len() {
                                assert(defs[i as int].0 == kv2[a].0);
                                assert(base_kind(defs[i as int].1, kv2.take(a)) == Some(kv2[a].1));
                            } else {
                                assert(kv2[a] == kv[a]);
                                assert(kv2.take(a) =~= kv.take(a));
                                assert(justified(defs, kv, a));
                                let j = choose|j: int|
                                    0 <= j < defs.len() && (#[trigger] defs[j]).0 == kv[a].0 && base_kind(
                                        defs[j].1,
                                        kv.take(a),
                                    ) == Some(kv[a].1);
                                assert(defs[j].0 == kv2[a].0);
                            }
                        }
                    }
                }
            }
            proof {
                let kv2 = kinds_view(resolved@);
                if !changed {
                    assert(kv2 == kv);
                }
                assert forall|j: int| 0 <= j < i + 1 implies changed || has_key(kv2, (#[trigger] defs[j]).0) || base_kind(
                    defs[j].1,
                    kv2,
                ) is None by {
                    if j == i && !changed {
                        if present {
                            assert(has_key(kv2, defs[j].0));
                        }
                    }
                }
            }
            i = i + 1;
        }
        proof {
            lemma_resolved_bound(defs, kinds_view(resolved@));
        }
    }
    resolved
}

/// The element kind each archetype of the tree rooted at `root` resolves to.
pub fn collect_supported_archetype_symbol_kinds(root: &SyntaxNode) -> (r: Vec<(String, SymbolKind)>)
    ensures
        resolution_ok(archetype_definitions(*root), kinds_view(r@)),
{
    let definitions = collect_archetype_definitions(root);
    resolve_archetype_kinds(&definitions)
}

} // verus!
