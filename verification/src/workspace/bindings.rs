//! Identifier-mode precedence, canonical binding keys, and binding-table lookups.

use vstd::prelude::*;

use crate::includes::DirectiveContainer;
use crate::symbols::{
    is_deployment_kind, is_element_kind, IdentifierMode, IdentifierModeFact, Symbol, SymbolId,
    SymbolKind,
};
use crate::text::join_seq;

verus! {

/// Effective element-identifier mode for one document inside one workspace instance.
#[derive(Debug, Clone, Copy, PartialEq, Eq, Structural)]
pub enum ElementIdentifierMode {
    /// Element bindings resolve through their flat binding names.
    Flat,
    /// Element bindings resolve through canonical hierarchical keys.
    Hierarchical,
    /// Element bindings stay deferred because the effective mode is unsupported.
    Deferred,
}

/// Index of the last fact of `facts` declared in `container`, or -1.
pub open spec fn last_mode_index(facts: Seq<IdentifierModeFact>, container: DirectiveContainer) -> int
    decreases facts.len(),
{
    if facts.len() == 0 {
        -1
    } else if facts.last().container == container {
        facts.len() - 1
    } else {
        last_mode_index(facts.drop_last(), container)
    }
}

/// The mode of the last fact declared in `container`.
pub open spec fn last_mode(facts: Seq<IdentifierModeFact>, container: DirectiveContainer) -> Option<
    IdentifierMode,
> {
    let i = last_mode_index(facts, container);
    if i < 0 {
        None
    } else {
        Some(facts[i].mode)
    }
}

/// The bounded mode a raw `!identifiers` mode selects; no mode at all means flat.
pub open spec fn mode_class(mode: Option<IdentifierMode>) -> ElementIdentifierMode {
    match mode {
        Some(IdentifierMode::Hierarchical) => ElementIdentifierMode::Hierarchical,
        Some(IdentifierMode::Other(_)) => ElementIdentifierMode::Deferred,
        _ => ElementIdentifierMode::Flat,
    }
}

/// The raw mode in force: the last `model` directive, else the last `workspace` directive,
/// else the mode inherited from an enclosing workspace.
pub open spec fn governing_mode(facts: Seq<IdentifierModeFact>, inherited: Option<IdentifierMode>) -> Option<
    IdentifierMode,
> {
    match last_mode(facts, DirectiveContainer::Model) {
        Some(m) => Some(m),
        None => match last_mode(facts, DirectiveContainer::Workspace) {
            Some(m) => Some(m),
            None => inherited,
        },
    }
}

pub proof fn lemma_last_mode_index_bounds(facts: Seq<IdentifierModeFact>, container: DirectiveContainer)
    ensures
        -1 <= last_mode_index(facts, container) < facts.len(),
        last_mode_index(facts, container) >= 0 ==> facts[last_mode_index(facts, container)].container
            == container,
        forall|j: int|
            last_mode_index(facts, container) < j < facts.len() ==> #[trigger] facts[j].container
                != container,
    decreases facts.len(),
{
    if facts.len() > 0 && facts.last().container != container {
        lemma_last_mode_index_bounds(facts.drop_last(), container);
        assert forall|j: int|
            last_mode_index(facts, container) < j < facts.len() implies #[trigger] facts[j].container
                != container by {
            if j < facts.len() - 1 {
                assert(facts.drop_last()[j] == facts[j]);
            }
        }
    }
}

/// The last mode declared in `container`, scanning from the end.
fn last_identifier_mode_for_container(
    identifier_modes: &[IdentifierModeFact],
    container: DirectiveContainer,
) -> (r: Option<IdentifierMode>)
    ensures
        r == last_mode(identifier_modes@, container),
{
    let mut i: usize = identifier_modes.len();
    assert(identifier_modes@.take(i as int) =~= identifier_modes@);
    while i > 0
        invariant
            i <= identifier_modes@.len(),
            last_mode_index(identifier_modes@, container) == last_mode_index(
                identifier_modes@.take(i as int),
                container,
            ),
        decreases i,
    {
        let ghost prefix = identifier_modes@.take(i as int);
        assert(prefix.drop_last() =~= identifier_modes@.take(i - 1));
        if identifier_modes[i - 1].container == container {
            assert(prefix.last() == identifier_modes@[i - 1]);
            assert(last_mode_index(prefix, container) == i - 1);
            return Some(identifier_modes[i - 1].mode.clone());
        }
        i = i - 1;
    }
    assert(identifier_modes@.take(0) =~= Seq::<IdentifierModeFact>::empty());
    None
}

/// Derives the bounded element-identifier mode from raw directive facts: the last
/// `model`-level directive wins, then the last `workspace`-level one, then the mode inherited
/// from an enclosing workspace; no mode at all is flat and an unrecognized one is deferred.
pub fn effective_element_identifier_mode_from_facts(
    identifier_modes: &[IdentifierModeFact],
    inherited_workspace_mode: Option<&IdentifierMode>,
) -> (r: ElementIdentifierMode)
    ensures
        r == mode_class(
            governing_mode(
                identifier_modes@,
                match inherited_workspace_mode {
                    Some(m) => Some(*m),
                    None => None,
                },
            ),
        ),
{
    let model = last_identifier_mode_for_container(identifier_modes, DirectiveContainer::Model);
    let chosen = match model {
        Some(m) => Some(m),
        None => match last_identifier_mode_for_container(
            identifier_modes,
            DirectiveContainer::Workspace,
        ) {
            Some(m) => Some(m),
            None => match inherited_workspace_mode {
                Some(m) => Some(m.clone()),
                None => None,
            },
        },
    };
    match chosen {
        Some(IdentifierMode::Hierarchical) => ElementIdentifierMode::Hierarchical,
        Some(IdentifierMode::Other(_)) => ElementIdentifierMode::Deferred,
        _ => ElementIdentifierMode::Flat,
    }
}

/// The mode declared at `workspace` level in a document, which its includes inherit.
pub fn document_workspace_identifier_mode(identifier_modes: &[IdentifierModeFact]) -> (r: Option<
    IdentifierMode,
>)
    ensures
        r == last_mode(identifier_modes@, DirectiveContainer::Workspace),
{
    last_identifier_mode_for_container(identifier_modes, DirectiveContainer::Workspace)
}

/// Which family of declarations a canonical key belongs to.
#[derive(Debug, Clone, Copy, PartialEq, Eq, Structural)]
pub enum CanonicalBindingKind {
    /// Model elements: people, software systems, containers, components.
    Element,
    /// Deployment environments, nodes, and instances.
    Deployment,
}

/// Whether an ancestor of `kind` may appear on a canonical path of `family`.
pub open spec fn allows_ancestor(family: CanonicalBindingKind, kind: SymbolKind) -> bool {
    match family {
        CanonicalBindingKind::Element => is_element_kind(kind),
        CanonicalBindingKind::Deployment => is_deployment_kind(kind),
    }
}

impl CanonicalBindingKind {
    /// Whether an ancestor of `kind` may appear on a canonical path of this family.
    pub fn allows(self, kind: SymbolKind) -> (r: bool)
        ensures
            r == allows_ancestor(self, kind),
    {
        match self {
            CanonicalBindingKind::Element => kind.is_element(),
            CanonicalBindingKind::Deployment => kind.is_deployment(),
        }
    }
}

/// Every symbol's parent has a smaller index than the symbol itself, as extraction assigns them.
pub open spec fn parents_precede(symbols: Seq<Symbol>) -> bool {
    forall|i: int|
        0 <= i < symbols.len() ==> (#[trigger] symbols[i].parent matches Some(p) ==> p.0 < i)
}

/// The walk up the ancestors of symbol `i` that builds a key of `family` stops within `fuel`
/// steps: at a symbol without a parent, or at a parent position that names no symbol, or at an
/// ancestor outside `family` or without a binding name.
pub open spec fn key_walk_ends_within(symbols: Seq<Symbol>, i: int, family: CanonicalBindingKind, fuel: nat) -> bool
    decreases fuel,
{
    0 <= i < symbols.len() && match symbols[i].parent {
        None => true,
        Some(p) => !(0 <= p.0 < symbols.len()) || !allows_ancestor(family, symbols[p.0 as int].kind)
            || symbols[p.0 as int].binding_name is None || (fuel > 0 && key_walk_ends_within(
            symbols,
            p.0 as int,
            family,
            (fuel - 1) as nat,
        )),
    }
}

/// Symbol `i` is listed and the walk up its ancestors for a key of `family` stops without
/// coming back to a symbol it passed: within as many steps as there are symbols.
pub open spec fn key_walk_ends(symbols: Seq<Symbol>, i: int, family: CanonicalBindingKind) -> bool {
    key_walk_ends_within(symbols, i, family, symbols.len())
}

proof fn lemma_key_walk_more_fuel(symbols: Seq<Symbol>, i: int, family: CanonicalBindingKind, f1: nat, f2: nat)
    requires
        f1 <= f2,
        key_walk_ends_within(symbols, i, family, f1),
    ensures
        key_walk_ends_within(symbols, i, family, f2),
    decreases f1,
{
    match symbols[i].parent {
        None => {},
        Some(p) => {
            if 0 <= p.0 < symbols.len() && allows_ancestor(family, symbols[p.0 as int].kind)
                && symbols[p.0 as int].binding_name is Some {
                lemma_key_walk_more_fuel(symbols, p.0 as int, family, (f1 - 1) as nat, (f2 - 1) as nat);
            }
        },
    }
}

proof fn lemma_ordered_key_walk_within(symbols: Seq<Symbol>, i: int, family: CanonicalBindingKind)
    requires
        parents_precede(symbols),
        0 <= i < symbols.len(),
    ensures
        key_walk_ends_within(symbols, i, family, i as nat),
    decreases i,
{
    match symbols[i].parent {
        None => {},
        Some(p) => {
            lemma_ordered_key_walk_within(symbols, p.0 as int, family);
            lemma_key_walk_more_fuel(symbols, p.0 as int, family, p.0 as nat, (i - 1) as nat);
        },
    }
}

/// When every parent precedes its child, the walk for a key of either family stops for every
/// listed symbol.
pub proof fn lemma_ordered_chain_ends(symbols: Seq<Symbol>, i: int)
    requires
        parents_precede(symbols),
        0 <= i < symbols.len(),
    ensures
        key_walk_ends(symbols, i, CanonicalBindingKind::Element),
        key_walk_ends(symbols, i, CanonicalBindingKind::Deployment),
{
    lemma_ordered_key_walk_within(symbols, i, CanonicalBindingKind::Element);
    lemma_key_walk_more_fuel(symbols, i, CanonicalBindingKind::Element, i as nat, symbols.len());
    lemma_ordered_key_walk_within(symbols, i, CanonicalBindingKind::Deployment);
    lemma_key_walk_more_fuel(symbols, i, CanonicalBindingKind::Deployment, i as nat, symbols.len());
}

/// The binding names of the ancestors of symbol `i` (not `i` itself), outermost first, found
/// within `fuel` steps up its parent chain, or `None` when an ancestor is not listed, falls
/// outside `family` or has no binding name.
#[verifier::opaque]
pub open spec fn names_within(symbols: Seq<Symbol>, i: int, family: CanonicalBindingKind, fuel: nat) -> Option<
    Seq<Seq<char>>,
>
    decreases fuel,
{
    if !(0 <= i < symbols.len()) {
        None
    } else {
        match symbols[i].parent {
            None => Some(Seq::empty()),
            Some(p) => if fuel > 0 && 0 <= p.0 < symbols.len() && allows_ancestor(family, symbols[p.0 as int].kind) {
                match symbols[p.0 as int].binding_name {
                    None => None,
                    Some(n) => match names_within(symbols, p.0 as int, family, (fuel - 1) as nat) {
                        Some(ns) => Some(ns.push(n@)),
                        None => None,
                    },
                }
            } else {
                None
            },
        }
    }
}

/// The binding names of the ancestors of symbol `i`, outermost first, or `None` when an
/// ancestor is not listed, falls outside `family` or has no binding name.
pub open spec fn names_above(symbols: Seq<Symbol>, i: int, family: CanonicalBindingKind) -> Option<Seq<Seq<char>>> {
    names_within(symbols, i, family, symbols.len())
}

/// The canonical key of symbol `i` under `mode`: its binding name when flat, the dotted path of
/// binding names from the outermost ancestor when hierarchical, and none when deferred.
pub open spec fn canonical_key(
    symbols: Seq<Symbol>,
    i: int,
    mode: ElementIdentifierMode,
    family: CanonicalBindingKind,
) -> Option<Seq<char>> {
    if !(0 <= i < symbols.len()) {
        None
    } else {
        match symbols[i].binding_name {
            None => None,
            Some(n) => match mode {
                ElementIdentifierMode::Flat => Some(n@),
                ElementIdentifierMode::Deferred => None,
                ElementIdentifierMode::Hierarchical => match names_above(symbols, i, family) {
                    Some(ns) => Some(join_seq(ns.push(n@), seq!['.'])),
                    None => None,
                },
            },
        }
    }
}

/// An optional string taken by its view.
pub open spec fn opt_view(o: Option<String>) -> Option<Seq<char>> {
    match o {
        Some(s) => Some(s@),
        None => None,
    }
}

pub proof fn lemma_join_prepend(n: Seq<char>, segs: Seq<Seq<char>>, sep: Seq<char>)
    requires
        segs.len() >= 1,
    ensures
        join_seq(seq![n] + segs, sep) == n + sep + join_seq(segs, sep),
    decreases segs.len(),
{
    let all = seq![n] + segs;
    assert(all.len() >= 2);
    assert(all.last() == segs.last());
    assert(join_seq(all, sep) == join_seq(all.drop_last(), sep) + sep + all.last());
    if segs.len() == 1 {
        assert(join_seq(segs, sep) == segs[0]);
        assert(all.drop_last() =~= seq![n]);
        assert(join_seq(seq![n], sep) == n);
    } else {
        assert(all.drop_last() =~= seq![n] + segs.drop_last());
        lemma_join_prepend(n, segs.drop_last(), sep);
        assert(join_seq(segs, sep) == join_seq(segs.drop_last(), sep) + sep + segs.last());
        assert(n + sep + join_seq(segs.drop_last(), sep) + sep + segs.last() =~= n + sep + (join_seq(
            segs.drop_last(),
            sep,
        ) + sep + segs.last()));
    }
}

/// Builds the canonical key of one symbol for one binding family.
pub fn canonical_binding_key(
    symbols: &[Symbol],
    symbol_id: SymbolId,
    mode: ElementIdentifierMode,
    binding_kind: CanonicalBindingKind,
) -> (r: Option<String>)
    requires
        mode == ElementIdentifierMode::Hierarchical && symbol_id.0 < symbols@.len() ==> key_walk_ends(
            symbols@,
            symbol_id.0 as int,
            binding_kind,
        ),
    ensures
        opt_view(r) == canonical_key(symbols@, symbol_id.0 as int, mode, binding_kind),
{
    if symbol_id.0 >= symbols.len() {
        return None;
    }
    let symbol = &symbols[symbol_id.0];
    let binding_name = match &symbol.binding_name {
        Some(n) => n,
        None => {
            return None;
        },
    };
    match mode {
        ElementIdentifierMode::Flat => {
            return Some(binding_name.clone());
        },
        ElementIdentifierMode::Deferred => {
            return None;
        },
        ElementIdentifierMode::Hierarchical => {},
    }
    let ghost id = symbol_id.0 as int;
    let mut key = binding_name.clone();
    let ghost mut segs: Seq<Seq<char>> = seq![binding_name@];
    let mut cur: usize = symbol_id.0;
    let ghost mut fuel: nat = symbols@.len();
    proof {
        reveal(names_within);
        assert(join_seq(segs, seq!['.']) == binding_name@);
        assert(seq![binding_name@] =~= Seq::<Seq<char>>::empty().push(binding_name@));
    }
    loop
        invariant
            key_walk_ends_within(symbols@, cur as int, binding_kind, fuel),
            cur < symbols@.len(),
            0 <= id < symbols@.len(),
            id == symbol_id.0 as int,
            mode == ElementIdentifierMode::Hierarchical,
            segs.len() >= 1,
            key@ == join_seq(segs, seq!['.']),
            symbols@[id].binding_name matches Some(n) && canonical_key(
                symbols@,
                id,
                mode,
                binding_kind,
            ) == match names_above(symbols@, id, binding_kind) {
                Some(ns) => Some(join_seq(ns.push(n@), seq!['.'])),
                None => None,
            },
            match names_within(symbols@, cur as int, binding_kind, fuel) {
                Some(ns) => names_above(symbols@, id, binding_kind) matches Some(all) && all.push(
                    symbols@[id].binding_name->0@,
                ) == ns + segs,
                None => names_above(symbols@, id, binding_kind) is None,
            },
        decreases fuel,
    {
        proof {
            reveal(names_within);
        }
        let parent = symbols[cur].parent;
        assert(symbols@[cur as int].parent == parent);
        match parent {
            None => {
                proof {
                    assert(names_within(symbols@, cur as int, binding_kind, fuel) == Some(Seq::<Seq<char>>::empty()));
                    assert(Seq::<Seq<char>>::empty() + segs =~= segs);
                    let all = names_above(symbols@, id, binding_kind)->0;
                    assert(all.push(symbols@[id].binding_name->0@) == segs);
                }
                return Some(key);
            },
            Some(p) => {
                if p.0 >= symbols.len() {
                    assert(names_within(symbols@, cur as int, binding_kind, fuel) is None);
                    return None;
                }
                let ancestor = &symbols[p.0];
                if !binding_kind.allows(ancestor.kind) {
                    assert(names_within(symbols@, cur as int, binding_kind, fuel) is None);
                    return None;
                }
                match &ancestor.binding_name {
                    None => {
                        assert(names_within(symbols@, cur as int, binding_kind, fuel) is None);
                        return None;
                    },
                    Some(n) => {
                        let mut next = n.clone();
                        next.push('.');
                        next.append(key.as_str());
                        proof {
                            lemma_join_prepend(n@, segs, seq!['.']);
                            match names_within(symbols@, p.0 as int, binding_kind, (fuel - 1) as nat) {
                                Some(ns) => {
                                    assert(ns.push(n@) + segs =~= ns + (seq![n@] + segs));
                                },
                                None => {},
                            }
                            segs = seq![n@] + segs;
                            fuel = (fuel - 1) as nat;
                        }
                        key = next;
                        cur = p.0;
                    },
                }
            },
        }
    }
}

/// Returns the exact reference key for an element symbol under the supplied identifier mode.
pub fn canonical_element_binding_key(symbols: &[Symbol], symbol_id: SymbolId, mode: ElementIdentifierMode) -> (r:
    Option<String>)
    requires
        mode == ElementIdentifierMode::Hierarchical && symbol_id.0 < symbols@.len() ==> key_walk_ends(
            symbols@,
            symbol_id.0 as int,
            CanonicalBindingKind::Element,
        ),
    ensures
        opt_view(r) == (if symbol_id.0 < symbols@.len() && is_element_kind(
            symbols@[symbol_id.0 as int].kind,
        ) {
            canonical_key(symbols@, symbol_id.0 as int, mode, CanonicalBindingKind::Element)
        } else {
            None
        }),
{
    if symbol_id.0 >= symbols.len() || !symbols[symbol_id.0].kind.is_element() {
        return None;
    }
    canonical_binding_key(symbols, symbol_id, mode, CanonicalBindingKind::Element)
}

/// Returns the exact reference key for a deployment symbol under the supplied identifier mode.
pub fn canonical_deployment_binding_key(
    symbols: &[Symbol],
    symbol_id: SymbolId,
    mode: ElementIdentifierMode,
) -> (r: Option<String>)
    requires
        mode == ElementIdentifierMode::Hierarchical && symbol_id.0 < symbols@.len() ==> key_walk_ends(
            symbols@,
            symbol_id.0 as int,
            CanonicalBindingKind::Deployment,
        ),
    ensures
        opt_view(r) == (if symbol_id.0 < symbols@.len() && is_deployment_kind(
            symbols@[symbol_id.0 as int].kind,
        ) {
            canonical_key(symbols@, symbol_id.0 as int, mode, CanonicalBindingKind::Deployment)
        } else {
            None
        }),
{
    if symbol_id.0 >= symbols.len() || !symbols[symbol_id.0].kind.is_deployment() {
        return None;
    }
    canonical_binding_key(symbols, symbol_id, mode, CanonicalBindingKind::Deployment)
}

} // verus!
