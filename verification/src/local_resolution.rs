//! Resolving a reference against the symbols of its own document.

use vstd::prelude::*;

use crate::semantic::ElementDirectiveFact;
use crate::span::TextSpan;
use crate::symbols::{is_deployment_kind, is_element_kind, Reference, ReferenceTargetHint, Symbol, SymbolId, SymbolKind};
use crate::workspace::bindings::{
    canonical_deployment_binding_key, canonical_element_binding_key, canonical_key, opt_view, parents_precede,
    CanonicalBindingKind, ElementIdentifierMode,
};
use crate::workspace::resolve::{
    best_enclosing_directive, best_enclosing_symbol, contextual_prefix_seq, contextual_prefixes, dotted_all,
    element_and_deployment, hint_kinds, is_this_reference, lemma_best_enclosing_directive_bounds,
    narrowest_element_directive, narrowest_symbol_for_span, owner_from, strs,
    ContextualOwnerTarget,
};

verus! {

/// How a spelling resolves among one document's symbols.
#[derive(Debug, Clone, Copy, PartialEq, Eq, Structural)]
pub enum LocalResolution {
    /// Exactly one symbol matches; its position.
    Resolved(usize),
    /// No symbol matches.
    Unresolved,
    /// More than one symbol matches.
    Ambiguous,
}

/// Whether symbol `i`, looked up by its id, is an element whose canonical key is `raw`.
pub open spec fn element_match(symbols: Seq<Symbol>, i: int, raw: Seq<char>, mode: ElementIdentifierMode) -> bool {
    let id = symbols[i].id.0 as int;
    id < symbols.len() && is_element_kind(symbols[id].kind) && canonical_key(symbols, id, mode, CanonicalBindingKind::Element)
        == Some(raw)
}

/// Whether symbol `i`, looked up by its id, is a deployment symbol whose canonical key is `raw`.
pub open spec fn deployment_match(symbols: Seq<Symbol>, i: int, raw: Seq<char>, mode: ElementIdentifierMode) -> bool {
    let id = symbols[i].id.0 as int;
    id < symbols.len() && is_deployment_kind(symbols[id].kind) && canonical_key(
        symbols,
        id,
        mode,
        CanonicalBindingKind::Deployment,
    ) == Some(raw)
}

/// Whether symbol `i` is a relationship bound to `raw`.
pub open spec fn relationship_match(symbols: Seq<Symbol>, i: int, raw: Seq<char>) -> bool {
    symbols[i].kind == SymbolKind::Relationship && opt_view(symbols[i].binding_name) == Some(raw)
}

/// Whether symbol `i` is a target of spelling `raw` under `hint`.
pub open spec fn symbol_matches(symbols: Seq<Symbol>, i: int, hint: ReferenceTargetHint, raw: Seq<char>, mode: ElementIdentifierMode) -> bool {
    match hint {
        ReferenceTargetHint::Element => element_match(symbols, i, raw, mode),
        ReferenceTargetHint::ElementOrDeployment => element_match(symbols, i, raw, mode) || deployment_match(
            symbols,
            i,
            raw,
            mode,
        ),
        ReferenceTargetHint::Deployment => deployment_match(symbols, i, raw, mode),
        ReferenceTargetHint::Relationship => relationship_match(symbols, i, raw),
        ReferenceTargetHint::ElementOrRelationship => element_match(symbols, i, raw, mode) || relationship_match(
            symbols,
            i,
            raw,
        ),
    }
}

/// The positions below `n` of the symbols that match.
pub open spec fn matches_below(
    symbols: Seq<Symbol>,
    hint: ReferenceTargetHint,
    raw: Seq<char>,
    mode: ElementIdentifierMode,
    n: int,
) -> Seq<int>
    decreases n,
{
    if n <= 0 {
        Seq::empty()
    } else if symbol_matches(symbols, n - 1, hint, raw, mode) {
        matches_below(symbols, hint, raw, mode, n - 1).push(n - 1)
    } else {
        matches_below(symbols, hint, raw, mode, n - 1)
    }
}

/// How spelling `raw` resolves: the single match, none, or ambiguity.
pub open spec fn raw_resolution(symbols: Seq<Symbol>, hint: ReferenceTargetHint, raw: Seq<char>, mode: ElementIdentifierMode) -> LocalResolution {
    let m = matches_below(symbols, hint, raw, mode, symbols.len() as int);
    if m.len() == 0 {
        LocalResolution::Unresolved
    } else if m.len() == 1 {
        LocalResolution::Resolved(m[0] as usize)
    } else {
        LocalResolution::Ambiguous
    }
}

/// The resolution of the first of `cands` that does not come out unresolved.
pub open spec fn first_local(
    symbols: Seq<Symbol>,
    hint: ReferenceTargetHint,
    cands: Seq<Seq<char>>,
    mode: ElementIdentifierMode,
) -> LocalResolution
    decreases cands.len(),
{
    if cands.len() == 0 {
        LocalResolution::Unresolved
    } else if raw_resolution(symbols, hint, cands[0], mode) != LocalResolution::Unresolved {
        raw_resolution(symbols, hint, cands[0], mode)
    } else {
        first_local(symbols, hint, cands.drop_first(), mode)
    }
}

/// The contextual prefixes of symbol `c` for the families of `hint`.
pub open spec fn local_prefix_seq(symbols: Seq<Symbol>, c: int, mode: ElementIdentifierMode, hint: ReferenceTargetHint) -> Seq<
    Seq<char>,
> {
    if hint_kinds(hint).len() == 0 || !(0 <= c < symbols.len()) {
        Seq::empty()
    } else {
        contextual_prefix_seq(symbols, c, mode, hint_kinds(hint))
    }
}

/// Resolution of a reference prefixed by the keys of its containing symbol and its ancestors.
pub open spec fn symbol_context_local(symbols: Seq<Symbol>, reference: Reference, mode: ElementIdentifierMode) -> LocalResolution {
    match reference.containing_symbol {
        None => LocalResolution::Unresolved,
        Some(c) => first_local(
            symbols,
            reference.target_hint,
            dotted_all(local_prefix_seq(symbols, c.0 as int, mode, reference.target_hint), reference.raw_text@),
            mode,
        ),
    }
}

/// The narrowest directive whose span contains `span`, when there is one.
pub open spec fn enclosing_directive(directives: Seq<ElementDirectiveFact>, span: TextSpan) -> Option<ElementDirectiveFact> {
    let b = best_enclosing_directive(directives, span, directives.len() as int);
    if b < 0 {
        None
    } else {
        Some(directives[b])
    }
}

/// Every spelling of the target of directive `d`: its text, then each contextual prefix of
/// the symbol enclosing the directive joined to it.
pub open spec fn local_selector_cands(symbols: Seq<Symbol>, d: ElementDirectiveFact, mode: ElementIdentifierMode) -> Seq<
    Seq<char>,
> {
    let raw = d.target.normalized_text@;
    let b = best_enclosing_symbol(symbols, d.span, symbols.len() as int);
    if b < 0 {
        seq![raw]
    } else {
        let c = symbols[b].id.0 as int;
        if c < symbols.len() {
            seq![raw] + dotted_all(contextual_prefix_seq(symbols, c, mode, element_and_deployment()), raw)
        } else {
            seq![raw]
        }
    }
}

/// Whether a directive target is written as a selector (bare or identifier).
pub open spec fn bare_target(d: ElementDirectiveFact) -> bool {
    d.target.value_kind == crate::includes::DirectiveValueKind::BareValue || d.target.value_kind
        == crate::includes::DirectiveValueKind::Identifier
}

/// Resolution of a reference prefixed by each spelling of its enclosing `!element` target.
pub open spec fn selector_context_local(
    symbols: Seq<Symbol>,
    directives: Seq<ElementDirectiveFact>,
    reference: Reference,
    mode: ElementIdentifierMode,
) -> LocalResolution {
    match enclosing_directive(directives, reference.span) {
        None => LocalResolution::Unresolved,
        Some(d) => if !bare_target(d) {
            LocalResolution::Unresolved
        } else {
            first_local(symbols, reference.target_hint, dotted_all(local_selector_cands(symbols, d, mode), reference.raw_text@), mode)
        },
    }
}

/// The owner kind a `this` reference with this hint looks for.
pub open spec fn local_owner_target(hint: ReferenceTargetHint) -> Option<ContextualOwnerTarget> {
    match hint {
        ReferenceTargetHint::Element => Some(ContextualOwnerTarget::Element),
        ReferenceTargetHint::Deployment => Some(ContextualOwnerTarget::Deployment),
        _ => None,
    }
}

/// The hint matching an owner kind.
pub open spec fn owner_hint(t: ContextualOwnerTarget) -> ReferenceTargetHint {
    match t {
        ContextualOwnerTarget::Deployment => ReferenceTargetHint::Deployment,
        _ => ReferenceTargetHint::Element,
    }
}

/// The owner a `this` reference inside an `!element` directive resolves to, when it sits in one.
pub open spec fn selector_owner_local(
    symbols: Seq<Symbol>,
    directives: Seq<ElementDirectiveFact>,
    reference: Reference,
    mode: ElementIdentifierMode,
) -> Option<LocalResolution> {
    match enclosing_directive(directives, reference.span) {
        None => None,
        Some(d) => if !bare_target(d) {
            Some(LocalResolution::Unresolved)
        } else {
            match local_owner_target(reference.target_hint) {
                None => Some(LocalResolution::Unresolved),
                Some(t) => Some(first_local(symbols, owner_hint(t), local_selector_cands(symbols, d, mode), mode)),
            }
        },
    }
}

/// The nearest symbol from `start` outward whose kind fits the hint of `reference`.
pub open spec fn owner_walk_local(symbols: Seq<Symbol>, start: Option<SymbolId>, reference: Reference) -> LocalResolution {
    match local_owner_target(reference.target_hint) {
        None => LocalResolution::Unresolved,
        Some(t) => match start {
            None => LocalResolution::Unresolved,
            Some(s) => match owner_from(symbols, s.0 as int, t) {
                Some(o) => LocalResolution::Resolved(o as usize),
                None => LocalResolution::Unresolved,
            },
        },
    }
}

/// How a `this` endpoint resolves: through its `!element` directive when it sits in one, else
/// to the nearest fitting symbol from its containing (or narrowest enclosing) symbol outward.
pub open spec fn this_local(
    symbols: Seq<Symbol>,
    directives: Seq<ElementDirectiveFact>,
    reference: Reference,
    mode: ElementIdentifierMode,
) -> LocalResolution {
    match selector_owner_local(symbols, directives, reference, mode) {
        Some(r) => r,
        None => {
            let start = match reference.containing_symbol {
                Some(c) => Some(c),
                None => {
                    let b = best_enclosing_symbol(symbols, reference.span, symbols.len() as int);
                    if b < 0 {
                        None
                    } else {
                        Some(symbols[b].id)
                    }
                },
            };
            owner_walk_local(symbols, start, reference)
        },
    }
}

/// The position of the symbol a reference resolves to within its own document, if any.
pub open spec fn local_target(
    symbols: Seq<Symbol>,
    directives: Seq<ElementDirectiveFact>,
    reference: Reference,
    mode: ElementIdentifierMode,
) -> Option<int> {
    let r = if is_this_reference(reference) {
        this_local(symbols, directives, reference, mode)
    } else {
        match raw_resolution(symbols, reference.target_hint, reference.raw_text@, mode) {
            LocalResolution::Unresolved => match symbol_context_local(symbols, reference, mode) {
                LocalResolution::Unresolved => selector_context_local(symbols, directives, reference, mode),
                other => other,
            },
            other => other,
        }
    };
    match r {
        LocalResolution::Resolved(i) => Some(i as int),
        _ => None,
    }
}

pub proof fn lemma_matches_below_prefix(
    symbols: Seq<Symbol>,
    hint: ReferenceTargetHint,
    raw: Seq<char>,
    mode: ElementIdentifierMode,
    a: int,
    b: int,
)
    requires
        0 <= a <= b,
    ensures
        matches_below(symbols, hint, raw, mode, a).len() <= matches_below(symbols, hint, raw, mode, b).len(),
        forall|k: int|
            0 <= k < matches_below(symbols, hint, raw, mode, a).len() ==> #[trigger] matches_below(symbols, hint, raw, mode, a)[k]
                == matches_below(symbols, hint, raw, mode, b)[k],
        forall|k: int|
            0 <= k < matches_below(symbols, hint, raw, mode, b).len() ==> 0 <= #[trigger] matches_below(
                symbols,
                hint,
                raw,
                mode,
                b,
            )[k] < b,
    decreases b - a,
{
    if a < b {
        lemma_matches_below_prefix(symbols, hint, raw, mode, a, b - 1);
    } else {
        lemma_matches_below_bounds(symbols, hint, raw, mode, b);
    }
}

proof fn lemma_matches_below_bounds(symbols: Seq<Symbol>, hint: ReferenceTargetHint, raw: Seq<char>, mode: ElementIdentifierMode, n: int)
    ensures
        forall|k: int|
            0 <= k < matches_below(symbols, hint, raw, mode, n).len() ==> 0 <= #[trigger] matches_below(
                symbols,
                hint,
                raw,
                mode,
                n,
            )[k] < n,
    decreases n,
{
    if n > 0 {
        lemma_matches_below_bounds(symbols, hint, raw, mode, n - 1);
        let prev = matches_below(symbols, hint, raw, mode, n - 1);
        let cur = matches_below(symbols, hint, raw, mode, n);
        assert forall|k: int| 0 <= k < cur.len() implies 0 <= #[trigger] cur[k] < n by {
            if k < prev.len() {
                assert(cur[k] == prev[k]);
            }
        }
    }
}

/// Whether symbol `i` is a target of spelling `raw` under `hint`.
pub fn symbol_matches_reference_raw_text(
    symbols: &[Symbol],
    i: usize,
    hint: ReferenceTargetHint,
    raw: &str,
    mode: ElementIdentifierMode,
) -> (r: bool)
    requires
        parents_precede(symbols@),
        i < symbols@.len(),
    ensures
        r == symbol_matches(symbols@, i as int, hint, raw@, mode),
{
    let symbol = &symbols[i];
    let element = || -> (m: bool)
        ensures
            m == element_match(symbols@, i as int, raw@, mode),
        {
            proof {
                if symbol.id.0 < symbols@.len() {
                    crate::workspace::bindings::lemma_ordered_chain_ends(symbols@, symbol.id.0 as int);
                }
            }
            match canonical_element_binding_key(symbols, symbol.id, mode) {
                Some(k) => crate::text::str_eq(k.as_str(), raw),
                None => false,
            }
        };
    let deployment = || -> (m: bool)
        ensures
            m == deployment_match(symbols@, i as int, raw@, mode),
        {
            proof {
                if symbol.id.0 < symbols@.len() {
                    crate::workspace::bindings::lemma_ordered_chain_ends(symbols@, symbol.id.0 as int);
                }
            }
            match canonical_deployment_binding_key(symbols, symbol.id, mode) {
                Some(k) => crate::text::str_eq(k.as_str(), raw),
                None => false,
            }
        };
    let relationship = symbol.kind == SymbolKind::Relationship && match &symbol.binding_name {
        Some(b) => crate::text::str_eq(b.as_str(), raw),
        None => false,
    };
    match hint {
        ReferenceTargetHint::Element => element(),
        ReferenceTargetHint::ElementOrDeployment => element() || deployment(),
        ReferenceTargetHint::Deployment => deployment(),
        ReferenceTargetHint::Relationship => relationship,
        ReferenceTargetHint::ElementOrRelationship => element() || relationship,
    }
}

/// How spelling `raw` resolves among `symbols`: the single match, none, or ambiguity.
pub fn resolve_reference_raw_text(
    symbols: &[Symbol],
    hint: ReferenceTargetHint,
    raw: &str,
    mode: ElementIdentifierMode,
) -> (r: LocalResolution)
    requires
        parents_precede(symbols@),
    ensures
        r == raw_resolution(symbols@, hint, raw@, mode),
{
    let mut first: Option<usize> = None;
    let mut i: usize = 0;
    while i < symbols.len()
        invariant
            parents_precede(symbols@),
            i <= symbols@.len(),
            matches_below(symbols@, hint, raw@, mode, i as int).len() <= 1,
            match first {
                None => matches_below(symbols@, hint, raw@, mode, i as int).len() == 0,
                Some(f) => matches_below(symbols@, hint, raw@, mode, i as int).len() == 1 && matches_below(
                    symbols@,
                    hint,
                    raw@,
                    mode,
                    i as int,
                )[0] == f,
            },
        decreases symbols.len() - i,
    {
        if symbol_matches_reference_raw_text(symbols, i, hint, raw, mode) {
            if first.is_some() {
                proof {
                    lemma_matches_below_prefix(symbols@, hint, raw@, mode, i + 1, symbols@.len() as int);
                }
                return LocalResolution::Ambiguous;
            }
            first = Some(i);
        }
        i = i + 1;
    }
    match first {
        None => LocalResolution::Unresolved,
        Some(f) => {
            assert(f as int as usize == f);
            LocalResolution::Resolved(f)
        },
    }
}

/// The resolution of the first of `cands` that does not come out unresolved.
pub fn first_local_resolution(
    symbols: &[Symbol],
    hint: ReferenceTargetHint,
    cands: &Vec<String>,
    mode: ElementIdentifierMode,
) -> (r: LocalResolution)
    requires
        parents_precede(symbols@),
    ensures
        r == first_local(symbols@, hint, strs(cands@), mode),
{
    let ghost all = strs(cands@);
    let mut i: usize = 0;
    assert(all.skip(0) =~= all);
    while i < cands.len()
        invariant
            parents_precede(symbols@),
            all == strs(cands@),
            i <= cands@.len(),
            first_local(symbols@, hint, all, mode) == first_local(symbols@, hint, all.skip(i as int), mode),
        decreases cands.len() - i,
    {
        let r = resolve_reference_raw_text(symbols, hint, cands[i].as_str(), mode);
        proof {
            assert(all.skip(i as int)[0] == cands@[i as int]@);
            assert(all.skip(i as int).drop_first() =~= all.skip(i + 1));
        }
        if r != LocalResolution::Unresolved {
            return r;
        }
        i = i + 1;
    }
    assert(all.skip(i as int) =~= Seq::<Seq<char>>::empty());
    LocalResolution::Unresolved
}

fn binding_kinds_for(hint: ReferenceTargetHint) -> (r: Vec<CanonicalBindingKind>)
    ensures
        r@ == hint_kinds(hint),
{
    match hint {
        ReferenceTargetHint::Element => vec![CanonicalBindingKind::Element],
        ReferenceTargetHint::ElementOrDeployment => vec![CanonicalBindingKind::Element, CanonicalBindingKind::Deployment],
        ReferenceTargetHint::Deployment => vec![CanonicalBindingKind::Deployment],
        _ => Vec::new(),
    }
}

/// The contextual prefixes of symbol `c` for the families of `hint`.
pub fn contextual_reference_prefixes(symbols: &[Symbol], c: SymbolId, mode: ElementIdentifierMode, hint: ReferenceTargetHint) -> (r: Vec<
    String,
>)
    requires
        parents_precede(symbols@),
    ensures
        strs(r@) == local_prefix_seq(symbols@, c.0 as int, mode, hint),
{
    let kinds = binding_kinds_for(hint);
    if kinds.len() == 0 || c.0 >= symbols.len() {
        let r: Vec<String> = Vec::new();
        assert(strs(r@) =~= Seq::<Seq<char>>::empty());
        return r;
    }
    contextual_prefixes(symbols, c, mode, kinds.as_slice())
}

/// Each of `prefixes` joined to `raw` with a dot.
pub fn dotted_candidates(prefixes: &Vec<String>, raw: &str) -> (r: Vec<String>)
    ensures
        strs(r@) == dotted_all(strs(prefixes@), raw@),
{
    let mut r: Vec<String> = Vec::new();
    let mut i: usize = 0;
    while i < prefixes.len()
        invariant
            i <= prefixes@.len(),
            strs(r@) == dotted_all(strs(prefixes@).take(i as int), raw@),
        decreases prefixes.len() - i,
    {
        let ghost before = strs(r@);
        r.push(crate::text::dotted(prefixes[i].as_str(), raw));
        proof {
            assert(strs(prefixes@).take(i + 1) =~= strs(prefixes@).take(i as int).push(prefixes@[i as int]@));
            assert(strs(r@) =~= before.push(r@.last()@));
            assert(dotted_all(strs(prefixes@).take(i + 1), raw@) =~= dotted_all(strs(prefixes@).take(i as int), raw@).push(
                prefixes@[i as int]@ + seq!['.'] + raw@,
            ));
        }
        i = i + 1;
    }
    assert(strs(prefixes@).take(prefixes@.len() as int) =~= strs(prefixes@));
    r
}

/// Resolves a reference prefixed by the keys of its containing symbol and its ancestors.
pub fn resolve_reference_with_symbol_context(symbols: &[Symbol], reference: &Reference, mode: ElementIdentifierMode) -> (r:
    LocalResolution)
    requires
        parents_precede(symbols@),
    ensures
        r == symbol_context_local(symbols@, *reference, mode),
{
    let c = match reference.containing_symbol {
        Some(c) => c,
        None => return LocalResolution::Unresolved,
    };
    let prefixes = contextual_reference_prefixes(symbols, c, mode, reference.target_hint);
    let cands = dotted_candidates(&prefixes, reference.raw_text.as_str());
    first_local_resolution(symbols, reference.target_hint, &cands, mode)
}

/// Every spelling of the target of `directive`.
pub fn selector_target_candidates(symbols: &[Symbol], directive: &ElementDirectiveFact, mode: ElementIdentifierMode) -> (r: Vec<
    String,
>)
    requires
        parents_precede(symbols@),
        directive.span.start_byte <= directive.span.end_byte,
    ensures
        strs(r@) == local_selector_cands(symbols@, *directive, mode),
{
    let raw_text = directive.target.normalized_text.as_str();
    let mut candidates: Vec<String> = Vec::new();
    candidates.push(raw_text.to_owned());
    assert(strs(candidates@) =~= seq![raw_text@]);
    let containing = match narrowest_symbol_for_span(symbols, directive.span) {
        Some(c) => c,
        None => return candidates,
    };
    if containing.0 >= symbols.len() {
        return candidates;
    }
    let kinds = vec![CanonicalBindingKind::Element, CanonicalBindingKind::Deployment];
    assert(kinds@ =~= element_and_deployment());
    let prefixes = contextual_prefixes(symbols, containing, mode, kinds.as_slice());
    let dotted = dotted_candidates(&prefixes, raw_text);
    let mut i: usize = 0;
    while i < dotted.len()
        invariant
            i <= dotted@.len(),
            strs(candidates@) == seq![raw_text@] + strs(dotted@).take(i as int),
        decreases dotted.len() - i,
    {
        let ghost before = strs(candidates@);
        candidates.push(dotted[i].clone());
        proof {
            assert(strs(dotted@).take(i + 1) =~= strs(dotted@).take(i as int).push(dotted@[i as int]@));
            assert(strs(candidates@) =~= before.push(dotted@[i as int]@));
        }
        i = i + 1;
    }
    assert(strs(dotted@).take(dotted@.len() as int) =~= strs(dotted@));
    candidates
}

fn is_bare_target(d: &ElementDirectiveFact) -> (r: bool)
    ensures
        r == bare_target(*d),
{
    d.target.value_kind.is_bare_or_identifier()
}

/// Resolves a reference prefixed by each spelling of its enclosing `!element` target.
pub fn resolve_reference_with_selector_context(
    symbols: &[Symbol],
    directives: &[ElementDirectiveFact],
    reference: &Reference,
    mode: ElementIdentifierMode,
) -> (r: LocalResolution)
    requires
        parents_precede(symbols@),
        reference.span.start_byte <= reference.span.end_byte,
    ensures
        r == selector_context_local(symbols@, directives@, *reference, mode),
{
    let directive = match narrowest_element_directive(directives, reference.span) {
        Some(d) => d,
        None => return LocalResolution::Unresolved,
    };
    proof {
        lemma_best_enclosing_directive_bounds(directives@, reference.span, directives@.len() as int);
    }
    if !is_bare_target(directive) {
        return LocalResolution::Unresolved;
    }
    let cands = selector_target_candidates(symbols, directive, mode);
    let dotted = dotted_candidates(&cands, reference.raw_text.as_str());
    first_local_resolution(symbols, reference.target_hint, &dotted, mode)
}

/// The owner a `this` reference inside an `!element` directive resolves to, or `None` when it
/// sits in no directive.
pub fn resolve_selector_owner_target(
    symbols: &[Symbol],
    directives: &[ElementDirectiveFact],
    reference: &Reference,
    mode: ElementIdentifierMode,
) -> (r: Option<LocalResolution>)
    requires
        parents_precede(symbols@),
        reference.span.start_byte <= reference.span.end_byte,
    ensures
        r == selector_owner_local(symbols@, directives@, *reference, mode),
{
    let directive = match narrowest_element_directive(directives, reference.span) {
        Some(d) => d,
        None => return None,
    };
    proof {
        lemma_best_enclosing_directive_bounds(directives@, reference.span, directives@.len() as int);
    }
    if !is_bare_target(directive) {
        return Some(LocalResolution::Unresolved);
    }
    let hint = match reference.target_hint {
        ReferenceTargetHint::Element => ReferenceTargetHint::Element,
        ReferenceTargetHint::Deployment => ReferenceTargetHint::Deployment,
        _ => return Some(LocalResolution::Unresolved),
    };
    let cands = selector_target_candidates(symbols, directive, mode);
    Some(first_local_resolution(symbols, hint, &cands, mode))
}

/// The nearest symbol from `start` outward whose kind fits the hint of `reference`.
pub fn contextual_symbol_target(symbols: &[Symbol], start: Option<SymbolId>, reference: &Reference) -> (r: LocalResolution)
    requires
        parents_precede(symbols@),
    ensures
        r == owner_walk_local(symbols@, start, *reference),
{
    let target = match reference.target_hint {
        ReferenceTargetHint::Element => ContextualOwnerTarget::Element,
        ReferenceTargetHint::Deployment => ContextualOwnerTarget::Deployment,
        _ => return LocalResolution::Unresolved,
    };
    let mut cur: usize = match start {
        Some(s) => s.0,
        None => return LocalResolution::Unresolved,
    };
    loop
        invariant
            parents_precede(symbols@),
            local_owner_target(reference.target_hint) == Some(target),
            target != ContextualOwnerTarget::ElementOrDeployment,
            start matches Some(s) && owner_from(symbols@, s.0 as int, target) == owner_from(symbols@, cur as int, target),
        decreases cur,
    {
        if cur >= symbols.len() {
            return LocalResolution::Unresolved;
        }
        let symbol = &symbols[cur];
        let fits = match target {
            ContextualOwnerTarget::Deployment => symbol.kind.is_deployment(),
            _ => symbol.kind.is_element(),
        };
        if fits {
            return LocalResolution::Resolved(cur);
        }
        match symbol.parent {
            Some(p) => {
                cur = p.0;
            },
            None => return LocalResolution::Unresolved,
        }
    }
}

/// How a `this` endpoint resolves within its own document.
pub fn resolve_contextual_this_reference(
    symbols: &[Symbol],
    directives: &[ElementDirectiveFact],
    reference: &Reference,
    mode: ElementIdentifierMode,
) -> (r: LocalResolution)
    requires
        parents_precede(symbols@),
        reference.span.start_byte <= reference.span.end_byte,
    ensures
        r == this_local(symbols@, directives@, *reference, mode),
{
    if let Some(r) = resolve_selector_owner_target(symbols, directives, reference, mode) {
        return r;
    }
    let start = match reference.containing_symbol {
        Some(c) => Some(c),
        None => narrowest_symbol_for_span(symbols, reference.span),
    };
    contextual_symbol_target(symbols, start, reference)
}

/// The position of the symbol a reference resolves to within its own document, if any: `this`
/// endpoints resolve to their owner; other references by their raw text, then relative to
/// their containing symbols, then relative to their enclosing `!element` target. An ambiguous
/// spelling resolves to nothing.
pub fn resolve_local_reference(
    symbols: &[Symbol],
    directives: &[ElementDirectiveFact],
    reference: &Reference,
    mode: ElementIdentifierMode,
) -> (r: Option<usize>)
    requires
        parents_precede(symbols@),
        reference.span.start_byte <= reference.span.end_byte,
    ensures
        match r {
            Some(i) => local_target(symbols@, directives@, *reference, mode) == Some(i as int),
            None => local_target(symbols@, directives@, *reference, mode) is None,
        },
{
    let r = if crate::workspace::resolve::is_contextual_this_reference(reference) {
        resolve_contextual_this_reference(symbols, directives, reference, mode)
    } else {
        match resolve_reference_raw_text(symbols, reference.target_hint, reference.raw_text.as_str(), mode) {
            LocalResolution::Unresolved => match resolve_reference_with_symbol_context(symbols, reference, mode) {
                LocalResolution::Unresolved => resolve_reference_with_selector_context(symbols, directives, reference, mode),
                other => other,
            },
            other => other,
        }
    };
    match r {
        LocalResolution::Resolved(i) => Some(i),
        _ => None,
    }
}

proof fn lemma_raw_in_range(symbols: Seq<Symbol>, hint: ReferenceTargetHint, raw: Seq<char>, mode: ElementIdentifierMode)
    requires
        symbols.len() <= usize::MAX,
    ensures
        raw_resolution(symbols, hint, raw, mode) matches LocalResolution::Resolved(i) ==> i < symbols.len(),
{
    lemma_matches_below_bounds(symbols, hint, raw, mode, symbols.len() as int);
}

proof fn lemma_first_local_in_range(symbols: Seq<Symbol>, hint: ReferenceTargetHint, cands: Seq<Seq<char>>, mode: ElementIdentifierMode)
    requires
        symbols.len() <= usize::MAX,
    ensures
        first_local(symbols, hint, cands, mode) matches LocalResolution::Resolved(i) ==> i < symbols.len(),
    decreases cands.len(),
{
    if cands.len() > 0 {
        lemma_raw_in_range(symbols, hint, cands[0], mode);
        lemma_first_local_in_range(symbols, hint, cands.drop_first(), mode);
    }
}

proof fn lemma_owner_from_in_range(symbols: Seq<Symbol>, i: int, target: ContextualOwnerTarget)
    ensures
        owner_from(symbols, i, target) matches Some(o) ==> 0 <= o < symbols.len(),
    decreases i,
{
    if 0 <= i < symbols.len() {
        match symbols[i].parent {
            Some(p) => if 0 <= p.0 < i {
                lemma_owner_from_in_range(symbols, p.0 as int, target);
            },
            None => {},
        }
    }
}

/// A local target is always one of the document's symbols.
pub proof fn lemma_local_target_in_range(
    symbols: Seq<Symbol>,
    directives: Seq<ElementDirectiveFact>,
    reference: Reference,
    mode: ElementIdentifierMode,
)
    requires
        symbols.len() <= usize::MAX,
    ensures
        local_target(symbols, directives, reference, mode) matches Some(i) ==> 0 <= i < symbols.len(),
{
    lemma_raw_in_range(symbols, reference.target_hint, reference.raw_text@, mode);
    match reference.containing_symbol {
        Some(c) => {
            lemma_first_local_in_range(
                symbols,
                reference.target_hint,
                dotted_all(local_prefix_seq(symbols, c.0 as int, mode, reference.target_hint), reference.raw_text@),
                mode,
            );
            lemma_owner_from_in_range(symbols, c.0 as int, ContextualOwnerTarget::Element);
            lemma_owner_from_in_range(symbols, c.0 as int, ContextualOwnerTarget::Deployment);
        },
        None => {
            let b = best_enclosing_symbol(symbols, reference.span, symbols.len() as int);
            if b >= 0 {
                lemma_owner_from_in_range(symbols, symbols[b].id.0 as int, ContextualOwnerTarget::Element);
                lemma_owner_from_in_range(symbols, symbols[b].id.0 as int, ContextualOwnerTarget::Deployment);
            }
        },
    }
    match enclosing_directive(directives, reference.span) {
        Some(d) => {
            lemma_first_local_in_range(
                symbols,
                reference.target_hint,
                dotted_all(local_selector_cands(symbols, d, mode), reference.raw_text@),
                mode,
            );
            lemma_first_local_in_range(symbols, ReferenceTargetHint::Element, local_selector_cands(symbols, d, mode), mode);
            lemma_first_local_in_range(symbols, ReferenceTargetHint::Deployment, local_selector_cands(symbols, d, mode), mode);
        },
        None => {},
    }
}

} // verus!
