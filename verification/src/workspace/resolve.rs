//! Workspace reference resolution: enclosing scopes, contextual prefixes, `!element` selectors.

use vstd::prelude::*;

use crate::semantic::ElementDirectiveFact;
use crate::snapshot::DocumentId;
use crate::span::{spec_span_within, span_within, TextSpan};
use crate::includes::DirectiveValueKind;
use crate::symbols::{
    is_deployment_kind, is_element_kind, Reference, ReferenceKind, ReferenceTargetHint, Symbol, SymbolId, SymbolKind,
};
use crate::workspace::bindings::{
    allows_ancestor, canonical_binding_key, canonical_key, parents_precede, CanonicalBindingKind,
    ElementIdentifierMode,
};
use crate::workspace::index::{
    documents_well_formed, facts_well_formed, find_doc_index, find_document, lemma_find_doc_index,
    WorkspaceBindingTables, WorkspaceSemanticDocumentFacts,
};
use crate::workspace::model::{Resolution, ReferenceResolutionStatus, SymbolHandle};
use crate::workspace::tables::{
    resolve_in, resolve_in_either, resolve_reference_against_binding_table,
    resolve_reference_against_element_or_deployment_tables, resolve_reference_against_element_table,
    resolve_view_include_reference,
};

verus! {

/// The byte length of a span.
pub open spec fn span_len(s: TextSpan) -> int {
    s.end_byte - s.start_byte
}

/// Index of the first narrowest of the first `n` symbols whose span contains `span`, or -1.
pub open spec fn best_enclosing_symbol(symbols: Seq<Symbol>, span: TextSpan, n: int) -> int
    decreases n,
{
    if n <= 0 {
        -1
    } else {
        let b = best_enclosing_symbol(symbols, span, n - 1);
        if spec_span_within(symbols[n - 1].span, span) && (b < 0 || span_len(symbols[n - 1].span)
            < span_len(symbols[b].span)) {
            n - 1
        } else {
            b
        }
    }
}

pub proof fn lemma_best_enclosing_symbol_bounds(symbols: Seq<Symbol>, span: TextSpan, n: int)
    requires
        0 <= n <= symbols.len(),
    ensures
        -1 <= best_enclosing_symbol(symbols, span, n) < n,
        best_enclosing_symbol(symbols, span, n) >= 0 ==> spec_span_within(
            symbols[best_enclosing_symbol(symbols, span, n)].span,
            span,
        ),
    decreases n,
{
    if n > 0 {
        lemma_best_enclosing_symbol_bounds(symbols, span, n - 1);
    }
}

/// The narrowest symbol (first among equals) whose span contains `span`.
pub fn enclosing_symbol_for_span(document: &WorkspaceSemanticDocumentFacts, span: TextSpan) -> (r: Option<
    SymbolId,
>)
    requires
        span.start_byte <= span.end_byte,
    ensures
        match r {
            Some(id) => best_enclosing_symbol(document.symbols@, span, document.symbols@.len() as int)
                >= 0 && id == document.symbols@[best_enclosing_symbol(
                document.symbols@,
                span,
                document.symbols@.len() as int,
            )].id,
            None => best_enclosing_symbol(document.symbols@, span, document.symbols@.len() as int) < 0,
        },
{
    narrowest_symbol_for_span(document.symbols.as_slice(), span)
}

/// The narrowest of `symbols` (first among equals) whose span contains `span`.
pub fn narrowest_symbol_for_span(symbols: &[Symbol], span: TextSpan) -> (r: Option<SymbolId>)
    requires
        span.start_byte <= span.end_byte,
    ensures
        match r {
            Some(id) => best_enclosing_symbol(symbols@, span, symbols@.len() as int) >= 0 && id
                == symbols@[best_enclosing_symbol(symbols@, span, symbols@.len() as int)].id,
            None => best_enclosing_symbol(symbols@, span, symbols@.len() as int) < 0,
        },
{
    let mut best: usize = 0;
    let mut found = false;
    let mut i: usize = 0;
    while i < symbols.len()
        invariant
            i <= symbols@.len(),
            span.start_byte <= span.end_byte,
            found ==> best < i && best_enclosing_symbol(symbols@, span, i as int) == best as int,
            !found ==> best_enclosing_symbol(symbols@, span, i as int) < 0,
        decreases symbols.len() - i,
    {
        proof {
            lemma_best_enclosing_symbol_bounds(symbols@, span, i as int);
        }
        let candidate = symbols[i].span;
        if span_within(candidate, span) {
            let len = candidate.end_byte - candidate.start_byte;
            if !found || len < symbols[best].span.end_byte - symbols[best].span.start_byte {
                best = i;
                found = true;
            }
        }
        i = i + 1;
    }
    if found {
        Some(symbols[best].id)
    } else {
        None
    }
}

/// Index of the first narrowest of the first `n` directives whose span contains `span`, or -1.
pub open spec fn best_enclosing_directive(directives: Seq<ElementDirectiveFact>, span: TextSpan, n: int) -> int
    decreases n,
{
    if n <= 0 {
        -1
    } else {
        let b = best_enclosing_directive(directives, span, n - 1);
        if spec_span_within(directives[n - 1].span, span) && (b < 0 || span_len(directives[n - 1].span)
            < span_len(directives[b].span)) {
            n - 1
        } else {
            b
        }
    }
}

pub proof fn lemma_best_enclosing_directive_bounds(directives: Seq<ElementDirectiveFact>, span: TextSpan, n: int)
    requires
        0 <= n <= directives.len(),
    ensures
        -1 <= best_enclosing_directive(directives, span, n) < n,
        best_enclosing_directive(directives, span, n) >= 0 ==> spec_span_within(
            directives[best_enclosing_directive(directives, span, n)].span,
            span,
        ),
    decreases n,
{
    if n > 0 {
        lemma_best_enclosing_directive_bounds(directives, span, n - 1);
    }
}

/// The narrowest `!element` directive (first among equals) whose span contains `span`.
pub fn enclosing_element_directive(document: &WorkspaceSemanticDocumentFacts, span: TextSpan) -> (r: Option<
    &ElementDirectiveFact,
>)
    requires
        span.start_byte <= span.end_byte,
    ensures
        match r {
            Some(d) => best_enclosing_directive(
                document.element_directives@,
                span,
                document.element_directives@.len() as int,
            ) >= 0 && *d == document.element_directives@[best_enclosing_directive(
                document.element_directives@,
                span,
                document.element_directives@.len() as int,
            )],
            None => best_enclosing_directive(
                document.element_directives@,
                span,
                document.element_directives@.len() as int,
            ) < 0,
        },
{
    narrowest_element_directive(document.element_directives.as_slice(), span)
}

/// The narrowest of `directives` (first among equals) whose span contains `span`.
pub fn narrowest_element_directive(directives: &[ElementDirectiveFact], span: TextSpan) -> (r: Option<&ElementDirectiveFact>)
    requires
        span.start_byte <= span.end_byte,
    ensures
        match r {
            Some(d) => best_enclosing_directive(directives@, span, directives@.len() as int) >= 0 && *d
                == directives@[best_enclosing_directive(directives@, span, directives@.len() as int)],
            None => best_enclosing_directive(directives@, span, directives@.len() as int) < 0,
        },
{
    let mut best: usize = 0;
    let mut found = false;
    let mut i: usize = 0;
    while i < directives.len()
        invariant
            i <= directives@.len(),
            span.start_byte <= span.end_byte,
            found ==> best < i && best_enclosing_directive(directives@, span, i as int) == best as int,
            !found ==> best_enclosing_directive(directives@, span, i as int) < 0,
        decreases directives.len() - i,
    {
        proof {
            lemma_best_enclosing_directive_bounds(directives@, span, i as int);
        }
        let candidate = directives[i].span;
        if span_within(candidate, span) {
            let len = candidate.end_byte - candidate.start_byte;
            if !found || len < directives[best].span.end_byte - directives[best].span.start_byte {
                best = i;
                found = true;
            }
        }
        i = i + 1;
    }
    if found {
        Some(&directives[best])
    } else {
        None
    }
}

/// Strings taken by their views.
pub open spec fn strs(v: Seq<String>) -> Seq<Seq<char>> {
    v.map_values(|s: String| s@)
}

/// The canonical keys of symbol `i` for each family of `kinds`, in order, where one exists.
pub open spec fn keys_at(
    symbols: Seq<Symbol>,
    i: int,
    mode: ElementIdentifierMode,
    kinds: Seq<CanonicalBindingKind>,
) -> Seq<Seq<char>>
    decreases kinds.len(),
{
    if kinds.len() == 0 {
        Seq::empty()
    } else {
        let rest = keys_at(symbols, i, mode, kinds.drop_last());
        match canonical_key(symbols, i, mode, kinds.last()) {
            Some(k) => rest.push(k),
            None => rest,
        }
    }
}

/// The contextual prefixes from symbol `i` outward: the keys of `i`, then of its parent, and so
/// on to the outermost ancestor.
pub open spec fn contextual_prefix_seq(
    symbols: Seq<Symbol>,
    i: int,
    mode: ElementIdentifierMode,
    kinds: Seq<CanonicalBindingKind>,
) -> Seq<Seq<char>>
    decreases i,
{
    if !(0 <= i < symbols.len()) {
        Seq::empty()
    } else {
        keys_at(symbols, i, mode, kinds) + match symbols[i].parent {
            Some(p) => if 0 <= p.0 < i {
                contextual_prefix_seq(symbols, p.0 as int, mode, kinds)
            } else {
                Seq::empty()
            },
            None => Seq::empty(),
        }
    }
}

/// Collects the canonical keys of symbol `i` for each family of `kinds`.
fn keys_for_symbol(
    symbols: &[Symbol],
    i: SymbolId,
    mode: ElementIdentifierMode,
    kinds: &[CanonicalBindingKind],
    out: &mut Vec<String>,
)
    requires
        parents_precede(symbols@),
    ensures
        strs(final(out)@) == strs(old(out)@) + keys_at(symbols@, i.0 as int, mode, kinds@),
{
    let mut j: usize = 0;
    assert(kinds@.take(0) =~= Seq::<CanonicalBindingKind>::empty());
    assert(strs(out@) =~= strs(old(out)@) + Seq::<Seq<char>>::empty());
    while j < kinds.len()
        invariant
            parents_precede(symbols@),
            j <= kinds@.len(),
            strs(out@) == strs(old(out)@) + keys_at(symbols@, i.0 as int, mode, kinds@.take(j as int)),
        decreases kinds.len() - j,
    {
        assert(kinds@.take(j + 1).drop_last() =~= kinds@.take(j as int));
        assert(kinds@.take(j + 1).last() == kinds@[j as int]);
        let ghost before = out@;
        proof {
            if i.0 < symbols@.len() {
                crate::workspace::bindings::lemma_ordered_chain_ends(symbols@, i.0 as int);
            }
        }
        match canonical_binding_key(symbols, i, mode, kinds[j]) {
            Some(key) => {
                out.push(key);
                assert(strs(out@) =~= strs(before).push(out@.last()@));
            },
            None => {},
        }
        j = j + 1;
    }
    assert(kinds@.take(kinds@.len() as int) =~= kinds@);
}

/// The canonical keys of `containing_symbol` and each of its ancestors for the given families,
/// innermost first.
pub fn contextual_prefixes(
    symbols: &[Symbol],
    containing_symbol: SymbolId,
    mode: ElementIdentifierMode,
    binding_kinds: &[CanonicalBindingKind],
) -> (r: Vec<String>)
    requires
        parents_precede(symbols@),
        containing_symbol.0 < symbols@.len(),
    ensures
        strs(r@) == contextual_prefix_seq(symbols@, containing_symbol.0 as int, mode, binding_kinds@),
{
    let mut prefixes: Vec<String> = Vec::new();
    let mut cur: usize = containing_symbol.0;
    assert(strs(prefixes@) =~= Seq::<Seq<char>>::empty());
    loop
        invariant
            parents_precede(symbols@),
            cur < symbols@.len(),
            contextual_prefix_seq(symbols@, containing_symbol.0 as int, mode, binding_kinds@) == strs(prefixes@)
                + contextual_prefix_seq(symbols@, cur as int, mode, binding_kinds@),
        decreases cur,
    {
        let ghost before = strs(prefixes@);
        keys_for_symbol(symbols, SymbolId(cur), mode, binding_kinds, &mut prefixes);
        let parent = symbols[cur].parent;
        assert(symbols@[cur as int].parent == parent);
        match parent {
            Some(p) => {
                let ghost tail = contextual_prefix_seq(symbols@, p.0 as int, mode, binding_kinds@);
                assert(before + (keys_at(symbols@, cur as int, mode, binding_kinds@) + tail) =~= before
                    + keys_at(symbols@, cur as int, mode, binding_kinds@) + tail);
                cur = p.0;
            },
            None => {
                assert(before + (keys_at(symbols@, cur as int, mode, binding_kinds@) + Seq::<Seq<char>>::empty())
                    =~= before + keys_at(symbols@, cur as int, mode, binding_kinds@));
                return prefixes;
            },
        }
    }
}

/// The first mode recorded for document `d`.
pub open spec fn mode_of(modes: Seq<(DocumentId, ElementIdentifierMode)>, d: Seq<char>) -> Option<
    ElementIdentifierMode,
>
    decreases modes.len(),
{
    if modes.len() == 0 {
        None
    } else if modes[0].0@ == d {
        Some(modes[0].1)
    } else {
        mode_of(modes.drop_first(), d)
    }
}

/// Looks up the element-identifier mode recorded for one document.
pub fn element_mode_for(modes: &[(DocumentId, ElementIdentifierMode)], d: &DocumentId) -> (r: Option<
    ElementIdentifierMode,
>)
    ensures
        r == mode_of(modes@, d@),
{
    let mut i: usize = 0;
    assert(modes@.skip(0) =~= modes@);
    while i < modes.len()
        invariant
            i <= modes@.len(),
            mode_of(modes@, d@) == mode_of(modes@.skip(i as int), d@),
        decreases modes.len() - i,
    {
        assert(modes@.skip(i as int)[0] == modes@[i as int]);
        assert(modes@.skip(i as int).drop_first() =~= modes@.skip(i + 1));
        if modes[i].0.same(d) {
            return Some(modes[i].1);
        }
        i = i + 1;
    }
    assert(modes@.skip(i as int) =~= Seq::<(DocumentId, ElementIdentifierMode)>::empty());
    None
}

/// The element and deployment families, in that order.
pub open spec fn element_and_deployment() -> Seq<CanonicalBindingKind> {
    seq![CanonicalBindingKind::Element, CanonicalBindingKind::Deployment]
}

/// Every candidate spelling of a selector target: the raw text, then each contextual prefix of
/// the enclosing symbol joined to it with a dot.
pub open spec fn selector_candidates(
    document: &WorkspaceSemanticDocumentFacts,
    directive: ElementDirectiveFact,
    tables: &WorkspaceBindingTables,
) -> Seq<Seq<char>> {
    let raw = directive.target.normalized_text@;
    let base = seq![raw];
    match mode_of(tables.element_modes@, document.document_id@) {
        None => base,
        Some(mode) => {
            let b = best_enclosing_symbol(document.symbols@, directive.span, document.symbols@.len() as int);
            if b < 0 {
                base
            } else {
                base + contextual_prefix_seq(
                    document.symbols@,
                    document.symbols@[b].id.0 as int,
                    mode,
                    element_and_deployment(),
                ).map_values(|p: Seq<char>| p + seq!['.'] + raw)
            }
        },
    }
}

/// Builds every candidate spelling of an `!element` selector target.
pub fn element_selector_target_candidates(
    document: &WorkspaceSemanticDocumentFacts,
    directive: &ElementDirectiveFact,
    bindings: &WorkspaceBindingTables,
) -> (r: Vec<String>)
    requires
        parents_precede(document.symbols@),
        forall|i: int| 0 <= i < document.symbols@.len() ==> (#[trigger] document.symbols@[i]).id.0 == i,
        directive.span.start_byte <= directive.span.end_byte,
    ensures
        strs(r@) == selector_candidates(document, *directive, bindings),
{
    let raw_text = directive.target.normalized_text.as_str();
    let mut candidates: Vec<String> = Vec::new();
    candidates.push(raw_text.to_owned());
    assert(strs(candidates@) =~= seq![raw_text@]);
    let mode = match element_mode_for(bindings.element_modes.as_slice(), &document.document_id) {
        Some(m) => m,
        None => {
            return candidates;
        },
    };
    let containing = match enclosing_symbol_for_span(document, directive.span) {
        Some(c) => c,
        None => {
            return candidates;
        },
    };
    proof {
        lemma_best_enclosing_symbol_bounds(document.symbols@, directive.span, document.symbols@.len() as int);
    }
    let kinds = vec![CanonicalBindingKind::Element, CanonicalBindingKind::Deployment];
    assert(kinds@ =~= element_and_deployment());
    let prefixes = contextual_prefixes(document.symbols.as_slice(), containing, mode, kinds.as_slice());
    let ghost pv = strs(prefixes@);
    let mut i: usize = 0;
    while i < prefixes.len()
        invariant
            i <= prefixes@.len(),
            pv == strs(prefixes@),
            strs(candidates@) == seq![raw_text@] + pv.take(i as int).map_values(|p: Seq<char>| p + seq!['.'] + raw_text@),
        decreases prefixes.len() - i,
    {
        let ghost before = strs(candidates@);
        candidates.push(crate::text::dotted(prefixes[i].as_str(), raw_text));
        proof {
            assert(pv[i as int] == prefixes@[i as int]@);
            assert(pv.take(i + 1).map_values(|p: Seq<char>| p + seq!['.'] + raw_text@) =~= pv.take(
                i as int,
            ).map_values(|p: Seq<char>| p + seq!['.'] + raw_text@).push(pv[i as int] + seq!['.'] + raw_text@));
            assert(strs(candidates@) =~= before.push(candidates@.last()@));
        }
        i = i + 1;
    }
    assert(pv.take(pv.len() as int) =~= pv);
    candidates
}

/// Resolution of a selector spelling against the element and deployment tables together.
pub open spec fn selector_resolution(tables: &WorkspaceBindingTables, k: Seq<char>) -> Resolution {
    resolve_in_either(
        tables.unique_elements@,
        tables.duplicate_elements@,
        tables.unique_deployments@,
        tables.duplicate_deployments@,
        k,
        Resolution::AmbiguousDuplicate,
    )
}

/// The outcome of the first candidate spelling that does not come back unresolved.
pub open spec fn first_selector_resolution(tables: &WorkspaceBindingTables, cands: Seq<Seq<char>>) -> Resolution
    decreases cands.len(),
{
    if cands.len() == 0 {
        Resolution::Unresolved
    } else {
        let r = selector_resolution(tables, cands[0]);
        if r is Unresolved {
            first_selector_resolution(tables, cands.drop_first())
        } else {
            r
        }
    }
}

/// Resolves raw selector text against the element and deployment tables together.
pub fn resolve_selector_target_handle_raw_text(raw_text: &str, bindings: &WorkspaceBindingTables) -> (r:
    ReferenceResolutionStatus)
    ensures
        r@ == selector_resolution(bindings, raw_text@),
{
    resolve_reference_against_element_or_deployment_tables(
        raw_text,
        bindings.unique_elements.as_slice(),
        bindings.duplicate_elements.as_slice(),
        bindings.unique_deployments.as_slice(),
        bindings.duplicate_deployments.as_slice(),
    )
}

/// Resolves an `!element` selector: the first candidate spelling that resolves or is ambiguous
/// decides; unresolved when none does.
pub fn resolve_element_selector_target_handle(
    document: &WorkspaceSemanticDocumentFacts,
    directive: &ElementDirectiveFact,
    bindings: &WorkspaceBindingTables,
) -> (r: ReferenceResolutionStatus)
    requires
        parents_precede(document.symbols@),
        forall|i: int| 0 <= i < document.symbols@.len() ==> (#[trigger] document.symbols@[i]).id.0 == i,
        directive.span.start_byte <= directive.span.end_byte,
    ensures
        r@ == first_selector_resolution(bindings, selector_candidates(document, *directive, bindings)),
{
    let candidates = element_selector_target_candidates(document, directive, bindings);
    let ghost cv = strs(candidates@);
    let mut i: usize = 0;
    assert(cv.skip(0) =~= cv);
    while i < candidates.len()
        invariant
            i <= candidates@.len(),
            cv == strs(candidates@),
            cv == selector_candidates(document, *directive, bindings),
            first_selector_resolution(bindings, cv) == first_selector_resolution(bindings, cv.skip(i as int)),
        decreases candidates.len() - i,
    {
        assert(cv.skip(i as int)[0] == candidates@[i as int]@);
        assert(cv.skip(i as int).drop_first() =~= cv.skip(i + 1));
        let status = resolve_selector_target_handle_raw_text(candidates[i].as_str(), bindings);
        if !status.is_unresolved() {
            assert(!(status@ is Unresolved));
            assert(first_selector_resolution(bindings, cv.skip(i as int)) == status@);
            return status;
        }
        i = i + 1;
    }
    assert(cv.skip(i as int) =~= Seq::<Seq<char>>::empty());
    ReferenceResolutionStatus::UnresolvedNoMatch
}


/// The UTF-8 encoded length of one character.
pub open spec fn utf8_len(c: char) -> int {
    if (c as u32) < 0x80 {
        1
    } else if (c as u32) < 0x800 {
        2
    } else if (c as u32) < 0x10000 {
        3
    } else {
        4
    }
}

/// The UTF-8 byte length of the first `k` characters of `s`.
pub open spec fn utf8_prefix_len(s: Seq<char>, k: int) -> int
    decreases k,
{
    if k <= 0 {
        0
    } else {
        utf8_prefix_len(s, k - 1) + utf8_len(s[k - 1])
    }
}

/// The number of dots among the first `k` characters of `s`.
pub open spec fn dots_before(s: Seq<char>, k: int) -> int
    decreases k,
{
    if k <= 0 {
        0
    } else {
        dots_before(s, k - 1) + if s[k - 1] == '.' {
            1int
        } else {
            0int
        }
    }
}

/// The number of whole characters of `s` that span exactly `n` bytes, if `n` falls on a
/// character boundary.
pub open spec fn chars_in_bytes(s: Seq<char>, n: int) -> Option<int> {
    if exists|k: int| 0 <= k <= s.len() && utf8_prefix_len(s, k) == n {
        Some(choose|k: int| 0 <= k <= s.len() && utf8_prefix_len(s, k) == n)
    } else {
        None
    }
}

pub proof fn lemma_utf8_prefix_monotone(s: Seq<char>, j: int, k: int)
    requires
        0 <= j <= k,
    ensures
        utf8_prefix_len(s, j) + (k - j) <= utf8_prefix_len(s, k),
    decreases k - j,
{
    if j < k {
        lemma_utf8_prefix_monotone(s, j, k - 1);
    }
}

/// The segment index of a selector reference: how many dots precede the end of the reference
/// within the selector's normalized text, when that end falls on a character boundary.
pub fn selector_segment_index(target: &crate::semantic::ValueFact, reference_span: TextSpan) -> (r: Option<usize>)
    ensures
        match r {
            Some(i) => reference_span.end_byte >= target.span.start_byte && (chars_in_bytes(
                target.normalized_text@,
                reference_span.end_byte - target.span.start_byte,
            ) matches Some(k) && i as int == dots_before(target.normalized_text@, k)),
            None => reference_span.end_byte < target.span.start_byte || chars_in_bytes(
                target.normalized_text@,
                reference_span.end_byte - target.span.start_byte,
            ) is None,
        },
{
    if reference_span.end_byte < target.span.start_byte {
        return None;
    }
    let prefix_end = reference_span.end_byte - target.span.start_byte;
    let chars = crate::text::chars_of(target.normalized_text.as_str());
    let ghost sv = target.normalized_text@;
    let mut bytes: u128 = 0;
    let mut dots: usize = 0;
    let mut k: usize = 0;
    while k < chars.len() && bytes < prefix_end as u128
        invariant
            chars@ == sv,
            k <= chars@.len(),
            bytes as int == utf8_prefix_len(sv, k as int),
            dots as int == dots_before(sv, k as int),
            dots <= k,
            bytes <= prefix_end + 4,
            forall|j: int| 0 <= j < k ==> utf8_prefix_len(sv, j) < prefix_end,
        decreases chars.len() - k,
    {
        let c = chars[k];
        let code = c as u32;
        let width: u128 = if code < 0x80 {
            1
        } else if code < 0x800 {
            2
        } else if code < 0x10000 {
            3
        } else {
            4
        };
        if c == '.' {
            dots = dots + 1;
        }
        bytes = bytes + width;
        k = k + 1;
    }
    proof {
        assert forall|j: int| 0 <= j <= chars@.len() && utf8_prefix_len(sv, j) == prefix_end implies j
            == k by {
            if j < k {
            } else if j > k {
                lemma_utf8_prefix_monotone(sv, k as int, j);
                if bytes < prefix_end {
                    assert(k == chars@.len());
                }
            }
        }
    }
    if bytes == prefix_end as u128 {
        proof {
            assert(utf8_prefix_len(sv, k as int) == prefix_end);
            let w = choose|j: int| 0 <= j <= sv.len() && utf8_prefix_len(sv, j) == prefix_end;
            assert(w == k);
        }
        Some(dots)
    } else {
        None
    }
}


/// The canonical family a symbol kind belongs to, if any.
pub open spec fn family_of(kind: SymbolKind) -> Option<CanonicalBindingKind> {
    if is_element_kind(kind) {
        Some(CanonicalBindingKind::Element)
    } else if is_deployment_kind(kind) {
        Some(CanonicalBindingKind::Deployment)
    } else {
        None
    }
}

/// The ancestors of symbol `i` (excluding `i`), outermost first, while they stay in `fam`.
pub open spec fn path_above(symbols: Seq<Symbol>, i: int, fam: CanonicalBindingKind) -> Option<Seq<usize>>
    decreases i,
{
    if !(0 <= i < symbols.len()) {
        None
    } else {
        match symbols[i].parent {
            None => Some(Seq::empty()),
            Some(p) => if 0 <= p.0 < i && allows_ancestor(fam, symbols[p.0 as int].kind) {
                match path_above(symbols, p.0 as int, fam) {
                    Some(ps) => Some(ps.push(p.0)),
                    None => None,
                }
            } else {
                None
            },
        }
    }
}

/// The path of symbol identifiers from the outermost ancestor down to `target`, when every
/// ancestor shares the target's family.
pub open spec fn symbol_path(symbols: Seq<Symbol>, target: usize) -> Option<Seq<usize>> {
    if target < symbols.len() {
        match family_of(symbols[target as int].kind) {
            Some(fam) => match path_above(symbols, target as int, fam) {
                Some(ps) => Some(ps.push(target)),
                None => None,
            },
            None => None,
        }
    } else {
        None
    }
}

/// The canonical family of a symbol kind.
fn canonical_binding_family(kind: SymbolKind) -> (r: Option<CanonicalBindingKind>)
    ensures
        r == family_of(kind),
{
    if kind.is_element() {
        Some(CanonicalBindingKind::Element)
    } else if kind.is_deployment() {
        Some(CanonicalBindingKind::Deployment)
    } else {
        None
    }
}

/// The identifiers on the canonical path to `target`, outermost first.
pub fn canonical_symbol_path(symbols: &[Symbol], target: SymbolId) -> (r: Option<Vec<SymbolId>>)
    requires
        parents_precede(symbols@),
    ensures
        match r {
            Some(p) => symbol_path(symbols@, target.0) == Some(p@.map_values(|s: SymbolId| s.0)),
            None => symbol_path(symbols@, target.0) is None,
        },
{
    if target.0 >= symbols.len() {
        return None;
    }
    let family = match canonical_binding_family(symbols[target.0].kind) {
        Some(f) => f,
        None => {
            return None;
        },
    };
    let mut rev: Vec<SymbolId> = Vec::new();
    rev.push(target);
    let mut cur: usize = target.0;
    let ghost mut tail: Seq<usize> = seq![target.0];
    assert(rev@.map_values(|s: SymbolId| s.0) =~= tail);
    loop
        invariant
            parents_precede(symbols@),
            cur < symbols@.len(),
            target.0 < symbols@.len(),
            family_of(symbols@[target.0 as int].kind) == Some(family),
            rev@.map_values(|s: SymbolId| s.0) == tail.reverse(),
            match path_above(symbols@, cur as int, family) {
                Some(ps) => path_above(symbols@, target.0 as int, family) matches Some(all) && all.push(
                    target.0,
                ) == ps + tail,
                None => path_above(symbols@, target.0 as int, family) is None,
            },
        decreases cur,
    {
        let parent = symbols[cur].parent;
        assert(symbols@[cur as int].parent == parent);
        match parent {
            None => {
                assert(path_above(symbols@, cur as int, family) == Some(Seq::<usize>::empty()));
                assert(Seq::<usize>::empty() + tail =~= tail);
                let mut out: Vec<SymbolId> = Vec::new();
                let mut j: usize = rev.len();
                assert(tail.len() == rev@.len()) by {
                    assert(rev@.map_values(|s: SymbolId| s.0).len() == rev@.len());
                }
                assert(out@.map_values(|s: SymbolId| s.0) =~= tail.subrange(0, 0));
                while j > 0
                    invariant
                        j <= rev@.len(),
                        out@.map_values(|s: SymbolId| s.0) == tail.subrange(0, (rev@.len() - j) as int),
                        rev@.map_values(|s: SymbolId| s.0) == tail.reverse(),
                        tail.len() == rev@.len(),
                    decreases j,
                {
                    let ghost old_out = out@;
                    out.push(rev[j - 1]);
                    proof {
                        let n = rev@.len();
                        assert(out@.map_values(|s: SymbolId| s.0) =~= old_out.map_values(|s: SymbolId| s.0).push(
                            rev@[j - 1].0,
                        ));
                        assert(rev@.map_values(|s: SymbolId| s.0)[j - 1] == rev@[j - 1].0);
                        assert(tail.reverse()[j - 1] == tail[n - j]);
                        assert(out@.map_values(|s: SymbolId| s.0) =~= tail.subrange(0, (n - j + 1) as int));
                    }
                    j = j - 1;
                }
                assert(tail.subrange(0, tail.len() as int) =~= tail);
                return Some(out);
            },
            Some(p) => {
                if !family.allows(symbols[p.0].kind) {
                    assert(path_above(symbols@, cur as int, family) is None);
                    return None;
                }
                rev.push(p);
                proof {
                    match path_above(symbols@, p.0 as int, family) {
                        Some(ps) => {
                            assert(ps.push(p.0) + tail =~= ps + (seq![p.0] + tail));
                        },
                        None => {},
                    }
                    assert((seq![p.0] + tail).reverse() =~= tail.reverse().push(p.0));
                    tail = seq![p.0] + tail;
                }
                cur = p.0;
            },
        }
    }
}

/// The kind of symbol a contextual `this` or `!element` owner must be.
#[derive(Debug, Clone, Copy, PartialEq, Eq, Structural)]
pub enum ContextualOwnerTarget {
    /// A model element.
    Element,
    /// A deployment-layer symbol.
    Deployment,
    /// Either of the two.
    ElementOrDeployment,
}

/// Whether a symbol kind can own a reference of the given target.
pub open spec fn owner_kind_matches(target: ContextualOwnerTarget, kind: SymbolKind) -> bool {
    match target {
        ContextualOwnerTarget::Element => is_element_kind(kind),
        ContextualOwnerTarget::Deployment => is_deployment_kind(kind),
        ContextualOwnerTarget::ElementOrDeployment => is_element_kind(kind) || is_deployment_kind(kind),
    }
}

/// The nearest of symbol `i` and its ancestors whose kind fits `target`.
pub open spec fn owner_from(symbols: Seq<Symbol>, i: int, target: ContextualOwnerTarget) -> Option<int>
    decreases i,
{
    if !(0 <= i < symbols.len()) {
        None
    } else if owner_kind_matches(target, symbols[i].kind) {
        Some(i)
    } else {
        match symbols[i].parent {
            Some(p) => if 0 <= p.0 < i {
                owner_from(symbols, p.0 as int, target)
            } else {
                None
            },
            None => None,
        }
    }
}

/// The handle of the nearest enclosing symbol, from `start_symbol` outward, of a fitting kind.
pub fn contextual_symbol_target_handle_for_owner(
    document: &WorkspaceSemanticDocumentFacts,
    start_symbol: Option<SymbolId>,
    target: ContextualOwnerTarget,
) -> (r: Option<SymbolHandle>)
    requires
        parents_precede(document.symbols@),
        start_symbol matches Some(s) ==> s.0 < document.symbols@.len(),
    ensures
        match start_symbol {
            None => r is None,
            Some(s) => match owner_from(document.symbols@, s.0 as int, target) {
                Some(o) => r matches Some(h) && h.document == document.document_id && h.symbol_id
                    == document.symbols@[o].id,
                None => r is None,
            },
        },
{
    let mut cur: usize = match start_symbol {
        Some(s) => s.0,
        None => {
            return None;
        },
    };
    loop
        invariant
            parents_precede(document.symbols@),
            cur < document.symbols@.len(),
            start_symbol matches Some(s) && owner_from(document.symbols@, s.0 as int, target) == owner_from(
                document.symbols@,
                cur as int,
                target,
            ),
        decreases cur,
    {
        let symbol = &document.symbols[cur];
        let matches = match target {
            ContextualOwnerTarget::Element => symbol.kind.is_element(),
            ContextualOwnerTarget::Deployment => symbol.kind.is_deployment(),
            ContextualOwnerTarget::ElementOrDeployment => symbol.kind.is_element()
                || symbol.kind.is_deployment(),
        };
        if matches {
            return Some(SymbolHandle::new(document.document_id.clone(), symbol.id));
        }
        assert(document.symbols@[cur as int].parent == symbol.parent);
        match symbol.parent {
            Some(p) => {
                cur = p.0;
            },
            None => {
                return None;
            },
        }
    }
}

/// Resolution of one candidate owner spelling for a contextual target.
pub open spec fn owner_candidate_resolution(
    tables: &WorkspaceBindingTables,
    target: ContextualOwnerTarget,
    k: Seq<char>,
) -> Resolution {
    match target {
        ContextualOwnerTarget::Element => resolve_in(tables.unique_elements@, tables.duplicate_elements@, k),
        ContextualOwnerTarget::Deployment => resolve_in(
            tables.unique_deployments@,
            tables.duplicate_deployments@,
            k,
        ),
        ContextualOwnerTarget::ElementOrDeployment => selector_resolution(tables, k),
    }
}

/// Resolves one candidate owner spelling for a contextual target.
pub fn resolve_contextual_selector_candidate(
    candidate: &str,
    target: ContextualOwnerTarget,
    bindings: &WorkspaceBindingTables,
) -> (r: ReferenceResolutionStatus)
    ensures
        r@ == owner_candidate_resolution(bindings, target, candidate@),
{
    match target {
        ContextualOwnerTarget::Element => resolve_reference_against_element_table(
            candidate,
            bindings.unique_elements.as_slice(),
            bindings.duplicate_elements.as_slice(),
        ),
        ContextualOwnerTarget::Deployment => resolve_reference_against_binding_table(
            candidate,
            bindings.unique_deployments.as_slice(),
            bindings.duplicate_deployments.as_slice(),
        ),
        ContextualOwnerTarget::ElementOrDeployment => resolve_selector_target_handle_raw_text(
            candidate,
            bindings,
        ),
    }
}

/// The outcome of the first candidate owner spelling that does not come back unresolved.
pub open spec fn first_owner_resolution(
    tables: &WorkspaceBindingTables,
    target: ContextualOwnerTarget,
    cands: Seq<Seq<char>>,
) -> Resolution
    decreases cands.len(),
{
    if cands.len() == 0 {
        Resolution::Unresolved
    } else {
        let r = owner_candidate_resolution(tables, target, cands[0]);
        if r is Unresolved {
            first_owner_resolution(tables, target, cands.drop_first())
        } else {
            r
        }
    }
}

/// Whether a selector's value form is one the binding tables can resolve.
pub open spec fn selector_form_supported(directive: ElementDirectiveFact) -> bool {
    directive.target.value_kind == DirectiveValueKind::BareValue || directive.target.value_kind
        == DirectiveValueKind::Identifier
}

/// Resolves the owner an `!element` block names for a contextual target.
pub fn resolve_element_selector_owner_resolution(
    document: &WorkspaceSemanticDocumentFacts,
    directive: &ElementDirectiveFact,
    target: ContextualOwnerTarget,
    bindings: &WorkspaceBindingTables,
) -> (r: ReferenceResolutionStatus)
    requires
        parents_precede(document.symbols@),
        forall|i: int| 0 <= i < document.symbols@.len() ==> (#[trigger] document.symbols@[i]).id.0 == i,
        directive.span.start_byte <= directive.span.end_byte,
    ensures
        r@ == (if selector_form_supported(*directive) {
            first_owner_resolution(bindings, target, selector_candidates(document, *directive, bindings))
        } else {
            Resolution::Unresolved
        }),
{
    if !directive.target.value_kind.is_bare_or_identifier() {
        return ReferenceResolutionStatus::UnresolvedNoMatch;
    }
    let candidates = element_selector_target_candidates(document, directive, bindings);
    let ghost cv = strs(candidates@);
    let mut i: usize = 0;
    assert(cv.skip(0) =~= cv);
    while i < candidates.len()
        invariant
            i <= candidates@.len(),
            cv == strs(candidates@),
            cv == selector_candidates(document, *directive, bindings),
            selector_form_supported(*directive),
            first_owner_resolution(bindings, target, cv) == first_owner_resolution(
                bindings,
                target,
                cv.skip(i as int),
            ),
        decreases candidates.len() - i,
    {
        assert(cv.skip(i as int)[0] == candidates@[i as int]@);
        assert(cv.skip(i as int).drop_first() =~= cv.skip(i + 1));
        let status = resolve_contextual_selector_candidate(candidates[i].as_str(), target, bindings);
        if !status.is_unresolved() {
            assert(!(status@ is Unresolved));
            assert(first_owner_resolution(bindings, target, cv.skip(i as int)) == status@);
            return status;
        }
        i = i + 1;
    }
    assert(cv.skip(i as int) =~= Seq::<Seq<char>>::empty());
    ReferenceResolutionStatus::UnresolvedNoMatch
}


/// How a contextual owner (`this`, or a relationship without an explicit source) resolves at
/// `span`: through the enclosing `!element` block when there is one, else through the nearest
/// enclosing symbol of a fitting kind from `start` outward.
pub open spec fn contextual_owner_spec(
    document: &WorkspaceSemanticDocumentFacts,
    span: TextSpan,
    start: Option<SymbolId>,
    target: ContextualOwnerTarget,
    tables: &WorkspaceBindingTables,
) -> Resolution {
    let d = best_enclosing_directive(document.element_directives@, span, document.element_directives@.len() as int);
    if d >= 0 {
        let dir = document.element_directives@[d];
        if selector_form_supported(dir) {
            first_owner_resolution(tables, target, selector_candidates(document, dir, tables))
        } else {
            Resolution::Unresolved
        }
    } else {
        match start {
            None => Resolution::Unresolved,
            Some(s) => match owner_from(document.symbols@, s.0 as int, target) {
                Some(o) => Resolution::Resolved((document.document_id@, document.symbols@[o].id.0)),
                None => Resolution::Unresolved,
            },
        }
    }
}

/// Resolves the contextual owner at `span`.
pub fn contextual_owner_resolution(
    document: &WorkspaceSemanticDocumentFacts,
    span: TextSpan,
    start_symbol: Option<SymbolId>,
    target: ContextualOwnerTarget,
    bindings: &WorkspaceBindingTables,
) -> (r: ReferenceResolutionStatus)
    requires
        facts_well_formed(document),
        span.start_byte <= span.end_byte,
        start_symbol matches Some(s) ==> s.0 < document.symbols@.len(),
    ensures
        r@ == contextual_owner_spec(document, span, start_symbol, target, bindings),
{
    match enclosing_element_directive(document, span) {
        Some(directive) => {
            proof {
                lemma_best_enclosing_directive_bounds(
                    document.element_directives@,
                    span,
                    document.element_directives@.len() as int,
                );
                let d = best_enclosing_directive(
                    document.element_directives@,
                    span,
                    document.element_directives@.len() as int,
                );
                assert(document.element_directives@[d].span.start_byte <= document.element_directives@[d].span.end_byte);
            }
            return resolve_element_selector_owner_resolution(document, directive, target, bindings);
        },
        None => {},
    }
    match contextual_symbol_target_handle_for_owner(document, start_symbol, target) {
        Some(h) => ReferenceResolutionStatus::Resolved(h),
        None => ReferenceResolutionStatus::UnresolvedNoMatch,
    }
}

/// Whether a reference is the contextual `this` of a relationship endpoint.
pub open spec fn is_this_reference(reference: Reference) -> bool {
    &&& reference.raw_text@ == "this"@
    &&& (reference.kind == ReferenceKind::RelationshipSource || reference.kind
        == ReferenceKind::RelationshipDestination || reference.kind
        == ReferenceKind::DeploymentRelationshipSource || reference.kind
        == ReferenceKind::DeploymentRelationshipDestination)
}

/// Decides whether a reference is the contextual `this` of a relationship endpoint.
pub fn is_contextual_this_reference(reference: &Reference) -> (r: bool)
    ensures
        r == is_this_reference(*reference),
{
    crate::text::str_eq(reference.raw_text.as_str(), "this") && match reference.kind {
        ReferenceKind::RelationshipSource | ReferenceKind::RelationshipDestination
        | ReferenceKind::DeploymentRelationshipSource
        | ReferenceKind::DeploymentRelationshipDestination => true,
        _ => false,
    }
}

/// The owner target implied by a reference's target hint.
pub open spec fn owner_target_of(hint: ReferenceTargetHint) -> Option<ContextualOwnerTarget> {
    match hint {
        ReferenceTargetHint::Element => Some(ContextualOwnerTarget::Element),
        ReferenceTargetHint::ElementOrDeployment => Some(ContextualOwnerTarget::ElementOrDeployment),
        ReferenceTargetHint::Deployment => Some(ContextualOwnerTarget::Deployment),
        _ => None,
    }
}

/// The owner target implied by a reference's target hint.
pub fn contextual_owner_target(hint: ReferenceTargetHint) -> (r: Option<ContextualOwnerTarget>)
    ensures
        r == owner_target_of(hint),
{
    match hint {
        ReferenceTargetHint::Element => Some(ContextualOwnerTarget::Element),
        ReferenceTargetHint::ElementOrDeployment => Some(ContextualOwnerTarget::ElementOrDeployment),
        ReferenceTargetHint::Deployment => Some(ContextualOwnerTarget::Deployment),
        _ => None,
    }
}

/// How a contextual `this` reference resolves.
pub open spec fn this_resolution(
    document: &WorkspaceSemanticDocumentFacts,
    reference: Reference,
    tables: &WorkspaceBindingTables,
) -> Resolution {
    let start = match reference.containing_symbol {
        Some(c) => Some(c),
        None => {
            let b = best_enclosing_symbol(document.symbols@, reference.span, document.symbols@.len() as int);
            if b >= 0 {
                Some(document.symbols@[b].id)
            } else {
                None
            }
        },
    };
    match owner_target_of(reference.target_hint) {
        None => Resolution::Unresolved,
        Some(t) => contextual_owner_spec(document, reference.span, start, t, tables),
    }
}

/// Resolves a contextual `this` reference to its owning declaration.
pub fn resolve_this_reference_status(
    document: &WorkspaceSemanticDocumentFacts,
    reference: &Reference,
    bindings: &WorkspaceBindingTables,
) -> (r: ReferenceResolutionStatus)
    requires
        facts_well_formed(document),
        reference.span.start_byte <= reference.span.end_byte,
        reference.containing_symbol matches Some(c) ==> c.0 < document.symbols@.len(),
    ensures
        r@ == this_resolution(document, *reference, bindings),
{
    let start_symbol = match reference.containing_symbol {
        Some(c) => Some(c),
        None => enclosing_symbol_for_span(document, reference.span),
    };
    proof {
        lemma_best_enclosing_symbol_bounds(document.symbols@, reference.span, document.symbols@.len() as int);
    }
    let target = match contextual_owner_target(reference.target_hint) {
        Some(t) => t,
        None => {
            return ReferenceResolutionStatus::UnresolvedNoMatch;
        },
    };
    contextual_owner_resolution(document, reference.span, start_symbol, target, bindings)
}

/// Resolution of raw text against the tables a target hint selects.
pub open spec fn hint_resolution(tables: &WorkspaceBindingTables, hint: ReferenceTargetHint, k: Seq<char>) -> Resolution {
    match hint {
        ReferenceTargetHint::Element => resolve_in(tables.unique_elements@, tables.duplicate_elements@, k),
        ReferenceTargetHint::ElementOrDeployment => selector_resolution(tables, k),
        ReferenceTargetHint::Deployment => resolve_in(tables.unique_deployments@, tables.duplicate_deployments@, k),
        ReferenceTargetHint::Relationship => resolve_in(
            tables.unique_relationships@,
            tables.duplicate_relationships@,
            k,
        ),
        ReferenceTargetHint::ElementOrRelationship => resolve_in_either(
            tables.unique_elements@,
            tables.duplicate_elements@,
            tables.unique_relationships@,
            tables.duplicate_relationships@,
            k,
            Resolution::AmbiguousElementVsRelationship,
        ),
    }
}

/// Resolves a reference's raw text against the tables its target hint selects.
pub fn resolve_reference_against_target_hint(reference: &Reference, bindings: &WorkspaceBindingTables) -> (r:
    ReferenceResolutionStatus)
    ensures
        r@ == hint_resolution(bindings, reference.target_hint, reference.raw_text@),
{
    let raw = reference.raw_text.as_str();
    match reference.target_hint {
        ReferenceTargetHint::Element => resolve_reference_against_element_table(
            raw,
            bindings.unique_elements.as_slice(),
            bindings.duplicate_elements.as_slice(),
        ),
        ReferenceTargetHint::ElementOrDeployment => resolve_selector_target_handle_raw_text(raw, bindings),
        ReferenceTargetHint::Deployment => resolve_reference_against_binding_table(
            raw,
            bindings.unique_deployments.as_slice(),
            bindings.duplicate_deployments.as_slice(),
        ),
        ReferenceTargetHint::Relationship => resolve_reference_against_binding_table(
            raw,
            bindings.unique_relationships.as_slice(),
            bindings.duplicate_relationships.as_slice(),
        ),
        ReferenceTargetHint::ElementOrRelationship => resolve_view_include_reference(
            raw,
            bindings.unique_elements.as_slice(),
            bindings.duplicate_elements.as_slice(),
            bindings.unique_relationships.as_slice(),
            bindings.duplicate_relationships.as_slice(),
        ),
    }
}

/// Resolution of a contextual spelling: relationship hints never resolve contextually.
pub open spec fn contextual_hint_resolution(
    tables: &WorkspaceBindingTables,
    hint: ReferenceTargetHint,
    k: Seq<char>,
) -> Resolution {
    match hint {
        ReferenceTargetHint::Relationship | ReferenceTargetHint::ElementOrRelationship => Resolution::Unresolved,
        _ => hint_resolution(tables, hint, k),
    }
}

/// The outcome of the first contextual spelling that does not come back unresolved.
pub open spec fn first_hint_resolution(
    tables: &WorkspaceBindingTables,
    hint: ReferenceTargetHint,
    cands: Seq<Seq<char>>,
) -> Resolution
    decreases cands.len(),
{
    if cands.len() == 0 {
        Resolution::Unresolved
    } else {
        let r = contextual_hint_resolution(tables, hint, cands[0]);
        if r is Unresolved {
            first_hint_resolution(tables, hint, cands.drop_first())
        } else {
            r
        }
    }
}

/// Each prefix joined to `raw` with a dot.
pub open spec fn dotted_all(prefixes: Seq<Seq<char>>, raw: Seq<char>) -> Seq<Seq<char>> {
    prefixes.map_values(|p: Seq<char>| p + seq!['.'] + raw)
}

/// Tries each prefix joined to `raw` in order and returns the first outcome that is not
/// unresolved.
fn first_contextual_resolution(
    prefixes: &Vec<String>,
    raw: &str,
    hint: ReferenceTargetHint,
    bindings: &WorkspaceBindingTables,
) -> (r: ReferenceResolutionStatus)
    ensures
        r@ == first_hint_resolution(bindings, hint, dotted_all(strs(prefixes@), raw@)),
{
    let ghost cv = dotted_all(strs(prefixes@), raw@);
    let mut i: usize = 0;
    assert(cv.skip(0) =~= cv);
    while i < prefixes.len()
        invariant
            i <= prefixes@.len(),
            cv == dotted_all(strs(prefixes@), raw@),
            first_hint_resolution(bindings, hint, cv) == first_hint_resolution(bindings, hint, cv.skip(i as int)),
        decreases prefixes.len() - i,
    {
        assert(cv.skip(i as int)[0] == prefixes@[i as int]@ + seq!['.'] + raw@);
        assert(cv.skip(i as int).drop_first() =~= cv.skip(i + 1));
        let candidate = crate::text::dotted(prefixes[i].as_str(), raw);
        let status = match hint {
            ReferenceTargetHint::Relationship | ReferenceTargetHint::ElementOrRelationship =>
                ReferenceResolutionStatus::UnresolvedNoMatch,
            ReferenceTargetHint::Element => resolve_reference_against_element_table(
                candidate.as_str(),
                bindings.unique_elements.as_slice(),
                bindings.duplicate_elements.as_slice(),
            ),
            ReferenceTargetHint::ElementOrDeployment => resolve_selector_target_handle_raw_text(
                candidate.as_str(),
                bindings,
            ),
            ReferenceTargetHint::Deployment => resolve_reference_against_binding_table(
                candidate.as_str(),
                bindings.unique_deployments.as_slice(),
                bindings.duplicate_deployments.as_slice(),
            ),
        };
        if !status.is_unresolved() {
            assert(!(status@ is Unresolved));
            assert(first_hint_resolution(bindings, hint, cv.skip(i as int)) == status@);
            return status;
        }
        i = i + 1;
    }
    assert(cv.skip(i as int) =~= Seq::<Seq<char>>::empty());
    ReferenceResolutionStatus::UnresolvedNoMatch
}

/// The families whose prefixes a target hint consults.
pub open spec fn hint_kinds(hint: ReferenceTargetHint) -> Seq<CanonicalBindingKind> {
    match hint {
        ReferenceTargetHint::Element => seq![CanonicalBindingKind::Element],
        ReferenceTargetHint::ElementOrDeployment => element_and_deployment(),
        ReferenceTargetHint::Deployment => seq![CanonicalBindingKind::Deployment],
        _ => Seq::empty(),
    }
}

/// How a reference resolves when prefixed by the canonical keys of its enclosing symbols.
pub open spec fn symbol_context_resolution(
    document: &WorkspaceSemanticDocumentFacts,
    reference: Reference,
    tables: &WorkspaceBindingTables,
) -> Resolution {
    match reference.containing_symbol {
        None => Resolution::Unresolved,
        Some(c) => match mode_of(tables.element_modes@, document.document_id@) {
            None => Resolution::Unresolved,
            Some(mode) => first_hint_resolution(
                tables,
                reference.target_hint,
                dotted_all(
                    contextual_prefix_seq(document.symbols@, c.0 as int, mode, hint_kinds(reference.target_hint)),
                    reference.raw_text@,
                ),
            ),
        },
    }
}

/// Resolves a reference relative to the canonical keys of its enclosing symbols.
pub fn resolve_reference_with_symbol_context(
    document: &WorkspaceSemanticDocumentFacts,
    reference: &Reference,
    bindings: &WorkspaceBindingTables,
) -> (r: ReferenceResolutionStatus)
    requires
        facts_well_formed(document),
        reference.containing_symbol matches Some(c) ==> c.0 < document.symbols@.len(),
    ensures
        r@ == symbol_context_resolution(document, *reference, bindings),
{
    let containing = match reference.containing_symbol {
        Some(c) => c,
        None => {
            return ReferenceResolutionStatus::UnresolvedNoMatch;
        },
    };
    let mode = match element_mode_for(bindings.element_modes.as_slice(), &document.document_id) {
        Some(m) => m,
        None => {
            return ReferenceResolutionStatus::UnresolvedNoMatch;
        },
    };
    let kinds: Vec<CanonicalBindingKind> = match reference.target_hint {
        ReferenceTargetHint::Element => vec![CanonicalBindingKind::Element],
        ReferenceTargetHint::ElementOrDeployment => vec![CanonicalBindingKind::Element, CanonicalBindingKind::Deployment],
        ReferenceTargetHint::Deployment => vec![CanonicalBindingKind::Deployment],
        _ => Vec::new(),
    };
    assert(kinds@ =~= hint_kinds(reference.target_hint));
    let prefixes = contextual_prefixes(document.symbols.as_slice(), containing, mode, kinds.as_slice());
    first_contextual_resolution(&prefixes, reference.raw_text.as_str(), reference.target_hint, bindings)
}

/// How a reference resolves when prefixed by the candidate spellings of its enclosing
/// `!element` selector.
pub open spec fn selector_context_resolution(
    document: &WorkspaceSemanticDocumentFacts,
    reference: Reference,
    tables: &WorkspaceBindingTables,
) -> Resolution {
    let d = best_enclosing_directive(
        document.element_directives@,
        reference.span,
        document.element_directives@.len() as int,
    );
    if d < 0 {
        Resolution::Unresolved
    } else {
        let dir = document.element_directives@[d];
        if !selector_form_supported(dir) {
            Resolution::Unresolved
        } else {
            first_hint_resolution(
                tables,
                reference.target_hint,
                dotted_all(selector_candidates(document, dir, tables), reference.raw_text@),
            )
        }
    }
}

/// Resolves a reference relative to the `!element` selector that encloses it.
pub fn resolve_reference_with_selector_context(
    document: &WorkspaceSemanticDocumentFacts,
    reference: &Reference,
    bindings: &WorkspaceBindingTables,
) -> (r: ReferenceResolutionStatus)
    requires
        facts_well_formed(document),
        reference.span.start_byte <= reference.span.end_byte,
    ensures
        r@ == selector_context_resolution(document, *reference, bindings),
{
    let directive = match enclosing_element_directive(document, reference.span) {
        Some(d) => d,
        None => {
            return ReferenceResolutionStatus::UnresolvedNoMatch;
        },
    };
    if !directive.target.value_kind.is_bare_or_identifier() {
        return ReferenceResolutionStatus::UnresolvedNoMatch;
    }
    proof {
        lemma_best_enclosing_directive_bounds(
            document.element_directives@,
            reference.span,
            document.element_directives@.len() as int,
        );
        let d = best_enclosing_directive(
            document.element_directives@,
            reference.span,
            document.element_directives@.len() as int,
        );
        assert(document.element_directives@[d].span.start_byte <= document.element_directives@[d].span.end_byte);
    }
    let candidates = element_selector_target_candidates(document, directive, bindings);
    first_contextual_resolution(&candidates, reference.raw_text.as_str(), reference.target_hint, bindings)
}


/// The handle of segment `idx` on the canonical path of the symbol `h` names.
pub open spec fn segment_handle_spec(
    h: (Seq<char>, usize),
    idx: int,
    docs: Seq<&WorkspaceSemanticDocumentFacts>,
) -> Option<(Seq<char>, usize)> {
    let a = find_doc_index(docs, h.0);
    if a < 0 {
        None
    } else {
        match symbol_path(docs[a].symbols@, h.1) {
            None => None,
            Some(p) => if 0 <= idx < p.len() {
                Some((h.0, p[idx]))
            } else {
                None
            },
        }
    }
}

/// The handle of one segment of a resolved selector target's canonical path.
pub fn selector_segment_handle(
    target: &SymbolHandle,
    segment_index: usize,
    documents: &[&WorkspaceSemanticDocumentFacts],
) -> (r: Option<SymbolHandle>)
    requires
        documents_well_formed(documents@),
    ensures
        match r {
            Some(h) => segment_handle_spec(target@, segment_index as int, documents@) == Some(h@),
            None => segment_handle_spec(target@, segment_index as int, documents@) is None,
        },
{
    let document = match find_document(documents, &target.document) {
        Some(d) => d,
        None => {
            return None;
        },
    };
    proof {
        lemma_find_doc_index(documents@, target.document@);
        assert(facts_well_formed(documents@[find_doc_index(documents@, target.document@)]));
    }
    let path = match canonical_symbol_path(document.symbols.as_slice(), target.symbol_id) {
        Some(p) => p,
        None => {
            return None;
        },
    };
    if segment_index < path.len() {
        assert(path@.map_values(|s: SymbolId| s.0)[segment_index as int] == path@[segment_index as int].0);
        Some(SymbolHandle::new(target.document.clone(), path[segment_index]))
    } else {
        None
    }
}

/// How one dotted segment of an `!element` selector resolves: the whole selector must resolve
/// first; the full target, or an undotted one, names the resolved symbol itself, and an inner
/// segment names the ancestor at that depth of the symbol's canonical path.
pub open spec fn segment_resolution(
    document: &WorkspaceSemanticDocumentFacts,
    reference: Reference,
    tables: &WorkspaceBindingTables,
    docs: Seq<&WorkspaceSemanticDocumentFacts>,
) -> Resolution {
    let d = best_enclosing_directive(
        document.element_directives@,
        reference.span,
        document.element_directives@.len() as int,
    );
    if d < 0 {
        Resolution::Unresolved
    } else {
        let dir = document.element_directives@[d];
        if !selector_form_supported(dir) {
            Resolution::Unresolved
        } else {
            match first_selector_resolution(tables, selector_candidates(document, dir, tables)) {
                Resolution::Resolved(h) => if reference.span == dir.target.span
                    || !dir.target.normalized_text@.contains('.') {
                    Resolution::Resolved(h)
                } else if reference.span.end_byte < dir.target.span.start_byte {
                    Resolution::Unresolved
                } else {
                    match chars_in_bytes(
                        dir.target.normalized_text@,
                        reference.span.end_byte - dir.target.span.start_byte,
                    ) {
                        None => Resolution::Unresolved,
                        Some(k) => match segment_handle_spec(
                            h,
                            dots_before(dir.target.normalized_text@, k),
                            docs,
                        ) {
                            Some(s) => Resolution::Resolved(s),
                            None => Resolution::Unresolved,
                        },
                    }
                },
                Resolution::Unresolved => Resolution::Unresolved,
                Resolution::Deferred => Resolution::Unresolved,
                _ => Resolution::AmbiguousDuplicate,
            }
        }
    }
}

/// Resolves one dotted segment of an `!element` selector target.
pub fn resolve_selector_segment_reference(
    document: &WorkspaceSemanticDocumentFacts,
    reference: &Reference,
    bindings: &WorkspaceBindingTables,
    documents: &[&WorkspaceSemanticDocumentFacts],
) -> (r: ReferenceResolutionStatus)
    requires
        facts_well_formed(document),
        documents_well_formed(documents@),
        reference.span.start_byte <= reference.span.end_byte,
    ensures
        r@ == segment_resolution(document, *reference, bindings, documents@),
{
    let directive = match enclosing_element_directive(document, reference.span) {
        Some(d) => d,
        None => {
            return ReferenceResolutionStatus::UnresolvedNoMatch;
        },
    };
    if !directive.target.value_kind.is_bare_or_identifier() {
        return ReferenceResolutionStatus::UnresolvedNoMatch;
    }
    proof {
        lemma_best_enclosing_directive_bounds(
            document.element_directives@,
            reference.span,
            document.element_directives@.len() as int,
        );
        let d = best_enclosing_directive(
            document.element_directives@,
            reference.span,
            document.element_directives@.len() as int,
        );
        assert(document.element_directives@[d].span.start_byte <= document.element_directives@[d].span.end_byte);
    }
    let resolved_target = match resolve_element_selector_target_handle(document, directive, bindings) {
        ReferenceResolutionStatus::Resolved(h) => h,
        ReferenceResolutionStatus::UnresolvedNoMatch => {
            return ReferenceResolutionStatus::UnresolvedNoMatch;
        },
        ReferenceResolutionStatus::DeferredByScopePolicy => {
            return ReferenceResolutionStatus::UnresolvedNoMatch;
        },
        _ => {
            return ReferenceResolutionStatus::AmbiguousDuplicateBinding;
        },
    };
    if reference.span == directive.target.span || !crate::text::contains_char(
        directive.target.normalized_text.as_str(),
        '.',
    ) {
        return ReferenceResolutionStatus::Resolved(resolved_target);
    }
    let segment_index = match selector_segment_index(&directive.target, reference.span) {
        Some(i) => i,
        None => {
            return ReferenceResolutionStatus::UnresolvedNoMatch;
        },
    };
    match selector_segment_handle(&resolved_target, segment_index, documents) {
        Some(h) => ReferenceResolutionStatus::Resolved(h),
        None => ReferenceResolutionStatus::UnresolvedNoMatch,
    }
}

/// How one reference resolves in a workspace instance: selector segments through their
/// selector, `this` through its owner, and everything else by its raw text under its target
/// hint, falling back to its enclosing symbols' keys and then to its enclosing selector.
pub open spec fn reference_status(
    document: &WorkspaceSemanticDocumentFacts,
    reference: Reference,
    tables: &WorkspaceBindingTables,
    docs: Seq<&WorkspaceSemanticDocumentFacts>,
) -> Resolution {
    if reference.kind == ReferenceKind::ElementSelectorTarget {
        segment_resolution(document, reference, tables, docs)
    } else if is_this_reference(reference) {
        this_resolution(document, reference, tables)
    } else {
        let direct = hint_resolution(tables, reference.target_hint, reference.raw_text@);
        if direct is Unresolved {
            let by_symbol = symbol_context_resolution(document, reference, tables);
            if by_symbol is Unresolved {
                selector_context_resolution(document, reference, tables)
            } else {
                by_symbol
            }
        } else {
            direct
        }
    }
}

/// Resolves one reference of a document against the instance's binding tables.
pub fn resolve_reference_status(
    document: &WorkspaceSemanticDocumentFacts,
    reference: &Reference,
    bindings: &WorkspaceBindingTables,
    documents: &[&WorkspaceSemanticDocumentFacts],
) -> (r: ReferenceResolutionStatus)
    requires
        facts_well_formed(document),
        documents_well_formed(documents@),
        reference.span.start_byte <= reference.span.end_byte,
        reference.containing_symbol matches Some(c) ==> c.0 < document.symbols@.len(),
    ensures
        r@ == reference_status(document, *reference, bindings, documents@),
{
    if reference.kind == ReferenceKind::ElementSelectorTarget {
        return resolve_selector_segment_reference(document, reference, bindings, documents);
    }
    if is_contextual_this_reference(reference) {
        return resolve_this_reference_status(document, reference, bindings);
    }
    let status = resolve_reference_against_target_hint(reference, bindings);
    if status.is_unresolved() {
        let contextual = resolve_reference_with_symbol_context(document, reference, bindings);
        if contextual.is_unresolved() {
            resolve_reference_with_selector_context(document, reference, bindings)
        } else {
            contextual
        }
    } else {
        status
    }
}

} // verus!
