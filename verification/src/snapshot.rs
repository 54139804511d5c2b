//! Document identities, inputs, and the syntax-level facts extracted from one document.

use vstd::prelude::*;

use crate::constants::ConstantDefinition;
use crate::diagnostics::RuledDiagnostic;
use crate::includes::IncludeDirective;
use crate::semantic::{
    ConfigurationScopeFact, ElementDirectiveFact, PropertyFact, RelationshipFact,
    ResourceDirectiveFact, ViewFact, WorkspaceSectionFact,
};
use crate::symbols::{IdentifierModeFact, Reference, Symbol};
use crate::syntax::SyntaxNode;
use crate::local_resolution::local_target;
use crate::extract::archetypes::{archetype_definitions, resolution_ok};
use crate::extract::diagnostics::{reports_issue, syntax_issues};
use crate::extract::modes::{describes_site, mode_sites, tree_tags};
use crate::extract::semantic_model::{
    element_directive_model, empty_semantic_state, property_model, relationship_model, resource_model,
    scope_fact_model, semantic_visit, view_model, SemanticState,
};
use crate::extract::symbol_model::{
    lemma_extraction_well_formed, reference_model, reference_models, symbol_model, symbol_models, visit_spec, ExtractState,
};
use crate::extract::symbols::empty_state;
use crate::includes::DirectiveContainer;
use crate::symbols::{SymbolId, SymbolKind};
use crate::workspace::resolve::strs;

verus! {

/// Stable caller-provided identifier for a document across analysis runs.
#[derive(Debug, PartialEq, Eq, Hash, PartialOrd, Ord)]
pub struct DocumentId(pub String);

impl Clone for DocumentId {
    fn clone(&self) -> (r: Self)
        ensures
            r == *self,
    {
        DocumentId(self.0.clone())
    }
}

impl View for DocumentId {
    type V = Seq<char>;

    open spec fn view(&self) -> Seq<char> {
        self.0@
    }
}

impl DocumentId {
    /// Creates a document identifier from a string.
    pub fn new(value: String) -> (r: Self)
        ensures
            r@ == value@,
    {
        DocumentId(value)
    }

    /// Returns the identifier as a borrowed string slice.
    pub fn as_str(&self) -> (r: &str)
        ensures
            r@ == self@,
    {
        self.0.as_str()
    }

    /// Whether two identifiers spell the same text.
    pub fn same(&self, other: &DocumentId) -> (r: bool)
        ensures
            r == (self@ == other@),
    {
        self.0 == other.0
    }
}


/// Filesystem location metadata attached to a document when available.
#[derive(Debug, PartialEq, Eq)]
pub struct DocumentLocation {
    /// The path backing this location.
    pub path: String,
}

impl Clone for DocumentLocation {
    fn clone(&self) -> (r: Self)
        ensures
            r == *self,
    {
        DocumentLocation { path: self.path.clone() }
    }
}

impl DocumentLocation {
    /// Creates a document location from a filesystem path.
    pub fn new(path: String) -> (r: Self)
        ensures
            r.path == path,
    {
        DocumentLocation { path }
    }

    /// Returns the path backing this location.
    pub fn path(&self) -> (r: &str)
        ensures
            r@ == self.path@,
    {
        self.path.as_str()
    }
}

/// Input required to analyze one Structurizr document.
#[derive(Debug, PartialEq, Eq)]
pub struct DocumentInput {
    /// The caller-provided document identifier.
    pub id: DocumentId,
    /// The optional filesystem location for this input.
    pub location: Option<DocumentLocation>,
    /// The full source text that will be analyzed.
    pub source: String,
}

impl DocumentInput {
    /// Creates a document input from a stable identifier and source text.
    pub fn new(id: DocumentId, source: String) -> (r: Self)
        ensures
            r.id == id,
            r.location is None,
            r.source == source,
    {
        DocumentInput { id, location: None, source }
    }

    /// Attaches filesystem location metadata to this input.
    pub fn with_location(self, location: DocumentLocation) -> (r: Self)
        ensures
            r.id == self.id,
            r.location == Some(location),
            r.source == self.source,
    {
        DocumentInput { id: self.id, location: Some(location), source: self.source }
    }

    /// Returns the caller-provided document identifier.
    pub fn id(&self) -> (r: &DocumentId)
        ensures
            *r == self.id,
    {
        &self.id
    }

    /// Returns the optional filesystem location for this input.
    pub fn location(&self) -> (r: Option<&DocumentLocation>)
        ensures
            match r {
                Some(l) => self.location == Some(*l),
                None => self.location is None,
            },
    {
        match &self.location {
            Some(l) => Some(l),
            None => None,
        }
    }

    /// Returns the full source text that will be analyzed.
    pub fn source(&self) -> (r: &str)
        ensures
            r@ == self.source@,
    {
        self.source.as_str()
    }
}

/// Stable syntax-level facts extracted from one analyzed document.
#[derive(Debug)]
pub struct DocumentSyntaxFacts {
    /// Whether the document contains a top-level `workspace` block.
    pub is_workspace_entry: bool,
    /// All syntax diagnostics found while traversing the parse tree.
    pub syntax_diagnostics: Vec<RuledDiagnostic>,
    /// All raw `!include` directives found in the document.
    pub include_directives: Vec<IncludeDirective>,
    /// All ordered string-constant definitions extracted from the document.
    pub constant_definitions: Vec<ConstantDefinition>,
    /// All extracted `!identifiers` mode directives in the document.
    pub identifier_modes: Vec<IdentifierModeFact>,
    /// All normalized explicit tags observed anywhere in the document.
    pub tags: Vec<String>,
    /// All declaration symbols extracted from the document.
    pub symbols: Vec<Symbol>,
    /// All symbol references extracted from the document.
    pub references: Vec<Reference>,
    /// Top-level workspace sections such as `model` and `views`.
    pub workspace_sections: Vec<WorkspaceSectionFact>,
    /// All extracted `configuration { scope ... }` statements.
    pub configuration_scopes: Vec<ConfigurationScopeFact>,
    /// All extracted `properties { ... }` entries.
    pub property_facts: Vec<PropertyFact>,
    /// All extracted `!docs` and `!adrs` directives.
    pub resource_directives: Vec<ResourceDirectiveFact>,
    /// All extracted `!element` directive targets.
    pub element_directives: Vec<ElementDirectiveFact>,
    /// All extracted declared relationships.
    pub relationship_facts: Vec<RelationshipFact>,
    /// All extracted view definitions plus their body facts.
    pub view_facts: Vec<ViewFact>,
}

impl DocumentSyntaxFacts {
    /// Each symbol's id is its position, each parent comes before its child, and each
    /// reference's containing symbol is one of the symbols.
    pub open spec fn well_formed(&self) -> bool {
        &&& forall|i: int|
            0 <= i < self.symbols@.len() ==> (#[trigger] self.symbols@[i]).id == SymbolId(i as usize) && (
            self.symbols@[i].parent matches Some(p) ==> p.0 < i)
        &&& forall|i: int|
            0 <= i < self.references@.len() ==> ((#[trigger] self.references@[i]).containing_symbol matches Some(c)
                ==> c.0 < self.symbols@.len())
    }

    /// Extracts the syntax-level facts of the tree rooted at `root`. The include directives
    /// and constant definitions of the document are read by their own extractors and handed
    /// in as they are.
    pub fn collect(
        root: &SyntaxNode,
        include_directives: Vec<IncludeDirective>,
        constant_definitions: Vec<ConstantDefinition>,
    ) -> (r: Self)
        ensures
            r.is_workspace_entry == has_workspace_child(root.children@),
            r.well_formed(),
            r.syntax_diagnostics@.len() == syntax_issues(*root).len(),
            forall|k: int|
                0 <= k < r.syntax_diagnostics@.len() ==> reports_issue(#[trigger] r.syntax_diagnostics@[k], syntax_issues(*root)[k]),
            r.include_directives@ == include_directives@,
            r.constant_definitions@ == constant_definitions@,
            r.identifier_modes@.len() == mode_sites(*root, DirectiveContainer::SourceFile).len(),
            forall|k: int|
                0 <= k < r.identifier_modes@.len() ==> describes_site(
                    #[trigger] r.identifier_modes@[k],
                    mode_sites(*root, DirectiveContainer::SourceFile)[k],
                ),
            strs(r.tags@) == tree_tags(*root, Seq::empty()),
            exists|kinds: Seq<(Seq<char>, SymbolKind)>|
                resolution_ok(archetype_definitions(*root), kinds) && (ExtractState {
                    symbols: symbol_models(r.symbols@),
                    references: reference_models(r.references@),
                }) == visit_spec(kinds, empty_state(), *root, None, false),
            (SemanticState {
                sections: r.workspace_sections@,
                scopes: r.configuration_scopes@.map_values(|f: ConfigurationScopeFact| scope_fact_model(f)),
                properties: r.property_facts@.map_values(|f: PropertyFact| property_model(f)),
                resources: r.resource_directives@.map_values(|f: ResourceDirectiveFact| resource_model(f)),
                elements: r.element_directives@.map_values(|f: ElementDirectiveFact| element_directive_model(f)),
                relationships: r.relationship_facts@.map_values(|f: RelationshipFact| relationship_model(f)),
                views: r.view_facts@.map_values(|f: ViewFact| view_model(f)),
            }) == semantic_visit(empty_semantic_state(), *root, "source_file"@, "source_file"@),
    {
        let syntax_diagnostics = crate::extract::diagnostics::collect(root);
        let identifier_modes = crate::extract::modes::collect_identifier_modes(root);
        let tags = crate::extract::modes::collect_tags(root);
        let (symbols, references) = crate::extract::symbols::collect_symbols_and_references(root);
        let semantic = crate::extract::semantic::collect(root);
        proof {
            let kinds = choose|kinds: Seq<(Seq<char>, SymbolKind)>|
                resolution_ok(archetype_definitions(*root), kinds) && (ExtractState {
                    symbols: symbol_models(symbols@),
                    references: reference_models(references@),
                }) == visit_spec(kinds, empty_state(), *root, None, false);
            assert(empty_state() == ExtractState { symbols: Seq::empty(), references: Seq::empty() });
            assert(symbols@.len() == symbols.len());
            assert(symbol_models(symbols@).len() == symbols@.len());
            lemma_extraction_well_formed(kinds, *root);
            let st = visit_spec(kinds, empty_state(), *root, None, false);
            assert forall|i: int| 0 <= i < symbols@.len() implies (#[trigger] symbols@[i]).id == SymbolId(i as usize) && (
            symbols@[i].parent matches Some(p) ==> p.0 < i) by {
                assert(st.symbols[i] == symbol_model(symbols@[i]));
            }
            assert forall|i: int| 0 <= i < references@.len() implies ((#[trigger] references@[i]).containing_symbol matches Some(
                c,
            ) ==> c.0 < symbols@.len()) by {
                assert(st.references[i] == reference_model(references@[i]));
            }
        }
        DocumentSyntaxFacts {
            is_workspace_entry: contains_workspace_entry(root),
            syntax_diagnostics,
            include_directives,
            constant_definitions,
            identifier_modes,
            tags,
            symbols,
            references,
            workspace_sections: semantic.workspace_sections,
            configuration_scopes: semantic.configuration_scopes,
            property_facts: semantic.property_facts,
            resource_directives: semantic.resource_directives,
            element_directives: semantic.element_directives,
            relationship_facts: semantic.relationship_facts,
            view_facts: semantic.view_facts,
        }
    }

    /// Returns whether the document contains a top-level `workspace` block.
    pub fn is_workspace_entry(&self) -> (r: bool)
        ensures
            r == self.is_workspace_entry,
    {
        self.is_workspace_entry
    }

    /// Returns whether any syntax diagnostics were extracted from the parse tree.
    pub fn has_syntax_errors(&self) -> (r: bool)
        ensures
            r == (self.syntax_diagnostics@.len() > 0),
    {
        self.syntax_diagnostics.len() > 0
    }

    /// Returns all syntax diagnostics found while traversing the parse tree.
    pub fn syntax_diagnostics(&self) -> (r: &[RuledDiagnostic])
        ensures
            r@ == self.syntax_diagnostics@,
    {
        self.syntax_diagnostics.as_slice()
    }

    /// Returns all raw `!include` directives found in the document.
    pub fn include_directives(&self) -> (r: &[IncludeDirective])
        ensures
            r@ == self.include_directives@,
    {
        self.include_directives.as_slice()
    }

    /// Returns all ordered string-constant definitions extracted from the document.
    pub fn constant_definitions(&self) -> (r: &[ConstantDefinition])
        ensures
            r@ == self.constant_definitions@,
    {
        self.constant_definitions.as_slice()
    }

    /// Returns all extracted `!identifiers` mode directives in the document.
    pub fn identifier_modes(&self) -> (r: &[IdentifierModeFact])
        ensures
            r@ == self.identifier_modes@,
    {
        self.identifier_modes.as_slice()
    }

    /// Returns all normalized explicit tags observed anywhere in the document.
    pub fn tags(&self) -> (r: &[String])
        ensures
            r@ == self.tags@,
    {
        self.tags.as_slice()
    }

    /// Returns all declaration symbols extracted from the document.
    pub fn symbols(&self) -> (r: &[Symbol])
        ensures
            r@ == self.symbols@,
    {
        self.symbols.as_slice()
    }

    /// Returns all symbol references extracted from the document.
    pub fn references(&self) -> (r: &[Reference])
        ensures
            r@ == self.references@,
    {
        self.references.as_slice()
    }

    /// Returns top-level workspace sections such as `model` and `views`.
    pub fn workspace_sections(&self) -> (r: &[WorkspaceSectionFact])
        ensures
            r@ == self.workspace_sections@,
    {
        self.workspace_sections.as_slice()
    }

    /// Returns all extracted `configuration { scope ... }` statements.
    pub fn configuration_scopes(&self) -> (r: &[ConfigurationScopeFact])
        ensures
            r@ == self.configuration_scopes@,
    {
        self.configuration_scopes.as_slice()
    }

    /// Returns all extracted `properties { ... }` entries.
    pub fn property_facts(&self) -> (r: &[PropertyFact])
        ensures
            r@ == self.property_facts@,
    {
        self.property_facts.as_slice()
    }

    /// Returns all extracted `!docs` and `!adrs` directives.
    pub fn resource_directives(&self) -> (r: &[ResourceDirectiveFact])
        ensures
            r@ == self.resource_directives@,
    {
        self.resource_directives.as_slice()
    }

    /// Returns all extracted `!element` directive targets.
    pub fn element_directives(&self) -> (r: &[ElementDirectiveFact])
        ensures
            r@ == self.element_directives@,
    {
        self.element_directives.as_slice()
    }

    /// Returns all extracted declared relationships.
    pub fn relationship_facts(&self) -> (r: &[RelationshipFact])
        ensures
            r@ == self.relationship_facts@,
    {
        self.relationship_facts.as_slice()
    }

    /// Returns all extracted view definitions plus their body facts.
    pub fn view_facts(&self) -> (r: &[ViewFact])
        ensures
            r@ == self.view_facts@,
    {
        self.view_facts.as_slice()
    }
}

/// Whether the root's named children include a `workspace` block.
pub open spec fn has_workspace_child(children: Seq<SyntaxNode>) -> bool {
    exists|i: int|
        0 <= i < children.len() && (#[trigger] children[i]).is_named && (children[i].kind@
            == "workspace"@ || children[i].kind@ == "workspace_block"@)
}

/// Whether a parsed document declares a top-level workspace.
pub fn contains_workspace_entry(root: &SyntaxNode) -> (r: bool)
    ensures
        r == has_workspace_child(root.children@),
{
    let mut i: usize = 0;
    while i < root.children.len()
        invariant
            i <= root.children@.len(),
            forall|j: int|
                0 <= j < i ==> !((#[trigger] root.children@[j]).is_named && (root.children@[j].kind@
                    == "workspace"@ || root.children@[j].kind@ == "workspace_block"@)),
        decreases root.children.len() - i,
    {
        let child = &root.children[i];
        if child.is_named && (child.has_kind("workspace") || child.has_kind("workspace_block")) {
            return true;
        }
        i = i + 1;
    }
    false
}

/// One analyzed document: its input, its syntax tree, and the facts extracted from the tree.
#[derive(Debug)]
pub struct DocumentSnapshot {
    /// The document identifier carried through analysis.
    pub id: DocumentId,
    /// The filesystem location supplied with the input, if any.
    pub location: Option<DocumentLocation>,
    /// The exact source text that produced this snapshot.
    pub source: String,
    /// The parsed syntax tree.
    pub tree: SyntaxNode,
    /// The syntax-level facts extracted from the tree.
    pub syntax_facts: DocumentSyntaxFacts,
}

impl DocumentSnapshot {
    /// Pairs an input with its parsed tree and extracted facts.
    pub fn new(input: DocumentInput, tree: SyntaxNode, syntax_facts: DocumentSyntaxFacts) -> (r: Self)
        ensures
            r.id == input.id,
            r.location == input.location,
            r.source == input.source,
            r.tree == tree,
            r.syntax_facts == syntax_facts,
    {
        DocumentSnapshot { id: input.id, location: input.location, source: input.source, tree, syntax_facts }
    }

    /// Returns the document identifier carried through analysis.
    pub fn id(&self) -> (r: &DocumentId)
        ensures
            *r == self.id,
    {
        &self.id
    }

    /// Returns the optional filesystem location supplied with the input.
    pub fn location(&self) -> (r: Option<&DocumentLocation>)
        ensures
            match r {
                Some(l) => self.location == Some(*l),
                None => self.location is None,
            },
    {
        match &self.location {
            Some(l) => Some(l),
            None => None,
        }
    }

    /// Returns the exact source text that produced this snapshot.
    pub fn source(&self) -> (r: &str)
        ensures
            r@ == self.source@,
    {
        self.source.as_str()
    }

    /// Returns the parsed syntax tree.
    pub fn tree(&self) -> (r: &SyntaxNode)
        ensures
            *r == self.tree,
    {
        &self.tree
    }

    /// Returns the syntax-level facts extracted from the document.
    pub fn syntax_facts(&self) -> (r: &DocumentSyntaxFacts)
        ensures
            *r == self.syntax_facts,
    {
        &self.syntax_facts
    }

    /// Returns the syntax diagnostics found while traversing the parse tree.
    pub fn syntax_diagnostics(&self) -> (r: &[RuledDiagnostic])
        ensures
            r@ == self.syntax_facts.syntax_diagnostics@,
    {
        self.syntax_facts.syntax_diagnostics()
    }

    /// Returns the raw `!include` directives of the document.
    pub fn include_directives(&self) -> (r: &[IncludeDirective])
        ensures
            r@ == self.syntax_facts.include_directives@,
    {
        self.syntax_facts.include_directives()
    }

    /// Returns the string-constant definitions of the document, in source order.
    pub fn constant_definitions(&self) -> (r: &[ConstantDefinition])
        ensures
            r@ == self.syntax_facts.constant_definitions@,
    {
        self.syntax_facts.constant_definitions()
    }

    /// Returns the `!identifiers` directives of the document.
    pub fn identifier_modes(&self) -> (r: &[IdentifierModeFact])
        ensures
            r@ == self.syntax_facts.identifier_modes@,
    {
        self.syntax_facts.identifier_modes()
    }

    /// Returns the tags the document declares.
    pub fn tags(&self) -> (r: &[String])
        ensures
            r@ == self.syntax_facts.tags@,
    {
        self.syntax_facts.tags()
    }

    /// Returns the declaration symbols of the document.
    pub fn symbols(&self) -> (r: &[Symbol])
        ensures
            r@ == self.syntax_facts.symbols@,
    {
        self.syntax_facts.symbols()
    }

    /// Returns the symbol references of the document.
    pub fn references(&self) -> (r: &[Reference])
        ensures
            r@ == self.syntax_facts.references@,
    {
        self.syntax_facts.references()
    }

    /// Returns the top-level workspace sections, such as `model` and `views`.
    pub fn workspace_sections(&self) -> (r: &[WorkspaceSectionFact])
        ensures
            r@ == self.syntax_facts.workspace_sections@,
    {
        self.syntax_facts.workspace_sections()
    }

    /// Returns the configuration scopes of the document.
    pub fn configuration_scopes(&self) -> (r: &[ConfigurationScopeFact])
        ensures
            r@ == self.syntax_facts.configuration_scopes@,
    {
        self.syntax_facts.configuration_scopes()
    }

    /// Returns the property facts of the document.
    pub fn property_facts(&self) -> (r: &[PropertyFact])
        ensures
            r@ == self.syntax_facts.property_facts@,
    {
        self.syntax_facts.property_facts()
    }

    /// Returns the resource directives (`!docs`, `!adrs`) of the document.
    pub fn resource_directives(&self) -> (r: &[ResourceDirectiveFact])
        ensures
            r@ == self.syntax_facts.resource_directives@,
    {
        self.syntax_facts.resource_directives()
    }

    /// Returns the `!element` directives of the document.
    pub fn element_directives(&self) -> (r: &[ElementDirectiveFact])
        ensures
            r@ == self.syntax_facts.element_directives@,
    {
        self.syntax_facts.element_directives()
    }

    /// Returns the relationship facts of the document.
    pub fn relationship_facts(&self) -> (r: &[RelationshipFact])
        ensures
            r@ == self.syntax_facts.relationship_facts@,
    {
        self.syntax_facts.relationship_facts()
    }

    /// Returns the view facts of the document.
    pub fn view_facts(&self) -> (r: &[ViewFact])
        ensures
            r@ == self.syntax_facts.view_facts@,
    {
        self.syntax_facts.view_facts()
    }

    /// Returns whether the document declares a top-level workspace.
    pub fn is_workspace_entry(&self) -> (r: bool)
        ensures
            r == self.syntax_facts.is_workspace_entry,
    {
        self.syntax_facts.is_workspace_entry
    }

    /// Returns whether the document has syntax errors.
    pub fn has_syntax_errors(&self) -> (r: bool)
        ensures
            r == (self.syntax_facts.syntax_diagnostics@.len() > 0),
    {
        self.syntax_facts.syntax_diagnostics.len() > 0
    }

    /// Returns the document's effective element-identifier mode, from its own directives.
    pub fn effective_element_identifier_mode(&self) -> (r: crate::workspace::bindings::ElementIdentifierMode)
        ensures
            r == crate::workspace::bindings::mode_class(
                crate::workspace::bindings::governing_mode(self.syntax_facts.identifier_modes@, None),
            ),
    {
        self.effective_element_identifier_mode_with(None)
    }

    /// Returns the document's effective element-identifier mode, or the inherited one when the
    /// caller already knows it.
    pub fn effective_element_identifier_mode_with(
        &self,
        inherited_workspace_mode: Option<crate::workspace::bindings::ElementIdentifierMode>,
    ) -> (r: crate::workspace::bindings::ElementIdentifierMode)
        ensures
            r == match inherited_workspace_mode {
                Some(m) => m,
                None => crate::workspace::bindings::mode_class(
                    crate::workspace::bindings::governing_mode(self.syntax_facts.identifier_modes@, None),
                ),
            },
    {
        match inherited_workspace_mode {
            Some(m) => m,
            None => crate::workspace::bindings::effective_element_identifier_mode_from_facts(
                self.syntax_facts.identifier_modes.as_slice(),
                None,
            ),
        }
    }

    /// Resolves one extracted reference against this document alone, under the document's own
    /// identifier mode.
    pub fn resolve_reference(&self, reference: &Reference) -> (r: Option<&Symbol>)
        requires
            self.syntax_facts.well_formed(),
            reference.span.start_byte <= reference.span.end_byte,
        ensures
            match local_target(
                self.syntax_facts.symbols@,
                self.syntax_facts.element_directives@,
                *reference,
                crate::workspace::bindings::mode_class(
                    crate::workspace::bindings::governing_mode(self.syntax_facts.identifier_modes@, None),
                ),
            ) {
                Some(i) => r matches Some(s) && *s == self.syntax_facts.symbols@[i],
                None => r is None,
            },
    {
        let mode = self.effective_element_identifier_mode();
        self.resolve_reference_with_mode(reference, mode)
    }

    /// Resolves one extracted reference against this document alone, under `mode` (the
    /// inherited workspace mode, when the caller knows it).
    pub fn resolve_reference_with_mode(
        &self,
        reference: &Reference,
        mode: crate::workspace::bindings::ElementIdentifierMode,
    ) -> (r: Option<&Symbol>)
        requires
            self.syntax_facts.well_formed(),
            reference.span.start_byte <= reference.span.end_byte,
        ensures
            match local_target(self.syntax_facts.symbols@, self.syntax_facts.element_directives@, *reference, mode) {
                Some(i) => r matches Some(s) && *s == self.syntax_facts.symbols@[i],
                None => r is None,
            },
    {
        let symbols = self.syntax_facts.symbols.as_slice();
        proof {
            assert(crate::workspace::bindings::parents_precede(symbols@));
            assert(symbols@.len() == symbols.len());
        }
        match crate::local_resolution::resolve_local_reference(
            symbols,
            self.syntax_facts.element_directives.as_slice(),
            reference,
            mode,
        ) {
            Some(i) => {
                proof {
                    crate::local_resolution::lemma_local_target_in_range(
                        symbols@,
                        self.syntax_facts.element_directives@,
                        *reference,
                        mode,
                    );
                }
                Some(&symbols[i])
            },
            None => None,
        }
    }
}

} // verus!
