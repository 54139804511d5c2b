//! Emitted diagnostics: the problem payload and its pairing with a declared rule.

use vstd::prelude::*;

use crate::rule::{DiagnosticSeverity, RuleId, RuleMetadata};
use crate::rules;
use crate::snapshot::DocumentId;
use crate::span::TextSpan;
use crate::text::cat;

verus! {

/// Secondary source context attached to a diagnostic.
#[derive(Debug, PartialEq, Eq, PartialOrd, Ord)]
pub struct Annotation {
    /// Document of the related span when it lies outside the primary diagnostic document.
    pub document: Option<DocumentId>,
    /// Byte and point range covered by the related source span.
    pub span: TextSpan,
    /// Human-readable explanation for why the related span matters.
    pub message: Option<String>,
}

impl Clone for Annotation {
    fn clone(&self) -> (r: Self)
        ensures
            r == *self,
    {
        Annotation {
            document: match &self.document {
                Some(d) => Some(d.clone()),
                None => None,
            },
            span: self.span,
            message: crate::symbols::clone_opt_string(&self.message),
        }
    }
}

impl Annotation {
    /// Creates a secondary annotation in the same document as the primary span.
    pub fn secondary(span: TextSpan) -> (r: Self)
        ensures
            r.document is None,
            r.span == span,
            r.message is None,
    {
        Annotation { document: None, span, message: None }
    }

    /// Associates the annotation with a different document.
    pub fn in_document(self, document: &DocumentId) -> (r: Self)
        ensures
            r.document == Some(*document),
            r.span == self.span,
            r.message == self.message,
    {
        Annotation { document: Some(document.clone()), span: self.span, message: self.message }
    }

    /// Attaches a terse explanatory message to the annotation.
    pub fn message(self, message: String) -> (r: Self)
        ensures
            r.document == self.document,
            r.span == self.span,
            r.message == Some(message),
    {
        Annotation { document: self.document, span: self.span, message: Some(message) }
    }
}

/// One emitted problem plus the data needed to explain it to a user.
#[derive(Debug, PartialEq, Eq, PartialOrd, Ord)]
pub struct Diagnostic {
    /// Human-readable explanation of the concrete problem at this site.
    pub message: String,
    /// Primary span that consumers should highlight.
    pub span: TextSpan,
    /// Additional related spans that explain the problem more fully.
    pub annotations: Vec<Annotation>,
    /// Optional owning document for workspace-scoped diagnostics.
    pub document: Option<DocumentId>,
    /// Optional user-facing target text associated with this problem.
    pub target_text: Option<String>,
    /// Optional value-specific span when the whole statement span is too broad.
    pub value_span: Option<TextSpan>,
}

/// Copies a vector of annotations.
pub fn clone_annotations(v: &Vec<Annotation>) -> (r: Vec<Annotation>)
    ensures
        r@ == v@,
{
    let mut r: Vec<Annotation> = Vec::new();
    let mut i: usize = 0;
    while i < v.len()
        invariant
            i <= v.len(),
            r@ == v@.subrange(0, i as int),
        decreases v.len() - i,
    {
        r.push(v[i].clone());
        i = i + 1;
    }
    assert(r@ =~= v@);
    r
}

impl Clone for Diagnostic {
    fn clone(&self) -> (r: Self)
        ensures
            r.message == self.message,
            r.span == self.span,
            r.annotations@ == self.annotations@,
            r.document == self.document,
            r.target_text == self.target_text,
            r.value_span == self.value_span,
    {
        Diagnostic {
            message: self.message.clone(),
            span: self.span,
            annotations: clone_annotations(&self.annotations),
            document: match &self.document {
                Some(d) => Some(d.clone()),
                None => None,
            },
            target_text: crate::symbols::clone_opt_string(&self.target_text),
            value_span: self.value_span,
        }
    }
}

impl Diagnostic {
    /// A diagnostic with a message and primary span and nothing else.
    pub fn new(message: String, span: TextSpan) -> (r: Self)
        ensures
            r.message == message,
            r.span == span,
            r.annotations@.len() == 0,
            r.document is None,
            r.target_text is None,
            r.value_span is None,
    {
        Diagnostic {
            message,
            span,
            annotations: Vec::new(),
            document: None,
            target_text: None,
            value_span: None,
        }
    }

    /// Places the diagnostic in a document.
    pub fn in_document(self, document: &DocumentId) -> (r: Self)
        ensures
            r.message == self.message,
            r.span == self.span,
            r.annotations == self.annotations,
            r.document == Some(*document),
            r.target_text == self.target_text,
            r.value_span == self.value_span,
    {
        Diagnostic {
            message: self.message,
            span: self.span,
            annotations: self.annotations,
            document: Some(document.clone()),
            target_text: self.target_text,
            value_span: self.value_span,
        }
    }

    /// Attaches user-facing target text.
    pub fn with_target_text(self, target_text: &str) -> (r: Self)
        ensures
            r.message == self.message,
            r.span == self.span,
            r.annotations == self.annotations,
            r.document == self.document,
            r.target_text matches Some(t) && t@ == target_text@,
            r.value_span == self.value_span,
    {
        Diagnostic {
            message: self.message,
            span: self.span,
            annotations: self.annotations,
            document: self.document,
            target_text: Some(target_text.to_owned()),
            value_span: self.value_span,
        }
    }

    /// Attaches a narrower value span.
    pub fn with_value_span(self, value_span: TextSpan) -> (r: Self)
        ensures
            r.message == self.message,
            r.span == self.span,
            r.annotations == self.annotations,
            r.document == self.document,
            r.target_text == self.target_text,
            r.value_span == Some(value_span),
    {
        Diagnostic {
            message: self.message,
            span: self.span,
            annotations: self.annotations,
            document: self.document,
            target_text: self.target_text,
            value_span: Some(value_span),
        }
    }

    /// Returns any secondary source context attached to this diagnostic.
    pub fn annotations(&self) -> (r: &[Annotation])
        ensures
            r@ == self.annotations@,
    {
        self.annotations.as_slice()
    }

    /// Attaches one secondary annotation to this diagnostic.
    pub fn annotate(&mut self, annotation: Annotation)
        ensures
            final(self).annotations@ == old(self).annotations@.push(annotation),
            final(self).message == old(self).message,
            final(self).span == old(self).span,
            final(self).document == old(self).document,
            final(self).target_text == old(self).target_text,
            final(self).value_span == old(self).value_span,
    {
        self.annotations.push(annotation);
    }

    /// Returns the owning document when this diagnostic is workspace-scoped.
    pub fn document(&self) -> (r: Option<&DocumentId>)
        ensures
            r matches Some(d) ==> self.document == Some(*d),
            r is None <==> self.document is None,
    {
        match &self.document {
            Some(d) => Some(d),
            None => None,
        }
    }

    /// Returns the user-facing target text attached to this diagnostic, if any.
    pub fn target_text(&self) -> (r: Option<&str>)
        ensures
            r matches Some(t) ==> self.target_text matches Some(s) && t@ == s@,
            r is None <==> self.target_text is None,
    {
        match &self.target_text {
            Some(t) => Some(t.as_str()),
            None => None,
        }
    }

    /// Returns the narrower value span attached to this diagnostic, if any.
    pub fn value_span(&self) -> (r: Option<TextSpan>)
        ensures
            r == self.value_span,
    {
        self.value_span
    }
}

/// One emitted diagnostic payload paired with the rule that produced it.
#[derive(Debug)]
pub struct RuledDiagnostic {
    /// Declared rule that classified the emitted problem.
    pub rule: RuleId,
    /// Concrete payload observed in the analyzed source.
    pub diagnostic: Diagnostic,
}

impl Clone for RuledDiagnostic {
    fn clone(&self) -> (r: Self)
        ensures
            r.rule == self.rule,
            r.diagnostic.message == self.diagnostic.message,
            r.diagnostic.span == self.diagnostic.span,
            r.diagnostic.annotations@ == self.diagnostic.annotations@,
            r.diagnostic.document == self.diagnostic.document,
            r.diagnostic.target_text == self.diagnostic.target_text,
            r.diagnostic.value_span == self.diagnostic.value_span,
    {
        RuledDiagnostic { rule: self.rule, diagnostic: self.diagnostic.clone() }
    }
}

/// The rule code of a ruled diagnostic.
pub open spec fn code_of(d: RuledDiagnostic) -> Seq<char> {
    d.rule.definition.code@
}

impl RuledDiagnostic {
    /// Pairs a payload with its rule.
    pub fn new(rule: RuleId, diagnostic: Diagnostic) -> (r: Self)
        ensures
            r.rule == rule,
            r.diagnostic == diagnostic,
    {
        RuledDiagnostic { rule, diagnostic }
    }

    /// Returns the declared rule metadata for this emitted diagnostic.
    pub fn rule(&self) -> (r: RuleMetadata)
        ensures
            r == self.rule.definition,
    {
        self.rule.metadata()
    }

    /// Returns the stable diagnostic code for this emitted diagnostic.
    pub fn code(&self) -> (r: &'static str)
        ensures
            r == self.rule.definition.code,
    {
        self.rule.code()
    }

    /// Returns the normalized severity for this emitted diagnostic.
    pub fn severity(&self) -> (r: DiagnosticSeverity)
        ensures
            r == self.rule.definition.default_severity,
    {
        self.rule.severity()
    }

    /// Returns the broad analysis stage that produced this diagnostic.
    pub fn source(&self) -> (r: &'static str)
        ensures
            r == self.rule.definition.source,
    {
        self.rule.source()
    }

    /// Returns the human-readable message for this diagnostic.
    pub fn message(&self) -> (r: &str)
        ensures
            r@ == self.diagnostic.message@,
    {
        self.diagnostic.message.as_str()
    }

    /// Returns the primary highlight span.
    pub fn span(&self) -> (r: TextSpan)
        ensures
            r == self.diagnostic.span,
    {
        self.diagnostic.span
    }

    /// Returns any secondary source context attached to this diagnostic.
    pub fn annotations(&self) -> (r: &[Annotation])
        ensures
            r@ == self.diagnostic.annotations@,
    {
        self.diagnostic.annotations()
    }

    /// Attaches one secondary annotation to this diagnostic.
    pub fn annotate(&mut self, annotation: Annotation)
        ensures
            final(self).diagnostic.annotations@ == old(self).diagnostic.annotations@.push(
                annotation,
            ),
            final(self).rule == old(self).rule,
            final(self).diagnostic.message == old(self).diagnostic.message,
            final(self).diagnostic.span == old(self).diagnostic.span,
            final(self).diagnostic.document == old(self).diagnostic.document,
            final(self).diagnostic.target_text == old(self).diagnostic.target_text,
            final(self).diagnostic.value_span == old(self).diagnostic.value_span,
    {
        self.diagnostic.annotate(annotation);
    }

    /// Returns the owning document when this diagnostic is workspace-scoped.
    pub fn document(&self) -> (r: Option<&DocumentId>)
        ensures
            r matches Some(d) ==> self.diagnostic.document == Some(*d),
            r is None <==> self.diagnostic.document is None,
    {
        self.diagnostic.document()
    }

    /// Returns the user-facing target text attached to this diagnostic, if any.
    pub fn target_text(&self) -> (r: Option<&str>)
        ensures
            r matches Some(t) ==> self.diagnostic.target_text matches Some(s) && t@ == s@,
            r is None <==> self.diagnostic.target_text is None,
    {
        self.diagnostic.target_text()
    }

    /// Returns the narrower value span attached to this diagnostic, if any.
    pub fn value_span(&self) -> (r: Option<TextSpan>)
        ensures
            r == self.diagnostic.value_span,
    {
        self.diagnostic.value_span()
    }

    /// Returns whether this diagnostic was emitted for the given rule.
    pub fn is_rule(&self, rule: RuleId) -> (r: bool)
        ensures
            r == (self.rule.definition.code@ == rule.definition.code@),
    {
        self.rule.same_rule(rule)
    }

    /// A recovered `ERROR` node.
    pub fn unexpected_syntax(span: TextSpan) -> (r: Self)
        ensures
            code_of(r) == "syntax.error-node"@,
            r.diagnostic.message@ == "unexpected syntax"@,
            r.diagnostic.span == span,
            r.diagnostic.annotations@.len() == 0,
            r.diagnostic.document is None,
            r.diagnostic.target_text is None,
            r.diagnostic.value_span is None,
    {
        Self::new(rules::syntax_error_node().id(), Diagnostic::new("unexpected syntax".to_owned(), span))
    }

    /// A synthesized `MISSING` node of some kind.
    pub fn missing_node(kind: &str, span: TextSpan) -> (r: Self)
        ensures
            code_of(r) == "syntax.missing-node"@,
            r.diagnostic.message@ == "missing "@ + kind@,
            r.diagnostic.span == span,
            r.diagnostic.annotations@.len() == 0,
            r.diagnostic.document is None,
            r.diagnostic.target_text is None,
            r.diagnostic.value_span is None,
    {
        Self::new(rules::syntax_missing_node().id(), Diagnostic::new(cat("missing ", kind), span))
    }
}

/// The fields every include-rule diagnostic carries.
pub open spec fn include_shaped(
    r: RuledDiagnostic,
    document: DocumentId,
    target_text: Seq<char>,
    span: TextSpan,
    value_span: TextSpan,
) -> bool {
    &&& r.diagnostic.span == span
    &&& r.diagnostic.document == Some(document)
    &&& r.diagnostic.target_text matches Some(t) && t@ == target_text
    &&& r.diagnostic.value_span == Some(value_span)
    &&& r.diagnostic.annotations@.len() == 0
}

/// The fields of a document-scoped diagnostic with no target text.
pub open spec fn document_shaped(r: RuledDiagnostic, document: DocumentId, span: TextSpan) -> bool {
    &&& r.diagnostic.span == span
    &&& r.diagnostic.document == Some(document)
    &&& r.diagnostic.target_text is None
    &&& r.diagnostic.value_span is None
    &&& r.diagnostic.annotations@.len() == 0
}

/// The fields of a document-scoped diagnostic that names a target.
pub open spec fn targeted_shaped(
    r: RuledDiagnostic,
    document: DocumentId,
    target_text: Seq<char>,
    span: TextSpan,
) -> bool {
    &&& r.diagnostic.span == span
    &&& r.diagnostic.document == Some(document)
    &&& r.diagnostic.target_text matches Some(t) && t@ == target_text
    &&& r.diagnostic.value_span is None
    &&& r.diagnostic.annotations@.len() == 0
}

fn include_diagnostic(
    rule: RuleMetadata,
    message: String,
    document: &DocumentId,
    target_text: &str,
    span: TextSpan,
    value_span: TextSpan,
) -> (r: RuledDiagnostic)
    ensures
        r.rule.definition == rule,
        r.diagnostic.message == message,
        include_shaped(r, *document, target_text@, span, value_span),
{
    RuledDiagnostic::new(
        rule.id(),
        Diagnostic::new(message, span).in_document(document).with_target_text(
            target_text,
        ).with_value_span(value_span),
    )
}

fn document_diagnostic(rule: RuleMetadata, message: String, document: &DocumentId, span: TextSpan) -> (r:
    RuledDiagnostic)
    ensures
        r.rule.definition == rule,
        r.diagnostic.message == message,
        document_shaped(r, *document, span),
{
    RuledDiagnostic::new(rule.id(), Diagnostic::new(message, span).in_document(document))
}

fn targeted_diagnostic(
    rule: RuleMetadata,
    message: String,
    document: &DocumentId,
    target_text: &str,
    span: TextSpan,
) -> (r: RuledDiagnostic)
    ensures
        r.rule.definition == rule,
        r.diagnostic.message == message,
        targeted_shaped(r, *document, target_text@, span),
{
    RuledDiagnostic::new(
        rule.id(),
        Diagnostic::new(message, span).in_document(document).with_target_text(target_text),
    )
}

impl RuledDiagnostic {
    /// An include whose local target does not exist.
    pub fn missing_local_target(
        document: &DocumentId,
        target_text: &str,
        span: TextSpan,
        value_span: TextSpan,
    ) -> (r: Self)
        ensures
            code_of(r) == "include.missing-local-target"@,
            r.diagnostic.message@ == "included path does not exist: "@ + target_text@,
            include_shaped(r, *document, target_text@, span, value_span),
    {
        include_diagnostic(
            rules::include_missing_local_target(),
            cat("included path does not exist: ", target_text),
            document,
            target_text,
            span,
            value_span,
        )
    }

    /// An include that escapes the allowed subtree.
    pub fn escapes_allowed_subtree(
        document: &DocumentId,
        target_text: &str,
        span: TextSpan,
        value_span: TextSpan,
    ) -> (r: Self)
        ensures
            code_of(r) == "include.escapes-allowed-subtree"@,
            r.diagnostic.message@ == "included path escapes the allowed subtree: "@ + target_text@,
            include_shaped(r, *document, target_text@, span, value_span),
    {
        include_diagnostic(
            rules::include_escapes_allowed_subtree(),
            cat("included path escapes the allowed subtree: ", target_text),
            document,
            target_text,
            span,
            value_span,
        )
    }

    /// An include that takes part in an include cycle.
    pub fn include_cycle(
        document: &DocumentId,
        target_text: &str,
        span: TextSpan,
        value_span: TextSpan,
    ) -> (r: Self)
        ensures
            code_of(r) == "include.cycle"@,
            r.diagnostic.message@ == "include cycle detected while following: "@ + target_text@,
            include_shaped(r, *document, target_text@, span, value_span),
    {
        include_diagnostic(
            rules::include_cycle(),
            cat("include cycle detected while following: ", target_text),
            document,
            target_text,
            span,
            value_span,
        )
    }

    /// A remote include target that is recorded but not followed.
    pub fn unsupported_remote_target(
        document: &DocumentId,
        target_text: &str,
        span: TextSpan,
        value_span: TextSpan,
    ) -> (r: Self)
        ensures
            code_of(r) == "include.unsupported-remote-target"@,
            r.diagnostic.message@ == "remote includes are not resolved in the MVP: "@
                + target_text@,
            include_shaped(r, *document, target_text@, span, value_span),
    {
        include_diagnostic(
            rules::include_unsupported_remote_target(),
            cat("remote includes are not resolved in the MVP: ", target_text),
            document,
            target_text,
            span,
            value_span,
        )
    }

    /// A fatal workspace-load failure anchored at a directive.
    pub fn workspace_load_failure(
        document: &DocumentId,
        message: &str,
        span: TextSpan,
        value_span: Option<TextSpan>,
        target_text: Option<&str>,
    ) -> (r: Self)
        ensures
            code_of(r) == "workspace.load-failure"@,
            r.diagnostic.message@ == message@,
            r.diagnostic.span == span,
            r.diagnostic.document == Some(*document),
            r.diagnostic.value_span == value_span,
            target_text is None ==> r.diagnostic.target_text is None,
            target_text matches Some(t) ==> r.diagnostic.target_text matches Some(s) && s@ == t@,
            r.diagnostic.annotations@.len() == 0,
    {
        let mut diagnostic = Diagnostic::new(message.to_owned(), span).in_document(document);
        if let Some(t) = target_text {
            diagnostic = diagnostic.with_target_text(t);
        }
        if let Some(v) = value_span {
            diagnostic = diagnostic.with_value_span(v);
        }
        Self::new(rules::workspace_load_failure().id(), diagnostic)
    }

    /// More than one declaration claims the same canonical binding.
    pub fn duplicate_binding(document: &DocumentId, binding_kind: &str, key: &str, span: TextSpan) -> (r:
        Self)
        ensures
            code_of(r) == "semantic.duplicate-binding"@,
            r.diagnostic.message@ == "duplicate "@ + binding_kind@ + " binding: "@ + key@,
            targeted_shaped(r, *document, key@, span),
    {
        let mut message = cat("duplicate ", binding_kind);
        message.append(" binding: ");
        message.append(key);
        targeted_diagnostic(rules::semantic_duplicate_binding(), message, document, key, span)
    }

    /// A repeated top-level `model` or `views` section.
    pub fn repeated_workspace_section(document: &DocumentId, section_name: &str, span: TextSpan) -> (r:
        Self)
        ensures
            code_of(r) == "semantic.repeated-workspace-section"@,
            r.diagnostic.message@ == "multiple "@ + section_name@
                + " sections are not permitted in a DSL definition"@,
            document_shaped(r, *document, span),
    {
        let mut message = cat("multiple ", section_name);
        message.append(" sections are not permitted in a DSL definition");
        document_diagnostic(rules::semantic_repeated_workspace_section(), message, document, span)
    }

    /// An `!element` selector target that resolves to nothing.
    pub fn unresolved_element_selector(document: &DocumentId, raw_text: &str, span: TextSpan) -> (r:
        Self)
        ensures
            code_of(r) == "semantic.unresolved-element-selector"@,
            r.diagnostic.message@ == "unresolved !element selector target: "@ + raw_text@,
            targeted_shaped(r, *document, raw_text@, span),
    {
        targeted_diagnostic(
            rules::semantic_unresolved_element_selector(),
            cat("unresolved !element selector target: ", raw_text),
            document,
            raw_text,
            span,
        )
    }

    /// An identifier reference that resolves to nothing.
    pub fn unresolved_reference(document: &DocumentId, raw_text: &str, span: TextSpan) -> (r: Self)
        ensures
            code_of(r) == "semantic.unresolved-reference"@,
            r.diagnostic.message@ == "unresolved identifier reference: "@ + raw_text@,
            targeted_shaped(r, *document, raw_text@, span),
    {
        targeted_diagnostic(
            rules::semantic_unresolved_reference(),
            cat("unresolved identifier reference: ", raw_text),
            document,
            raw_text,
            span,
        )
    }

    /// A configuration scope that conflicts with the model's depth.
    pub fn workspace_scope_mismatch(document: &DocumentId, message: String, span: TextSpan) -> (r:
        Self)
        ensures
            code_of(r) == "semantic.workspace-scope-mismatch"@,
            r.diagnostic.message == message,
            document_shaped(r, *document, span),
    {
        document_diagnostic(rules::semantic_workspace_scope_mismatch(), message, document, span)
    }

    /// A filtered view whose base view enables automatic layout.
    pub fn filtered_view_autolayout_mismatch(document: &DocumentId, base_key: &str, span: TextSpan) -> (r:
        Self)
        ensures
            code_of(r) == "semantic.filtered-view-autolayout-mismatch"@,
            r.diagnostic.message@ == "The view \""@ + base_key@
                + "\" has automatic layout enabled - this is not supported for filtered views"@,
            targeted_shaped(r, *document, base_key@, span),
    {
        let mut message = cat("The view \"", base_key);
        message.append("\" has automatic layout enabled - this is not supported for filtered views");
        targeted_diagnostic(
            rules::semantic_filtered_view_autolayout_mismatch(),
            message,
            document,
            base_key,
            span,
        )
    }

    /// A deployment relationship between a parent and one of its children.
    pub fn deployment_parent_child_relationship(document: &DocumentId, span: TextSpan) -> (r: Self)
        ensures
            code_of(r) == "semantic.deployment-parent-child-relationship"@,
            r.diagnostic.message@ == "Relationships cannot be added between parents and children"@,
            document_shaped(r, *document, span),
    {
        document_diagnostic(
            rules::semantic_deployment_parent_child_relationship(),
            "Relationships cannot be added between parents and children".to_owned(),
            document,
            span,
        )
    }

    /// A dynamic-view step that matches no declared relationship.
    pub fn dynamic_view_relationship_mismatch(
        document: &DocumentId,
        source_name: &str,
        destination_name: &str,
        technology: Option<&str>,
        span: TextSpan,
    ) -> (r: Self)
        ensures
            code_of(r) == "semantic.dynamic-view-relationship-mismatch"@,
            technology is None ==> r.diagnostic.message@ == "A relationship between "@
                + source_name@ + " and "@ + destination_name@ + " does not exist in model."@,
            technology matches Some(t) ==> r.diagnostic.message@ == "A relationship between "@
                + source_name@ + " and "@ + destination_name@ + " with technology "@ + t@
                + " does not exist in model."@,
            document_shaped(r, *document, span),
    {
        let mut message = cat("A relationship between ", source_name);
        message.append(" and ");
        message.append(destination_name);
        match technology {
            Some(t) => {
                message.append(" with technology ");
                message.append(t);
                message.append(" does not exist in model.");
            },
            None => {
                message.append(" does not exist in model.");
            },
        }
        document_diagnostic(
            rules::semantic_dynamic_view_relationship_mismatch(),
            message,
            document,
            span,
        )
    }

    /// A dynamic-view step that re-adds the view's scoped element.
    pub fn dynamic_view_scope_redundancy(document: &DocumentId, scope_name: &str, span: TextSpan) -> (r:
        Self)
        ensures
            code_of(r) == "semantic.dynamic-view-scope-redundancy"@,
            r.diagnostic.message@ == scope_name@
                + " is already the scope of this view and cannot be added to it"@,
            targeted_shaped(r, *document, scope_name@, span),
    {
        targeted_diagnostic(
            rules::semantic_dynamic_view_scope_redundancy(),
            cat(scope_name, " is already the scope of this view and cannot be added to it"),
            document,
            scope_name,
            span,
        )
    }

    /// A view element the current view type cannot show.
    pub fn invalid_view_element(document: &DocumentId, raw_text: &str, span: TextSpan) -> (r: Self)
        ensures
            code_of(r) == "semantic.invalid-view-element"@,
            r.diagnostic.message@ == "The element \""@ + raw_text@
                + "\" can not be added to this type of view"@,
            targeted_shaped(r, *document, raw_text@, span),
    {
        let mut message = cat("The element \"", raw_text);
        message.append("\" can not be added to this type of view");
        targeted_diagnostic(rules::semantic_invalid_view_element(), message, document, raw_text, span)
    }

    /// A `!docs` or `!adrs` path that is missing or incompatible.
    pub fn invalid_documentation_path(document: &DocumentId, message: String, span: TextSpan) -> (r:
        Self)
        ensures
            code_of(r) == "semantic.invalid-documentation-path"@,
            r.diagnostic.message == message,
            document_shaped(r, *document, span),
    {
        document_diagnostic(rules::semantic_invalid_documentation_path(), message, document, span)
    }

    /// An image-view source whose local input is missing or incompatible.
    pub fn invalid_image_source(document: &DocumentId, message: String, span: TextSpan) -> (r: Self)
        ensures
            code_of(r) == "semantic.invalid-image-source"@,
            r.diagnostic.message == message,
            document_shaped(r, *document, span),
    {
        document_diagnostic(rules::semantic_invalid_image_source(), message, document, span)
    }

    /// An image source that lacks its renderer property.
    pub fn missing_image_renderer_property(
        document: &DocumentId,
        property_name: &str,
        service_name: &str,
        span: TextSpan,
    ) -> (r: Self)
        ensures
            code_of(r) == "semantic.missing-image-renderer-property"@,
            r.diagnostic.message@ == "Please define a view/viewset property named "@
                + property_name@ + " to specify your "@ + service_name@ + " server"@,
            document_shaped(r, *document, span),
    {
        let mut message = cat("Please define a view/viewset property named ", property_name);
        message.append(" to specify your ");
        message.append(service_name);
        message.append(" server");
        document_diagnostic(
            rules::semantic_missing_image_renderer_property(),
            message,
            document,
            span,
        )
    }

    /// An identifier reference with more than one plausible target.
    pub fn ambiguous_reference(document: &DocumentId, raw_text: &str, span: TextSpan) -> (r: Self)
        ensures
            code_of(r) == "semantic.ambiguous-reference"@,
            r.diagnostic.message@ == "ambiguous identifier reference: "@ + raw_text@,
            targeted_shaped(r, *document, raw_text@, span),
    {
        targeted_diagnostic(
            rules::semantic_ambiguous_reference(),
            cat("ambiguous identifier reference: ", raw_text),
            document,
            raw_text,
            span,
        )
    }

    /// A semantic diagnostic reported by only some of the workspace contexts a document is in.
    pub fn multi_context_disagreement(
        document: &DocumentId,
        message: &str,
        reported_contexts: usize,
        total_contexts: usize,
        span: TextSpan,
    ) -> (r: Self)
        ensures
            code_of(r) == "semantic.multi-context-disagreement"@,
            r.diagnostic.message@ == message@ + " (reported in "@ + crate::text::decimal_seq(
                reported_contexts as nat,
            ) + " of "@ + crate::text::decimal_seq(total_contexts as nat)
                + " workspace contexts)"@,
            document_shaped(r, *document, span),
    {
        let mut text = cat(message, " (reported in ");
        let a = crate::text::decimal(reported_contexts);
        text.append(a.as_str());
        text.append(" of ");
        let b = crate::text::decimal(total_contexts);
        text.append(b.as_str());
        text.append(" workspace contexts)");
        document_diagnostic(rules::semantic_multi_context_disagreement(), text, document, span)
    }
}

/// Returns the registry of currently declared diagnostic rules.
pub fn diagnostic_rule_registry() -> (r: crate::rule::RuleRegistry)
    ensures
        r.rules_view().len() == rules::declared_rule_codes().len(),
        crate::rule::sorted_by_code(r.rules_view()),
        forall|i: int|
            0 <= i < r.rules_view().len() ==> crate::rule::family_named(#[trigger] r.rules_view()[i].definition),
        forall|c: Seq<char>|
            crate::rule::has_code(r.rules_view(), c) <==> rules::declared_rule_codes().contains(c),
{
    rules::diagnostic_rule_registry()
}

} // verus!
