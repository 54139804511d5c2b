//! Workspace-facing handles, include results, and the resolution outcome of references.

use vstd::prelude::*;

use crate::rule::seq_lt;
use crate::snapshot::DocumentId;
use crate::span::TextSpan;
use crate::symbols::SymbolId;

verus! {

/// Classifies whether a discovered document can act as a workspace entry point.
#[derive(Debug, Clone, Copy, PartialEq, Eq, Structural)]
pub enum WorkspaceDocumentKind {
    /// A document with a top-level `workspace { ... }` block.
    Entry,
    /// A parseable fragment that does not declare a top-level workspace.
    Fragment,
}

/// The normalized target shape observed for one explicit `!include`.
#[derive(Debug, PartialEq, Eq)]
pub enum WorkspaceIncludeTarget {
    /// A local file include that resolved to one concrete path.
    LocalFile {
        /// Canonical filesystem path to the followed local file.
        path: String,
    },
    /// A local directory include that expanded to zero or more concrete files.
    LocalDirectory {
        /// Canonical filesystem path to the followed local directory.
        path: String,
    },
    /// A remote include target that is recorded but not fetched.
    RemoteUrl {
        /// Remote HTTPS URL recorded during discovery.
        url: String,
    },
    /// A relative local target that did not exist on disk.
    MissingLocalPath {
        /// Filesystem path that did not exist when discovery attempted to follow it.
        path: String,
    },
    /// A local target that was rejected before loading, such as an absolute path
    /// or one that escapes the including document's directory tree.
    UnsupportedLocalPath {
        /// Filesystem path that discovery refused to follow.
        path: String,
    },
}

impl Clone for WorkspaceIncludeTarget {
    fn clone(&self) -> (r: Self)
        ensures
            r == *self,
    {
        match self {
            WorkspaceIncludeTarget::LocalFile { path } => WorkspaceIncludeTarget::LocalFile {
                path: path.clone(),
            },
            WorkspaceIncludeTarget::LocalDirectory { path } => WorkspaceIncludeTarget::LocalDirectory {
                path: path.clone(),
            },
            WorkspaceIncludeTarget::RemoteUrl { url } => WorkspaceIncludeTarget::RemoteUrl {
                url: url.clone(),
            },
            WorkspaceIncludeTarget::MissingLocalPath { path } => WorkspaceIncludeTarget::MissingLocalPath {
                path: path.clone(),
            },
            WorkspaceIncludeTarget::UnsupportedLocalPath { path } =>
                WorkspaceIncludeTarget::UnsupportedLocalPath { path: path.clone() },
        }
    }
}

/// One include directive plus the discovery-layer result of following it.
#[derive(Debug, PartialEq, Eq)]
pub struct ResolvedInclude {
    /// The document that declared the include directive.
    pub including_document: DocumentId,
    /// The exact directive value text as it appeared in the document.
    pub raw_value: String,
    /// The normalized target text after string substitution.
    pub target_text: String,
    /// The span of the full include directive.
    pub span: TextSpan,
    /// The span of the include directive's value node.
    pub value_span: TextSpan,
    /// The normalized target classification observed during discovery.
    pub target: WorkspaceIncludeTarget,
    /// The documents followed from this include target.
    pub discovered_documents: Vec<DocumentId>,
}

/// Copies a list of document identifiers.
pub fn clone_document_ids(v: &Vec<DocumentId>) -> (r: Vec<DocumentId>)
    ensures
        r@ == v@,
{
    let mut r: Vec<DocumentId> = Vec::new();
    let mut i: usize = 0;
    while i < v.len()
        invariant
            i <= v.len(),
            r@ == v@.subrange(0, i as int),
        decreases v.len() - i,
    {
        r.push(v[i].clone());
        i = i + 1;
    }
    assert(r@ =~= v@);
    r
}

impl Clone for ResolvedInclude {
    fn clone(&self) -> (r: Self)
        ensures
            r.including_document == self.including_document,
            r.raw_value == self.raw_value,
            r.target_text == self.target_text,
            r.span == self.span,
            r.value_span == self.value_span,
            r.target == self.target,
            r.discovered_documents@ == self.discovered_documents@,
    {
        ResolvedInclude {
            including_document: self.including_document.clone(),
            raw_value: self.raw_value.clone(),
            target_text: self.target_text.clone(),
            span: self.span,
            value_span: self.value_span,
            target: self.target.clone(),
            discovered_documents: clone_document_ids(&self.discovered_documents),
        }
    }
}

impl ResolvedInclude {
    /// Returns the document that declared this include directive.
    pub fn including_document(&self) -> (r: &DocumentId)
        ensures
            *r == self.including_document,
    {
        &self.including_document
    }

    /// Returns the exact directive value text as it appeared in the document.
    pub fn raw_value(&self) -> (r: &str)
        ensures
            r@ == self.raw_value@,
    {
        self.raw_value.as_str()
    }

    /// Returns the normalized target text after string substitution.
    pub fn target_text(&self) -> (r: &str)
        ensures
            r@ == self.target_text@,
    {
        self.target_text.as_str()
    }

    /// Returns the span of the full include directive.
    pub fn span(&self) -> (r: TextSpan)
        ensures
            r == self.span,
    {
        self.span
    }

    /// Returns the span of the include directive's value node.
    pub fn value_span(&self) -> (r: TextSpan)
        ensures
            r == self.value_span,
    {
        self.value_span
    }

    /// Returns the normalized target classification observed during discovery.
    pub fn target(&self) -> (r: &WorkspaceIncludeTarget)
        ensures
            *r == self.target,
    {
        &self.target
    }

    /// Returns the documents followed from this include target, if any.
    pub fn discovered_documents(&self) -> (r: &[DocumentId])
        ensures
            r@ == self.discovered_documents@,
    {
        self.discovered_documents.as_slice()
    }
}

/// Stable identity for one derived workspace instance.
#[derive(Debug, Clone, Copy, PartialEq, Eq, Structural, PartialOrd, Ord, Hash)]
pub struct WorkspaceInstanceId(pub usize);

impl WorkspaceInstanceId {
    /// Returns the stable numeric identity assigned during one workspace load.
    pub fn as_usize(self) -> (r: usize)
        ensures
            r == self.0,
    {
        self.0
    }
}

/// Stable reference to one extracted symbol in one discovered document.
#[derive(Debug, PartialEq, Eq, PartialOrd, Ord, Hash)]
pub struct SymbolHandle {
    /// The document that owns the referenced symbol.
    pub document: DocumentId,
    /// The snapshot-local symbol identifier.
    pub symbol_id: SymbolId,
}

impl View for SymbolHandle {
    type V = (Seq<char>, usize);

    open spec fn view(&self) -> (Seq<char>, usize) {
        (self.document@, self.symbol_id.0)
    }
}

impl Clone for SymbolHandle {
    fn clone(&self) -> (r: Self)
        ensures
            r == *self,
    {
        SymbolHandle { document: self.document.clone(), symbol_id: self.symbol_id }
    }
}

/// Strict order on handle views: by document text, then by symbol index (as the derived `Ord`).
pub open spec fn handle_lt(a: (Seq<char>, usize), b: (Seq<char>, usize)) -> bool {
    seq_lt(a.0, b.0) || (a.0 == b.0 && a.1 < b.1)
}

impl SymbolHandle {
    /// Creates a stable handle for one symbol in one discovered document.
    pub fn new(document: DocumentId, symbol_id: SymbolId) -> (r: Self)
        ensures
            r.document == document,
            r.symbol_id == symbol_id,
    {
        SymbolHandle { document, symbol_id }
    }

    /// Returns the document that owns the referenced symbol.
    pub fn document(&self) -> (r: &DocumentId)
        ensures
            *r == self.document,
    {
        &self.document
    }

    /// Returns the snapshot-local symbol identifier.
    pub fn symbol_id(&self) -> (r: SymbolId)
        ensures
            r == self.symbol_id,
    {
        self.symbol_id
    }

    /// Whether two handles name the same symbol of the same document.
    pub fn same(&self, other: &SymbolHandle) -> (r: bool)
        ensures
            r == (self@ == other@),
    {
        self.symbol_id.0 == other.symbol_id.0 && self.document.same(&other.document)
    }

    /// Whether this handle orders strictly before `other`.
    pub fn precedes(&self, other: &SymbolHandle) -> (r: bool)
        ensures
            r == handle_lt(self@, other@),
    {
        if crate::rule::str_lt(self.document.as_str(), other.document.as_str()) {
            true
        } else if self.document.same(&other.document) {
            self.symbol_id.0 < other.symbol_id.0
        } else {
            false
        }
    }
}

/// Per-instance symbol projection for workspace-wide symbol queries.
#[derive(Debug, PartialEq, Eq, PartialOrd, Ord, Hash)]
pub struct WorkspaceSymbolFact {
    /// The canonical key that identifies this symbol inside the instance.
    pub canonical_key: String,
    /// The root document that supplied this symbol's semantic context.
    pub root_document: DocumentId,
    /// The document that contains the symbol declaration.
    pub source_document: DocumentId,
    /// The stable handle for the declaration symbol.
    pub handle: SymbolHandle,
}

impl WorkspaceSymbolFact {
    /// Creates a symbol fact scoped to one derived workspace instance.
    pub fn new(
        canonical_key: String,
        root_document: DocumentId,
        source_document: DocumentId,
        handle: SymbolHandle,
    ) -> (r: Self)
        ensures
            r.canonical_key == canonical_key,
            r.root_document == root_document,
            r.source_document == source_document,
            r.handle == handle,
    {
        WorkspaceSymbolFact { canonical_key, root_document, source_document, handle }
    }

    /// Returns the canonical key that identifies this symbol inside the instance.
    pub fn canonical_key(&self) -> (r: &str)
        ensures
            r@ == self.canonical_key@,
    {
        self.canonical_key.as_str()
    }

    /// Returns the root document that supplied this symbol's semantic context.
    pub fn root_document(&self) -> (r: &DocumentId)
        ensures
            *r == self.root_document,
    {
        &self.root_document
    }

    /// Returns the document that contains the symbol declaration.
    pub fn source_document(&self) -> (r: &DocumentId)
        ensures
            *r == self.source_document,
    {
        &self.source_document
    }

    /// Returns the stable handle for the declaration symbol.
    pub fn handle(&self) -> (r: &SymbolHandle)
        ensures
            *r == self.handle,
    {
        &self.handle
    }
}

/// Stable reference to one extracted reference site in one discovered document.
#[derive(Debug, PartialEq, Eq, PartialOrd, Ord, Hash)]
pub struct ReferenceHandle {
    /// The document that owns the referenced syntax site.
    pub document: DocumentId,
    /// The snapshot-local reference index.
    pub reference_index: usize,
}

impl View for ReferenceHandle {
    type V = (Seq<char>, usize);

    open spec fn view(&self) -> (Seq<char>, usize) {
        (self.document@, self.reference_index)
    }
}

impl Clone for ReferenceHandle {
    fn clone(&self) -> (r: Self)
        ensures
            r == *self,
    {
        ReferenceHandle { document: self.document.clone(), reference_index: self.reference_index }
    }
}

impl ReferenceHandle {
    /// Creates a stable handle for one reference site in one discovered document.
    pub fn new(document: DocumentId, reference_index: usize) -> (r: Self)
        ensures
            r.document == document,
            r.reference_index == reference_index,
    {
        ReferenceHandle { document, reference_index }
    }

    /// Returns the document that owns the referenced syntax site.
    pub fn document(&self) -> (r: &DocumentId)
        ensures
            *r == self.document,
    {
        &self.document
    }

    /// Returns the snapshot-local reference index.
    pub fn reference_index(&self) -> (r: usize)
        ensures
            r == self.reference_index,
    {
        self.reference_index
    }

    /// Whether two handles name the same reference site.
    pub fn same(&self, other: &ReferenceHandle) -> (r: bool)
        ensures
            r == (self@ == other@),
    {
        self.reference_index == other.reference_index && self.document.same(&other.document)
    }
}

/// Explains how one supported reference site resolved inside a workspace index.
#[derive(Debug, PartialEq, Eq, PartialOrd, Ord)]
pub enum ReferenceResolutionStatus {
    /// The reference resolved confidently to one declaration symbol.
    Resolved(SymbolHandle),
    /// No matching binding existed in the relevant semantic table.
    UnresolvedNoMatch,
    /// One or more duplicate bindings prevented a confident answer.
    AmbiguousDuplicateBinding,
    /// Element and relationship bindings both matched the same raw text.
    AmbiguousElementVsRelationship,
    /// The current scope rules intentionally defer this reference surface.
    DeferredByScopePolicy,
}

/// The mathematical shape of a resolution outcome, with the handle taken by its view.
pub enum Resolution {
    /// Resolved to the symbol with this view.
    Resolved((Seq<char>, usize)),
    /// No binding matched.
    Unresolved,
    /// Duplicate bindings matched.
    AmbiguousDuplicate,
    /// Both an element and a relationship binding matched.
    AmbiguousElementVsRelationship,
    /// Deferred by scope policy.
    Deferred,
}

impl View for ReferenceResolutionStatus {
    type V = Resolution;

    open spec fn view(&self) -> Resolution {
        match self {
            ReferenceResolutionStatus::Resolved(h) => Resolution::Resolved(h@),
            ReferenceResolutionStatus::UnresolvedNoMatch => Resolution::Unresolved,
            ReferenceResolutionStatus::AmbiguousDuplicateBinding => Resolution::AmbiguousDuplicate,
            ReferenceResolutionStatus::AmbiguousElementVsRelationship =>
                Resolution::AmbiguousElementVsRelationship,
            ReferenceResolutionStatus::DeferredByScopePolicy => Resolution::Deferred,
        }
    }
}

impl Clone for ReferenceResolutionStatus {
    fn clone(&self) -> (r: Self)
        ensures
            r == *self,
    {
        match self {
            ReferenceResolutionStatus::Resolved(h) => ReferenceResolutionStatus::Resolved(h.clone()),
            ReferenceResolutionStatus::UnresolvedNoMatch => ReferenceResolutionStatus::UnresolvedNoMatch,
            ReferenceResolutionStatus::AmbiguousDuplicateBinding =>
                ReferenceResolutionStatus::AmbiguousDuplicateBinding,
            ReferenceResolutionStatus::AmbiguousElementVsRelationship =>
                ReferenceResolutionStatus::AmbiguousElementVsRelationship,
            ReferenceResolutionStatus::DeferredByScopePolicy =>
                ReferenceResolutionStatus::DeferredByScopePolicy,
        }
    }
}

impl ReferenceResolutionStatus {
    /// Whether this outcome is `UnresolvedNoMatch`.
    pub fn is_unresolved(&self) -> (r: bool)
        ensures
            r == (self is UnresolvedNoMatch),
    {
        match self {
            ReferenceResolutionStatus::UnresolvedNoMatch => true,
            _ => false,
        }
    }
}

} // verus!
