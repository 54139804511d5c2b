//! Fatal workspace-load failures and the structured error returned when discovery cannot
//! assemble complete workspace facts.

use vstd::prelude::*;

use crate::diagnostics::{code_of, RuledDiagnostic};
use crate::snapshot::DocumentId;
use crate::span::TextSpan;

verus! {

/// Fatal failures that can prevent workspace facts from being assembled.
#[derive(Debug, Clone, Copy, PartialEq, Eq, Structural, PartialOrd, Ord)]
pub enum WorkspaceLoadFailureKind {
    /// A requested workspace root could not be normalized or opened.
    WorkspaceRoot,
    /// A workspace root could not be traversed.
    WorkspaceScan,
    /// A discovered file-backed document could not be read.
    DocumentRead,
    /// A `workspace extends` target could not be resolved or loaded.
    WorkspaceBase,
    /// A `workspace extends` chain loops back to an active document.
    WorkspaceBaseCycle,
    /// A local `!include` target could not be loaded after it resolved.
    IncludeLoad,
}

/// Source location for a fatal load failure when the loader can identify one.
#[derive(Debug, PartialEq, Eq, PartialOrd, Ord)]
pub struct WorkspaceLoadFailureAnchor {
    /// The document that owns the failing directive.
    pub document: DocumentId,
    /// The primary source span to highlight.
    pub span: TextSpan,
    /// The narrower value span when the failure came from a directive value.
    pub value_span: Option<TextSpan>,
    /// The user-facing target text associated with the failing directive.
    pub target_text: Option<String>,
}

impl Clone for WorkspaceLoadFailureAnchor {
    fn clone(&self) -> (r: Self)
        ensures
            r == *self,
    {
        WorkspaceLoadFailureAnchor {
            document: self.document.clone(),
            span: self.span,
            value_span: self.value_span,
            target_text: crate::symbols::clone_opt_string(&self.target_text),
        }
    }
}

impl WorkspaceLoadFailureAnchor {
    /// Returns the document that owns the failing directive.
    pub fn document(&self) -> (r: &DocumentId)
        ensures
            *r == self.document,
    {
        &self.document
    }

    /// Returns the primary source span to highlight.
    pub fn span(&self) -> (r: TextSpan)
        ensures
            r == self.span,
    {
        self.span
    }

    /// Returns the narrower value span when the failure came from a directive value.
    pub fn value_span(&self) -> (r: Option<TextSpan>)
        ensures
            r == self.value_span,
    {
        self.value_span
    }

    /// Returns the user-facing target text associated with the failing directive.
    pub fn target_text(&self) -> (r: Option<&str>)
        ensures
            match r {
                Some(t) => self.target_text matches Some(s) && s@ == t@,
                None => self.target_text is None,
            },
    {
        match &self.target_text {
            Some(t) => Some(t.as_str()),
            None => None,
        }
    }
}

/// One structured fatal workspace-load failure.
#[derive(Debug, PartialEq, Eq, PartialOrd, Ord)]
pub struct WorkspaceLoadFailure {
    /// The typed failure category.
    pub kind: WorkspaceLoadFailureKind,
    /// The user-facing failure explanation.
    pub message: String,
    /// The relevant filesystem path when one is known.
    pub path: Option<String>,
    /// Source anchor metadata when the failure belongs to a directive.
    pub anchor: Option<WorkspaceLoadFailureAnchor>,
}

impl Clone for WorkspaceLoadFailure {
    fn clone(&self) -> (r: Self)
        ensures
            r == *self,
    {
        WorkspaceLoadFailure {
            kind: self.kind,
            message: self.message.clone(),
            path: crate::symbols::clone_opt_string(&self.path),
            anchor: match &self.anchor {
                Some(a) => Some(a.clone()),
                None => None,
            },
        }
    }
}

impl WorkspaceLoadFailure {
    /// A failure with no source anchor.
    pub fn unanchored(kind: WorkspaceLoadFailureKind, message: String, path: Option<String>) -> (r: Self)
        ensures
            r.kind == kind,
            r.message == message,
            r.path == path,
            r.anchor is None,
    {
        WorkspaceLoadFailure { kind, message, path, anchor: None }
    }

    /// A failure anchored at a directive of `document`.
    pub fn anchored(
        kind: WorkspaceLoadFailureKind,
        document: &DocumentId,
        span: TextSpan,
        value_span: Option<TextSpan>,
        target_text: Option<String>,
        path: Option<String>,
        message: String,
    ) -> (r: Self)
        ensures
            r.kind == kind,
            r.message == message,
            r.path == path,
            r.anchor == Some(
                WorkspaceLoadFailureAnchor { document: *document, span, value_span, target_text },
            ),
    {
        WorkspaceLoadFailure {
            kind,
            message,
            path,
            anchor: Some(WorkspaceLoadFailureAnchor { document: document.clone(), span, value_span, target_text }),
        }
    }

    /// A workspace root that could not be normalized or opened.
    pub fn workspace_root(path: &str, error: &str) -> (r: Self)
        ensures
            r.kind == WorkspaceLoadFailureKind::WorkspaceRoot,
            r.message@ == "failed to load workspace root "@ + path@ + ": "@ + error@,
            r.path matches Some(p) && p@ == path@,
            r.anchor is None,
    {
        let mut message = crate::text::cat3("failed to load workspace root ", path, ": ");
        message.append(error);
        Self::unanchored(WorkspaceLoadFailureKind::WorkspaceRoot, message, Some(path.to_owned()))
    }

    /// A workspace root that could not be traversed.
    pub fn workspace_scan(root: &str, error: &str) -> (r: Self)
        ensures
            r.kind == WorkspaceLoadFailureKind::WorkspaceScan,
            r.message@ == "failed to scan workspace root "@ + root@ + ": "@ + error@,
            r.path matches Some(p) && p@ == root@,
            r.anchor is None,
    {
        let mut message = crate::text::cat3("failed to scan workspace root ", root, ": ");
        message.append(error);
        Self::unanchored(WorkspaceLoadFailureKind::WorkspaceScan, message, Some(root.to_owned()))
    }

    /// A discovered document that could not be read.
    pub fn document_read(path: &str, error: &str) -> (r: Self)
        ensures
            r.kind == WorkspaceLoadFailureKind::DocumentRead,
            r.message@ == "failed to read workspace document "@ + path@ + ": "@ + error@,
            r.path matches Some(p) && p@ == path@,
            r.anchor is None,
    {
        let mut message = crate::text::cat3("failed to read workspace document ", path, ": ");
        message.append(error);
        Self::unanchored(WorkspaceLoadFailureKind::DocumentRead, message, Some(path.to_owned()))
    }

    /// Returns the typed failure category.
    pub fn kind(&self) -> (r: WorkspaceLoadFailureKind)
        ensures
            r == self.kind,
    {
        self.kind
    }

    /// Returns the user-facing failure explanation.
    pub fn message(&self) -> (r: &str)
        ensures
            r@ == self.message@,
    {
        self.message.as_str()
    }

    /// Returns the relevant filesystem path when one is known.
    pub fn path(&self) -> (r: Option<&str>)
        ensures
            match r {
                Some(p) => self.path matches Some(s) && s@ == p@,
                None => self.path is None,
            },
    {
        match &self.path {
            Some(p) => Some(p.as_str()),
            None => None,
        }
    }

    /// Returns source anchor metadata when the failure belongs to a directive.
    pub fn anchor(&self) -> (r: Option<&WorkspaceLoadFailureAnchor>)
        ensures
            match r {
                Some(a) => self.anchor == Some(*a),
                None => self.anchor is None,
            },
    {
        match &self.anchor {
            Some(a) => Some(a),
            None => None,
        }
    }

    /// Returns whether this failure can be rendered as a source diagnostic.
    pub fn is_anchored(&self) -> (r: bool)
        ensures
            r == (self.anchor is Some),
    {
        self.anchor.is_some()
    }

    /// Converts an anchored load failure into the normal ruled diagnostic stream; an
    /// unanchored failure has none.
    pub fn diagnostic(&self) -> (r: Option<RuledDiagnostic>)
        ensures
            self.anchor is None ==> r is None,
            self.anchor matches Some(a) ==> r matches Some(d) && code_of(d) == "workspace.load-failure"@
                && d.diagnostic.message@ == self.message@ && d.diagnostic.span == a.span
                && d.diagnostic.document == Some(a.document) && d.diagnostic.value_span == a.value_span
                && (match a.target_text {
                Some(t) => d.diagnostic.target_text matches Some(s) && s@ == t@,
                None => d.diagnostic.target_text is None,
            }),
    {
        let anchor = match &self.anchor {
            Some(a) => a,
            None => {
                return None;
            },
        };
        Some(
            RuledDiagnostic::workspace_load_failure(
                &anchor.document,
                self.message.as_str(),
                anchor.span,
                anchor.value_span,
                anchor.target_text(),
            ),
        )
    }
}

/// Structured fatal result for workspace loading.
#[derive(Debug, PartialEq, Eq)]
pub struct WorkspaceLoadError {
    /// The structured failures that caused the load to abort.
    pub failures: Vec<WorkspaceLoadFailure>,
}

impl WorkspaceLoadError {
    /// An error made of one failure.
    pub fn single(failure: WorkspaceLoadFailure) -> (r: Self)
        ensures
            r.failures@ == seq![failure],
    {
        let mut failures = Vec::new();
        failures.push(failure);
        WorkspaceLoadError { failures }
    }

    /// Returns the structured failures that caused the load to abort.
    pub fn failures(&self) -> (r: &[WorkspaceLoadFailure])
        ensures
            r@ == self.failures@,
    {
        self.failures.as_slice()
    }

    /// Consumes the error and returns its structured failures.
    pub fn into_failures(self) -> (r: Vec<WorkspaceLoadFailure>)
        ensures
            r@ == self.failures@,
    {
        self.failures
    }

    /// The error's rendering: a fixed sentence with no failures, the one failure's message, or
    /// a count followed by one line per failure.
    pub fn describe(&self) -> (r: String)
        ensures
            self.failures@.len() == 0 ==> r@ == "workspace load failed"@,
            self.failures@.len() == 1 ==> r@ == self.failures@[0].message@,
    {
        let n = self.failures.len();
        if n == 0 {
            return "workspace load failed".to_owned();
        }
        if n == 1 {
            return self.failures[0].message.clone();
        }
        let mut out = crate::text::cat3("workspace load failed with ", crate::text::decimal(n).as_str(), " fatal failures");
        let mut i: usize = 0;
        while i < n
            invariant
                n == self.failures@.len(),
                i <= n,
            decreases n - i,
        {
            out.append("\n- ");
            out.append(self.failures[i].message.as_str());
            i = i + 1;
        }
        out
    }
}

} // verus!
