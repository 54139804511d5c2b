//! Following `!include` directives and `workspace extends` bases: every decision about what a
//! target is and whether it may be followed, over what the filesystem reported for it.

use vstd::prelude::*;

use crate::includes::{normalized_value, DirectiveValueKind, IncludeDirective};
use crate::snapshot::DocumentId;
use crate::span::TextSpan;
use crate::text::seq_starts_with;
use crate::workspace::errors::{WorkspaceLoadError, WorkspaceLoadFailure, WorkspaceLoadFailureKind};
use crate::workspace::model::{ResolvedInclude, WorkspaceIncludeTarget};
use crate::workspace::resources::{
    path_absolute,
    path_component_kinds,
    path_components,
    path_is_absolute,
    path_join,
    path_joined,
    path_parent,
    path_parent_of,
    path_starts_with,
    path_under,
    PathComponentKind,
};
use crate::workspace::substitution::{expand, expand_string_substitutions, ConstantEnvironment};

use crate::workspace::cycles::{lemma_ascending_unique, strictly_ascending};
use crate::workspace::loader::{insert_path_sorted, path_views, paths_sorted};

verus! {

/// Whether a target names a remote HTTPS resource.
pub open spec fn remote_target(t: Seq<char>) -> bool {
    seq_starts_with(t, "https://"@)
}

/// Whether a target is an `https://` URL, which is recorded but never fetched.
pub fn is_remote_include(target_text: &str) -> (r: bool)
    ensures
        r == remote_target(target_text@),
{
    crate::text::starts_with(target_text, "https://")
}

/// Whether a resource value is remote or inline (`http://`, `https://`, or `data:`).
pub open spec fn remote_resource(v: Seq<char>) -> bool {
    seq_starts_with(v, "http://"@) || seq_starts_with(v, "https://"@) || seq_starts_with(v, "data:"@)
}

/// Decides `remote_resource`.
pub fn is_remote_resource_value(value: &str) -> (r: bool)
    ensures
        r == remote_resource(value@),
{
    crate::text::starts_with(value, "http://") || crate::text::starts_with(value, "https://")
        || crate::text::starts_with(value, "data:")
}

/// Whether a path component may appear in a followed path: it neither climbs (`..`) nor starts
/// at the root or at a drive prefix.
pub open spec fn component_followable(k: PathComponentKind) -> bool {
    k != PathComponentKind::ParentDir && k != PathComponentKind::RootDir && k != PathComponentKind::Prefix
}

/// Whether a relative path may be followed: it is not absolute and each of its components may
/// appear in a followed path.
pub open spec fn supported_local_path(p: Seq<char>) -> bool {
    &&& !path_absolute(p)
    &&& forall|i: int| 0 <= i < path_component_kinds(p).len() ==> component_followable(#[trigger] path_component_kinds(p)[i])
}

/// Decides `supported_local_path`.
pub fn is_supported_local_include_path(path: &str) -> (r: bool)
    ensures
        r == supported_local_path(path@),
{
    if path_is_absolute(path) {
        return false;
    }
    let parts = path_components(path);
    let mut i: usize = 0;
    while i < parts.len()
        invariant
            parts@ == path_component_kinds(path@),
            i <= parts@.len(),
            forall|j: int| 0 <= j < i ==> component_followable(#[trigger] parts@[j]),
        decreases parts.len() - i,
    {
        match parts[i] {
            PathComponentKind::ParentDir | PathComponentKind::RootDir | PathComponentKind::Prefix => {
                return false;
            },
            _ => {},
        }
        i = i + 1;
    }
    true
}

/// The normalized target text of an include: its value without quotes, with constants expanded.
pub open spec fn include_target(directive: IncludeDirective, env: Seq<(String, String)>) -> Seq<char> {
    expand(normalized_value(directive.raw_value@, directive.value_kind), env)
}

/// Computes the normalized target text of an include.
pub fn include_target_text(directive: &IncludeDirective, constants: &ConstantEnvironment) -> (r: String)
    ensures
        r@ == include_target(*directive, constants.bindings@),
{
    let normalized = crate::includes::normalized_directive_value(directive.raw_value.as_str(), &directive.value_kind);
    expand_string_substitutions(normalized.as_str(), constants)
}

/// What the filesystem reported for one include target.
pub enum TargetEntry {
    /// The target is a file: its canonical path, or why canonicalizing failed.
    File { canonical: Result<String, String> },
    /// The target is a directory: its canonical path (or why canonicalizing failed), and the
    /// canonical paths of every file under it (or why walking it failed), in any order.
    Directory { canonical: Result<String, String>, listing: Result<Vec<String>, String> },
    /// The target exists but is neither a file nor a directory.
    Other,
    /// The target does not exist.
    Missing,
    /// Reading the target's metadata failed for another reason.
    Failed { error: String },
}

/// What the filesystem reported around one local target of a document: the canonical form of
/// the document's directory (or why canonicalizing it failed), and what lies at the target
/// joined to that directory.
pub struct IncludeProbe {
    /// The including document's directory, canonicalized, or why that failed.
    pub canonical_parent: Result<String, String>,
    /// What the joined path is.
    pub entry: TargetEntry,
}

/// The paths of `paths` that lie under `root`, in order.
pub open spec fn paths_under(paths: Seq<Seq<char>>, root: Seq<char>) -> Seq<Seq<char>>
    decreases paths.len(),
{
    if paths.len() == 0 {
        Seq::empty()
    } else {
        let rest = paths_under(paths.drop_last(), root);
        if path_under(paths.last(), root) {
            rest.push(paths.last())
        } else {
            rest
        }
    }
}

/// Keeps the paths that lie under `root`, in order.
fn files_under(paths: &Vec<String>, root: &str) -> (r: Vec<String>)
    ensures
        r@.map_values(|p: String| p@) == paths_under(paths@.map_values(|p: String| p@), root@),
{
    let ghost pv = paths@.map_values(|p: String| p@);
    let mut r: Vec<String> = Vec::new();
    let mut i: usize = 0;
    while i < paths.len()
        invariant
            i <= paths@.len(),
            pv == paths@.map_values(|p: String| p@),
            r@.map_values(|p: String| p@) == paths_under(pv.take(i as int), root@),
        decreases paths@.len() - i,
    {
        let ghost before = r@;
        proof {
            assert(pv.take(i + 1).drop_last() =~= pv.take(i as int));
            assert(pv.take(i + 1).last() == paths@[i as int]@);
        }
        if path_starts_with(paths[i].as_str(), root) {
            r.push(paths[i].clone());
            proof {
                assert(r@.map_values(|p: String| p@) =~= before.map_values(|p: String| p@).push(paths@[i as int]@));
            }
        }
        i = i + 1;
    }
    proof {
        assert(pv.take(paths@.len() as int) =~= pv);
    }
    r
}

/// The distinct paths of `s`, in ascending order.
pub open spec fn ascending_paths(s: Seq<Seq<char>>) -> Seq<Seq<char>> {
    choose|q: Seq<Seq<char>>| strictly_ascending(q) && forall|x: Seq<char>| #[trigger] q.contains(x) <==> s.contains(x)
}

/// The distinct paths of `paths`, in ascending order.
fn ascending_unique(paths: &Vec<String>) -> (r: Vec<String>)
    ensures
        r@.map_values(|p: String| p@) == ascending_paths(paths@.map_values(|p: String| p@)),
{
    let ghost pv = paths@.map_values(|p: String| p@);
    let mut r: Vec<String> = Vec::new();
    let mut i: usize = 0;
    proof {
        assert(path_views(r@) =~= Seq::<Seq<char>>::empty());
    }
    while i < paths.len()
        invariant
            i <= paths@.len(),
            pv == paths@.map_values(|p: String| p@),
            paths_sorted(path_views(r@)),
            forall|x: Seq<char>| #[trigger] path_views(r@).contains(x) <==> pv.take(i as int).contains(x),
        decreases paths@.len() - i,
    {
        let ghost before = path_views(r@);
        insert_path_sorted(&mut r, &paths[i]);
        proof {
            assert(pv.take(i + 1) =~= pv.take(i as int).push(pv[i as int]));
            assert(pv[i as int] == paths@[i as int]@);
            assert forall|x: Seq<char>| #[trigger] path_views(r@).contains(x) <==> pv.take(i + 1).contains(x) by {
                if pv.take(i + 1).contains(x) {
                    let j = choose|j: int| 0 <= j < i + 1 && #[trigger] pv.take(i + 1)[j] == x;
                    if j < i {
                        assert(pv.take(i as int)[j] == x);
                        assert(pv.take(i as int).contains(x));
                        assert(before.contains(x));
                    } else {
                        assert(x == paths@[i as int]@);
                    }
                }
                if path_views(r@).contains(x) {
                    if x == paths@[i as int]@ {
                        assert(pv.take(i + 1)[i as int] == x);
                    } else {
                        assert(before.contains(x));
                        assert(pv.take(i as int).contains(x));
                        let j = choose|j: int| 0 <= j < i && #[trigger] pv.take(i as int)[j] == x;
                        assert(pv.take(i + 1)[j] == x);
                    }
                }
            }
        }
        i = i + 1;
    }
    proof {
        let rv = path_views(r@);
        assert(pv.take(i as int) =~= pv);
        assert(rv =~= r@.map_values(|p: String| p@));
        assert(strictly_ascending(rv) && forall|x: Seq<char>| #[trigger] rv.contains(x) <==> pv.contains(x));
        let q = ascending_paths(pv);
        assert(strictly_ascending(q) && forall|x: Seq<char>| #[trigger] q.contains(x) <==> pv.contains(x));
        lemma_ascending_unique(rv, q);
    }
    r
}

/// One followed include and the canonical paths it discovered.
pub struct ResolvedIncludeWork {
    /// The include and its classified target.
    pub followed: ResolvedInclude,
    /// The canonical paths of the documents it leads to.
    pub discovered_paths: Vec<String>,
}

/// The outcome of following one include, by views.
pub enum IncludeOutcome {
    /// The include classified as this target, discovering these paths.
    Target { target: TargetView, discovered: Seq<Seq<char>> },
    /// Loading failed: the path to report and the error text.
    Failure { path: Option<Seq<char>>, error: Seq<char> },
}

/// What following an include of `target` from the document at `document_path` gives, from
/// what the filesystem reported: a remote URL is recorded as it is; otherwise the target is
/// joined to the document's directory, refused when it climbs out of it or its canonical form
/// lies outside the canonical directory, and a directory discovers the files under it that lie
/// inside the canonical directory.
pub open spec fn include_outcome(target: Seq<char>, document_path: Seq<char>, probe: IncludeProbe) -> IncludeOutcome {
    if remote_target(target) {
        IncludeOutcome::Target { target: TargetView::RemoteUrl(target), discovered: Seq::empty() }
    } else {
        match path_parent_of(document_path) {
            None => IncludeOutcome::Failure {
                path: Some(document_path),
                error: "document path has no parent directory: "@ + document_path,
            },
            Some(parent) => match probe.canonical_parent {
                Err(e) => IncludeOutcome::Failure { path: Some(parent), error: e@ },
                Ok(cp) => {
                    let joined = path_joined(parent, target);
                    if !supported_local_path(target) {
                        IncludeOutcome::Target { target: TargetView::UnsupportedLocalPath(joined), discovered: Seq::empty() }
                    } else {
                        match probe.entry {
                            TargetEntry::File { canonical } => match canonical {
                                Err(e) => IncludeOutcome::Failure { path: Some(joined), error: e@ },
                                Ok(c) => if !path_under(c@, cp@) {
                                    IncludeOutcome::Target {
                                        target: TargetView::UnsupportedLocalPath(c@),
                                        discovered: Seq::empty(),
                                    }
                                } else {
                                    IncludeOutcome::Target { target: TargetView::LocalFile(c@), discovered: seq![c@] }
                                },
                            },
                            TargetEntry::Directory { canonical, listing } => match canonical {
                                Err(e) => IncludeOutcome::Failure { path: Some(joined), error: e@ },
                                Ok(c) => if !path_under(c@, cp@) {
                                    IncludeOutcome::Target {
                                        target: TargetView::UnsupportedLocalPath(c@),
                                        discovered: Seq::empty(),
                                    }
                                } else {
                                    match listing {
                                        Err(e) => IncludeOutcome::Failure { path: Some(c@), error: e@ },
                                        Ok(paths) => IncludeOutcome::Target {
                                            target: TargetView::LocalDirectory(c@),
                                            discovered: ascending_paths(paths_under(paths@.map_values(|p: String| p@), cp@)),
                                        },
                                    }
                                },
                            },
                            TargetEntry::Other => IncludeOutcome::Target {
                                target: TargetView::UnsupportedLocalPath(joined),
                                discovered: Seq::empty(),
                            },
                            TargetEntry::Missing => IncludeOutcome::Target {
                                target: TargetView::MissingLocalPath(joined),
                                discovered: Seq::empty(),
                            },
                            TargetEntry::Failed { error } => IncludeOutcome::Failure { path: Some(joined), error: error@ },
                        }
                    }
                },
            },
        }
    }
}

/// A target classification by views.
pub enum TargetView {
    /// A followed local file.
    LocalFile(Seq<char>),
    /// A followed local directory.
    LocalDirectory(Seq<char>),
    /// A recorded remote URL.
    RemoteUrl(Seq<char>),
    /// A missing local path.
    MissingLocalPath(Seq<char>),
    /// A refused local path.
    UnsupportedLocalPath(Seq<char>),
}

/// A target classification taken by views.
pub open spec fn target_view(t: WorkspaceIncludeTarget) -> TargetView {
    match t {
        WorkspaceIncludeTarget::LocalFile { path } => TargetView::LocalFile(path@),
        WorkspaceIncludeTarget::LocalDirectory { path } => TargetView::LocalDirectory(path@),
        WorkspaceIncludeTarget::RemoteUrl { url } => TargetView::RemoteUrl(url@),
        WorkspaceIncludeTarget::MissingLocalPath { path } => TargetView::MissingLocalPath(path@),
        WorkspaceIncludeTarget::UnsupportedLocalPath { path } => TargetView::UnsupportedLocalPath(path@),
    }
}


/// The failure reported when an include cannot be loaded.
pub fn include_load_failure(
    document: &DocumentId,
    span: TextSpan,
    value_span: TextSpan,
    target_text: &str,
    path: Option<String>,
    error: &str,
) -> (r: WorkspaceLoadError)
    ensures
        r.failures@.len() == 1,
        r.failures@[0].kind == WorkspaceLoadFailureKind::IncludeLoad,
        r.failures@[0].message@ == "failed to load include "@ + target_text@ + ": "@ + error@,
        r.failures@[0].path == path,
        r.failures@[0].anchor matches Some(a) && a.document == *document && a.span == span && a.value_span == Some(
            value_span,
        ) && (a.target_text matches Some(t) && t@ == target_text@),
{
    let mut message = crate::text::cat3("failed to load include ", target_text, ": ");
    message.append(error);
    WorkspaceLoadError::single(
        WorkspaceLoadFailure::anchored(
            WorkspaceLoadFailureKind::IncludeLoad,
            document,
            span,
            Some(value_span),
            Some(target_text.to_owned()),
            path,
            message,
        ),
    )
}

/// Copies a list of paths.
pub fn clone_paths(v: &Vec<String>) -> (r: Vec<String>)
    ensures
        r@ == v@,
{
    crate::symbols::clone_strings(v)
}

fn include_work(
    including_document: &DocumentId,
    directive: &IncludeDirective,
    target_text: &String,
    target: WorkspaceIncludeTarget,
    discovered_paths: Vec<String>,
) -> (r: ResolvedIncludeWork)
    ensures
        r.followed.including_document == *including_document,
        r.followed.raw_value == directive.raw_value,
        r.followed.target_text == *target_text,
        r.followed.span == directive.span,
        r.followed.value_span == directive.value_span,
        r.followed.target == target,
        r.discovered_paths@ == discovered_paths@,
        r.followed.discovered_documents@.map_values(|d: DocumentId| d@) == discovered_paths@.map_values(|p: String| p@),
{
    let mut documents: Vec<DocumentId> = Vec::new();
    let mut i: usize = 0;
    while i < discovered_paths.len()
        invariant
            i <= discovered_paths@.len(),
            documents@.map_values(|d: DocumentId| d@) == discovered_paths@.subrange(0, i as int).map_values(
                |p: String| p@,
            ),
        decreases discovered_paths.len() - i,
    {
        let ghost before = documents@;
        documents.push(DocumentId::new(discovered_paths[i].clone()));
        proof {
            assert(documents@.map_values(|d: DocumentId| d@) =~= before.map_values(|d: DocumentId| d@).push(
                discovered_paths@[i as int]@,
            ));
            assert(discovered_paths@.subrange(0, i + 1).map_values(|p: String| p@) =~= discovered_paths@.subrange(
                0,
                i as int,
            ).map_values(|p: String| p@).push(discovered_paths@[i as int]@));
        }
        i = i + 1;
    }
    assert(discovered_paths@.subrange(0, discovered_paths@.len() as int) =~= discovered_paths@);
    ResolvedIncludeWork {
        followed: ResolvedInclude {
            including_document: including_document.clone(),
            raw_value: directive.raw_value.clone(),
            target_text: target_text.clone(),
            span: directive.span,
            value_span: directive.value_span,
            target,
            discovered_documents: documents,
        },
        discovered_paths,
    }
}

/// Follows one include given what the filesystem reported around its target.
pub fn resolve_include(
    including_document: &DocumentId,
    directive: &IncludeDirective,
    constants: &ConstantEnvironment,
    probe: &IncludeProbe,
) -> (r: Result<ResolvedIncludeWork, WorkspaceLoadError>)
    ensures
        ({
            let target = include_target(*directive, constants.bindings@);
            match r {
                Ok(w) => {
                    &&& include_outcome(target, including_document@, *probe) matches IncludeOutcome::Target { target: t, discovered: d }
                        && target_view(w.followed.target) == t && w.discovered_paths@.map_values(|p: String| p@) == d
                        && w.followed.discovered_documents@.map_values(|x: DocumentId| x@) == d
                    &&& w.followed.including_document == *including_document
                    &&& w.followed.raw_value == directive.raw_value
                    &&& w.followed.target_text@ == target
                    &&& w.followed.span == directive.span
                    &&& w.followed.value_span == directive.value_span
                },
                Err(e) => {
                    &&& include_outcome(target, including_document@, *probe) matches IncludeOutcome::Failure { path, error } && e.failures@.len()
                        == 1 && e.failures@[0].message@ == "failed to load include "@ + target + ": "@ + error && match (
                        e.failures@[0].path,
                        path,
                    ) {
                        (Some(x), Some(y)) => x@ == y,
                        (None, None) => true,
                        _ => false,
                    }
                    &&& e.failures@[0].kind == WorkspaceLoadFailureKind::IncludeLoad
                    &&& e.failures@[0].anchor matches Some(a) && a.document == *including_document && a.span
                        == directive.span && a.value_span == Some(directive.value_span)
                        && (a.target_text matches Some(t) && t@ == target)
                },
            }
        }),
{
    let target_text = include_target_text(directive, constants);
    if is_remote_include(target_text.as_str()) {
        let url = target_text.clone();
        return Ok(
            include_work(
                including_document,
                directive,
                &target_text,
                WorkspaceIncludeTarget::RemoteUrl { url },
                Vec::new(),
            ),
        );
    }
    let document_path = including_document.as_str();
    let parent = match path_parent(document_path) {
        Some(p) => p,
        None => {
            let error = crate::text::cat("document path has no parent directory: ", document_path);
            return Err(
                include_load_failure(
                    including_document,
                    directive.span,
                    directive.value_span,
                    target_text.as_str(),
                    Some(crate::text::owned(document_path)),
                    error.as_str(),
                ),
            );
        },
    };
    let canonical_parent = match &probe.canonical_parent {
        Err(e) => {
            return Err(
                include_load_failure(
                    including_document,
                    directive.span,
                    directive.value_span,
                    target_text.as_str(),
                    Some(parent),
                    e.as_str(),
                ),
            );
        },
        Ok(cp) => cp.as_str(),
    };
    let joined = path_join(parent.as_str(), target_text.as_str());
    if !is_supported_local_include_path(target_text.as_str()) {
        return Ok(
            include_work(
                including_document,
                directive,
                &target_text,
                WorkspaceIncludeTarget::UnsupportedLocalPath { path: joined },
                Vec::new(),
            ),
        );
    }
    match &probe.entry {
        TargetEntry::File { canonical } => match canonical {
            Err(e) => Err(
                include_load_failure(
                    including_document,
                    directive.span,
                    directive.value_span,
                    target_text.as_str(),
                    Some(joined),
                    e.as_str(),
                ),
            ),
            Ok(c) => {
                if !path_starts_with(c.as_str(), canonical_parent) {
                    Ok(
                        include_work(
                            including_document,
                            directive,
                            &target_text,
                            WorkspaceIncludeTarget::UnsupportedLocalPath { path: c.clone() },
                            Vec::new(),
                        ),
                    )
                } else {
                    let mut discovered: Vec<String> = Vec::new();
                    discovered.push(c.clone());
                    assert(discovered@.map_values(|p: String| p@) =~= seq![c@]);
                    Ok(
                        include_work(
                            including_document,
                            directive,
                            &target_text,
                            WorkspaceIncludeTarget::LocalFile { path: c.clone() },
                            discovered,
                        ),
                    )
                }
            },
        },
        TargetEntry::Directory { canonical, listing } => match canonical {
            Err(e) => Err(
                include_load_failure(
                    including_document,
                    directive.span,
                    directive.value_span,
                    target_text.as_str(),
                    Some(joined),
                    e.as_str(),
                ),
            ),
            Ok(c) => {
                if !path_starts_with(c.as_str(), canonical_parent) {
                    Ok(
                        include_work(
                            including_document,
                            directive,
                            &target_text,
                            WorkspaceIncludeTarget::UnsupportedLocalPath { path: c.clone() },
                            Vec::new(),
                        ),
                    )
                } else {
                    match listing {
                        Err(e) => Err(
                            include_load_failure(
                                including_document,
                                directive.span,
                                directive.value_span,
                                target_text.as_str(),
                                Some(c.clone()),
                                e.as_str(),
                            ),
                        ),
                        Ok(paths) => Ok(
                            include_work(
                                including_document,
                                directive,
                                &target_text,
                                WorkspaceIncludeTarget::LocalDirectory { path: c.clone() },
                                ascending_unique(&files_under(paths, canonical_parent)),
                            ),
                        ),
                    }
                }
            },
        },
        TargetEntry::Other => Ok(
            include_work(
                including_document,
                directive,
                &target_text,
                WorkspaceIncludeTarget::UnsupportedLocalPath { path: joined },
                Vec::new(),
            ),
        ),
        TargetEntry::Missing => Ok(
            include_work(
                including_document,
                directive,
                &target_text,
                WorkspaceIncludeTarget::MissingLocalPath { path: joined },
                Vec::new(),
            ),
        ),
        TargetEntry::Failed { error } => Err(
            include_load_failure(
                including_document,
                directive.span,
                directive.value_span,
                target_text.as_str(),
                Some(joined),
                error.as_str(),
            ),
        ),
    }
}


/// A `workspace extends` directive.
pub struct WorkspaceBaseDirective {
    /// The base value as written.
    pub raw_value: String,
    /// The syntax form of the value.
    pub value_kind: DirectiveValueKind,
    /// The directive's span.
    pub span: TextSpan,
    /// The value's span.
    pub value_span: TextSpan,
}

/// The `workspace extends` directive of a document, if its top-level workspace has one.
pub open spec fn base_directive_node(root: crate::syntax::SyntaxNode) -> Option<crate::syntax::SyntaxNode> {
    let i = first_workspace_child(root.children@);
    if i < root.children@.len() {
        crate::syntax::field_child(root.children@[i as int], "base"@)
    } else {
        None
    }
}

/// Index of the first named `workspace` child, or the length when there is none.
pub open spec fn first_workspace_child(cs: Seq<crate::syntax::SyntaxNode>) -> nat
    decreases cs.len(),
{
    if cs.len() == 0 {
        0
    } else if cs[0].is_named && cs[0].kind@ == "workspace"@ {
        0
    } else {
        1 + first_workspace_child(cs.drop_first())
    }
}

proof fn lemma_first_workspace_child(cs: Seq<crate::syntax::SyntaxNode>, i: int)
    requires
        0 <= i <= cs.len(),
        forall|j: int| 0 <= j < i ==> !((#[trigger] cs[j]).is_named && cs[j].kind@ == "workspace"@),
        i < cs.len() ==> cs[i].is_named && cs[i].kind@ == "workspace"@,
    ensures
        first_workspace_child(cs) == i,
    decreases i,
{
    if i > 0 {
        assert forall|j: int| 0 <= j < i - 1 implies !((#[trigger] cs.drop_first()[j]).is_named
            && cs.drop_first()[j].kind@ == "workspace"@) by {
            assert(cs.drop_first()[j] == cs[j + 1]);
        }
        lemma_first_workspace_child(cs.drop_first(), i - 1);
    }
}

/// Reads the `workspace extends` directive from a parsed document.
pub fn workspace_base_directive(root: &crate::syntax::SyntaxNode) -> (r: Option<WorkspaceBaseDirective>)
    ensures
        match base_directive_node(*root) {
            None => r is None,
            Some(base) => r matches Some(d) && d.raw_value@ == base.text@ && d.value_kind
                == crate::includes::value_kind_of(base.kind@) && d.span == base.span && d.value_span == base.span,
        },
{
    let mut i: usize = 0;
    let mut found = false;
    while i < root.children.len() && !found
        invariant
            i <= root.children@.len(),
            found ==> i < root.children@.len() && root.children@[i as int].is_named
                && root.children@[i as int].kind@ == "workspace"@,
            forall|j: int| 0 <= j < i ==> !((#[trigger] root.children@[j]).is_named && root.children@[j].kind@ == "workspace"@),
        decreases root.children.len() - i, if found { 0int } else { 1int },
    {
        if root.children[i].is_named && root.children[i].has_kind("workspace") {
            found = true;
        } else {
            i = i + 1;
        }
    }
    proof {
        lemma_first_workspace_child(root.children@, i as int);
    }
    if i >= root.children.len() {
        return None;
    }
    match root.children[i].child_by_field_name("base") {
        Some(base) => Some(
            WorkspaceBaseDirective {
                raw_value: base.text.clone(),
                value_kind: DirectiveValueKind::from_node_kind(base.kind.as_str()),
                span: base.span,
                value_span: base.span,
            },
        ),
        None => None,
    }
}

/// The failure reported for a `workspace extends` base.
pub fn workspace_base_failure(
    document: &DocumentId,
    directive: &WorkspaceBaseDirective,
    target_text: &str,
    path: Option<String>,
    message: String,
) -> (r: WorkspaceLoadError)
    ensures
        r.failures@.len() == 1,
        r.failures@[0].kind == WorkspaceLoadFailureKind::WorkspaceBase,
        r.failures@[0].message == message,
        r.failures@[0].path == path,
        r.failures@[0].anchor matches Some(a) && a.document == *document && a.span == directive.span && a.value_span
            == Some(directive.value_span) && (a.target_text matches Some(t) && t@ == target_text@),
{
    WorkspaceLoadError::single(
        WorkspaceLoadFailure::anchored(
            WorkspaceLoadFailureKind::WorkspaceBase,
            document,
            directive.span,
            Some(directive.value_span),
            Some(target_text.to_owned()),
            path,
            message,
        ),
    )
}

/// A resolved `workspace extends` base.
pub struct ResolvedWorkspaceBase {
    /// The base document's canonical path.
    pub path: String,
    /// The normalized base text.
    pub target_text: String,
}

/// The outcome of resolving a base: its canonical path, or the path and message to report.
pub enum BaseOutcome {
    /// The base resolved to this canonical path.
    Resolved(Seq<char>),
    /// Resolving failed.
    Failure { path: Option<Seq<char>>, message: Seq<char> },
}

/// How a base resolves given what the filesystem reported: it must be a local file reachable
/// without climbing out of the extending document's directory, and it is never remote.
pub open spec fn base_outcome(base: Seq<char>, document_path: Seq<char>, probe: IncludeProbe) -> BaseOutcome {
    if remote_target(base) {
        BaseOutcome::Failure { path: None, message: "remote workspace bases are not supported: "@ + base }
    } else {
        match path_parent_of(document_path) {
            None => BaseOutcome::Failure {
                path: Some(document_path),
                message: "workspace entry has no parent directory for base resolution: "@ + document_path,
            },
            Some(parent) => match probe.canonical_parent {
                Err(e) => BaseOutcome::Failure {
                    path: Some(parent),
                    message: "failed to load workspace base "@ + base + ": "@ + e@,
                },
                Ok(cp) => {
                    let joined = path_joined(parent, base);
                    if !supported_local_path(base) {
                        BaseOutcome::Failure {
                            path: Some(joined),
                            message: "workspace base path escapes the allowed subtree: "@ + base,
                        }
                    } else {
                        match probe.entry {
                            TargetEntry::Missing => BaseOutcome::Failure {
                                path: Some(joined),
                                message: "workspace base does not exist: "@ + base,
                            },
                            TargetEntry::Failed { error } => BaseOutcome::Failure {
                                path: Some(joined),
                                message: "failed to load workspace base "@ + base + ": "@ + error@,
                            },
                            TargetEntry::File { canonical } => match canonical {
                                Err(e) => BaseOutcome::Failure {
                                    path: Some(joined),
                                    message: "failed to load workspace base "@ + base + ": "@ + e@,
                                },
                                Ok(c) => if !path_under(c@, cp@) {
                                    BaseOutcome::Failure {
                                        path: Some(c@),
                                        message: "workspace base path escapes the allowed subtree: "@ + base,
                                    }
                                } else {
                                    BaseOutcome::Resolved(c@)
                                },
                            },
                            _ => BaseOutcome::Failure {
                                path: Some(joined),
                                message: "workspace base must resolve to a file: "@ + base,
                            },
                        }
                    }
                },
            },
        }
    }
}

/// Resolves a `workspace extends` base given what the filesystem reported around it.
pub fn resolve_workspace_base(
    document: &DocumentId,
    workspace_base: &WorkspaceBaseDirective,
    constants: &ConstantEnvironment,
    probe: &IncludeProbe,
) -> (r: Result<ResolvedWorkspaceBase, WorkspaceLoadError>)
    ensures
        ({
            let base = expand(normalized_value(workspace_base.raw_value@, workspace_base.value_kind), constants.bindings@);
            match r {
                Ok(b) => base_outcome(base, document@, *probe) == BaseOutcome::Resolved(b.path@) && b.target_text@ == base,
                Err(e) => {
                    &&& base_outcome(base, document@, *probe) matches BaseOutcome::Failure { path, message } && e.failures@.len()
                        == 1 && e.failures@[0].message@ == message && match (e.failures@[0].path, path) {
                        (Some(x), Some(y)) => x@ == y,
                        (None, None) => true,
                        _ => false,
                    }
                    &&& e.failures@[0].kind == WorkspaceLoadFailureKind::WorkspaceBase
                    &&& e.failures@[0].anchor matches Some(a) && a.document == *document && a.span == workspace_base.span
                        && (a.target_text matches Some(t) && t@ == base)
                },
            }
        }),
{
    let normalized = crate::includes::normalized_directive_value(
        workspace_base.raw_value.as_str(),
        &workspace_base.value_kind,
    );
    let base_text = expand_string_substitutions(normalized.as_str(), constants);
    let b = base_text.as_str();
    if is_remote_include(b) {
        return Err(
            workspace_base_failure(
                document,
                workspace_base,
                b,
                None,
                crate::text::cat("remote workspace bases are not supported: ", b),
            ),
        );
    }
    let document_path = document.as_str();
    let parent = match path_parent(document_path) {
        Some(p) => p,
        None => {
            return Err(
                workspace_base_failure(
                    document,
                    workspace_base,
                    b,
                    Some(crate::text::owned(document_path)),
                    crate::text::cat("workspace entry has no parent directory for base resolution: ", document_path),
                ),
            );
        },
    };
    let load_message = |error: &str| -> (m: String)
        ensures
            m@ == "failed to load workspace base "@ + b@ + ": "@ + error@,
        {
            let mut m = crate::text::cat3("failed to load workspace base ", b, ": ");
            m.append(error);
            m
        };
    let canonical_parent = match &probe.canonical_parent {
        Err(e) => {
            return Err(workspace_base_failure(document, workspace_base, b, Some(parent), load_message(e.as_str())));
        },
        Ok(cp) => cp.as_str(),
    };
    let joined = path_join(parent.as_str(), b);
    if !is_supported_local_include_path(b) {
        return Err(
            workspace_base_failure(
                document,
                workspace_base,
                b,
                Some(joined),
                crate::text::cat("workspace base path escapes the allowed subtree: ", b),
            ),
        );
    }
    match &probe.entry {
        TargetEntry::Missing => Err(
            workspace_base_failure(
                document,
                workspace_base,
                b,
                Some(joined),
                crate::text::cat("workspace base does not exist: ", b),
            ),
        ),
        TargetEntry::Failed { error } => Err(
            workspace_base_failure(document, workspace_base, b, Some(joined), load_message(error.as_str())),
        ),
        TargetEntry::File { canonical } => match canonical {
            Err(e) => Err(workspace_base_failure(document, workspace_base, b, Some(joined), load_message(e.as_str()))),
            Ok(c) => {
                if !path_starts_with(c.as_str(), canonical_parent) {
                    Err(
                        workspace_base_failure(
                            document,
                            workspace_base,
                            b,
                            Some(c.clone()),
                            crate::text::cat("workspace base path escapes the allowed subtree: ", b),
                        ),
                    )
                } else {
                    Ok(ResolvedWorkspaceBase { path: c.clone(), target_text: base_text.clone() })
                }
            },
        },
        _ => Err(
            workspace_base_failure(
                document,
                workspace_base,
                b,
                Some(joined),
                crate::text::cat("workspace base must resolve to a file: ", b),
            ),
        ),
    }
}

} // verus!
