//! Diagnostics for local resources named by `!docs`, `!adrs` and image views.
//!
//! Which path a resource value names is decided here; what the filesystem holds at that path
//! is looked up in a table of observed statuses, filled by the caller.

use vstd::prelude::*;

use crate::diagnostics::{code_of, RuledDiagnostic};
use crate::includes::DirectiveValueKind;
use crate::semantic::{ImageSourceFact, ImageSourceKind, ResourceDirectiveKind, ValueFact, ViewFact, ViewKind};
use crate::snapshot::DocumentLocation;
use crate::span::{spec_span_within, TextSpan};
use crate::workspace::discovery::{
    is_remote_resource_value,
    is_supported_local_include_path,
    remote_resource,
    supported_local_path,
};
use crate::workspace::index::WorkspaceSemanticDocumentFacts;

verus! {

/// What the filesystem reported for one path.
#[derive(PartialEq, Eq)]
pub enum PathStatus {
    /// A regular file.
    File,
    /// A directory.
    Directory,
    /// Something that exists but is neither a file nor a directory.
    Other,
    /// Nothing exists there (or a parent component is not a directory).
    Missing,
    /// Inspecting the path failed; the text describes the error.
    Failed(String),
}

/// The directory part of a path, as `std::path::Path::parent` gives it.
pub uninterp spec fn path_parent_of(p: Seq<char>) -> Option<Seq<char>>;

/// A directory joined with a relative path, as `std::path::Path::join` gives it.
pub uninterp spec fn path_joined(base: Seq<char>, rel: Seq<char>) -> Seq<char>;

/// Calls `std::path::Path::parent`; the result is named `path_parent_of` of the argument.
#[verifier::external_body]
pub(crate) fn path_parent(p: &str) -> (r: Option<String>)
    ensures
        match r {
            Some(s) => path_parent_of(p@) == Some(s@),
            None => path_parent_of(p@) is None,
        },
{
    match std::path::Path::new(p).parent() {
        Some(q) => Some(q.to_string_lossy().into_owned()),
        None => None,
    }
}

/// Calls `std::path::Path::join`; the result is named `path_joined` of the arguments.
#[verifier::external_body]
pub(crate) fn path_join(base: &str, rel: &str) -> (r: String)
    ensures
        r@ == path_joined(base@, rel@),
{
    std::path::Path::new(base).join(rel).to_string_lossy().into_owned()
}

/// Whether `path` lies under `root`, as `std::path::Path::starts_with` decides it.
pub uninterp spec fn path_under(path: Seq<char>, root: Seq<char>) -> bool;

/// Calls `std::path::Path::starts_with`: whether `root` is a component-wise prefix of `path`;
/// the result is named `path_under` of the arguments.
#[verifier::external_body]
pub(crate) fn path_starts_with(path: &str, root: &str) -> (r: bool)
    ensures
        r == path_under(path@, root@),
{
    std::path::Path::new(path).starts_with(root)
}

/// What one component of a path is, as `std::path::Component` tells them apart.
#[derive(Clone, Copy, PartialEq, Eq, Structural)]
pub enum PathComponentKind {
    /// A drive or share prefix.
    Prefix,
    /// The root directory.
    RootDir,
    /// `.`
    CurDir,
    /// `..`
    ParentDir,
    /// A name.
    Normal,
}

/// Whether a path is absolute, as `std::path::Path::is_absolute` decides it.
pub uninterp spec fn path_absolute(p: Seq<char>) -> bool;

/// The kinds of a path's components, in order, as `std::path::Path::components` yields them.
pub uninterp spec fn path_component_kinds(p: Seq<char>) -> Seq<PathComponentKind>;

/// Calls `std::path::Path::is_absolute`; the result is named `path_absolute` of the argument.
#[verifier::external_body]
pub(crate) fn path_is_absolute(p: &str) -> (r: bool)
    ensures
        r == path_absolute(p@),
{
    std::path::Path::new(p).is_absolute()
}

/// Calls `std::path::Path::components` and tells each component's kind; the result is named
/// `path_component_kinds` of the argument.
#[verifier::external_body]
pub(crate) fn path_components(p: &str) -> (r: Vec<PathComponentKind>)
    ensures
        r@ == path_component_kinds(p@),
{
    std::path::Path::new(p).components().map(|c| match c {
        std::path::Component::Prefix(_) => PathComponentKind::Prefix,
        std::path::Component::RootDir => PathComponentKind::RootDir,
        std::path::Component::CurDir => PathComponentKind::CurDir,
        std::path::Component::ParentDir => PathComponentKind::ParentDir,
        std::path::Component::Normal(_) => PathComponentKind::Normal,
    }).collect()
}

/// Whether a text holds a `${` substitution marker.
pub open spec fn has_substitution(s: Seq<char>) -> bool {
    exists|i: int| 0 <= i && i + 1 < s.len() && #[trigger] s[i] == '$' && s[i + 1] == '{'
}

fn holds_substitution(s: &str) -> (r: bool)
    ensures
        r == has_substitution(s@),
{
    let cs = crate::text::chars_of(s);
    let mut i: usize = 0;
    while i < cs.len() && i + 1 < cs.len()
        invariant
            cs@ == s@,
            i <= cs@.len(),
            forall|j: int| 0 <= j < i && j + 1 < cs@.len() ==> !(#[trigger] cs@[j] == '$' && cs@[j + 1] == '{'),
        decreases cs.len() - i,
    {
        if cs[i] == '$' && cs[i + 1] == '{' {
            return true;
        }
        i = i + 1;
    }
    false
}

/// The local path a resource value names, relative to its document's directory: none for
/// text blocks, substituted or remote values, unsupported paths, or documents without a
/// directory.
pub open spec fn resource_path(location: Option<DocumentLocation>, value: ValueFact) -> Option<Seq<char>> {
    let t = value.normalized_text@;
    if value.value_kind == DirectiveValueKind::TextBlockString || has_substitution(t) || remote_resource(t) {
        None
    } else if !supported_local_path(t) {
        None
    } else {
        match location {
            None => None,
            Some(l) => match path_parent_of(l.path@) {
                None => None,
                Some(dir) => Some(path_joined(dir, t)),
            },
        }
    }
}

/// Resolves the local path of a resource value.
pub fn resolve_local_resource_path(document_location: &Option<DocumentLocation>, value: &ValueFact) -> (r: Option<
    String,
>)
    ensures
        match r {
            Some(p) => resource_path(*document_location, *value) == Some(p@),
            None => resource_path(*document_location, *value) is None,
        },
{
    let t = value.normalized_text.as_str();
    let text_block = match value.value_kind {
        DirectiveValueKind::TextBlockString => true,
        _ => false,
    };
    if text_block || holds_substitution(t) || is_remote_resource_value(t) {
        return None;
    }
    if !is_supported_local_include_path(t) {
        return None;
    }
    match document_location {
        None => None,
        Some(l) => match path_parent(l.path.as_str()) {
            None => None,
            Some(dir) => Some(path_join(dir.as_str(), t)),
        },
    }
}

/// The status observed for a path: the first entry naming it.
pub open spec fn status_of(statuses: Seq<(String, PathStatus)>, p: Seq<char>) -> Option<PathStatus>
    decreases statuses.len(),
{
    if statuses.len() == 0 {
        None
    } else if statuses[0].0@ == p {
        Some(statuses[0].1)
    } else {
        status_of(statuses.drop_first(), p)
    }
}

fn lookup_status<'a>(statuses: &'a Vec<(String, PathStatus)>, p: &str) -> (r: Option<&'a PathStatus>)
    ensures
        match r {
            Some(s) => status_of(statuses@, p@) == Some(*s),
            None => status_of(statuses@, p@) is None,
        },
{
    let mut i: usize = 0;
    assert(statuses@.skip(0) =~= statuses@);
    while i < statuses.len()
        invariant
            i <= statuses@.len(),
            status_of(statuses@, p@) == status_of(statuses@.skip(i as int), p@),
        decreases statuses@.len() - i,
    {
        assert(statuses@.skip(i as int).drop_first() =~= statuses@.skip(i + 1));
        if crate::text::str_eq(statuses[i].0.as_str(), p) {
            return Some(&statuses[i].1);
        }
        i = i + 1;
    }
    None
}

/// What a `!docs` or `!adrs` path reports, given what is at it.
pub open spec fn documentation_message(kind: ResourceDirectiveKind, p: Seq<char>, status: PathStatus) -> Option<
    Seq<char>,
> {
    match status {
        PathStatus::Missing => Some("Documentation path "@ + p + " does not exist"@),
        PathStatus::Failed(e) => Some("Error inspecting documentation path "@ + p + ": "@ + e@),
        PathStatus::Directory => None,
        _ => match kind {
            ResourceDirectiveKind::Docs => None,
            ResourceDirectiveKind::Adrs => Some("Documentation path "@ + p + " is not a directory"@),
        },
    }
}

/// Builds the message for a documentation path, if it is reported.
pub fn documentation_resource_path_message(kind: ResourceDirectiveKind, path: &str, status: &PathStatus) -> (r:
    Option<String>)
    ensures
        match r {
            Some(m) => documentation_message(kind, path@, *status) == Some(m@),
            None => documentation_message(kind, path@, *status) is None,
        },
{
    match status {
        PathStatus::Missing => Some(crate::text::cat3("Documentation path ", path, " does not exist")),
        PathStatus::Failed(e) => {
            let mut m = crate::text::cat3("Error inspecting documentation path ", path, ": ");
            m.append(e.as_str());
            Some(m)
        },
        PathStatus::Directory => None,
        _ => match kind {
            ResourceDirectiveKind::Docs => None,
            ResourceDirectiveKind::Adrs => Some(crate::text::cat3("Documentation path ", path, " is not a directory")),
        },
    }
}

/// What an image source path reports, given what is at it.
pub open spec fn image_message(kind: ImageSourceKind, p: Seq<char>, status: PathStatus) -> Option<Seq<char>> {
    match status {
        PathStatus::File => None,
        PathStatus::Directory => match kind {
            ImageSourceKind::Image => Some(p + " is not a file"@),
            _ => Some("Is a directory"@),
        },
        PathStatus::Other => Some(p + " is not a file"@),
        PathStatus::Missing => Some("The file at "@ + p + " does not exist"@),
        PathStatus::Failed(e) => Some("Error inspecting image source "@ + p + ": "@ + e@),
    }
}

/// Builds the message for an image source path, if it is reported.
pub fn image_source_path_message(kind: ImageSourceKind, path: &str, status: &PathStatus) -> (r: Option<String>)
    ensures
        match r {
            Some(m) => image_message(kind, path@, *status) == Some(m@),
            None => image_message(kind, path@, *status) is None,
        },
{
    match status {
        PathStatus::File => None,
        PathStatus::Directory => match kind {
            ImageSourceKind::Image => Some(crate::text::cat(path, " is not a file")),
            _ => Some(crate::text::owned("Is a directory")),
        },
        PathStatus::Other => Some(crate::text::cat(path, " is not a file")),
        PathStatus::Missing => Some(crate::text::cat3("The file at ", path, " does not exist")),
        PathStatus::Failed(e) => {
            let mut m = crate::text::cat3("Error inspecting image source ", path, ": ");
            m.append(e.as_str());
            Some(m)
        },
    }
}

/// The renderer property and service a diagram source needs; plain images need none.
pub open spec fn renderer_of(kind: ImageSourceKind) -> Option<(Seq<char>, Seq<char>)> {
    match kind {
        ImageSourceKind::PlantUml => Some(("plantuml.url"@, "PlantUML"@)),
        ImageSourceKind::Mermaid => Some(("mermaid.url"@, "Mermaid"@)),
        ImageSourceKind::Kroki => Some(("kroki.url"@, "Kroki"@)),
        ImageSourceKind::Image => None,
    }
}

/// Looks up the renderer requirement of an image source kind.
pub fn required_image_renderer(kind: ImageSourceKind) -> (r: Option<(&'static str, &'static str)>)
    ensures
        match r {
            Some((p, s)) => renderer_of(kind) == Some((p@, s@)),
            None => renderer_of(kind) is None,
        },
{
    match kind {
        ImageSourceKind::PlantUml => Some(("plantuml.url", "PlantUML")),
        ImageSourceKind::Mermaid => Some(("mermaid.url", "Mermaid")),
        ImageSourceKind::Kroki => Some(("kroki.url", "Kroki")),
        ImageSourceKind::Image => None,
    }
}

/// Some document without syntax errors defines the property in its `views` block.
pub open spec fn viewset_defines(docs: Seq<&WorkspaceSemanticDocumentFacts>, name: Seq<char>) -> bool {
    exists|a: int, q: int|
        0 <= a < docs.len() && !docs[a].has_syntax_errors && 0 <= q < docs[a].property_facts@.len()
            && (#[trigger] docs[a].property_facts@[q]).container_node_kind@ == "views_block"@
            && docs[a].property_facts@[q].name.normalized_text@ == name
}

/// The view's own body defines the property.
pub open spec fn view_defines(doc: &WorkspaceSemanticDocumentFacts, view: ViewFact, name: Seq<char>) -> bool {
    match view.body_span {
        None => false,
        Some(b) => exists|q: int|
            0 <= q < doc.property_facts@.len() && (#[trigger] doc.property_facts@[q]).name.normalized_text@ == name
                && spec_span_within(b, doc.property_facts@[q].span),
    }
}

fn viewset_property_is_defined(documents: &[&WorkspaceSemanticDocumentFacts], name: &str) -> (r: bool)
    ensures
        r == viewset_defines(documents@, name@),
{
    let mut a: usize = 0;
    while a < documents.len()
        invariant
            a <= documents@.len(),
            forall|a2: int, q: int|
                0 <= a2 < a && !documents@[a2].has_syntax_errors && 0 <= q < documents@[a2].property_facts@.len()
                    ==> !((#[trigger] documents@[a2].property_facts@[q]).container_node_kind@ == "views_block"@
                    && documents@[a2].property_facts@[q].name.normalized_text@ == name@),
        decreases documents@.len() - a,
    {
        let d = documents[a];
        if !d.has_syntax_errors {
            let mut q: usize = 0;
            while q < d.property_facts.len()
                invariant
                    a < documents@.len(),
                    d == documents@[a as int],
                    !d.has_syntax_errors,
                    q <= d.property_facts@.len(),
                    forall|q2: int|
                        0 <= q2 < q ==> !((#[trigger] d.property_facts@[q2]).container_node_kind@ == "views_block"@
                            && d.property_facts@[q2].name.normalized_text@ == name@),
                decreases d.property_facts@.len() - q,
            {
                let p = &d.property_facts[q];
                if crate::text::str_eq(p.container_node_kind.as_str(), "views_block") && crate::text::str_eq(
                    p.name.normalized_text.as_str(),
                    name,
                ) {
                    assert(documents@[a as int].property_facts@[q as int] == *p);
                    return true;
                }
                q = q + 1;
            }
        }
        a = a + 1;
    }
    false
}

/// Whether the view's body defines the property itself.
pub fn image_view_local_property_is_defined(
    document: &WorkspaceSemanticDocumentFacts,
    view: &ViewFact,
    property_name: &str,
) -> (r: bool)
    ensures
        r == view_defines(document, *view, property_name@),
{
    let body = match view.body_span {
        None => {
            return false;
        },
        Some(b) => b,
    };
    let mut q: usize = 0;
    while q < document.property_facts.len()
        invariant
            view.body_span == Some(body),
            q <= document.property_facts@.len(),
            forall|q2: int|
                0 <= q2 < q ==> !((#[trigger] document.property_facts@[q2]).name.normalized_text@ == property_name@
                    && spec_span_within(body, document.property_facts@[q2].span)),
        decreases document.property_facts@.len() - q,
    {
        let p = &document.property_facts[q];
        if crate::text::str_eq(p.name.normalized_text.as_str(), property_name) && crate::span::span_within(
            body,
            p.span,
        ) {
            return true;
        }
        q = q + 1;
    }
    false
}

/// Whether the renderer property is defined for the view, by the view set or by the view.
pub fn image_renderer_property_is_defined(
    documents: &[&WorkspaceSemanticDocumentFacts],
    document: &WorkspaceSemanticDocumentFacts,
    view: &ViewFact,
    property_name: &str,
) -> (r: bool)
    ensures
        r == (viewset_defines(documents@, property_name@) || view_defines(document, *view, property_name@)),
{
    viewset_property_is_defined(documents, property_name) || image_view_local_property_is_defined(
        document,
        view,
        property_name,
    )
}

/// What a reported resource diagnostic says: document, span, code and message.
pub open spec fn resource_site(d: RuledDiagnostic) -> (Seq<char>, TextSpan, Seq<char>, Seq<char>) {
    (
        match d.diagnostic.document {
            Some(x) => x@,
            None => Seq::empty(),
        },
        d.diagnostic.span,
        code_of(d),
        d.diagnostic.message@,
    )
}

/// The sites of a list of diagnostics.
pub open spec fn resource_sites(s: Seq<RuledDiagnostic>) -> Seq<(Seq<char>, TextSpan, Seq<char>, Seq<char>)> {
    s.map_values(|d: RuledDiagnostic| resource_site(d))
}

/// The report of one path-bearing value, when its path has a status that is reported.
pub open spec fn path_report(
    doc: &WorkspaceSemanticDocumentFacts,
    value: ValueFact,
    statuses: Seq<(String, PathStatus)>,
    code: Seq<char>,
    message: spec_fn(Seq<char>, PathStatus) -> Option<Seq<char>>,
) -> Seq<(Seq<char>, TextSpan, Seq<char>, Seq<char>)> {
    match resource_path(doc.document_location, value) {
        None => Seq::empty(),
        Some(p) => match status_of(statuses, p) {
            None => Seq::empty(),
            Some(st) => match message(p, st) {
                None => Seq::empty(),
                Some(m) => seq![(doc.document_id@, value.span, code, m)],
            },
        },
    }
}

/// The reports of the first `n` resource directives of one document.
pub open spec fn doc_documentation_reports(
    doc: &WorkspaceSemanticDocumentFacts,
    statuses: Seq<(String, PathStatus)>,
    n: int,
) -> Seq<(Seq<char>, TextSpan, Seq<char>, Seq<char>)>
    decreases n,
{
    if n <= 0 {
        Seq::empty()
    } else {
        let dir = doc.resource_directives@[n - 1];
        doc_documentation_reports(doc, statuses, n - 1) + path_report(
            doc,
            dir.path,
            statuses,
            "semantic.invalid-documentation-path"@,
            |p: Seq<char>, st: PathStatus| documentation_message(dir.kind, p, st),
        )
    }
}

/// The documentation reports of the first `a` documents; documents with syntax errors report
/// nothing.
pub open spec fn all_documentation_reports(
    docs: Seq<&WorkspaceSemanticDocumentFacts>,
    statuses: Seq<(String, PathStatus)>,
    a: int,
) -> Seq<(Seq<char>, TextSpan, Seq<char>, Seq<char>)>
    decreases a,
{
    if a <= 0 {
        Seq::empty()
    } else {
        let doc = docs[a - 1];
        all_documentation_reports(docs, statuses, a - 1) + if doc.has_syntax_errors {
            Seq::empty()
        } else {
            doc_documentation_reports(doc, statuses, doc.resource_directives@.len() as int)
        }
    }
}

/// Pushes the report of one path-bearing value, if any.
fn push_path_report(
    diagnostics: &mut Vec<RuledDiagnostic>,
    document: &WorkspaceSemanticDocumentFacts,
    value: &ValueFact,
    statuses: &Vec<(String, PathStatus)>,
    documentation: Option<ResourceDirectiveKind>,
    image: ImageSourceKind,
)
    ensures
        resource_sites(final(diagnostics)@) == resource_sites(old(diagnostics)@) + match documentation {
            Some(kind) => path_report(
                document,
                *value,
                statuses@,
                "semantic.invalid-documentation-path"@,
                |p: Seq<char>, st: PathStatus| documentation_message(kind, p, st),
            ),
            None => path_report(
                document,
                *value,
                statuses@,
                "semantic.invalid-image-source"@,
                |p: Seq<char>, st: PathStatus| image_message(image, p, st),
            ),
        },
{
    let ghost before = diagnostics@;
    let path = match resolve_local_resource_path(&document.document_location, value) {
        None => {
            assert(resource_sites(diagnostics@) =~= resource_sites(before) + Seq::empty());
            return ;
        },
        Some(p) => p,
    };
    let status = match lookup_status(statuses, path.as_str()) {
        None => {
            assert(resource_sites(diagnostics@) =~= resource_sites(before) + Seq::empty());
            return ;
        },
        Some(s) => s,
    };
    let message = match documentation {
        Some(kind) => documentation_resource_path_message(kind, path.as_str(), status),
        None => image_source_path_message(image, path.as_str(), status),
    };
    match message {
        None => {
            assert(resource_sites(diagnostics@) =~= resource_sites(before) + Seq::empty());
        },
        Some(m) => {
            let d = match documentation {
                Some(_) => RuledDiagnostic::invalid_documentation_path(&document.document_id, m, value.span),
                None => RuledDiagnostic::invalid_image_source(&document.document_id, m, value.span),
            };
            diagnostics.push(d);
            assert(resource_sites(diagnostics@) =~= resource_sites(before).push(resource_site(d)));
        },
    }
}

/// Reports `!docs` and `!adrs` paths that are missing, not directories where one is needed,
/// or could not be inspected, document by document.
pub fn documentation_resource_diagnostics(
    documents: &[&WorkspaceSemanticDocumentFacts],
    statuses: &Vec<(String, PathStatus)>,
) -> (r: Vec<RuledDiagnostic>)
    ensures
        resource_sites(r@) == all_documentation_reports(documents@, statuses@, documents@.len() as int),
{
    let mut diagnostics: Vec<RuledDiagnostic> = Vec::new();
    let mut a: usize = 0;
    while a < documents.len()
        invariant
            a <= documents@.len(),
            resource_sites(diagnostics@) == all_documentation_reports(documents@, statuses@, a as int),
        decreases documents@.len() - a,
    {
        let document = documents[a];
        if !document.has_syntax_errors {
            let ghost start = diagnostics@;
            let mut k: usize = 0;
            while k < document.resource_directives.len()
                invariant
                    a < documents@.len(),
                    document == documents@[a as int],
                    k <= document.resource_directives@.len(),
                    resource_sites(diagnostics@) == resource_sites(start) + doc_documentation_reports(
                        document,
                        statuses@,
                        k as int,
                    ),
                decreases document.resource_directives@.len() - k,
            {
                let directive = &document.resource_directives[k];
                push_path_report(
                    &mut diagnostics,
                    document,
                    &directive.path,
                    statuses,
                    Some(directive.kind),
                    ImageSourceKind::Image,
                );
                k = k + 1;
            }
        }
        proof {
            assert(all_documentation_reports(documents@, statuses@, a + 1) =~= all_documentation_reports(
                documents@,
                statuses@,
                a as int,
            ) + if documents@[a as int].has_syntax_errors {
                Seq::empty()
            } else {
                doc_documentation_reports(
                    documents@[a as int],
                    statuses@,
                    documents@[a as int].resource_directives@.len() as int,
                )
            });
        }
        a = a + 1;
    }
    diagnostics
}

/// The reports of one image source: a missing renderer property, then its local path.
pub open spec fn source_reports(
    docs: Seq<&WorkspaceSemanticDocumentFacts>,
    doc: &WorkspaceSemanticDocumentFacts,
    view: ViewFact,
    src: ImageSourceFact,
    statuses: Seq<(String, PathStatus)>,
) -> Seq<(Seq<char>, TextSpan, Seq<char>, Seq<char>)> {
    let renderer = match renderer_of(src.kind) {
        Some((prop, service)) => if viewset_defines(docs, prop) || view_defines(doc, view, prop) {
            Seq::empty()
        } else {
            seq![
                (
                    doc.document_id@,
                    src.span,
                    "semantic.missing-image-renderer-property"@,
                    "Please define a view/viewset property named "@ + prop + " to specify your "@ + service
                        + " server"@,
                ),
            ]
        },
        None => Seq::empty(),
    };
    renderer + path_report(
        doc,
        src.value,
        statuses,
        "semantic.invalid-image-source"@,
        |p: Seq<char>, st: PathStatus| image_message(src.kind, p, st),
    )
}

/// The reports of the first `n` sources of one view.
pub open spec fn view_image_reports(
    docs: Seq<&WorkspaceSemanticDocumentFacts>,
    doc: &WorkspaceSemanticDocumentFacts,
    view: ViewFact,
    statuses: Seq<(String, PathStatus)>,
    n: int,
) -> Seq<(Seq<char>, TextSpan, Seq<char>, Seq<char>)>
    decreases n,
{
    if n <= 0 {
        Seq::empty()
    } else {
        view_image_reports(docs, doc, view, statuses, n - 1) + source_reports(
            docs,
            doc,
            view,
            view.image_sources@[n - 1],
            statuses,
        )
    }
}

/// The reports of the first `m` views of one document; only image views report.
pub open spec fn doc_image_reports(
    docs: Seq<&WorkspaceSemanticDocumentFacts>,
    doc: &WorkspaceSemanticDocumentFacts,
    statuses: Seq<(String, PathStatus)>,
    m: int,
) -> Seq<(Seq<char>, TextSpan, Seq<char>, Seq<char>)>
    decreases m,
{
    if m <= 0 {
        Seq::empty()
    } else {
        let view = doc.view_facts@[m - 1];
        doc_image_reports(docs, doc, statuses, m - 1) + if view.kind == ViewKind::Image {
            view_image_reports(docs, doc, view, statuses, view.image_sources@.len() as int)
        } else {
            Seq::empty()
        }
    }
}

/// The image reports of the first `a` documents; documents with syntax errors report nothing.
pub open spec fn all_image_reports(
    docs: Seq<&WorkspaceSemanticDocumentFacts>,
    statuses: Seq<(String, PathStatus)>,
    a: int,
) -> Seq<(Seq<char>, TextSpan, Seq<char>, Seq<char>)>
    decreases a,
{
    if a <= 0 {
        Seq::empty()
    } else {
        let doc = docs[a - 1];
        all_image_reports(docs, statuses, a - 1) + if doc.has_syntax_errors {
            Seq::empty()
        } else {
            doc_image_reports(docs, doc, statuses, doc.view_facts@.len() as int)
        }
    }
}

fn push_source_reports(
    diagnostics: &mut Vec<RuledDiagnostic>,
    documents: &[&WorkspaceSemanticDocumentFacts],
    document: &WorkspaceSemanticDocumentFacts,
    view: &ViewFact,
    source: &ImageSourceFact,
    statuses: &Vec<(String, PathStatus)>,
)
    ensures
        resource_sites(final(diagnostics)@) == resource_sites(old(diagnostics)@) + source_reports(
            documents@,
            document,
            *view,
            *source,
            statuses@,
        ),
{
    let ghost before = diagnostics@;
    match required_image_renderer(source.kind) {
        Some((property_name, service_name)) => {
            if !image_renderer_property_is_defined(documents, document, view, property_name) {
                let d = RuledDiagnostic::missing_image_renderer_property(
                    &document.document_id,
                    property_name,
                    service_name,
                    source.span,
                );
                diagnostics.push(d);
                assert(resource_sites(diagnostics@) =~= resource_sites(before).push(resource_site(d)));
            } else {
                assert(resource_sites(diagnostics@) =~= resource_sites(before));
            }
        },
        None => {
            assert(resource_sites(diagnostics@) =~= resource_sites(before));
        },
    }
    let ghost mid = diagnostics@;
    push_path_report(diagnostics, document, &source.value, statuses, None, source.kind);
    assert(resource_sites(diagnostics@) =~= resource_sites(before) + source_reports(
        documents@,
        document,
        *view,
        *source,
        statuses@,
    ));
}

/// Reports image-view sources whose renderer property is not defined, and those whose local
/// path is missing, not a file, or could not be inspected, document by document, view by
/// view and source by source.
pub fn image_resource_diagnostics(
    documents: &[&WorkspaceSemanticDocumentFacts],
    statuses: &Vec<(String, PathStatus)>,
) -> (r: Vec<RuledDiagnostic>)
    ensures
        resource_sites(r@) == all_image_reports(documents@, statuses@, documents@.len() as int),
{
    let mut diagnostics: Vec<RuledDiagnostic> = Vec::new();
    let mut a: usize = 0;
    while a < documents.len()
        invariant
            a <= documents@.len(),
            resource_sites(diagnostics@) == all_image_reports(documents@, statuses@, a as int),
        decreases documents@.len() - a,
    {
        let document = documents[a];
        if !document.has_syntax_errors {
            let ghost start = diagnostics@;
            let mut v: usize = 0;
            while v < document.view_facts.len()
                invariant
                    a < documents@.len(),
                    document == documents@[a as int],
                    v <= document.view_facts@.len(),
                    resource_sites(diagnostics@) == resource_sites(start) + doc_image_reports(
                        documents@,
                        document,
                        statuses@,
                        v as int,
                    ),
                decreases document.view_facts@.len() - v,
            {
                let view = &document.view_facts[v];
                let ghost vstart = diagnostics@;
                let image = match view.kind {
                    ViewKind::Image => true,
                    _ => false,
                };
                if image {
                    let mut k: usize = 0;
                    while k < view.image_sources.len()
                        invariant
                            a < documents@.len(),
                            document == documents@[a as int],
                            v < document.view_facts@.len(),
                            *view == document.view_facts@[v as int],
                            k <= view.image_sources@.len(),
                            resource_sites(diagnostics@) == resource_sites(vstart) + view_image_reports(
                                documents@,
                                document,
                                *view,
                                statuses@,
                                k as int,
                            ),
                        decreases view.image_sources@.len() - k,
                    {
                        push_source_reports(&mut diagnostics, documents, document, view, &view.image_sources[k], statuses);
                        k = k + 1;
                    }
                }
                proof {
                    assert(doc_image_reports(documents@, document, statuses@, v + 1) =~= doc_image_reports(
                        documents@,
                        document,
                        statuses@,
                        v as int,
                    ) + if view.kind == ViewKind::Image {
                        view_image_reports(documents@, document, *view, statuses@, view.image_sources@.len() as int)
                    } else {
                        Seq::empty()
                    });
                    if !image {
                        assert(resource_sites(diagnostics@) =~= resource_sites(vstart));
                    }
                }
                v = v + 1;
            }
        }
        proof {
            assert(all_image_reports(documents@, statuses@, a + 1) =~= all_image_reports(documents@, statuses@, a as int)
                + if documents@[a as int].has_syntax_errors {
                Seq::empty()
            } else {
                doc_image_reports(
                    documents@,
                    documents@[a as int],
                    statuses@,
                    documents@[a as int].view_facts@.len() as int,
                )
            });
        }
        a = a + 1;
    }
    diagnostics
}

/// The filesystem-backed diagnostics: documentation paths first, then image sources.
pub fn resource_semantic_diagnostics(
    documents: &[&WorkspaceSemanticDocumentFacts],
    statuses: &Vec<(String, PathStatus)>,
) -> (r: Vec<RuledDiagnostic>)
    ensures
        resource_sites(r@) == all_documentation_reports(documents@, statuses@, documents@.len() as int)
            + all_image_reports(documents@, statuses@, documents@.len() as int),
{
    let mut diagnostics = documentation_resource_diagnostics(documents, statuses);
    let mut images = image_resource_diagnostics(documents, statuses);
    let ghost d0 = diagnostics@;
    let ghost i0 = images@;
    diagnostics.append(&mut images);
    assert(resource_sites(diagnostics@) =~= resource_sites(d0) + resource_sites(i0));
    diagnostics
}

/// Every local path that resource checks of these documents look up, in the order they do:
/// the paths whose status the caller observes before asking for the diagnostics.
pub fn resource_paths(documents: &[&WorkspaceSemanticDocumentFacts]) -> (r: Vec<String>)
    ensures
        forall|a: int, k: int|
            0 <= a < documents@.len() && !documents@[a].has_syntax_errors && 0 <= k
                < documents@[a].resource_directives@.len() ==> (resource_path(
                documents@[a].document_location,
                (#[trigger] documents@[a].resource_directives@[k]).path,
            ) matches Some(p) ==> exists|j: int| 0 <= j < r@.len() && (#[trigger] r@[j])@ == p),
        forall|a: int, v: int, k: int|
            0 <= a < documents@.len() && !documents@[a].has_syntax_errors && 0 <= v < documents@[a].view_facts@.len()
                && documents@[a].view_facts@[v].kind == ViewKind::Image && 0 <= k
                < documents@[a].view_facts@[v].image_sources@.len() ==> (resource_path(
                documents@[a].document_location,
                (#[trigger] documents@[a].view_facts@[v].image_sources@[k]).value,
            ) matches Some(p) ==> exists|j: int| 0 <= j < r@.len() && (#[trigger] r@[j])@ == p),
{
    let mut paths = documentation_paths(documents);
    let mut images = image_paths(documents);
    let ghost p0 = paths@;
    let ghost i0 = images@;
    paths.append(&mut images);
    proof {
        assert forall|j: int| 0 <= j < p0.len() implies paths@[j] == p0[j] by {}
        assert forall|j: int| 0 <= j < i0.len() implies paths@[p0.len() + j] == i0[j] by {}
    }
    paths
}

fn documentation_paths(documents: &[&WorkspaceSemanticDocumentFacts]) -> (r: Vec<String>)
    ensures
        forall|a: int, k: int|
            0 <= a < documents@.len() && !documents@[a].has_syntax_errors && 0 <= k
                < documents@[a].resource_directives@.len() ==> (resource_path(
                documents@[a].document_location,
                (#[trigger] documents@[a].resource_directives@[k]).path,
            ) matches Some(p) ==> exists|j: int| 0 <= j < r@.len() && (#[trigger] r@[j])@ == p),
{
    let mut paths: Vec<String> = Vec::new();
    let mut a: usize = 0;
    while a < documents.len()
        invariant
            a <= documents@.len(),
            forall|a2: int, k: int|
                0 <= a2 < a && !documents@[a2].has_syntax_errors && 0 <= k
                    < documents@[a2].resource_directives@.len() ==> (resource_path(
                    documents@[a2].document_location,
                    (#[trigger] documents@[a2].resource_directives@[k]).path,
                ) matches Some(p) ==> exists|j: int| 0 <= j < paths@.len() && (#[trigger] paths@[j])@ == p),
        decreases documents@.len() - a,
    {
        let document = documents[a];
        if !document.has_syntax_errors {
            let mut k: usize = 0;
            while k < document.resource_directives.len()
                invariant
                    a < documents@.len(),
                    document == documents@[a as int],
                    k <= document.resource_directives@.len(),
                    forall|a2: int, k2: int|
                        ((0 <= a2 < a && !documents@[a2].has_syntax_errors) || (a2 == a && k2 < k)) && 0 <= k2
                            < documents@[a2].resource_directives@.len() ==> (resource_path(
                            documents@[a2].document_location,
                            (#[trigger] documents@[a2].resource_directives@[k2]).path,
                        ) matches Some(p) ==> exists|j: int| 0 <= j < paths@.len() && (#[trigger] paths@[j])@ == p),
                decreases document.resource_directives@.len() - k,
            {
                let ghost before = paths@;
                match resolve_local_resource_path(&document.document_location, &document.resource_directives[k].path) {
                    Some(p) => {
                        paths.push(p);
                        proof {
                            assert(paths@[before.len() as int] == p);
                            assert forall|j: int| 0 <= j < before.len() implies paths@[j] == before[j] by {}
                        }
                    },
                    None => {},
                }
                k = k + 1;
            }
        }
        a = a + 1;
    }
    paths
}

fn image_paths(documents: &[&WorkspaceSemanticDocumentFacts]) -> (r: Vec<String>)
    ensures
        forall|a: int, v: int, k: int|
            0 <= a < documents@.len() && !documents@[a].has_syntax_errors && 0 <= v < documents@[a].view_facts@.len()
                && documents@[a].view_facts@[v].kind == ViewKind::Image && 0 <= k
                < documents@[a].view_facts@[v].image_sources@.len() ==> (resource_path(
                documents@[a].document_location,
                (#[trigger] documents@[a].view_facts@[v].image_sources@[k]).value,
            ) matches Some(p) ==> exists|j: int| 0 <= j < r@.len() && (#[trigger] r@[j])@ == p),
{
    let mut paths: Vec<String> = Vec::new();
    let mut a: usize = 0;
    while a < documents.len()
        invariant
            a <= documents@.len(),
            forall|a2: int, v: int, k: int|
                0 <= a2 < a && !documents@[a2].has_syntax_errors && 0 <= v < documents@[a2].view_facts@.len()
                    && documents@[a2].view_facts@[v].kind == ViewKind::Image && 0 <= k
                    < documents@[a2].view_facts@[v].image_sources@.len() ==> (resource_path(
                    documents@[a2].document_location,
                    (#[trigger] documents@[a2].view_facts@[v].image_sources@[k]).value,
                ) matches Some(p) ==> exists|j: int| 0 <= j < paths@.len() && (#[trigger] paths@[j])@ == p),
        decreases documents@.len() - a,
    {
        let document = documents[a];
        if !document.has_syntax_errors {
            let mut v: usize = 0;
            while v < document.view_facts.len()
                invariant
                    a < documents@.len(),
                    document == documents@[a as int],
                    !document.has_syntax_errors,
                    v <= document.view_facts@.len(),
                    forall|a2: int, v2: int, k: int|
                        ((0 <= a2 < a && !documents@[a2].has_syntax_errors) || (a2 == a && v2 < v)) && 0 <= v2
                            < documents@[a2].view_facts@.len() && documents@[a2].view_facts@[v2].kind == ViewKind::Image
                            && 0 <= k < documents@[a2].view_facts@[v2].image_sources@.len() ==> (resource_path(
                            documents@[a2].document_location,
                            (#[trigger] documents@[a2].view_facts@[v2].image_sources@[k]).value,
                        ) matches Some(p) ==> exists|j: int| 0 <= j < paths@.len() && (#[trigger] paths@[j])@ == p),
                decreases document.view_facts@.len() - v,
            {
                let view = &document.view_facts[v];
                let image = match view.kind {
                    ViewKind::Image => true,
                    _ => false,
                };
                let mut k: usize = 0;
                while image && k < view.image_sources.len()
                    invariant
                        a < documents@.len(),
                        document == documents@[a as int],
                        !document.has_syntax_errors,
                        v < document.view_facts@.len(),
                        *view == document.view_facts@[v as int],
                        image == (view.kind == ViewKind::Image),
                        k <= view.image_sources@.len(),
                        forall|a2: int, v2: int, k2: int|
                            ((0 <= a2 < a && !documents@[a2].has_syntax_errors) || (a2 == a && v2 < v) || (a2 == a
                                && v2 == v && k2 < k)) && 0 <= v2 < documents@[a2].view_facts@.len()
                                && documents@[a2].view_facts@[v2].kind == ViewKind::Image && 0 <= k2
                                < documents@[a2].view_facts@[v2].image_sources@.len() ==> (resource_path(
                                documents@[a2].document_location,
                                (#[trigger] documents@[a2].view_facts@[v2].image_sources@[k2]).value,
                            ) matches Some(p) ==> exists|j: int| 0 <= j < paths@.len() && (#[trigger] paths@[j])@ == p),
                    decreases view.image_sources@.len() - k,
                {
                    let ghost before = paths@;
                    match resolve_local_resource_path(&document.document_location, &view.image_sources[k].value) {
                        Some(p) => {
                            paths.push(p);
                            proof {
                                assert(paths@[before.len() as int] == p);
                                assert forall|j: int| 0 <= j < before.len() implies paths@[j] == before[j] by {}
                            }
                        },
                        None => {},
                    }
                    k = k + 1;
                }
                v = v + 1;
            }
        }
        a = a + 1;
    }
    paths
}

} // verus!
