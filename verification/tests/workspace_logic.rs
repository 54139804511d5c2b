use strz_analysis::workspace::dynamic::dynamic_relationship_annotation;
use strz_analysis::workspace::relationships::DeclaredRelationship;
use strz_analysis::diagnostics::RuledDiagnostic;
use strz_analysis::workspace::facts::build_document_instances;
use strz_analysis::workspace::merge::merge_semantic_diagnostics;
use strz_analysis::semantic::{ImageSourceKind, ResourceDirectiveKind};
use strz_analysis::snapshot::DocumentId;
use strz_analysis::span::{TextPoint, TextSpan};
use strz_analysis::workspace::cycles::cycle_include_indices;
use strz_analysis::workspace::discovery::{is_remote_include, is_supported_local_include_path};
use strz_analysis::workspace::include_findings::include_diagnostics;
use strz_analysis::workspace::model::{ResolvedInclude, WorkspaceIncludeTarget};
use strz_analysis::workspace::resources::{
    documentation_resource_path_message, image_source_path_message, required_image_renderer, PathStatus,
};
use strz_analysis::workspace::substitution::{expand_string_substitutions, ConstantEnvironment};

fn span(start: usize, end: usize) -> TextSpan {
    TextSpan {
        start_byte: start,
        end_byte: end,
        start_point: TextPoint { row: 0, column: start },
        end_point: TextPoint { row: 0, column: end },
    }
}

fn followed_include(from: &str, target: WorkspaceIncludeTarget, text: &str, followed: &[&str], at: usize) -> ResolvedInclude {
    ResolvedInclude {
        including_document: DocumentId::new(from.to_string()),
        raw_value: format!("\"{text}\""),
        target_text: text.to_string(),
        span: span(at, at + 10),
        value_span: span(at + 9, at + 10),
        target,
        discovered_documents: followed.iter().map(|d| DocumentId::new(d.to_string())).collect(),
    }
}

fn local_file(path: &str) -> WorkspaceIncludeTarget {
    WorkspaceIncludeTarget::LocalFile { path: path.to_string() }
}

#[test]
fn mutual_includes_form_a_cycle_and_a_side_branch_does_not() {
    let includes = vec![
        followed_include("/w/a.dsl", local_file("/w/b.dsl"), "b.dsl", &["/w/b.dsl"], 0),
        followed_include("/w/b.dsl", local_file("/w/a.dsl"), "a.dsl", &["/w/a.dsl"], 20),
        followed_include("/w/b.dsl", local_file("/w/c.dsl"), "c.dsl", &["/w/c.dsl"], 40),
    ];
    assert_eq!(cycle_include_indices(&includes), vec![0, 1]);

    let diagnostics = include_diagnostics(&includes);
    assert_eq!(diagnostics.len(), 2);
    for d in &diagnostics {
        assert_eq!(d.code(), "include.cycle");
    }
    assert!(diagnostics.iter().any(|d| d.message() == "include cycle detected while following: b.dsl"));
    assert!(diagnostics.iter().any(|d| d.message() == "include cycle detected while following: a.dsl"));
}

#[test]
fn a_document_that_includes_itself_is_a_cycle() {
    let includes = vec![followed_include("/w/a.dsl", local_file("/w/a.dsl"), "a.dsl", &["/w/a.dsl"], 0)];
    assert_eq!(cycle_include_indices(&includes), vec![0]);
}

#[test]
fn missing_escaping_and_remote_targets_are_each_reported() {
    let includes = vec![
        followed_include(
            "/w/a.dsl",
            WorkspaceIncludeTarget::MissingLocalPath { path: "/w/missing.dsl".to_string() },
            "missing.dsl",
            &[],
            0,
        ),
        followed_include(
            "/w/a.dsl",
            WorkspaceIncludeTarget::UnsupportedLocalPath { path: "/other.dsl".to_string() },
            "../other.dsl",
            &[],
            20,
        ),
        followed_include(
            "/w/a.dsl",
            WorkspaceIncludeTarget::RemoteUrl { url: "https://example.com/m.dsl".to_string() },
            "https://example.com/m.dsl",
            &[],
            40,
        ),
    ];
    assert!(cycle_include_indices(&includes).is_empty());
    let diagnostics = include_diagnostics(&includes);
    assert_eq!(diagnostics.len(), 3);
    let messages: Vec<&str> = diagnostics.iter().map(|d| d.message()).collect();
    assert!(messages.contains(&"included path does not exist: missing.dsl"));
    assert!(messages.contains(&"included path escapes the allowed subtree: ../other.dsl"));
    assert!(messages.contains(&"remote includes are not resolved in the MVP: https://example.com/m.dsl"));
    let codes: Vec<&str> = diagnostics.iter().map(|d| d.code()).collect();
    assert!(codes.contains(&"include.missing-local-target"));
    assert!(codes.contains(&"include.escapes-allowed-subtree"));
    assert!(codes.contains(&"include.unsupported-remote-target"));
}

#[test]
fn include_targets_are_classified() {
    assert!(is_remote_include("https://example.com/model.dsl"));
    assert!(!is_remote_include("model.dsl"));
    assert!(is_supported_local_include_path("model.dsl"));
}

#[test]
fn constants_substitute_into_strings() {
    let mut constants = ConstantEnvironment::new();
    constants.insert("NAME".to_string(), "Payments".to_string());
    assert_eq!(expand_string_substitutions("${NAME} API", &constants), "Payments API");
    assert_eq!(expand_string_substitutions("plain text", &constants), "plain text");
    constants.insert("NAME".to_string(), "Orders".to_string());
    assert_eq!(constants.get("NAME"), Some("Orders"));
}

#[test]
fn documentation_path_messages_depend_on_kind_and_status() {
    assert_eq!(
        documentation_resource_path_message(ResourceDirectiveKind::Docs, "docs", &PathStatus::Missing).as_deref(),
        Some("Documentation path docs does not exist")
    );
    assert_eq!(
        documentation_resource_path_message(ResourceDirectiveKind::Adrs, "adrs", &PathStatus::File).as_deref(),
        Some("Documentation path adrs is not a directory")
    );
    assert_eq!(documentation_resource_path_message(ResourceDirectiveKind::Docs, "docs", &PathStatus::File), None);
    assert_eq!(documentation_resource_path_message(ResourceDirectiveKind::Adrs, "adrs", &PathStatus::Directory), None);
}

#[test]
fn image_source_messages_depend_on_kind_and_status() {
    assert_eq!(image_source_path_message(ImageSourceKind::Image, "a.png", &PathStatus::File), None);
    assert_eq!(
        image_source_path_message(ImageSourceKind::Image, "dir", &PathStatus::Directory).as_deref(),
        Some("dir is not a file")
    );
    assert_eq!(
        image_source_path_message(ImageSourceKind::Mermaid, "dir", &PathStatus::Directory).as_deref(),
        Some("Is a directory")
    );
    assert_eq!(
        image_source_path_message(ImageSourceKind::PlantUml, "x.puml", &PathStatus::Missing).as_deref(),
        Some("The file at x.puml does not exist")
    );
    assert_eq!(required_image_renderer(ImageSourceKind::Kroki), Some(("kroki.url", "Kroki")));
    assert_eq!(required_image_renderer(ImageSourceKind::Image), None);
}

fn empty_tables() -> strz_analysis::workspace::index::WorkspaceBindingTables {
    strz_analysis::workspace::index::WorkspaceBindingTables {
        element_modes: Vec::new(),
        unique_elements: Vec::new(),
        duplicate_elements: Vec::new(),
        unique_deployments: Vec::new(),
        duplicate_deployments: Vec::new(),
        unique_relationships: Vec::new(),
        duplicate_relationships: Vec::new(),
        semantic_diagnostics: Vec::new(),
    }
}

fn instance(
    id: usize,
    documents: &[&str],
    diagnostics: Vec<strz_analysis::diagnostics::RuledDiagnostic>,
) -> strz_analysis::workspace::instance::WorkspaceIndex {
    strz_analysis::workspace::instance::WorkspaceIndex {
        id: strz_analysis::workspace::model::WorkspaceInstanceId(id),
        derived: strz_analysis::workspace::instance::DerivedWorkspaceInstance {
            root_document: DocumentId::new(documents[0].to_string()),
            documents: documents.iter().map(|d| DocumentId::new(d.to_string())).collect(),
            bindings: empty_tables(),
            workspace_symbols: Vec::new(),
            reference_resolutions: Vec::new(),
            references_by_target: Vec::new(),
            semantic_diagnostics: diagnostics,
        },
    }
}

#[test]
fn shared_documents_keep_agreed_reports_and_flag_the_others() {
    let shared = DocumentId::new("/w/shared.dsl".to_string());
    let agreed = RuledDiagnostic::unresolved_reference(&shared, "user", span(5, 9));
    let only_first = RuledDiagnostic::unresolved_reference(&shared, "admin", span(20, 25));
    let indexes = vec![
        instance(0, &["/w/a.dsl", "/w/shared.dsl"], vec![agreed.clone(), only_first.clone()]),
        instance(1, &["/w/b.dsl", "/w/shared.dsl"], vec![agreed.clone()]),
    ];
    let document_instances = build_document_instances(&indexes);
    let shared_entry = document_instances
        .iter()
        .find(|(document, _)| document.as_str() == "/w/shared.dsl")
        .expect("shared document should be listed");
    assert_eq!(shared_entry.1.len(), 2);

    let merged = merge_semantic_diagnostics(&indexes, &document_instances);
    assert_eq!(merged.len(), 2);
    assert!(merged.iter().any(|d| d.code() == "semantic.unresolved-reference" && d.message() == "unresolved identifier reference: user"));
    let flagged = merged
        .iter()
        .find(|d| d.code() == "semantic.multi-context-disagreement")
        .expect("the report only one context makes should be flagged");
    assert_eq!(flagged.message(), "unresolved identifier reference: admin (reported in 1 of 2 workspace contexts)");
    assert_eq!(flagged.span(), span(20, 25));
}

fn handle_in(document: &str, id: usize) -> strz_analysis::workspace::model::SymbolHandle {
    strz_analysis::workspace::model::SymbolHandle::new(DocumentId::new(document.to_owned()), strz_analysis::symbols::SymbolId(id))
}

#[test]
fn dynamic_step_annotation_points_at_declared_relationship() {
    let declared = vec![DeclaredRelationship {
        handle: None,
        document: DocumentId::new("/ws/model.dsl".to_owned()),
        span: span(10, 20),
        source: handle_in("/ws/model.dsl", 1),
        destination: handle_in("/ws/model.dsl", 2),
        technology: Some("HTTPS".to_owned()),
    }];
    let primary = DocumentId::new("/ws/views.dsl".to_owned());
    let source = handle_in("/ws/model.dsl", 1);
    let destination = handle_in("/ws/model.dsl", 2);
    assert!(dynamic_relationship_annotation(&primary, &source, &destination, None, &declared).is_none());
    let note = dynamic_relationship_annotation(&primary, &source, &destination, Some("gRPC"), &declared)
        .expect("a declared relationship joins the endpoints");
    assert_eq!(note.span, span(10, 20));
    assert_eq!(note.message.as_deref(), Some("declared relationship here uses technology HTTPS"));
    assert_eq!(note.document.as_ref().map(|d| d.as_str().to_owned()), Some("/ws/model.dsl".to_owned()));
    assert!(dynamic_relationship_annotation(&primary, &destination, &source, Some("gRPC"), &declared).is_none());
}

#[test]
fn local_include_paths_refuse_climbing_and_roots() {
    assert!(is_supported_local_include_path("./model.dsl"));
    assert!(is_supported_local_include_path("shared/model.dsl"));
    assert!(!is_supported_local_include_path("../model.dsl"));
    assert!(!is_supported_local_include_path("shared/../../model.dsl"));
    assert!(!is_supported_local_include_path("/etc/model.dsl"));
}

#[test]
fn self_include_and_acyclic_chain_report_as_the_walk_closes_them() {
    let itself = vec![followed_include("/w/a.dsl", local_file("/w/a.dsl"), "a.dsl", &["/w/a.dsl"], 0)];
    assert_eq!(cycle_include_indices(&itself), vec![0]);
    let chain = vec![
        followed_include("/w/a.dsl", local_file("/w/b.dsl"), "b.dsl", &["/w/b.dsl"], 0),
        followed_include("/w/b.dsl", local_file("/w/c.dsl"), "c.dsl", &["/w/c.dsl"], 20),
    ];
    assert!(cycle_include_indices(&chain).is_empty());
    // a -> b -> c -> a with a shortcut a -> c: the walk reaches c through b first, so the
    // shortcut is crossed to a finished document and is not reported.
    let shortcut = vec![
        followed_include("/w/a.dsl", local_file("/w/b.dsl"), "b.dsl", &["/w/b.dsl"], 0),
        followed_include("/w/b.dsl", local_file("/w/c.dsl"), "c.dsl", &["/w/c.dsl"], 20),
        followed_include("/w/c.dsl", local_file("/w/a.dsl"), "a.dsl", &["/w/a.dsl"], 40),
        followed_include("/w/a.dsl", local_file("/w/c.dsl"), "c.dsl", &["/w/c.dsl"], 60),
    ];
    assert_eq!(cycle_include_indices(&shortcut), vec![0, 1, 2]);
}

fn declared(id: usize, kind: strz_analysis::symbols::SymbolKind, name: &str, at: usize) -> strz_analysis::symbols::Symbol {
    strz_analysis::symbols::Symbol {
        id: strz_analysis::symbols::SymbolId(id),
        kind,
        display_name: name.to_owned(),
        binding_name: Some(name.to_owned()),
        binding_span: Some(span(at, at + name.len())),
        description: None,
        technology: None,
        tags: Vec::new(),
        url: None,
        span: span(at, at + 20),
        parent: None,
        syntax_node_kind: "person".to_owned(),
    }
}

fn semantic_facts(path: &str, symbols: Vec<strz_analysis::symbols::Symbol>) -> strz_analysis::workspace::index::WorkspaceSemanticDocumentFacts {
    strz_analysis::workspace::index::WorkspaceSemanticDocumentFacts {
        document_id: DocumentId::new(path.to_owned()),
        document_location: None,
        has_syntax_errors: false,
        identifier_modes: Vec::new(),
        symbols,
        references: Vec::new(),
        workspace_sections: Vec::new(),
        configuration_scopes: Vec::new(),
        property_facts: Vec::new(),
        resource_directives: Vec::new(),
        element_directives: Vec::new(),
        relationship_facts: Vec::new(),
        view_facts: Vec::new(),
    }
}

#[test]
fn bound_handles_name_declared_symbols_of_the_instance() {
    let a = semantic_facts("/w/a.dsl", vec![declared(0, strz_analysis::symbols::SymbolKind::Person, "u", 0)]);
    let b = semantic_facts(
        "/w/b.dsl",
        vec![declared(0, strz_analysis::symbols::SymbolKind::Person, "u", 0), declared(1, strz_analysis::symbols::SymbolKind::SoftwareSystem, "s", 30)],
    );
    let docs = [&a, &b];
    let tables = strz_analysis::workspace::index::build_binding_tables(&docs, &[]);
    assert_eq!(tables.unique_elements.len(), 1);
    assert_eq!(tables.unique_elements[0].0, "s");
    assert_eq!(tables.unique_elements[0].1.document.as_str(), "/w/b.dsl");
    assert_eq!(tables.unique_elements[0].1.symbol_id.0, 1);
    assert_eq!(tables.duplicate_elements.len(), 1);
    assert_eq!(tables.duplicate_elements[0].0, "u");
    let dup: Vec<(String, usize)> = tables.duplicate_elements[0]
        .1
        .iter()
        .map(|h| (h.document.as_str().to_owned(), h.symbol_id.0))
        .collect();
    assert_eq!(dup, vec![("/w/a.dsl".to_owned(), 0), ("/w/b.dsl".to_owned(), 0)]);
    let every = tables
        .unique_elements
        .iter()
        .map(|(_, h)| h)
        .chain(tables.duplicate_elements.iter().flat_map(|(_, hs)| hs.iter()));
    for h in every {
        let owner = docs
            .iter()
            .find(|d| d.document_id.as_str() == h.document.as_str())
            .expect("a bound handle names a document of the instance");
        assert_eq!(owner.symbols[h.symbol_id.0].id.0, h.symbol_id.0);
    }
}
