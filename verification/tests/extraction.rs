//! Extraction over syntax trees written out by hand, node by node, in the shape the
//! Structurizr grammar gives the documents quoted above each test.

use strz_analysis::extract::archetypes::collect_supported_archetype_symbol_kinds;
use strz_analysis::extract::modes::{collect_identifier_modes, collect_tags};
use strz_analysis::extract::semantic::collect;
use strz_analysis::extract::symbols::collect_symbols_and_references;
use strz_analysis::extract::tags::extend_tags;
use strz_analysis::includes::{DirectiveContainer, DirectiveValueKind};
use strz_analysis::semantic::{ViewKind, WorkspaceScope, WorkspaceSectionKind};
use strz_analysis::snapshot::{DocumentId, DocumentInput, DocumentSnapshot, DocumentSyntaxFacts};
use strz_analysis::span::{TextPoint, TextSpan};
use strz_analysis::symbols::{IdentifierMode, ReferenceKind, ReferenceTargetHint, Symbol, SymbolKind};
use strz_analysis::syntax::SyntaxNode;

fn span(start: usize, end: usize) -> TextSpan {
    TextSpan {
        start_byte: start,
        end_byte: end,
        start_point: TextPoint { row: 0, column: start },
        end_point: TextPoint { row: 0, column: end },
    }
}

fn leaf(kind: &str, field: Option<&str>, text: &str) -> SyntaxNode {
    SyntaxNode {
        kind: kind.to_string(),
        field_name: field.map(|f| f.to_string()),
        text: text.to_string(),
        span: span(0, 0),
        is_named: true,
        is_error: false,
        is_missing: false,
        children: Vec::new(),
    }
}

fn branch(kind: &str, field: Option<&str>, children: Vec<SyntaxNode>) -> SyntaxNode {
    SyntaxNode {
        kind: kind.to_string(),
        field_name: field.map(|f| f.to_string()),
        text: String::new(),
        span: span(0, 0),
        is_named: true,
        is_error: false,
        is_missing: false,
        children,
    }
}

fn at(mut node: SyntaxNode, start: usize, end: usize) -> SyntaxNode {
    node.span = span(start, end);
    node
}

fn string(field: &str, value: &str) -> SyntaxNode {
    leaf("string", Some(field), &format!("\"{value}\""))
}

fn ident(field: &str, name: &str) -> SyntaxNode {
    leaf("identifier", Some(field), name)
}

fn statement(kind: &str, value: &str) -> SyntaxNode {
    branch(kind, None, vec![string("value", value)])
}

fn document(model: Vec<SyntaxNode>) -> SyntaxNode {
    branch(
        "source_file",
        None,
        vec![branch(
            "workspace",
            None,
            vec![branch("workspace_block", Some("body"), vec![branch("model", None, vec![branch("model_block", Some("body"), model)])])],
        )],
    )
}

fn facts(root: &SyntaxNode) -> DocumentSyntaxFacts {
    DocumentSyntaxFacts::collect(root, Vec::new(), Vec::new())
}

fn bound<'a>(symbols: &'a [Symbol], name: &str) -> &'a Symbol {
    symbols
        .iter()
        .find(|symbol| symbol.binding_name.as_deref() == Some(name))
        .expect("symbol should exist")
}

// workspace { model {
//     user = person "User" "Header user description" "External, Browser" {
//         description "Body user description"  tag "Customer"  url "https://example.com/user" }
//     system = softwareSystem "Payments Platform" {
//         api = container "Payments API" "Processes payment requests" "Rust" "Internal, HTTP" {
//             technology "Axum"  tags "Internal, Edge"  url "https://example.com/api" } }
//     rel = user -> api "Uses" "HTTPS" "Sync, Critical" {
//         description "Body relationship description"  technology "Mutual TLS"
//         tag "Observed"  url "https://example.com/rel" } } }
#[test]
fn analysis_extracts_hover_metadata_from_supported_symbol_declarations() {
    let user = branch(
        "person",
        None,
        vec![
            ident("identifier", "user"),
            string("name", "User"),
            string("description", "Header user description"),
            string("tags", "External, Browser"),
            branch(
                "element_body",
                Some("body"),
                vec![
                    statement("description_statement", "Body user description"),
                    statement("tag_statement", "Customer"),
                    statement("url_statement", "https://example.com/user"),
                ],
            ),
        ],
    );
    let api = branch(
        "container",
        None,
        vec![
            ident("identifier", "api"),
            string("name", "Payments API"),
            string("description", "Processes payment requests"),
            string("technology", "Rust"),
            string("tags", "Internal, HTTP"),
            branch(
                "element_body",
                Some("body"),
                vec![
                    statement("technology_statement", "Axum"),
                    statement("tags_statement", "Internal, Edge"),
                    statement("url_statement", "https://example.com/api"),
                ],
            ),
        ],
    );
    let system = branch(
        "software_system",
        None,
        vec![ident("identifier", "system"), string("name", "Payments Platform"), branch("element_body", Some("body"), vec![api])],
    );
    let rel = branch(
        "relationship",
        None,
        vec![
            ident("identifier", "rel"),
            ident("source", "user"),
            ident("destination", "api"),
            string("attribute", "Uses"),
            string("attribute", "HTTPS"),
            string("attribute", "Sync, Critical"),
            branch(
                "relationship_body",
                Some("body"),
                vec![
                    statement("description_statement", "Body relationship description"),
                    statement("technology_statement", "Mutual TLS"),
                    statement("tag_statement", "Observed"),
                    statement("url_statement", "https://example.com/rel"),
                ],
            ),
        ],
    );
    let root = document(vec![user, system, rel]);
    let facts = facts(&root);

    let user = bound(&facts.symbols, "user");
    assert_eq!(user.display_name, "User");
    assert_eq!(user.description.as_deref(), Some("Body user description"));
    assert_eq!(user.technology, None);
    assert_eq!(user.tags, vec!["External", "Browser", "Customer"]);
    assert_eq!(user.url.as_deref(), Some("https://example.com/user"));

    let api = bound(&facts.symbols, "api");
    assert_eq!(api.display_name, "Payments API");
    assert_eq!(api.description.as_deref(), Some("Processes payment requests"));
    assert_eq!(api.technology.as_deref(), Some("Axum"));
    assert_eq!(api.tags, vec!["Internal", "HTTP", "Edge"]);
    assert_eq!(api.url.as_deref(), Some("https://example.com/api"));

    let relationship = bound(&facts.symbols, "rel");
    assert_eq!(relationship.display_name, "Uses");
    assert_eq!(relationship.description.as_deref(), Some("Body relationship description"));
    assert_eq!(relationship.technology.as_deref(), Some("Mutual TLS"));
    assert_eq!(relationship.tags, vec!["Sync", "Critical", "Observed"]);
    assert_eq!(relationship.url.as_deref(), Some("https://example.com/rel"));
}

// deploymentEnvironment "Live" {
//     edge = deploymentNode "Edge" "Public entrypoint" "Kubernetes" 2 "Public, Regional" {
//         tag "Blue"  url "https://example.com/edge"  api = softwareSystemInstance system } }
#[test]
fn analysis_extracts_deployment_hover_metadata_from_positional_attributes() {
    let edge = branch(
        "deployment_node",
        None,
        vec![
            ident("identifier", "edge"),
            string("name", "Edge"),
            string("attribute", "Public entrypoint"),
            string("attribute", "Kubernetes"),
            leaf("number", Some("attribute"), "2"),
            string("attribute", "Public, Regional"),
            branch(
                "deployment_node_block",
                Some("body"),
                vec![
                    statement("tag_statement", "Blue"),
                    statement("url_statement", "https://example.com/edge"),
                    branch("software_system_instance", None, vec![ident("identifier", "api"), ident("target", "system")]),
                ],
            ),
        ],
    );
    let environment = branch("deployment_environment", None, vec![string("name", "Live"), branch("deployment_environment_block", Some("body"), vec![edge])]);
    let system = branch("software_system", None, vec![ident("identifier", "system"), string("name", "Payments")]);
    let root = document(vec![system, environment]);
    let facts = facts(&root);

    let edge = bound(&facts.symbols, "edge");
    assert_eq!(edge.display_name, "Edge");
    assert_eq!(edge.description.as_deref(), Some("Public entrypoint"));
    assert_eq!(edge.technology.as_deref(), Some("Kubernetes"));
    assert_eq!(edge.tags, vec!["Public", "Regional", "Blue"]);
    assert_eq!(edge.url.as_deref(), Some("https://example.com/edge"));
}

// edge = deploymentNode "Edge" {
//     canary = softwareSystemInstance system blue "Canary" { tag "Observed"  url "https://example.com/canary" } }
#[test]
fn analysis_extracts_deployment_instance_hover_metadata_from_header_tags() {
    let canary = branch(
        "software_system_instance",
        None,
        vec![
            ident("identifier", "canary"),
            ident("target", "system"),
            ident("deployment_groups", "blue"),
            string("tags", "Canary"),
            branch(
                "deployment_instance_block",
                Some("body"),
                vec![statement("tag_statement", "Observed"), statement("url_statement", "https://example.com/canary")],
            ),
        ],
    );
    let edge = branch(
        "deployment_node",
        None,
        vec![ident("identifier", "edge"), string("name", "Edge"), branch("deployment_node_block", Some("body"), vec![canary])],
    );
    let environment = branch("deployment_environment", None, vec![string("name", "Live"), branch("deployment_environment_block", Some("body"), vec![edge])]);
    let system = branch("software_system", None, vec![ident("identifier", "system"), string("name", "Payments")]);
    let root = document(vec![system, environment]);
    let facts = facts(&root);

    let canary = bound(&facts.symbols, "canary");
    assert_eq!(canary.display_name, "canary");
    assert_eq!(canary.description, None);
    assert_eq!(canary.technology, None);
    assert_eq!(canary.tags, vec!["Canary", "Observed"]);
    assert_eq!(canary.url.as_deref(), Some("https://example.com/canary"));
}

// rel = user -> system "" "HTTPS" "Async, Observed"
#[test]
fn analysis_preserves_empty_relationship_placeholder_slots() {
    let user = branch("person", None, vec![ident("identifier", "user"), string("name", "User")]);
    let system = branch("software_system", None, vec![ident("identifier", "system"), string("name", "Payments")]);
    let rel = branch(
        "relationship",
        None,
        vec![
            ident("identifier", "rel"),
            ident("source", "user"),
            ident("destination", "system"),
            string("attribute", ""),
            string("attribute", "HTTPS"),
            string("attribute", "Async, Observed"),
        ],
    );
    let root = document(vec![user, system, rel]);
    let facts = facts(&root);

    let relationship = bound(&facts.symbols, "rel");
    assert_eq!(relationship.display_name, "rel");
    assert_eq!(relationship.description, None);
    assert_eq!(relationship.technology.as_deref(), Some("HTTPS"));
    assert_eq!(relationship.tags, vec!["Async", "Observed"]);
}

// edge = deploymentNode "Edge" "" "Kubernetes" 2 "Prod" { api = softwareSystemInstance system }
#[test]
fn analysis_preserves_empty_deployment_placeholder_slots() {
    let edge = branch(
        "deployment_node",
        None,
        vec![
            ident("identifier", "edge"),
            string("name", "Edge"),
            string("attribute", ""),
            string("attribute", "Kubernetes"),
            leaf("number", Some("attribute"), "2"),
            string("attribute", "Prod"),
            branch(
                "deployment_node_block",
                Some("body"),
                vec![branch("software_system_instance", None, vec![ident("identifier", "api"), ident("target", "system")])],
            ),
        ],
    );
    let environment = branch("deployment_environment", None, vec![string("name", "Live"), branch("deployment_environment_block", Some("body"), vec![edge])]);
    let system = branch("software_system", None, vec![ident("identifier", "system"), string("name", "Payments")]);
    let root = document(vec![system, environment]);
    let facts = facts(&root);

    let edge = bound(&facts.symbols, "edge");
    assert_eq!(edge.display_name, "Edge");
    assert_eq!(edge.description, None);
    assert_eq!(edge.technology.as_deref(), Some("Kubernetes"));
    assert_eq!(edge.tags, vec!["Prod"]);
}

#[test]
fn tags_are_trimmed_skipped_when_empty_and_kept_once() {
    let mut tags = vec!["a".to_string()];
    extend_tags(&mut tags, " b, ,a ,c,b");
    assert_eq!(tags, vec!["a", "b", "c"]);
    extend_tags(&mut tags, "");
    assert_eq!(tags, vec!["a", "b", "c"]);
}

#[test]
fn symbols_are_numbered_in_order_with_parents_and_containing_symbols() {
    let api = branch("container", None, vec![ident("identifier", "api"), string("name", "API")]);
    let system = branch(
        "software_system",
        None,
        vec![ident("identifier", "system"), string("name", "System"), branch("element_body", Some("body"), vec![api])],
    );
    let user = branch("person", None, vec![ident("identifier", "user")]);
    let rel = branch("relationship", None, vec![ident("source", "user"), ident("destination", "api"), string("attribute", "Uses")]);
    let root = document(vec![system, user, rel]);
    let (symbols, references) = collect_symbols_and_references(&root);

    assert_eq!(symbols.len(), 3);
    for (i, symbol) in symbols.iter().enumerate() {
        assert_eq!(symbol.id.0, i);
    }
    assert_eq!(symbols[0].kind, SymbolKind::SoftwareSystem);
    assert_eq!(symbols[1].kind, SymbolKind::Container);
    assert_eq!(symbols[1].parent.map(|p| p.0), Some(0));
    assert_eq!(symbols[2].display_name, "person");
    assert_eq!(references.len(), 2);
    assert_eq!(references[0].kind, ReferenceKind::RelationshipSource);
    assert_eq!(references[0].raw_text, "user");
    assert_eq!(references[1].kind, ReferenceKind::RelationshipDestination);
    assert_eq!(references[1].target_hint, ReferenceTargetHint::Element);
    assert_eq!(references[1].containing_symbol, None);
}

#[test]
fn relationships_below_deployment_scopes_reference_deployment_symbols() {
    let rel = branch("relationship", None, vec![ident("source", "a"), ident("destination", "b")]);
    let node = branch(
        "deployment_node",
        None,
        vec![ident("identifier", "edge"), string("name", "Edge"), branch("deployment_node_block", Some("body"), vec![rel])],
    );
    let root = document(vec![node]);
    let (symbols, references) = collect_symbols_and_references(&root);
    assert_eq!(symbols.len(), 1);
    assert_eq!(references.len(), 2);
    assert_eq!(references[0].kind, ReferenceKind::DeploymentRelationshipSource);
    assert_eq!(references[1].kind, ReferenceKind::DeploymentRelationshipDestination);
    assert_eq!(references[0].target_hint, ReferenceTargetHint::Deployment);
    assert_eq!(references[0].containing_symbol.map(|s| s.0), Some(0));
}

#[test]
fn archetype_chains_resolve_to_their_element_kind() {
    let service = branch("archetype_definition", None, vec![ident("identifier", "service"), leaf("identifier", Some("base"), "Container")]);
    let api_kind = branch("archetype_definition", None, vec![ident("identifier", "apiService"), leaf("identifier", Some("base"), "service")]);
    let dangling = branch("archetype_definition", None, vec![ident("identifier", "orphan"), leaf("identifier", Some("base"), "unknown")]);
    let instance = branch("archetype_instance", None, vec![ident("identifier", "orders"), leaf("identifier", Some("kind"), "apiService"), string("name", "Orders")]);
    let root = document(vec![api_kind, service, dangling, instance]);

    let kinds = collect_supported_archetype_symbol_kinds(&root);
    assert_eq!(kinds.len(), 2);
    assert!(kinds.iter().any(|(name, kind)| name == "service" && *kind == SymbolKind::Container));
    assert!(kinds.iter().any(|(name, kind)| name == "apiService" && *kind == SymbolKind::Container));

    let (symbols, _) = collect_symbols_and_references(&root);
    assert_eq!(symbols.len(), 1);
    assert_eq!(symbols[0].kind, SymbolKind::Container);
    assert_eq!(symbols[0].display_name, "Orders");
    assert_eq!(symbols[0].syntax_node_kind, "archetype_instance");
}

#[test]
fn identifier_directives_record_their_mode_and_nearest_container() {
    let in_model = branch("identifiers_directive", None, vec![leaf("identifier", Some("value"), "Hierarchical")]);
    let in_workspace = branch("identifiers_directive", None, vec![string("value", "flat")]);
    let root = branch(
        "source_file",
        None,
        vec![branch(
            "workspace",
            None,
            vec![branch(
                "workspace_block",
                Some("body"),
                vec![in_workspace, branch("model", None, vec![branch("model_block", Some("body"), vec![in_model])])],
            )],
        )],
    );
    let modes = collect_identifier_modes(&root);
    assert_eq!(modes.len(), 2);
    assert_eq!(modes[0].mode, IdentifierMode::Flat);
    assert_eq!(modes[0].raw_value, "\"flat\"");
    assert_eq!(modes[0].value_kind, DirectiveValueKind::QuotedString);
    assert_eq!(modes[0].container, DirectiveContainer::Workspace);
    assert_eq!(modes[1].mode, IdentifierMode::Hierarchical);
    assert_eq!(modes[1].container, DirectiveContainer::Model);
}

#[test]
fn document_tags_come_from_every_tag_surface_once() {
    let user = branch("person", None, vec![ident("identifier", "user"), string("tags", "External, Browser")]);
    let style = branch("element_style", None, vec![string("tag", "Browser, Mobile")]);
    let body = branch("element_body", Some("body"), vec![statement("tags_statement", "Internal, External")]);
    let system = branch("software_system", None, vec![ident("identifier", "system"), body]);
    let root = document(vec![user, style, system]);
    let tags = collect_tags(&root);
    assert_eq!(tags, vec!["External", "Browser", "Mobile", "Internal"]);
}

#[test]
fn semantic_facts_follow_the_tree_in_order() {
    let scope_outside = branch("scope_statement", None, vec![leaf("identifier", Some("value"), "landscape")]);
    let scope = branch("scope_statement", None, vec![leaf("identifier", Some("value"), "SoftwareSystem")]);
    let configuration = branch("configuration", None, vec![branch("configuration_block", Some("body"), vec![scope])]);
    let property = branch("property_entry", None, vec![string("name", "color"), string("value", "red")]);
    let properties = branch("properties_block", None, vec![property]);
    let view = branch(
        "system_context_view",
        None,
        vec![
            ident("scope", "system"),
            string("key", "Context"),
            branch(
                "view_body",
                Some("body"),
                vec![
                    branch("include_statement", None, vec![leaf("identifier", None, "user"), leaf("wildcard", None, "*")]),
                    branch("auto_layout_statement", None, vec![leaf("direction", Some("direction"), "lr")]),
                    branch("auto_layout_statement", None, vec![leaf("direction", Some("direction"), "tb")]),
                ],
            ),
        ],
    );
    let views = branch("views", None, vec![branch("views_block", Some("body"), vec![properties, view])]);
    let root = branch(
        "source_file",
        None,
        vec![branch("workspace", None, vec![branch("workspace_block", Some("body"), vec![scope_outside, views, configuration])])],
    );
    let facts = collect(&root);

    assert_eq!(facts.configuration_scopes.len(), 1);
    assert_eq!(facts.configuration_scopes[0].scope, WorkspaceScope::SoftwareSystem);
    assert_eq!(facts.workspace_sections.len(), 2);
    assert_eq!(facts.workspace_sections[0].kind, WorkspaceSectionKind::Views);
    assert_eq!(facts.workspace_sections[1].kind, WorkspaceSectionKind::Configuration);
    assert_eq!(facts.property_facts.len(), 1);
    assert_eq!(facts.property_facts[0].name.normalized_text, "color");
    assert_eq!(facts.property_facts[0].container_node_kind, "views_block");
    assert_eq!(facts.view_facts.len(), 1);
    let view = &facts.view_facts[0];
    assert_eq!(view.kind, ViewKind::SystemContext);
    assert_eq!(view.key.as_ref().map(|k| k.normalized_text.as_str()), Some("Context"));
    assert_eq!(view.include_values.len(), 2);
    assert_eq!(view.include_values[1].raw_text, "*");
    assert_eq!(view.auto_layout.as_ref().and_then(|a| a.direction.as_deref()), Some("lr"));
}

#[test]
fn snapshot_resolves_references_within_its_document() {
    let user = at(branch("person", None, vec![ident("identifier", "user")]), 10, 20);
    let system = at(branch("software_system", None, vec![ident("identifier", "system")]), 30, 40);
    let source = at(ident("source", "user"), 52, 56);
    let rel = at(branch("relationship", None, vec![source, at(ident("destination", "missing"), 60, 67)]), 50, 70);
    let root = document(vec![user, system, rel]);
    let facts = facts(&root);
    assert!(facts.symbols.len() == 2);
    let snapshot = DocumentSnapshot::new(DocumentInput::new(DocumentId::new("workspace.dsl".to_string()), String::new()), root, facts);

    let references = snapshot.syntax_facts().references.clone();
    assert_eq!(references.len(), 2);
    let target = snapshot.resolve_reference(&references[0]).expect("user should resolve");
    assert_eq!(target.binding_name.as_deref(), Some("user"));
    assert!(snapshot.resolve_reference(&references[1]).is_none());
}
