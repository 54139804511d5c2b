use strz_analysis::constants::ConstantDefinition;
use strz_analysis::includes::{DirectiveContainer, DirectiveValueKind, IncludeDirective};
use strz_analysis::span::{TextPoint, TextSpan};
use strz_analysis::snapshot::DocumentId;
use strz_analysis::workspace::discovery::{resolve_include, IncludeProbe, TargetEntry};
use strz_analysis::workspace::substitution::ConstantEnvironment;
use strz_analysis::workspace::loader::{
    build_contexts, BuildStop, LoadRequest, LoadWorld, LoadedDocument, WorkspaceDirectiveEvent, WorkspaceRoot,
};
use strz_analysis::workspace::model::{WorkspaceDocumentKind, WorkspaceIncludeTarget};

fn at(start: usize, end: usize) -> TextSpan {
    TextSpan {
        start_byte: start,
        end_byte: end,
        start_point: TextPoint { row: 0, column: start },
        end_point: TextPoint { row: 0, column: end },
    }
}

fn entry_including(path: &str, raw: &str) -> LoadedDocument {
    LoadedDocument {
        path: path.to_owned(),
        kind: WorkspaceDocumentKind::Entry,
        base: None,
        constants: Vec::new(),
        includes: vec![IncludeDirective {
            raw_value: raw.to_owned(),
            value_kind: DirectiveValueKind::QuotedString,
            span: at(10, 40),
            value_span: at(19, 40),
            container: DirectiveContainer::Workspace,
        }],
        events: vec![WorkspaceDirectiveEvent::IncludeDirective(0)],
    }
}

fn file_root(path: &str) -> Vec<WorkspaceRoot> {
    vec![WorkspaceRoot { path: path.to_owned(), is_file: true }]
}

#[test]
fn remote_include_needs_no_filesystem_probe() {
    let world = LoadWorld {
        documents: vec![entry_including("/ws/workspace.dsl", "\"https://example.com/model.dsl\"")],
        unreadable: Vec::new(),
        probes: Vec::new(),
    };
    let build = match build_contexts(&world, &file_root("/ws/workspace.dsl")) {
        Ok(b) => b,
        Err(_) => panic!("a remote include is recorded without asking the filesystem"),
    };
    assert_eq!(build.starts.len(), 1);
    let context = &build.contexts[build.starts[0]];
    assert_eq!(context.direct_includes.len(), 1);
    assert!(matches!(
        &context.direct_includes[0].target,
        WorkspaceIncludeTarget::RemoteUrl { url } if url == "https://example.com/model.dsl"
    ));
}

#[test]
fn local_include_asks_for_a_probe_then_follows_the_file() {
    let mut world = LoadWorld {
        documents: vec![entry_including("/ws/workspace.dsl", "\"model.dsl\"")],
        unreadable: Vec::new(),
        probes: Vec::new(),
    };
    match build_contexts(&world, &file_root("/ws/workspace.dsl")) {
        Err(BuildStop::Need(LoadRequest::Probe { document_path, target_text })) => {
            assert_eq!(document_path, "/ws/workspace.dsl");
            assert_eq!(target_text, "model.dsl");
        },
        _ => panic!("the include target must be probed first"),
    }
    world.probes.push((
        "/ws/workspace.dsl".to_owned(),
        "model.dsl".to_owned(),
        IncludeProbe {
            canonical_parent: Ok("/ws".to_owned()),
            entry: TargetEntry::File { canonical: Ok("/ws/model.dsl".to_owned()) },
        },
    ));
    match build_contexts(&world, &file_root("/ws/workspace.dsl")) {
        Err(BuildStop::Need(LoadRequest::Document { path })) => assert_eq!(path, "/ws/model.dsl"),
        _ => panic!("the included document must be loaded next"),
    }
}

#[test]
fn include_outside_the_document_directory_is_not_followed() {
    let world = LoadWorld {
        documents: vec![entry_including("/ws/workspace.dsl", "\"link.dsl\"")],
        unreadable: Vec::new(),
        probes: vec![(
            "/ws/workspace.dsl".to_owned(),
            "link.dsl".to_owned(),
            IncludeProbe {
                canonical_parent: Ok("/ws".to_owned()),
                entry: TargetEntry::File { canonical: Ok("/elsewhere/model.dsl".to_owned()) },
            },
        )],
    };
    let build = match build_contexts(&world, &file_root("/ws/workspace.dsl")) {
        Ok(b) => b,
        Err(_) => panic!("an include escaping the directory is classified, not followed"),
    };
    let context = &build.contexts[build.starts[0]];
    assert!(matches!(
        &context.direct_includes[0].target,
        WorkspaceIncludeTarget::UnsupportedLocalPath { path } if path == "/elsewhere/model.dsl"
    ));
    assert!(context.direct_includes[0].discovered_documents.is_empty());
}

#[test]
fn include_targets_expand_the_constants_in_force_at_the_directive() {
    let include_at = |start: usize| IncludeDirective {
        raw_value: "\"https://${HOST}/model.dsl\"".to_owned(),
        value_kind: DirectiveValueKind::QuotedString,
        span: at(start, start + 30),
        value_span: at(start + 9, start + 30),
        container: DirectiveContainer::Workspace,
    };
    let document = LoadedDocument {
        path: "/ws/workspace.dsl".to_owned(),
        kind: WorkspaceDocumentKind::Entry,
        base: None,
        constants: vec![ConstantDefinition {
            name: "HOST".to_owned(),
            value: "example.com".to_owned(),
            span: at(40, 70),
            name_span: at(50, 54),
            value_span: at(55, 70),
            container: DirectiveContainer::Workspace,
        }],
        includes: vec![include_at(0), include_at(80)],
        events: vec![
            WorkspaceDirectiveEvent::IncludeDirective(0),
            WorkspaceDirectiveEvent::ConstantDefinition(0),
            WorkspaceDirectiveEvent::IncludeDirective(1),
        ],
    };
    let world = LoadWorld { documents: vec![document], unreadable: Vec::new(), probes: Vec::new() };
    let build = match build_contexts(&world, &file_root("/ws/workspace.dsl")) {
        Ok(b) => b,
        Err(_) => panic!("remote includes need nothing more"),
    };
    let context = &build.contexts[build.starts[0]];
    assert_eq!(context.direct_includes.len(), 2);
    assert_eq!(context.direct_includes[0].target_text, "https://${HOST}/model.dsl");
    assert_eq!(context.direct_includes[1].target_text, "https://example.com/model.dsl");
    assert_eq!(context.exported_constants.get("HOST"), Some("example.com"));
}

#[test]
fn directory_include_discovers_its_files_once_in_path_order() {
    let directive = IncludeDirective {
        raw_value: "\"parts\"".to_owned(),
        value_kind: DirectiveValueKind::QuotedString,
        span: at(0, 20),
        value_span: at(9, 20),
        container: DirectiveContainer::Workspace,
    };
    let probe = IncludeProbe {
        canonical_parent: Ok("/ws".to_owned()),
        entry: TargetEntry::Directory {
            canonical: Ok("/ws/parts".to_owned()),
            listing: Ok(vec![
                "/ws/parts/b.dsl".to_owned(),
                "/ws/parts/a.dsl".to_owned(),
                "/ws/parts/b.dsl".to_owned(),
                "/elsewhere/c.dsl".to_owned(),
            ]),
        },
    };
    let work = match resolve_include(
        &DocumentId::new("/ws/workspace.dsl".to_owned()),
        &directive,
        &ConstantEnvironment::new(),
        &probe,
    ) {
        Ok(w) => w,
        Err(_) => panic!("a readable directory inside the workspace is followed"),
    };
    assert_eq!(work.discovered_paths, vec!["/ws/parts/a.dsl".to_owned(), "/ws/parts/b.dsl".to_owned()]);
    let ids: Vec<&str> = work.followed.discovered_documents.iter().map(|d| d.as_str()).collect();
    assert_eq!(ids, vec!["/ws/parts/a.dsl", "/ws/parts/b.dsl"]);
}

fn entry_extending(path: &str, raw: &str) -> LoadedDocument {
    LoadedDocument {
        path: path.to_owned(),
        kind: WorkspaceDocumentKind::Entry,
        base: Some(strz_analysis::workspace::discovery::WorkspaceBaseDirective {
            raw_value: raw.to_owned(),
            value_kind: DirectiveValueKind::QuotedString,
            span: at(0, 30),
            value_span: at(18, 30),
        }),
        constants: Vec::new(),
        includes: Vec::new(),
        events: Vec::new(),
    }
}

fn file_probe(document: &str, target: &str, canonical: &str) -> (String, String, IncludeProbe) {
    (
        document.to_owned(),
        target.to_owned(),
        IncludeProbe {
            canonical_parent: Ok("/ws".to_owned()),
            entry: TargetEntry::File { canonical: Ok(canonical.to_owned()) },
        },
    )
}

#[test]
fn bases_that_extend_each_other_stop_with_a_cycle_at_the_second() {
    let world = LoadWorld {
        documents: vec![
            entry_extending("/ws/a.dsl", "\"b.dsl\""),
            entry_extending("/ws/b.dsl", "\"a.dsl\""),
        ],
        unreadable: Vec::new(),
        probes: vec![
            file_probe("/ws/a.dsl", "b.dsl", "/ws/b.dsl"),
            file_probe("/ws/b.dsl", "a.dsl", "/ws/a.dsl"),
        ],
    };
    match build_contexts(&world, &file_root("/ws/a.dsl")) {
        Err(BuildStop::Failed(e)) => {
            assert_eq!(e.failures.len(), 1);
            assert_eq!(
                e.failures[0].kind,
                strz_analysis::workspace::errors::WorkspaceLoadFailureKind::WorkspaceBaseCycle
            );
            assert_eq!(e.failures[0].message, "workspace extends cycle detected while following: a.dsl");
        },
        _ => panic!("a base leading back to a document in progress is a cycle"),
    }
}

#[test]
fn unprobed_base_target_is_asked_for_before_anything_else() {
    let world = LoadWorld {
        documents: vec![entry_extending("/ws/a.dsl", "\"b.dsl\"")],
        unreadable: Vec::new(),
        probes: Vec::new(),
    };
    match build_contexts(&world, &file_root("/ws/a.dsl")) {
        Err(BuildStop::Need(LoadRequest::Probe { document_path, target_text })) => {
            assert_eq!(document_path, "/ws/a.dsl");
            assert_eq!(target_text, "b.dsl");
        },
        _ => panic!("the base target must be probed first"),
    }
}
