use strz_analysis::rules::diagnostic_rule_registry;

#[test]
fn diagnostic_registry_contains_current_rules() {
    let registry = diagnostic_rule_registry();
    let codes = registry
        .all()
        .iter()
        .map(|rule| rule.code())
        .collect::<Vec<_>>();

    assert_eq!(
        codes,
        vec![
            "include.cycle",
            "include.escapes-allowed-subtree",
            "include.missing-local-target",
            "include.unsupported-remote-target",
            "semantic.ambiguous-reference",
            "semantic.deployment-parent-child-relationship",
            "semantic.duplicate-binding",
            "semantic.dynamic-view-relationship-mismatch",
            "semantic.dynamic-view-scope-redundancy",
            "semantic.filtered-view-autolayout-mismatch",
            "semantic.invalid-documentation-path",
            "semantic.invalid-image-source",
            "semantic.invalid-view-element",
            "semantic.missing-image-renderer-property",
            "semantic.multi-context-disagreement",
            "semantic.repeated-workspace-section",
            "semantic.unresolved-element-selector",
            "semantic.unresolved-reference",
            "semantic.workspace-scope-mismatch",
            "syntax.error-node",
            "syntax.missing-node",
            "workspace.load-failure",
        ]
    );
    assert!(registry.get("syntax.error-node").is_some());
    assert!(registry.get("syntax.missing-node").is_some());
    assert!(registry.get("workspace.load-failure").is_some());
    assert!(registry.get("include.cycle").is_some());
    assert!(registry.get("include.escapes-allowed-subtree").is_some());
    assert!(registry.get("include.missing-local-target").is_some());
    assert!(registry.get("include.unsupported-remote-target").is_some());
    assert!(registry.get("semantic.duplicate-binding").is_some());
    assert!(registry.get("semantic.multi-context-disagreement").is_some());
    assert!(registry.get("semantic.dynamic-view-relationship-mismatch").is_some());
    assert!(registry.get("semantic.dynamic-view-scope-redundancy").is_some());
    assert!(registry.get("semantic.filtered-view-autolayout-mismatch").is_some());
    assert!(registry.get("semantic.invalid-documentation-path").is_some());
    assert!(registry.get("semantic.invalid-image-source").is_some());
    assert!(registry.get("semantic.invalid-view-element").is_some());
    assert!(registry.get("semantic.missing-image-renderer-property").is_some());
    assert!(registry.get("semantic.multi-context-disagreement").is_some());
    assert!(registry.get("semantic.repeated-workspace-section").is_some());
    assert!(registry.get("semantic.unresolved-element-selector").is_some());
    assert!(registry.get("semantic.unresolved-reference").is_some());
    assert!(registry.get("semantic.workspace-scope-mismatch").is_some());
    assert!(registry.get("semantic.ambiguous-reference").is_some());
}

#[test]
fn registry_lookup_of_unknown_code_is_none() {
    let registry = diagnostic_rule_registry();
    assert!(registry.get("semantic.no-such-rule").is_none());
    assert_eq!(registry.all().len(), 22);
}
