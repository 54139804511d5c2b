//! Declared diagnostic rules for the analysis layer.

use vstd::prelude::*;

use crate::rule::{DiagnosticSeverity, RuleId, RuleMetadata, RuleRegistry, RuleRegistryBuilder};

verus! {

/// ## What it does
/// Reports Tree-sitter recovery `ERROR` nodes.
///
/// ## Why is this bad?
/// An `ERROR` node means the parser could not reconcile the current token
/// stream with the grammar and had to recover around unexpected syntax.
pub fn syntax_error_node() -> (r: RuleMetadata)
    ensures
        r.code@ == "syntax.error-node"@,
        r.source@ == "syntax"@,
        r.default_severity == DiagnosticSeverity::Error,
        crate::rule::family_named(r),
{
    proof {
        reveal_strlit("syntax.error-node");
        reveal_strlit("syntax");
        reveal_strlit("error-node");
        reveal_strlit(".");
        assert("syntax.error-node"@ =~= "syntax"@ + "."@ + "error-node"@);
    }
    RuleMetadata {
        code: "syntax.error-node",
        source: "syntax",
        summary: "reports unexpected syntax recovered as tree-sitter error nodes",
        raw_documentation: " ## What it does\n Reports Tree-sitter recovery `ERROR` nodes.\n\n ## Why is this bad?\n An `ERROR` node means the parser could not reconcile the current token\n stream with the grammar and had to recover around unexpected syntax.\n",
        default_severity: DiagnosticSeverity::Error,
        file: "src/rules.rs",
        line: 15,
    }
}

/// ## What it does
/// Reports Tree-sitter synthesized `MISSING` nodes.
///
/// ## Why is this bad?
/// A `MISSING` node means the parser had to invent syntax to continue,
/// which usually indicates an incomplete or malformed construct in the
/// source text.
pub fn syntax_missing_node() -> (r: RuleMetadata)
    ensures
        r.code@ == "syntax.missing-node"@,
        r.source@ == "syntax"@,
        r.default_severity == DiagnosticSeverity::Error,
        crate::rule::family_named(r),
{
    proof {
        reveal_strlit("syntax.missing-node");
        reveal_strlit("syntax");
        reveal_strlit("missing-node");
        reveal_strlit(".");
        assert("syntax.missing-node"@ =~= "syntax"@ + "."@ + "missing-node"@);
    }
    RuleMetadata {
        code: "syntax.missing-node",
        source: "syntax",
        summary: "reports missing syntax recovered by tree-sitter",
        raw_documentation: " ## What it does\n Reports Tree-sitter synthesized `MISSING` nodes.\n\n ## Why is this bad?\n A `MISSING` node means the parser had to invent syntax to continue,\n which usually indicates an incomplete or malformed construct in the\n source text.\n",
        default_severity: DiagnosticSeverity::Error,
        file: "src/rules.rs",
        line: 39,
    }
}

/// ## What it does
/// Reports `!include` directives whose local target does not exist.
///
/// ## Why is this bad?
/// Missing include targets prevent the assembled workspace from loading the
/// contributor-owned files the document references.
pub fn include_missing_local_target() -> (r: RuleMetadata)
    ensures
        r.code@ == "include.missing-local-target"@,
        r.source@ == "include"@,
        r.default_severity == DiagnosticSeverity::Error,
        crate::rule::family_named(r),
{
    proof {
        reveal_strlit("include.missing-local-target");
        reveal_strlit("include");
        reveal_strlit("missing-local-target");
        reveal_strlit(".");
        assert("include.missing-local-target"@ =~= "include"@ + "."@ + "missing-local-target"@);
    }
    RuleMetadata {
        code: "include.missing-local-target",
        source: "include",
        summary: "reports include directives whose local path does not exist",
        raw_documentation: " ## What it does\n Reports `!include` directives whose local target does not exist.\n\n ## Why is this bad?\n Missing include targets prevent the assembled workspace from loading the\n contributor-owned files the document references.\n",
        default_severity: DiagnosticSeverity::Error,
        file: "src/rules.rs",
        line: 62,
    }
}

/// ## What it does
/// Reports `!include` directives that escape the permitted local subtree.
///
/// ## Why is this bad?
/// Escaping the allowed subtree breaks the bounded local-loading model and
/// can pull analysis outside the intended workspace root.
pub fn include_escapes_allowed_subtree() -> (r: RuleMetadata)
    ensures
        r.code@ == "include.escapes-allowed-subtree"@,
        r.source@ == "include"@,
        r.default_severity == DiagnosticSeverity::Error,
        crate::rule::family_named(r),
{
    proof {
        reveal_strlit("include.escapes-allowed-subtree");
        reveal_strlit("include");
        reveal_strlit("escapes-allowed-subtree");
        reveal_strlit(".");
        assert("include.escapes-allowed-subtree"@ =~= "include"@ + "."@ + "escapes-allowed-subtree"@);
    }
    RuleMetadata {
        code: "include.escapes-allowed-subtree",
        source: "include",
        summary: "reports include directives that escape the allowed subtree",
        raw_documentation: " ## What it does\n Reports `!include` directives that escape the permitted local subtree.\n\n ## Why is this bad?\n Escaping the allowed subtree breaks the bounded local-loading model and\n can pull analysis outside the intended workspace root.\n",
        default_severity: DiagnosticSeverity::Error,
        file: "src/rules.rs",
        line: 85,
    }
}

/// ## What it does
/// Reports explicit include cycles while assembling a workspace.
///
/// ## Why is this bad?
/// Include cycles prevent the bounded loader from building one stable
/// document graph for analysis.
pub fn include_cycle() -> (r: RuleMetadata)
    ensures
        r.code@ == "include.cycle"@,
        r.source@ == "include"@,
        r.default_severity == DiagnosticSeverity::Error,
        crate::rule::family_named(r),
{
    proof {
        reveal_strlit("include.cycle");
        reveal_strlit("include");
        reveal_strlit("cycle");
        reveal_strlit(".");
        assert("include.cycle"@ =~= "include"@ + "."@ + "cycle"@);
    }
    RuleMetadata {
        code: "include.cycle",
        source: "include",
        summary: "reports explicit include cycles",
        raw_documentation: " ## What it does\n Reports explicit include cycles while assembling a workspace.\n\n ## Why is this bad?\n Include cycles prevent the bounded loader from building one stable\n document graph for analysis.\n",
        default_severity: DiagnosticSeverity::Error,
        file: "src/rules.rs",
        line: 108,
    }
}

/// ## What it does
/// Reports remote include targets that the bounded loader does not follow.
///
/// ## Why is this bad?
/// Remote includes remain unresolved in the current local analysis model, so
/// the user should know the assembled workspace is incomplete.
pub fn include_unsupported_remote_target() -> (r: RuleMetadata)
    ensures
        r.code@ == "include.unsupported-remote-target"@,
        r.source@ == "include"@,
        r.default_severity == DiagnosticSeverity::Warning,
        crate::rule::family_named(r),
{
    proof {
        reveal_strlit("include.unsupported-remote-target");
        reveal_strlit("include");
        reveal_strlit("unsupported-remote-target");
        reveal_strlit(".");
        assert("include.unsupported-remote-target"@ =~= "include"@ + "."@ + "unsupported-remote-target"@);
    }
    RuleMetadata {
        code: "include.unsupported-remote-target",
        source: "include",
        summary: "reports remote include targets that stay unresolved locally",
        raw_documentation: " ## What it does\n Reports remote include targets that the bounded loader does not follow.\n\n ## Why is this bad?\n Remote includes remain unresolved in the current local analysis model, so\n the user should know the assembled workspace is incomplete.\n",
        default_severity: DiagnosticSeverity::Warning,
        file: "src/rules.rs",
        line: 131,
    }
}

/// ## What it does
/// Reports fatal workspace-load failures that can still be anchored to a source location.
///
/// ## Why is this bad?
/// Fatal loader failures stop assembled-workspace facts from being built, so
/// editor users need a visible diagnostic at the directive that caused the
/// load to abort instead of only seeing stale or missing workspace features.
pub fn workspace_load_failure() -> (r: RuleMetadata)
    ensures
        r.code@ == "workspace.load-failure"@,
        r.source@ == "workspace"@,
        r.default_severity == DiagnosticSeverity::Error,
        crate::rule::family_named(r),
{
    proof {
        reveal_strlit("workspace.load-failure");
        reveal_strlit("workspace");
        reveal_strlit("load-failure");
        reveal_strlit(".");
        assert("workspace.load-failure"@ =~= "workspace"@ + "."@ + "load-failure"@);
    }
    RuleMetadata {
        code: "workspace.load-failure",
        source: "workspace",
        summary: "reports fatal workspace-load failures with source anchors",
        raw_documentation: " ## What it does\n Reports fatal workspace-load failures that can still be anchored to a source location.\n\n ## Why is this bad?\n Fatal loader failures stop assembled-workspace facts from being built, so\n editor users need a visible diagnostic at the directive that caused the\n load to abort instead of only seeing stale or missing workspace features.\n",
        default_severity: DiagnosticSeverity::Error,
        file: "src/rules.rs",
        line: 155,
    }
}

/// ## What it does
/// Reports when more than one declaration claims the same canonical binding.
///
/// ## Why is this bad?
/// Duplicate bindings make assembled-workspace resolution ambiguous and can
/// cause navigation or later validation passes to pick the wrong target.
pub fn semantic_duplicate_binding() -> (r: RuleMetadata)
    ensures
        r.code@ == "semantic.duplicate-binding"@,
        r.source@ == "semantic"@,
        r.default_severity == DiagnosticSeverity::Error,
        crate::rule::family_named(r),
{
    proof {
        reveal_strlit("semantic.duplicate-binding");
        reveal_strlit("semantic");
        reveal_strlit("duplicate-binding");
        reveal_strlit(".");
        assert("semantic.duplicate-binding"@ =~= "semantic"@ + "."@ + "duplicate-binding"@);
    }
    RuleMetadata {
        code: "semantic.duplicate-binding",
        source: "semantic",
        summary: "reports duplicate element, deployment, or relationship bindings",
        raw_documentation: " ## What it does\n Reports when more than one declaration claims the same canonical binding.\n\n ## Why is this bad?\n Duplicate bindings make assembled-workspace resolution ambiguous and can\n cause navigation or later validation passes to pick the wrong target.\n",
        default_severity: DiagnosticSeverity::Error,
        file: "src/rules.rs",
        line: 178,
    }
}

/// ## What it does
/// Reports repeated top-level `model` or `views` sections in one DSL definition.
///
/// ## Why is this bad?
/// Structurizr accepts standalone fragments for editor workflows, but one
/// assembled DSL definition still needs at most one `model` section and one
/// `views` section.
pub fn semantic_repeated_workspace_section() -> (r: RuleMetadata)
    ensures
        r.code@ == "semantic.repeated-workspace-section"@,
        r.source@ == "semantic"@,
        r.default_severity == DiagnosticSeverity::Error,
        crate::rule::family_named(r),
{
    proof {
        reveal_strlit("semantic.repeated-workspace-section");
        reveal_strlit("semantic");
        reveal_strlit("repeated-workspace-section");
        reveal_strlit(".");
        assert("semantic.repeated-workspace-section"@ =~= "semantic"@ + "."@ + "repeated-workspace-section"@);
    }
    RuleMetadata {
        code: "semantic.repeated-workspace-section",
        source: "semantic",
        summary: "reports repeated top-level model or views sections",
        raw_documentation: " ## What it does\n Reports repeated top-level `model` or `views` sections in one DSL definition.\n\n ## Why is this bad?\n Structurizr accepts standalone fragments for editor workflows, but one\n assembled DSL definition still needs at most one `model` section and one\n `views` section.\n",
        default_severity: DiagnosticSeverity::Error,
        file: "src/rules.rs",
        line: 202,
    }
}

/// ## What it does
/// Reports unresolved `!element` selector targets that should name one model or deployment element.
///
/// ## Why is this bad?
/// When a selector target does not resolve, the bounded analysis layer
/// cannot anchor the nested block to the intended element.
pub fn semantic_unresolved_element_selector() -> (r: RuleMetadata)
    ensures
        r.code@ == "semantic.unresolved-element-selector"@,
        r.source@ == "semantic"@,
        r.default_severity == DiagnosticSeverity::Error,
        crate::rule::family_named(r),
{
    proof {
        reveal_strlit("semantic.unresolved-element-selector");
        reveal_strlit("semantic");
        reveal_strlit("unresolved-element-selector");
        reveal_strlit(".");
        assert("semantic.unresolved-element-selector"@ =~= "semantic"@ + "."@ + "unresolved-element-selector"@);
    }
    RuleMetadata {
        code: "semantic.unresolved-element-selector",
        source: "semantic",
        summary: "reports unresolved !element selector targets",
        raw_documentation: " ## What it does\n Reports unresolved `!element` selector targets that should name one model or deployment element.\n\n ## Why is this bad?\n When a selector target does not resolve, the bounded analysis layer\n cannot anchor the nested block to the intended element.\n",
        default_severity: DiagnosticSeverity::Error,
        file: "src/rules.rs",
        line: 225,
    }
}

/// ## What it does
/// Reports configuration scopes that conflict with the model depth in the assembled workspace.
///
/// ## Why is this bad?
/// Scope mismatches mean the workspace declares one modeling boundary while
/// still containing deeper elements that upstream validation rejects.
pub fn semantic_workspace_scope_mismatch() -> (r: RuleMetadata)
    ensures
        r.code@ == "semantic.workspace-scope-mismatch"@,
        r.source@ == "semantic"@,
        r.default_severity == DiagnosticSeverity::Error,
        crate::rule::family_named(r),
{
    proof {
        reveal_strlit("semantic.workspace-scope-mismatch");
        reveal_strlit("semantic");
        reveal_strlit("workspace-scope-mismatch");
        reveal_strlit(".");
        assert("semantic.workspace-scope-mismatch"@ =~= "semantic"@ + "."@ + "workspace-scope-mismatch"@);
    }
    RuleMetadata {
        code: "semantic.workspace-scope-mismatch",
        source: "semantic",
        summary: "reports configuration scopes that conflict with model depth",
        raw_documentation: " ## What it does\n Reports configuration scopes that conflict with the model depth in the assembled workspace.\n\n ## Why is this bad?\n Scope mismatches mean the workspace declares one modeling boundary while\n still containing deeper elements that upstream validation rejects.\n",
        default_severity: DiagnosticSeverity::Error,
        file: "src/rules.rs",
        line: 248,
    }
}

/// ## What it does
/// Reports when a supported identifier reference resolves to no known target.
///
/// ## Why is this bad?
/// An unresolved reference means the assembled workspace is missing a
/// declaration that later features depend on for navigation and validation.
pub fn semantic_unresolved_reference() -> (r: RuleMetadata)
    ensures
        r.code@ == "semantic.unresolved-reference"@,
        r.source@ == "semantic"@,
        r.default_severity == DiagnosticSeverity::Error,
        crate::rule::family_named(r),
{
    proof {
        reveal_strlit("semantic.unresolved-reference");
        reveal_strlit("semantic");
        reveal_strlit("unresolved-reference");
        reveal_strlit(".");
        assert("semantic.unresolved-reference"@ =~= "semantic"@ + "."@ + "unresolved-reference"@);
    }
    RuleMetadata {
        code: "semantic.unresolved-reference",
        source: "semantic",
        summary: "reports unresolved identifier references",
        raw_documentation: " ## What it does\n Reports when a supported identifier reference resolves to no known target.\n\n ## Why is this bad?\n An unresolved reference means the assembled workspace is missing a\n declaration that later features depend on for navigation and validation.\n",
        default_severity: DiagnosticSeverity::Error,
        file: "src/rules.rs",
        line: 271,
    }
}

/// ## What it does
/// Reports when a supported identifier reference resolves ambiguously.
///
/// ## Why is this bad?
/// Ambiguous references prevent the bounded analysis layer from determining
/// one reliable target for navigation or later semantic rules.
pub fn semantic_ambiguous_reference() -> (r: RuleMetadata)
    ensures
        r.code@ == "semantic.ambiguous-reference"@,
        r.source@ == "semantic"@,
        r.default_severity == DiagnosticSeverity::Error,
        crate::rule::family_named(r),
{
    proof {
        reveal_strlit("semantic.ambiguous-reference");
        reveal_strlit("semantic");
        reveal_strlit("ambiguous-reference");
        reveal_strlit(".");
        assert("semantic.ambiguous-reference"@ =~= "semantic"@ + "."@ + "ambiguous-reference"@);
    }
    RuleMetadata {
        code: "semantic.ambiguous-reference",
        source: "semantic",
        summary: "reports identifier references with multiple plausible targets",
        raw_documentation: " ## What it does\n Reports when a supported identifier reference resolves ambiguously.\n\n ## Why is this bad?\n Ambiguous references prevent the bounded analysis layer from determining\n one reliable target for navigation or later semantic rules.\n",
        default_severity: DiagnosticSeverity::Error,
        file: "src/rules.rs",
        line: 294,
    }
}

/// ## What it does
/// Reports semantic diagnostics that differ across candidate workspace contexts.
///
/// ## Why is this bad?
/// Shared fragments can participate in more than one workspace. When those
/// contexts disagree, the analysis layer cannot safely publish the original
/// error as if it applied unconditionally, but suppressing it entirely hides
/// useful context from the editor.
pub fn semantic_multi_context_disagreement() -> (r: RuleMetadata)
    ensures
        r.code@ == "semantic.multi-context-disagreement"@,
        r.source@ == "semantic"@,
        r.default_severity == DiagnosticSeverity::Warning,
        crate::rule::family_named(r),
{
    proof {
        reveal_strlit("semantic.multi-context-disagreement");
        reveal_strlit("semantic");
        reveal_strlit("multi-context-disagreement");
        reveal_strlit(".");
        assert("semantic.multi-context-disagreement"@ =~= "semantic"@ + "."@ + "multi-context-disagreement"@);
    }
    RuleMetadata {
        code: "semantic.multi-context-disagreement",
        source: "semantic",
        summary: "reports semantic diagnostics that differ across workspace contexts",
        raw_documentation: " ## What it does\n Reports semantic diagnostics that differ across candidate workspace contexts.\n\n ## Why is this bad?\n Shared fragments can participate in more than one workspace. When those\n contexts disagree, the analysis layer cannot safely publish the original\n error as if it applied unconditionally, but suppressing it entirely hides\n useful context from the editor.\n",
        default_severity: DiagnosticSeverity::Warning,
        file: "src/rules.rs",
        line: 319,
    }
}

/// ## What it does
/// Reports deployment relationships whose endpoints sit in the same containment chain.
///
/// ## Why is this bad?
/// Structurizr rejects relationships between deployment parents and their
/// children because containment already describes that topology.
pub fn semantic_deployment_parent_child_relationship() -> (r: RuleMetadata)
    ensures
        r.code@ == "semantic.deployment-parent-child-relationship"@,
        r.source@ == "semantic"@,
        r.default_severity == DiagnosticSeverity::Error,
        crate::rule::family_named(r),
{
    proof {
        reveal_strlit("semantic.deployment-parent-child-relationship");
        reveal_strlit("semantic");
        reveal_strlit("deployment-parent-child-relationship");
        reveal_strlit(".");
        assert("semantic.deployment-parent-child-relationship"@ =~= "semantic"@ + "."@ + "deployment-parent-child-relationship"@);
    }
    RuleMetadata {
        code: "semantic.deployment-parent-child-relationship",
        source: "semantic",
        summary: "reports deployment relationships between parents and children",
        raw_documentation: " ## What it does\n Reports deployment relationships whose endpoints sit in the same containment chain.\n\n ## Why is this bad?\n Structurizr rejects relationships between deployment parents and their\n children because containment already describes that topology.\n",
        default_severity: DiagnosticSeverity::Error,
        file: "src/rules.rs",
        line: 342,
    }
}

/// ## What it does
/// Reports filtered views whose base view already enables automatic layout.
///
/// ## Why is this bad?
/// Structurizr rejects filtered views derived from auto-layout bases because
/// the filtered variant cannot safely inherit or override that layout state.
pub fn semantic_filtered_view_autolayout_mismatch() -> (r: RuleMetadata)
    ensures
        r.code@ == "semantic.filtered-view-autolayout-mismatch"@,
        r.source@ == "semantic"@,
        r.default_severity == DiagnosticSeverity::Error,
        crate::rule::family_named(r),
{
    proof {
        reveal_strlit("semantic.filtered-view-autolayout-mismatch");
        reveal_strlit("semantic");
        reveal_strlit("filtered-view-autolayout-mismatch");
        reveal_strlit(".");
        assert("semantic.filtered-view-autolayout-mismatch"@ =~= "semantic"@ + "."@ + "filtered-view-autolayout-mismatch"@);
    }
    RuleMetadata {
        code: "semantic.filtered-view-autolayout-mismatch",
        source: "semantic",
        summary: "reports filtered views built from auto-layout base views",
        raw_documentation: " ## What it does\n Reports filtered views whose base view already enables automatic layout.\n\n ## Why is this bad?\n Structurizr rejects filtered views derived from auto-layout bases because\n the filtered variant cannot safely inherit or override that layout state.\n",
        default_severity: DiagnosticSeverity::Error,
        file: "src/rules.rs",
        line: 365,
    }
}

/// ## What it does
/// Reports dynamic-view steps whose endpoints do not match any compatible declared relationship.
///
/// ## Why is this bad?
/// Dynamic views describe runtime behavior in terms of relationships that
/// already exist in the model, so mismatched steps point at behavior the
/// assembled workspace never declared.
pub fn semantic_dynamic_view_relationship_mismatch() -> (r: RuleMetadata)
    ensures
        r.code@ == "semantic.dynamic-view-relationship-mismatch"@,
        r.source@ == "semantic"@,
        r.default_severity == DiagnosticSeverity::Error,
        crate::rule::family_named(r),
{
    proof {
        reveal_strlit("semantic.dynamic-view-relationship-mismatch");
        reveal_strlit("semantic");
        reveal_strlit("dynamic-view-relationship-mismatch");
        reveal_strlit(".");
        assert("semantic.dynamic-view-relationship-mismatch"@ =~= "semantic"@ + "."@ + "dynamic-view-relationship-mismatch"@);
    }
    RuleMetadata {
        code: "semantic.dynamic-view-relationship-mismatch",
        source: "semantic",
        summary: "reports dynamic-view steps without a matching declared relationship",
        raw_documentation: " ## What it does\n Reports dynamic-view steps whose endpoints do not match any compatible declared relationship.\n\n ## Why is this bad?\n Dynamic views describe runtime behavior in terms of relationships that\n already exist in the model, so mismatched steps point at behavior the\n assembled workspace never declared.\n",
        default_severity: DiagnosticSeverity::Error,
        file: "src/rules.rs",
        line: 389,
    }
}

/// ## What it does
/// Reports dynamic-view steps that redundantly re-add the view's scoped element.
///
/// ## Why is this bad?
/// Scoped dynamic views already imply the chosen element, so adding it again
/// in a step or a referenced relationship is rejected by upstream validation
/// and usually means the view should be widened to `*` instead.
pub fn semantic_dynamic_view_scope_redundancy() -> (r: RuleMetadata)
    ensures
        r.code@ == "semantic.dynamic-view-scope-redundancy"@,
        r.source@ == "semantic"@,
        r.default_severity == DiagnosticSeverity::Error,
        crate::rule::family_named(r),
{
    proof {
        reveal_strlit("semantic.dynamic-view-scope-redundancy");
        reveal_strlit("semantic");
        reveal_strlit("dynamic-view-scope-redundancy");
        reveal_strlit(".");
        assert("semantic.dynamic-view-scope-redundancy"@ =~= "semantic"@ + "."@ + "dynamic-view-scope-redundancy"@);
    }
    RuleMetadata {
        code: "semantic.dynamic-view-scope-redundancy",
        source: "semantic",
        summary: "reports dynamic-view steps that re-add the scoped element",
        raw_documentation: " ## What it does\n Reports dynamic-view steps that redundantly re-add the view's scoped element.\n\n ## Why is this bad?\n Scoped dynamic views already imply the chosen element, so adding it again\n in a step or a referenced relationship is rejected by upstream validation\n and usually means the view should be widened to `*` instead.\n",
        default_severity: DiagnosticSeverity::Error,
        file: "src/rules.rs",
        line: 413,
    }
}

/// ## What it does
/// Reports view elements whose kind is incompatible with the current view type.
///
/// ## Why is this bad?
/// View declarations can only show certain categories of model elements, so
/// incompatible references are accepted by navigation but rejected by
/// Structurizr validation.
pub fn semantic_invalid_view_element() -> (r: RuleMetadata)
    ensures
        r.code@ == "semantic.invalid-view-element"@,
        r.source@ == "semantic"@,
        r.default_severity == DiagnosticSeverity::Error,
        crate::rule::family_named(r),
{
    proof {
        reveal_strlit("semantic.invalid-view-element");
        reveal_strlit("semantic");
        reveal_strlit("invalid-view-element");
        reveal_strlit(".");
        assert("semantic.invalid-view-element"@ =~= "semantic"@ + "."@ + "invalid-view-element"@);
    }
    RuleMetadata {
        code: "semantic.invalid-view-element",
        source: "semantic",
        summary: "reports include or animation elements that the current view type cannot show",
        raw_documentation: " ## What it does\n Reports view elements whose kind is incompatible with the current view type.\n\n ## Why is this bad?\n View declarations can only show certain categories of model elements, so\n incompatible references are accepted by navigation but rejected by\n Structurizr validation.\n",
        default_severity: DiagnosticSeverity::Error,
        file: "src/rules.rs",
        line: 437,
    }
}

/// ## What it does
/// Reports `!docs` or `!adrs` directives whose local paths are missing or incompatible.
///
/// ## Why is this bad?
/// File-backed documentation directives participate in the assembled
/// workspace definition, so missing paths or non-directory ADR targets fail
/// upstream validation even though the syntax itself still parses cleanly.
pub fn semantic_invalid_documentation_path() -> (r: RuleMetadata)
    ensures
        r.code@ == "semantic.invalid-documentation-path"@,
        r.source@ == "semantic"@,
        r.default_severity == DiagnosticSeverity::Error,
        crate::rule::family_named(r),
{
    proof {
        reveal_strlit("semantic.invalid-documentation-path");
        reveal_strlit("semantic");
        reveal_strlit("invalid-documentation-path");
        reveal_strlit(".");
        assert("semantic.invalid-documentation-path"@ =~= "semantic"@ + "."@ + "invalid-documentation-path"@);
    }
    RuleMetadata {
        code: "semantic.invalid-documentation-path",
        source: "semantic",
        summary: "reports missing or incompatible !docs and !adrs paths",
        raw_documentation: " ## What it does\n Reports `!docs` or `!adrs` directives whose local paths are missing or incompatible.\n\n ## Why is this bad?\n File-backed documentation directives participate in the assembled\n workspace definition, so missing paths or non-directory ADR targets fail\n upstream validation even though the syntax itself still parses cleanly.\n",
        default_severity: DiagnosticSeverity::Error,
        file: "src/rules.rs",
        line: 461,
    }
}

/// ## What it does
/// Reports image-view sources whose local file inputs are missing or incompatible.
///
/// ## Why is this bad?
/// Image views can render from checked-in assets or diagram files, so
/// missing paths and directory/file mismatches leave the workspace unable to
/// render the declared image source.
pub fn semantic_invalid_image_source() -> (r: RuleMetadata)
    ensures
        r.code@ == "semantic.invalid-image-source"@,
        r.source@ == "semantic"@,
        r.default_severity == DiagnosticSeverity::Error,
        crate::rule::family_named(r),
{
    proof {
        reveal_strlit("semantic.invalid-image-source");
        reveal_strlit("semantic");
        reveal_strlit("invalid-image-source");
        reveal_strlit(".");
        assert("semantic.invalid-image-source"@ =~= "semantic"@ + "."@ + "invalid-image-source"@);
    }
    RuleMetadata {
        code: "semantic.invalid-image-source",
        source: "semantic",
        summary: "reports missing or incompatible local image-view sources",
        raw_documentation: " ## What it does\n Reports image-view sources whose local file inputs are missing or incompatible.\n\n ## Why is this bad?\n Image views can render from checked-in assets or diagram files, so\n missing paths and directory/file mismatches leave the workspace unable to\n render the declared image source.\n",
        default_severity: DiagnosticSeverity::Error,
        file: "src/rules.rs",
        line: 485,
    }
}

/// ## What it does
/// Reports `PlantUML`, `Mermaid`, or `Kroki` image sources that lack their required renderer property.
///
/// ## Why is this bad?
/// Those image-source families delegate rendering to an external server, so
/// the DSL needs an explicit view or viewset property such as
/// `plantuml.url` before the source can resolve successfully.
pub fn semantic_missing_image_renderer_property() -> (r: RuleMetadata)
    ensures
        r.code@ == "semantic.missing-image-renderer-property"@,
        r.source@ == "semantic"@,
        r.default_severity == DiagnosticSeverity::Error,
        crate::rule::family_named(r),
{
    proof {
        reveal_strlit("semantic.missing-image-renderer-property");
        reveal_strlit("semantic");
        reveal_strlit("missing-image-renderer-property");
        reveal_strlit(".");
        assert("semantic.missing-image-renderer-property"@ =~= "semantic"@ + "."@ + "missing-image-renderer-property"@);
    }
    RuleMetadata {
        code: "semantic.missing-image-renderer-property",
        source: "semantic",
        summary: "reports image views missing required renderer properties",
        raw_documentation: " ## What it does\n Reports `PlantUML`, `Mermaid`, or `Kroki` image sources that lack their required renderer property.\n\n ## Why is this bad?\n Those image-source families delegate rendering to an external server, so\n the DSL needs an explicit view or viewset property such as\n `plantuml.url` before the source can resolve successfully.\n",
        default_severity: DiagnosticSeverity::Error,
        file: "src/rules.rs",
        line: 509,
    }
}

/// The declared rules, in registration order.
pub open spec fn declared_rule_codes() -> Seq<Seq<char>> {
    seq![
        "syntax.error-node"@,
        "syntax.missing-node"@,
        "include.missing-local-target"@,
        "include.escapes-allowed-subtree"@,
        "include.cycle"@,
        "include.unsupported-remote-target"@,
        "workspace.load-failure"@,
        "semantic.duplicate-binding"@,
        "semantic.repeated-workspace-section"@,
        "semantic.unresolved-element-selector"@,
        "semantic.workspace-scope-mismatch"@,
        "semantic.unresolved-reference"@,
        "semantic.ambiguous-reference"@,
        "semantic.multi-context-disagreement"@,
        "semantic.deployment-parent-child-relationship"@,
        "semantic.filtered-view-autolayout-mismatch"@,
        "semantic.dynamic-view-relationship-mismatch"@,
        "semantic.dynamic-view-scope-redundancy"@,
        "semantic.invalid-view-element"@,
        "semantic.invalid-documentation-path"@,
        "semantic.invalid-image-source"@,
        "semantic.missing-image-renderer-property"@,
    ]
}

/// Registers every declared rule, in declaration order.
pub fn register_rules(registry: &mut RuleRegistryBuilder)
    requires
        old(registry).registered().len() == 0,
    ensures
        final(registry).registered().len() == declared_rule_codes().len(),
        forall|i: int| 0 <= i < declared_rule_codes().len() ==> #[trigger] crate::rule::rule_code(final(registry).registered()[i]) == declared_rule_codes()[i],
        forall|i: int|
            0 <= i < final(registry).registered().len() ==> crate::rule::family_named(
                #[trigger] final(registry).registered()[i].definition,
            ),
{
    proof {
        lemma_declared_codes_distinct();
    }
    let rule = syntax_error_node();
    proof {
        reveal_strlit("syntax.error-node");
        lemma_prefix_lacks_code(registry.registered(), 0);
    }
    registry.register(rule);
    let rule = syntax_missing_node();
    proof {
        reveal_strlit("syntax.missing-node");
        lemma_prefix_lacks_code(registry.registered(), 1);
    }
    registry.register(rule);
    let rule = include_missing_local_target();
    proof {
        reveal_strlit("include.missing-local-target");
        lemma_prefix_lacks_code(registry.registered(), 2);
    }
    registry.register(rule);
    let rule = include_escapes_allowed_subtree();
    proof {
        reveal_strlit("include.escapes-allowed-subtree");
        lemma_prefix_lacks_code(registry.registered(), 3);
    }
    registry.register(rule);
    let rule = include_cycle();
    proof {
        reveal_strlit("include.cycle");
        lemma_prefix_lacks_code(registry.registered(), 4);
    }
    registry.register(rule);
    let rule = include_unsupported_remote_target();
    proof {
        reveal_strlit("include.unsupported-remote-target");
        lemma_prefix_lacks_code(registry.registered(), 5);
    }
    registry.register(rule);
    let rule = workspace_load_failure();
    proof {
        reveal_strlit("workspace.load-failure");
        lemma_prefix_lacks_code(registry.registered(), 6);
    }
    registry.register(rule);
    let rule = semantic_duplicate_binding();
    proof {
        reveal_strlit("semantic.duplicate-binding");
        lemma_prefix_lacks_code(registry.registered(), 7);
    }
    registry.register(rule);
    let rule = semantic_repeated_workspace_section();
    proof {
        reveal_strlit("semantic.repeated-workspace-section");
        lemma_prefix_lacks_code(registry.registered(), 8);
    }
    registry.register(rule);
    let rule = semantic_unresolved_element_selector();
    proof {
        reveal_strlit("semantic.unresolved-element-selector");
        lemma_prefix_lacks_code(registry.registered(), 9);
    }
    registry.register(rule);
    let rule = semantic_workspace_scope_mismatch();
    proof {
        reveal_strlit("semantic.workspace-scope-mismatch");
        lemma_prefix_lacks_code(registry.registered(), 10);
    }
    registry.register(rule);
    let rule = semantic_unresolved_reference();
    proof {
        reveal_strlit("semantic.unresolved-reference");
        lemma_prefix_lacks_code(registry.registered(), 11);
    }
    registry.register(rule);
    let rule = semantic_ambiguous_reference();
    proof {
        reveal_strlit("semantic.ambiguous-reference");
        lemma_prefix_lacks_code(registry.registered(), 12);
    }
    registry.register(rule);
    let rule = semantic_multi_context_disagreement();
    proof {
        reveal_strlit("semantic.multi-context-disagreement");
        lemma_prefix_lacks_code(registry.registered(), 13);
    }
    registry.register(rule);
    let rule = semantic_deployment_parent_child_relationship();
    proof {
        reveal_strlit("semantic.deployment-parent-child-relationship");
        lemma_prefix_lacks_code(registry.registered(), 14);
    }
    registry.register(rule);
    let rule = semantic_filtered_view_autolayout_mismatch();
    proof {
        reveal_strlit("semantic.filtered-view-autolayout-mismatch");
        lemma_prefix_lacks_code(registry.registered(), 15);
    }
    registry.register(rule);
    let rule = semantic_dynamic_view_relationship_mismatch();
    proof {
        reveal_strlit("semantic.dynamic-view-relationship-mismatch");
        lemma_prefix_lacks_code(registry.registered(), 16);
    }
    registry.register(rule);
    let rule = semantic_dynamic_view_scope_redundancy();
    proof {
        reveal_strlit("semantic.dynamic-view-scope-redundancy");
        lemma_prefix_lacks_code(registry.registered(), 17);
    }
    registry.register(rule);
    let rule = semantic_invalid_view_element();
    proof {
        reveal_strlit("semantic.invalid-view-element");
        lemma_prefix_lacks_code(registry.registered(), 18);
    }
    registry.register(rule);
    let rule = semantic_invalid_documentation_path();
    proof {
        reveal_strlit("semantic.invalid-documentation-path");
        lemma_prefix_lacks_code(registry.registered(), 19);
    }
    registry.register(rule);
    let rule = semantic_invalid_image_source();
    proof {
        reveal_strlit("semantic.invalid-image-source");
        lemma_prefix_lacks_code(registry.registered(), 20);
    }
    registry.register(rule);
    let rule = semantic_missing_image_renderer_property();
    proof {
        reveal_strlit("semantic.missing-image-renderer-property");
        lemma_prefix_lacks_code(registry.registered(), 21);
    }
    registry.register(rule);
}

proof fn lemma_prefix_lacks_code(s: Seq<RuleId>, k: int)
    requires
        0 <= k < declared_rule_codes().len(),
        s.len() == k,
        forall|i: int| 0 <= i < k ==> #[trigger] crate::rule::rule_code(s[i]) == declared_rule_codes()[i],
        forall|i: int, j: int|
            0 <= i < declared_rule_codes().len() && 0 <= j < declared_rule_codes().len() && i != j
                ==> declared_rule_codes()[i] != declared_rule_codes()[j],
    ensures
        !crate::rule::has_code(s, declared_rule_codes()[k]),
{
    if crate::rule::has_code(s, declared_rule_codes()[k]) {
        let i = choose|i: int| 0 <= i < s.len() && crate::rule::rule_code(#[trigger] s[i]) == declared_rule_codes()[k];
        assert(crate::rule::rule_code(s[i]) == declared_rule_codes()[i]);
    }
}

/// Returns the registry of currently declared diagnostic rules, ordered by code.
pub fn diagnostic_rule_registry() -> (r: RuleRegistry)
    ensures
        r.rules_view().len() == declared_rule_codes().len(),
        crate::rule::sorted_by_code(r.rules_view()),
        forall|i: int| 0 <= i < r.rules_view().len() ==> crate::rule::family_named(#[trigger] r.rules_view()[i].definition),
        forall|c: Seq<char>| crate::rule::has_code(r.rules_view(), c) <==> declared_rule_codes().contains(c),
{
    let mut builder = RuleRegistryBuilder::new();
    register_rules(&mut builder);
    proof {
        lemma_declared_codes_distinct();
        let s = builder.registered();
        assert(crate::rule::distinct_codes(s)) by {
            assert forall|i: int, j: int| 0 <= i < s.len() && 0 <= j < s.len() && i != j implies crate::rule::rule_code(s[i]) != crate::rule::rule_code(s[j]) by {
                assert(crate::rule::rule_code(s[i]) == declared_rule_codes()[i]);
                assert(crate::rule::rule_code(s[j]) == declared_rule_codes()[j]);
            }
        }
    }
    let r = builder.build();
    proof {
        let s = builder.registered();
        let t = r.rules_view();
        assert(t.len() == s.len()) by {
            vstd::seq_lib::to_multiset_len(t);
            vstd::seq_lib::to_multiset_len(s);
        }
        assert forall|c: Seq<char>| crate::rule::has_code(t, c) <==> declared_rule_codes().contains(c) by {
            if crate::rule::has_code(t, c) {
                let i = choose|i: int| 0 <= i < t.len() && crate::rule::rule_code(#[trigger] t[i]) == c;
                vstd::seq_lib::to_multiset_contains(t, t[i]);
                vstd::seq_lib::to_multiset_contains(s, t[i]);
                assert(t.contains(t[i]));
                let j = choose|j: int| 0 <= j < s.len() && s[j] == t[i];
                assert(crate::rule::rule_code(s[j]) == declared_rule_codes()[j]);
            }
            if declared_rule_codes().contains(c) {
                let j = choose|j: int| 0 <= j < declared_rule_codes().len() && declared_rule_codes()[j] == c;
                assert(crate::rule::rule_code(s[j]) == c);
                vstd::seq_lib::to_multiset_contains(s, s[j]);
                vstd::seq_lib::to_multiset_contains(t, s[j]);
                assert(s.contains(s[j]));
                let i = choose|i: int| 0 <= i < t.len() && t[i] == s[j];
                assert(crate::rule::rule_code(t[i]) == c);
            }
        }
        assert forall|i: int| 0 <= i < t.len() implies crate::rule::family_named(#[trigger] t[i].definition) by {
            vstd::seq_lib::to_multiset_contains(t, t[i]);
            vstd::seq_lib::to_multiset_contains(s, t[i]);
            assert(t.contains(t[i]));
            let j = choose|j: int| 0 <= j < s.len() && s[j] == t[i];
            assert(crate::rule::family_named(s[j].definition));
        }
    }
    r
}

/// No two declared rules share a code.
pub proof fn lemma_declared_codes_distinct()
    ensures
        forall|i: int, j: int|
            0 <= i < declared_rule_codes().len() && 0 <= j < declared_rule_codes().len() && i != j
                ==> declared_rule_codes()[i] != declared_rule_codes()[j],
{
    reveal_strlit("syntax.error-node");
    reveal_strlit("syntax.missing-node");
    reveal_strlit("include.missing-local-target");
    reveal_strlit("include.escapes-allowed-subtree");
    reveal_strlit("include.cycle");
    reveal_strlit("include.unsupported-remote-target");
    reveal_strlit("workspace.load-failure");
    reveal_strlit("semantic.duplicate-binding");
    reveal_strlit("semantic.repeated-workspace-section");
    reveal_strlit("semantic.unresolved-element-selector");
    reveal_strlit("semantic.workspace-scope-mismatch");
    reveal_strlit("semantic.unresolved-reference");
    reveal_strlit("semantic.ambiguous-reference");
    reveal_strlit("semantic.multi-context-disagreement");
    reveal_strlit("semantic.deployment-parent-child-relationship");
    reveal_strlit("semantic.filtered-view-autolayout-mismatch");
    reveal_strlit("semantic.dynamic-view-relationship-mismatch");
    reveal_strlit("semantic.dynamic-view-scope-redundancy");
    reveal_strlit("semantic.invalid-view-element");
    reveal_strlit("semantic.invalid-documentation-path");
    reveal_strlit("semantic.invalid-image-source");
    reveal_strlit("semantic.missing-image-renderer-property");
    let d = declared_rule_codes();
    assert(d[0].len() != d[1].len());
    assert(d[0].len() != d[2].len());
    assert(d[0].len() != d[3].len());
    assert(d[0].len() != d[4].len());
    assert(d[0].len() != d[5].len());
    assert(d[0].len() != d[6].len());
    assert(d[0].len() != d[7].len());
    assert(d[0].len() != d[8].len());
    assert(d[0].len() != d[9].len());
    assert(d[0].len() != d[10].len());
    assert(d[0].len() != d[11].len());
    assert(d[0].len() != d[12].len());
    assert(d[0].len() != d[13].len());
    assert(d[0].len() != d[14].len());
    assert(d[0].len() != d[15].len());
    assert(d[0].len() != d[16].len());
    assert(d[0].len() != d[17].len());
    assert(d[0].len() != d[18].len());
    assert(d[0].len() != d[19].len());
    assert(d[0].len() != d[20].len());
    assert(d[0].len() != d[21].len());
    assert(d[1].len() != d[2].len());
    assert(d[1].len() != d[3].len());
    assert(d[1].len() != d[4].len());
    assert(d[1].len() != d[5].len());
    assert(d[1].len() != d[6].len());
    assert(d[1].len() != d[7].len());
    assert(d[1].len() != d[8].len());
    assert(d[1].len() != d[9].len());
    assert(d[1].len() != d[10].len());
    assert(d[1].len() != d[11].len());
    assert(d[1].len() != d[12].len());
    assert(d[1].len() != d[13].len());
    assert(d[1].len() != d[14].len());
    assert(d[1].len() != d[15].len());
    assert(d[1].len() != d[16].len());
    assert(d[1].len() != d[17].len());
    assert(d[1].len() != d[18].len());
    assert(d[1].len() != d[19].len());
    assert(d[1].len() != d[20].len());
    assert(d[1].len() != d[21].len());
    assert(d[2].len() != d[3].len());
    assert(d[2].len() != d[4].len());
    assert(d[2].len() != d[5].len());
    assert(d[2].len() != d[6].len());
    assert(d[2].len() != d[7].len());
    assert(d[2].len() != d[8].len());
    assert(d[2].len() != d[9].len());
    assert(d[2].len() != d[10].len());
    assert(d[2].len() != d[11].len());
    assert(d[2][0] != d[12][0]);
    assert(d[2].len() != d[13].len());
    assert(d[2].len() != d[14].len());
    assert(d[2].len() != d[15].len());
    assert(d[2].len() != d[16].len());
    assert(d[2].len() != d[17].len());
    assert(d[2].len() != d[18].len());
    assert(d[2].len() != d[19].len());
    assert(d[2].len() != d[20].len());
    assert(d[2].len() != d[21].len());
    assert(d[3].len() != d[4].len());
    assert(d[3].len() != d[5].len());
    assert(d[3].len() != d[6].len());
    assert(d[3].len() != d[7].len());
    assert(d[3].len() != d[8].len());
    assert(d[3].len() != d[9].len());
    assert(d[3].len() != d[10].len());
    assert(d[3].len() != d[11].len());
    assert(d[3].len() != d[12].len());
    assert(d[3].len() != d[13].len());
    assert(d[3].len() != d[14].len());
    assert(d[3].len() != d[15].len());
    assert(d[3].len() != d[16].len());
    assert(d[3].len() != d[17].len());
    assert(d[3].len() != d[18].len());
    assert(d[3].len() != d[19].len());
    assert(d[3].len() != d[20].len());
    assert(d[3].len() != d[21].len());
    assert(d[4].len() != d[5].len());
    assert(d[4].len() != d[6].len());
    assert(d[4].len() != d[7].len());
    assert(d[4].len() != d[8].len());
    assert(d[4].len() != d[9].len());
    assert(d[4].len() != d[10].len());
    assert(d[4].len() != d[11].len());
    assert(d[4].len() != d[12].len());
    assert(d[4].len() != d[13].len());
    assert(d[4].len() != d[14].len());
    assert(d[4].len() != d[15].len());
    assert(d[4].len() != d[16].len());
    assert(d[4].len() != d[17].len());
    assert(d[4].len() != d[18].len());
    assert(d[4].len() != d[19].len());
    assert(d[4].len() != d[20].len());
    assert(d[4].len() != d[21].len());
    assert(d[5].len() != d[6].len());
    assert(d[5].len() != d[7].len());
    assert(d[5].len() != d[8].len());
    assert(d[5].len() != d[9].len());
    assert(d[5][0] != d[10][0]);
    assert(d[5].len() != d[11].len());
    assert(d[5].len() != d[12].len());
    assert(d[5].len() != d[13].len());
    assert(d[5].len() != d[14].len());
    assert(d[5].len() != d[15].len());
    assert(d[5].len() != d[16].len());
    assert(d[5].len() != d[17].len());
    assert(d[5].len() != d[18].len());
    assert(d[5].len() != d[19].len());
    assert(d[5].len() != d[20].len());
    assert(d[5].len() != d[21].len());
    assert(d[6].len() != d[7].len());
    assert(d[6].len() != d[8].len());
    assert(d[6].len() != d[9].len());
    assert(d[6].len() != d[10].len());
    assert(d[6].len() != d[11].len());
    assert(d[6].len() != d[12].len());
    assert(d[6].len() != d[13].len());
    assert(d[6].len() != d[14].len());
    assert(d[6].len() != d[15].len());
    assert(d[6].len() != d[16].len());
    assert(d[6].len() != d[17].len());
    assert(d[6].len() != d[18].len());
    assert(d[6].len() != d[19].len());
    assert(d[6].len() != d[20].len());
    assert(d[6].len() != d[21].len());
    assert(d[7].len() != d[8].len());
    assert(d[7].len() != d[9].len());
    assert(d[7].len() != d[10].len());
    assert(d[7].len() != d[11].len());
    assert(d[7].len() != d[12].len());
    assert(d[7].len() != d[13].len());
    assert(d[7].len() != d[14].len());
    assert(d[7].len() != d[15].len());
    assert(d[7].len() != d[16].len());
    assert(d[7].len() != d[17].len());
    assert(d[7].len() != d[18].len());
    assert(d[7].len() != d[19].len());
    assert(d[7].len() != d[20].len());
    assert(d[7].len() != d[21].len());
    assert(d[8].len() != d[9].len());
    assert(d[8].len() != d[10].len());
    assert(d[8].len() != d[11].len());
    assert(d[8].len() != d[12].len());
    assert(d[8][9] != d[13][9]);
    assert(d[8].len() != d[14].len());
    assert(d[8].len() != d[15].len());
    assert(d[8].len() != d[16].len());
    assert(d[8].len() != d[17].len());
    assert(d[8].len() != d[18].len());
    assert(d[8][9] != d[19][9]);
    assert(d[8].len() != d[20].len());
    assert(d[8].len() != d[21].len());
    assert(d[9].len() != d[10].len());
    assert(d[9].len() != d[11].len());
    assert(d[9].len() != d[12].len());
    assert(d[9].len() != d[13].len());
    assert(d[9].len() != d[14].len());
    assert(d[9].len() != d[15].len());
    assert(d[9].len() != d[16].len());
    assert(d[9].len() != d[17].len());
    assert(d[9].len() != d[18].len());
    assert(d[9].len() != d[19].len());
    assert(d[9].len() != d[20].len());
    assert(d[9].len() != d[21].len());
    assert(d[10].len() != d[11].len());
    assert(d[10].len() != d[12].len());
    assert(d[10].len() != d[13].len());
    assert(d[10].len() != d[14].len());
    assert(d[10].len() != d[15].len());
    assert(d[10].len() != d[16].len());
    assert(d[10].len() != d[17].len());
    assert(d[10].len() != d[18].len());
    assert(d[10].len() != d[19].len());
    assert(d[10].len() != d[20].len());
    assert(d[10].len() != d[21].len());
    assert(d[11].len() != d[12].len());
    assert(d[11].len() != d[13].len());
    assert(d[11].len() != d[14].len());
    assert(d[11].len() != d[15].len());
    assert(d[11].len() != d[16].len());
    assert(d[11].len() != d[17].len());
    assert(d[11][9] != d[18][9]);
    assert(d[11].len() != d[19].len());
    assert(d[11][9] != d[20][9]);
    assert(d[11].len() != d[21].len());
    assert(d[12].len() != d[13].len());
    assert(d[12].len() != d[14].len());
    assert(d[12].len() != d[15].len());
    assert(d[12].len() != d[16].len());
    assert(d[12].len() != d[17].len());
    assert(d[12].len() != d[18].len());
    assert(d[12].len() != d[19].len());
    assert(d[12].len() != d[20].len());
    assert(d[12].len() != d[21].len());
    assert(d[13].len() != d[14].len());
    assert(d[13].len() != d[15].len());
    assert(d[13].len() != d[16].len());
    assert(d[13].len() != d[17].len());
    assert(d[13].len() != d[18].len());
    assert(d[13][9] != d[19][9]);
    assert(d[13].len() != d[20].len());
    assert(d[13].len() != d[21].len());
    assert(d[14].len() != d[15].len());
    assert(d[14].len() != d[16].len());
    assert(d[14].len() != d[17].len());
    assert(d[14].len() != d[18].len());
    assert(d[14].len() != d[19].len());
    assert(d[14].len() != d[20].len());
    assert(d[14].len() != d[21].len());
    assert(d[15].len() != d[16].len());
    assert(d[15].len() != d[17].len());
    assert(d[15].len() != d[18].len());
    assert(d[15].len() != d[19].len());
    assert(d[15].len() != d[20].len());
    assert(d[15].len() != d[21].len());
    assert(d[16].len() != d[17].len());
    assert(d[16].len() != d[18].len());
    assert(d[16].len() != d[19].len());
    assert(d[16].len() != d[20].len());
    assert(d[16].len() != d[21].len());
    assert(d[17].len() != d[18].len());
    assert(d[17].len() != d[19].len());
    assert(d[17].len() != d[20].len());
    assert(d[17].len() != d[21].len());
    assert(d[18].len() != d[19].len());
    assert(d[18][17] != d[20][17]);
    assert(d[18].len() != d[21].len());
    assert(d[19].len() != d[20].len());
    assert(d[19].len() != d[21].len());
    assert(d[20].len() != d[21].len());
}

} // verus!
