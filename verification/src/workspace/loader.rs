//! Processing documents into contexts, in the DSL's imperative order.
//!
//! Processing reads only what it is given: the documents loaded so far, the paths that could
//! not be read, and what the filesystem reported around include and base targets. When it
//! needs something it has not been given, it stops and names it; the caller obtains it and
//! runs the processing again. With everything at hand it returns the processed contexts, or the
//! fatal failure the DSL's execution meets.

use vstd::prelude::*;

use crate::rule::{lemma_seq_lt_total, lemma_seq_lt_trans, seq_lt};
use crate::constants::ConstantDefinition;
use crate::includes::{normalized_value, IncludeDirective};
use crate::snapshot::DocumentId;
use crate::workspace::contexts::{
    children_of,
    contexts_well_formed,
    document_id_from_path,
    DocumentContextKey,
    ProcessedDocumentContext,
};
use crate::workspace::discovery::{
    target_view,
    base_outcome,
    include_target,
    include_outcome,
    remote_target,
    BaseOutcome,
    IncludeOutcome,
    include_target_text,
    resolve_include,
    resolve_workspace_base,
    IncludeProbe,
    TargetEntry,
    WorkspaceBaseDirective,
};
use crate::workspace::errors::{WorkspaceLoadError, WorkspaceLoadFailure, WorkspaceLoadFailureKind};
use crate::workspace::model::{ResolvedInclude, WorkspaceDocumentKind};
use crate::workspace::resources::{path_starts_with, path_under};
use crate::workspace::substitution::{
    bind,
    bound_values,
    env_distinct,
    expand,
    expand_string_substitutions,
    expand_with,
    ConstantEnvironment,
    ConstantValues,
};

verus! {

/// One `!constant` or `!include` directive, by its position among its kind.
#[derive(Clone, Copy, PartialEq, Eq, Structural)]
pub enum WorkspaceDirectiveEvent {
    /// The constant definition at this position.
    ConstantDefinition(usize),
    /// The include directive at this position.
    IncludeDirective(usize),
}

/// The merge of two source-ordered directive streams, constants first where they start at the
/// same byte.
pub open spec fn merged_events(cs: Seq<ConstantDefinition>, is: Seq<IncludeDirective>, c: int, i: int) -> Seq<
    WorkspaceDirectiveEvent,
>
    decreases cs.len() - c, is.len() - i,
{
    if c >= cs.len() || c < 0 {
        if i >= is.len() || i < 0 {
            Seq::empty()
        } else {
            seq![WorkspaceDirectiveEvent::IncludeDirective(i as usize)] + merged_events(cs, is, c, i + 1)
        }
    } else if i >= is.len() || i < 0 {
        seq![WorkspaceDirectiveEvent::ConstantDefinition(c as usize)] + merged_events(cs, is, c + 1, i)
    } else if cs[c].span.start_byte <= is[i].span.start_byte {
        seq![WorkspaceDirectiveEvent::ConstantDefinition(c as usize)] + merged_events(cs, is, c + 1, i)
    } else {
        seq![WorkspaceDirectiveEvent::IncludeDirective(i as usize)] + merged_events(cs, is, c, i + 1)
    }
}

/// Interleaves a document's constant definitions and include directives in source order, each
/// stream already in source order.
pub fn collect_document_directive_events(
    constant_definitions: &Vec<ConstantDefinition>,
    include_directives: &Vec<IncludeDirective>,
) -> (r: Vec<WorkspaceDirectiveEvent>)
    ensures
        r@ == merged_events(constant_definitions@, include_directives@, 0, 0),
{
    let mut events: Vec<WorkspaceDirectiveEvent> = Vec::new();
    let mut c: usize = 0;
    let mut i: usize = 0;
    let ghost cs = constant_definitions@;
    let ghost is = include_directives@;
    while c < constant_definitions.len() || i < include_directives.len()
        invariant
            cs == constant_definitions@,
            is == include_directives@,
            c <= cs.len(),
            i <= is.len(),
            events@ + merged_events(cs, is, c as int, i as int) == merged_events(cs, is, 0, 0),
        decreases cs.len() - c + is.len() - i,
    {
        let ghost rest = merged_events(cs, is, c as int, i as int);
        if i >= include_directives.len() || (c < constant_definitions.len()
            && constant_definitions[c].span.start_byte <= include_directives[i].span.start_byte) {
            proof {
                assert(rest == seq![WorkspaceDirectiveEvent::ConstantDefinition(c)] + merged_events(
                    cs,
                    is,
                    c + 1,
                    i as int,
                ));
                assert(events@.push(WorkspaceDirectiveEvent::ConstantDefinition(c)) + merged_events(
                    cs,
                    is,
                    c + 1,
                    i as int,
                ) =~= events@ + rest);
            }
            events.push(WorkspaceDirectiveEvent::ConstantDefinition(c));
            c = c + 1;
        } else {
            proof {
                assert(rest == seq![WorkspaceDirectiveEvent::IncludeDirective(i)] + merged_events(
                    cs,
                    is,
                    c as int,
                    i + 1,
                ));
                assert(events@.push(WorkspaceDirectiveEvent::IncludeDirective(i)) + merged_events(
                    cs,
                    is,
                    c as int,
                    i + 1,
                ) =~= events@ + rest);
            }
            events.push(WorkspaceDirectiveEvent::IncludeDirective(i));
            i = i + 1;
        }
    }
    assert(events@ =~= events@ + merged_events(cs, is, c as int, i as int));
    events
}

/// Applies one `!constant` definition: its value, with the constants in force substituted,
/// becomes the constant's value.
pub fn apply_constant_definition(constant: &ConstantDefinition, current_constants: &mut ConstantEnvironment)
    requires
        env_distinct(old(current_constants).bindings@),
    ensures
        env_distinct(final(current_constants).bindings@),
        forall|k: Seq<char>|
            #[trigger] crate::workspace::substitution::env_lookup(final(current_constants).bindings@, k) == if k
                == constant.name@ {
                Some(expand(constant.value@, old(current_constants).bindings@))
            } else {
                crate::workspace::substitution::env_lookup(old(current_constants).bindings@, k)
            },
{
    let expanded_value = expand_string_substitutions(constant.value.as_str(), current_constants);
    current_constants.insert(constant.name.clone(), expanded_value);
}

/// One document as processing sees it.
pub struct LoadedDocument {
    /// The document's canonical path.
    pub path: String,
    /// Whether the document declares a top-level workspace.
    pub kind: WorkspaceDocumentKind,
    /// The `workspace extends` directive, if any.
    pub base: Option<WorkspaceBaseDirective>,
    /// The `!constant` definitions, in source order.
    pub constants: Vec<ConstantDefinition>,
    /// The `!include` directives, in source order.
    pub includes: Vec<IncludeDirective>,
    /// Both kinds of directive, in source order.
    pub events: Vec<WorkspaceDirectiveEvent>,
}

fn clone_constant_definitions(v: &Vec<ConstantDefinition>) -> (r: Vec<ConstantDefinition>)
    ensures
        r@ == v@,
{
    let mut r: Vec<ConstantDefinition> = Vec::new();
    let mut i: usize = 0;
    while i < v.len()
        invariant
            i <= v@.len(),
            r@ == v@.take(i as int),
        decreases v@.len() - i,
    {
        r.push(v[i].clone());
        assert(r@ =~= v@.take(i + 1));
        i = i + 1;
    }
    assert(v@.take(v@.len() as int) =~= v@);
    r
}

fn clone_include_directives(v: &Vec<IncludeDirective>) -> (r: Vec<IncludeDirective>)
    ensures
        r@ == v@,
{
    let mut r: Vec<IncludeDirective> = Vec::new();
    let mut i: usize = 0;
    while i < v.len()
        invariant
            i <= v@.len(),
            r@ == v@.take(i as int),
        decreases v@.len() - i,
    {
        r.push(v[i].clone());
        assert(r@ =~= v@.take(i + 1));
        i = i + 1;
    }
    assert(v@.take(v@.len() as int) =~= v@);
    r
}

impl LoadedDocument {
    /// What processing needs of the analyzed document at `path`.
    pub fn from_snapshot(path: String, snapshot: &crate::snapshot::DocumentSnapshot) -> (r: Self)
        ensures
            r.path == path,
            r.kind == (if snapshot.syntax_facts.is_workspace_entry {
                WorkspaceDocumentKind::Entry
            } else {
                WorkspaceDocumentKind::Fragment
            }),
            match crate::workspace::discovery::base_directive_node(snapshot.tree) {
                None => r.base is None,
                Some(base) => r.base matches Some(d) && d.raw_value@ == base.text@ && d.value_kind
                    == crate::includes::value_kind_of(base.kind@) && d.span == base.span,
            },
            r.constants@ == snapshot.syntax_facts.constant_definitions@,
            r.includes@ == snapshot.syntax_facts.include_directives@,
            r.events@ == merged_events(r.constants@, r.includes@, 0, 0),
    {
        let constants = clone_constant_definitions(&snapshot.syntax_facts.constant_definitions);
        let includes = clone_include_directives(&snapshot.syntax_facts.include_directives);
        let events = collect_document_directive_events(&constants, &includes);
        let kind = if snapshot.syntax_facts.is_workspace_entry {
            WorkspaceDocumentKind::Entry
        } else {
            WorkspaceDocumentKind::Fragment
        };
        LoadedDocument {
            path,
            kind,
            base: crate::workspace::discovery::workspace_base_directive(&snapshot.tree),
            constants,
            includes,
            events,
        }
    }
}

/// Everything processing has been given.
pub struct LoadWorld {
    /// The documents loaded so far.
    pub documents: Vec<LoadedDocument>,
    /// Paths that could not be read, with the error.
    pub unreadable: Vec<(String, String)>,
    /// What the filesystem reported around a target: the document path, the target text, the
    /// probe.
    pub probes: Vec<(String, String, IncludeProbe)>,
}

/// What processing needs and has not been given.
pub enum LoadRequest {
    /// The document at this path.
    Document { path: String },
    /// The filesystem around this target of this document.
    Probe { document_path: String, target_text: String },
}

/// Why processing stopped.
pub enum BuildStop {
    /// It needs something more.
    Need(LoadRequest),
    /// The DSL's execution met a fatal failure.
    Failed(WorkspaceLoadError),
}

/// Whether `p` is the path of a loaded document.
pub open spec fn is_loaded(world: &LoadWorld, p: Seq<char>) -> bool {
    exists|i: int| 0 <= i < world.documents@.len() && (#[trigger] world.documents@[i]).path@ == p
}

/// The processed contexts are well linked, each names a loaded document, inherits and exports
/// distinct constant names, and is what processing its document gives.
pub open spec fn contexts_sound(ctxs: Seq<ProcessedDocumentContext>, world: &LoadWorld) -> bool {
    &&& contexts_well_formed(ctxs)
    &&& forall|c: int| 0 <= c < ctxs.len() ==> is_loaded(world, (#[trigger] ctxs[c]).key.path@)
    &&& forall|c: int| 0 <= c < ctxs.len() ==> env_distinct((#[trigger] ctxs[c]).exported_constants.bindings@)
    &&& forall|c: int| 0 <= c < ctxs.len() ==> env_distinct((#[trigger] ctxs[c]).key.inherited_constants@)
    &&& forall|c: int| 0 <= c < ctxs.len() ==> #[trigger] context_processed(world, ctxs, c)
    &&& forall|c: int, m: int|
        0 <= c < ctxs.len() && 0 <= m < ctxs[c].direct_includes@.len() ==> include_ok(
            world,
            #[trigger] ctxs[c].direct_includes@[m],
        )
}

fn find_document<'a>(world: &'a LoadWorld, path: &str) -> (r: Option<&'a LoadedDocument>)
    ensures
        match r {
            Some(d) => d.path@ == path@ && (exists|i: int| 0 <= i < world.documents@.len() && world.documents@[i] == *d)
                && 0 <= document_index(world.documents@, path@) < world.documents@.len()
                && world.documents@[document_index(world.documents@, path@)] == *d,
            None => !is_loaded(world, path@),
        },
{
    let mut i: usize = 0;
    while i < world.documents.len()
        invariant
            i <= world.documents@.len(),
            forall|j: int| 0 <= j < i ==> (#[trigger] world.documents@[j]).path@ != path@,
        decreases world.documents@.len() - i,
    {
        if crate::text::str_eq(world.documents[i].path.as_str(), path) {
            proof {
                let docs = world.documents@;
                lemma_document_index(docs.take(i as int), path@);
                assert forall|j: int| 0 <= j < i implies (#[trigger] docs.take(i as int)[j]).path@ != path@ by {
                    assert(docs.take(i as int)[j] == docs[j]);
                }
                assert(docs.take(i + 1).drop_last() =~= docs.take(i as int));
                assert(document_index(docs.take(i + 1), path@) == i);
                lemma_document_prefix(docs, path@, i + 1);
            }
            return Some(&world.documents[i]);
        }
        i = i + 1;
    }
    None
}

/// The first position of `entries` whose path is `p`, or -1.
pub open spec fn unreadable_index(entries: Seq<(String, String)>, p: Seq<char>) -> int
    decreases entries.len(),
{
    if entries.len() == 0 {
        -1
    } else {
        let r = unreadable_index(entries.drop_last(), p);
        if r >= 0 {
            r
        } else if entries.last().0@ == p {
            entries.len() - 1
        } else {
            -1
        }
    }
}

/// The first position of `probes` recorded for target `t` of the document at `d`, or -1.
pub open spec fn probe_index(probes: Seq<(String, String, IncludeProbe)>, d: Seq<char>, t: Seq<char>) -> int
    decreases probes.len(),
{
    if probes.len() == 0 {
        -1
    } else {
        let r = probe_index(probes.drop_last(), d, t);
        if r >= 0 {
            r
        } else if probes.last().0@ == d && probes.last().1@ == t {
            probes.len() - 1
        } else {
            -1
        }
    }
}

/// The error recorded for the path, if it could not be read: the first recorded.
fn find_unreadable<'a>(world: &'a LoadWorld, path: &str) -> (r: Option<&'a str>)
    ensures
        ({
            let i = unreadable_index(world.unreadable@, path@);
            match r {
                Some(e) => 0 <= i < world.unreadable@.len() && e@ == world.unreadable@[i].1@,
                None => i < 0,
            }
        }),
{
    let mut i: usize = 0;
    while i < world.unreadable.len()
        invariant
            i <= world.unreadable@.len(),
            unreadable_index(world.unreadable@.take(i as int), path@) < 0,
        decreases world.unreadable@.len() - i,
    {
        proof {
            assert(world.unreadable@.take(i + 1).drop_last() =~= world.unreadable@.take(i as int));
        }
        if crate::text::str_eq(world.unreadable[i].0.as_str(), path) {
            proof {
                lemma_unreadable_prefix(world.unreadable@, path@, i + 1);
            }
            return Some(world.unreadable[i].1.as_str());
        }
        i = i + 1;
    }
    proof {
        assert(world.unreadable@.take(i as int) =~= world.unreadable@);
    }
    None
}

proof fn lemma_unreadable_prefix(entries: Seq<(String, String)>, p: Seq<char>, k: int)
    requires
        0 <= k <= entries.len(),
        unreadable_index(entries.take(k), p) >= 0,
    ensures
        unreadable_index(entries, p) == unreadable_index(entries.take(k), p),
    decreases entries.len() - k,
{
    if k < entries.len() {
        assert(entries.take(k + 1).drop_last() =~= entries.take(k));
        lemma_unreadable_prefix(entries, p, k + 1);
    } else {
        assert(entries.take(k) =~= entries);
    }
}

proof fn lemma_probe_prefix(probes: Seq<(String, String, IncludeProbe)>, d: Seq<char>, t: Seq<char>, k: int)
    requires
        0 <= k <= probes.len(),
        probe_index(probes.take(k), d, t) >= 0,
    ensures
        probe_index(probes, d, t) == probe_index(probes.take(k), d, t),
    decreases probes.len() - k,
{
    if k < probes.len() {
        assert(probes.take(k + 1).drop_last() =~= probes.take(k));
        lemma_probe_prefix(probes, d, t, k + 1);
    } else {
        assert(probes.take(k) =~= probes);
    }
}

/// What the filesystem reported around target `target_text` of the document at
/// `document_path`: the first probe recorded for them.
fn find_probe<'a>(world: &'a LoadWorld, document_path: &str, target_text: &str) -> (r: Option<&'a IncludeProbe>)
    ensures
        ({
            let i = probe_index(world.probes@, document_path@, target_text@);
            match r {
                Some(p) => 0 <= i < world.probes@.len() && *p == world.probes@[i].2,
                None => i < 0,
            }
        }),
{
    let mut i: usize = 0;
    while i < world.probes.len()
        invariant
            i <= world.probes@.len(),
            probe_index(world.probes@.take(i as int), document_path@, target_text@) < 0,
        decreases world.probes@.len() - i,
    {
        proof {
            assert(world.probes@.take(i + 1).drop_last() =~= world.probes@.take(i as int));
        }
        if crate::text::str_eq(world.probes[i].0.as_str(), document_path) && crate::text::str_eq(
            world.probes[i].1.as_str(),
            target_text,
        ) {
            proof {
                lemma_probe_prefix(world.probes@, document_path@, target_text@, i + 1);
            }
            return Some(&world.probes[i].2);
        }
        i = i + 1;
    }
    proof {
        assert(world.probes@.take(i as int) =~= world.probes@);
    }
    None
}

fn copy_environment(env: &ConstantEnvironment) -> (r: ConstantEnvironment)
    ensures
        r.bindings@ == env.bindings@,
{
    let mut b: Vec<(String, String)> = Vec::new();
    let mut i: usize = 0;
    while i < env.bindings.len()
        invariant
            i <= env.bindings@.len(),
            b@ == env.bindings@.subrange(0, i as int),
        decreases env.bindings@.len() - i,
    {
        b.push((env.bindings[i].0.clone(), env.bindings[i].1.clone()));
        i = i + 1;
    }
    assert(b@ =~= env.bindings@);
    ConstantEnvironment { bindings: b }
}

/// `b` binds the name of `a`'s entry `i` to the same value.
pub open spec fn binds_entry(a: Seq<(String, String)>, b: Seq<(String, String)>, i: int) -> bool {
    exists|j: int| 0 <= j < b.len() && (#[trigger] b[j]).0@ == a[i].0@ && b[j].1@ == a[i].1@
}

/// Two constant sets of the same size, every binding of the first also in the second.
pub open spec fn same_constant_sets(a: Seq<(String, String)>, b: Seq<(String, String)>) -> bool {
    &&& a.len() == b.len()
    &&& forall|i: int| 0 <= i < a.len() ==> #[trigger] binds_entry(a, b, i)
}

/// Whether two constant sets bind the same names to the same values.
fn same_constants(a: &Vec<(String, String)>, b: &Vec<(String, String)>) -> (r: bool)
    ensures
        r == same_constant_sets(a@, b@),
{
    if a.len() != b.len() {
        return false;
    }
    let mut i: usize = 0;
    while i < a.len()
        invariant
            i <= a@.len(),
            a@.len() == b@.len(),
            forall|k: int| 0 <= k < i ==> #[trigger] binds_entry(a@, b@, k),
        decreases a@.len() - i,
    {
        let mut found = false;
        let mut j: usize = 0;
        while j < b.len()
            invariant
                i < a@.len(),
                j <= b@.len(),
                found == exists|k: int| 0 <= k < j && (#[trigger] b@[k]).0@ == a@[i as int].0@ && b@[k].1@ == a@[i as int].1@,
            decreases b@.len() - j,
        {
            if crate::text::str_eq(a[i].0.as_str(), b[j].0.as_str()) && crate::text::str_eq(
                a[i].1.as_str(),
                b[j].1.as_str(),
            ) {
                found = true;
            }
            proof {
                if b@[j as int].0@ == a@[i as int].0@ && b@[j as int].1@ == a@[i as int].1@ {
                    assert(exists|k: int| 0 <= k < j + 1 && (#[trigger] b@[k]).0@ == a@[i as int].0@ && b@[k].1@ == a@[i as int].1@);
                }
            }
            j = j + 1;
        }
        if !found {
            proof {
                assert(!binds_entry(a@, b@, i as int));
            }
            return false;
        }
        i = i + 1;
    }
    true
}

/// Context `i` is for the document at `p` under constants `env`.
pub open spec fn context_matches(ctxs: Seq<ProcessedDocumentContext>, i: int, p: Seq<char>, env: Seq<(String, String)>) -> bool {
    ctxs[i].key.path@ == p && same_constant_sets(ctxs[i].key.inherited_constants@, env)
}

/// The first context for the document at `p` under constants `env`, or -1.
pub open spec fn context_index(ctxs: Seq<ProcessedDocumentContext>, p: Seq<char>, env: Seq<(String, String)>) -> int
    decreases ctxs.len(),
{
    if ctxs.len() == 0 {
        -1
    } else {
        let r = context_index(ctxs.drop_last(), p, env);
        if r >= 0 {
            r
        } else if context_matches(ctxs, ctxs.len() - 1, p, env) {
            ctxs.len() - 1
        } else {
            -1
        }
    }
}

proof fn lemma_context_index_prefix(ctxs: Seq<ProcessedDocumentContext>, p: Seq<char>, env: Seq<(String, String)>, k: int)
    requires
        0 <= k <= ctxs.len(),
        context_index(ctxs.take(k), p, env) >= 0,
    ensures
        context_index(ctxs, p, env) == context_index(ctxs.take(k), p, env),
    decreases ctxs.len() - k,
{
    if k < ctxs.len() {
        assert(ctxs.take(k + 1).drop_last() =~= ctxs.take(k));
        lemma_context_index_prefix(ctxs, p, env, k + 1);
    } else {
        assert(ctxs.take(k) =~= ctxs);
    }
}

proof fn lemma_context_index(ctxs: Seq<ProcessedDocumentContext>, p: Seq<char>, env: Seq<(String, String)>)
    ensures
        -1 <= context_index(ctxs, p, env) < ctxs.len(),
        context_index(ctxs, p, env) >= 0 ==> context_matches(ctxs, context_index(ctxs, p, env), p, env),
    decreases ctxs.len(),
{
    if ctxs.len() > 0 {
        lemma_context_index(ctxs.drop_last(), p, env);
        let r = context_index(ctxs.drop_last(), p, env);
        if r >= 0 {
            assert(ctxs.drop_last()[r] == ctxs[r]);
        }
    }
}

/// The first processed context for the document at `path` under the constants, if any.
fn find_context(contexts: &Vec<ProcessedDocumentContext>, path: &str, constants: &ConstantEnvironment) -> (r: Option<
    usize,
>)
    ensures
        ({
            let i = context_index(contexts@, path@, constants.bindings@);
            match r {
                Some(k) => k == i && 0 <= i < contexts@.len() && contexts@[i].key.path@ == path@,
                None => i < 0,
            }
        }),
{
    let mut i: usize = 0;
    while i < contexts.len()
        invariant
            i <= contexts@.len(),
            context_index(contexts@.take(i as int), path@, constants.bindings@) < 0,
        decreases contexts@.len() - i,
    {
        proof {
            assert(contexts@.take(i + 1).drop_last() =~= contexts@.take(i as int));
            assert(contexts@.take(i + 1)[i as int] == contexts@[i as int]);
        }
        if crate::text::str_eq(contexts[i].key.path.as_str(), path) && same_constants(
            &contexts[i].key.inherited_constants,
            &constants.bindings,
        ) {
            proof {
                lemma_context_index_prefix(contexts@, path@, constants.bindings@, i + 1);
            }
            return Some(i);
        }
        i = i + 1;
    }
    proof {
        assert(contexts@.take(i as int) =~= contexts@);
    }
    None
}

fn path_is_active(active: &Vec<String>, path: &str) -> (r: bool)
    ensures
        r == path_views(active@).contains(path@),
{
    let ghost view = path_views(active@);
    let mut i: usize = 0;
    while i < active.len()
        invariant
            view == path_views(active@),
            i <= active@.len(),
            forall|j: int| 0 <= j < i ==> view[j] != path@,
        decreases active@.len() - i,
    {
        if crate::text::str_eq(active[i].as_str(), path) {
            assert(view[i as int] == path@);
            return true;
        }
        i = i + 1;
    }
    false
}

/// Paths by their characters.
pub open spec fn path_views(s: Seq<String>) -> Seq<Seq<char>> {
    s.map_values(|x: String| x@)
}

/// The paths of the loaded documents.
pub open spec fn loaded_paths(world: &LoadWorld) -> Seq<Seq<char>> {
    world.documents@.map_values(|d: LoadedDocument| d.path@)
}

/// The active stack of paths being processed: distinct, all loaded.
pub open spec fn active_ok(world: &LoadWorld, active: Seq<String>) -> bool {
    &&& path_views(active).no_duplicates()
    &&& forall|i: int| 0 <= i < active.len() ==> is_loaded(world, (#[trigger] active[i])@)
}

proof fn lemma_push_active(world: &LoadWorld, active: Seq<String>, p: String)
    requires
        active_ok(world, active),
        is_loaded(world, p@),
        !path_views(active).contains(p@),
    ensures
        active_ok(world, active.push(p)),
        active.len() < world.documents@.len(),
{
    let view = path_views(active);
    let view2 = path_views(active.push(p));
    assert(view2 =~= view.push(p@));
    assert(view2.no_duplicates()) by {
        assert forall|i: int, j: int| 0 <= i < view2.len() && 0 <= j < view2.len() && i != j implies view2[i] != view2[j] by {
            if i < view.len() && j < view.len() {
                assert(view[i] != view[j]);
            } else if i == view.len() {
                assert(view2[j] == view[j]);
            } else {
                assert(view2[i] == view[i]);
            }
        }
    }
    assert forall|i: int| 0 <= i < view2.len() implies loaded_paths(world).contains(#[trigger] view2[i]) by {
        let q = if i < active.len() {
            active[i]
        } else {
            p
        };
        assert(view2[i] == q@);
        assert(is_loaded(world, q@));
        let k = choose|k: int| 0 <= k < world.documents@.len() && (#[trigger] world.documents@[k]).path@ == q@;
        assert(loaded_paths(world)[k] == q@);
    }
    crate::text::lemma_distinct_within_bound(view2, loaded_paths(world));
    assert forall|i: int| 0 <= i < active.push(p).len() implies is_loaded(world, (#[trigger] active.push(p)[i])@) by {
        if i < active.len() {
            assert(active.push(p)[i] == active[i]);
        }
    }
}

/// The failure for a base that resolved but could not be loaded.
fn base_load_failure(
    document: &DocumentId,
    directive: &WorkspaceBaseDirective,
    target_text: &str,
    path: &str,
    error: &str,
) -> (r: WorkspaceLoadError)
    ensures
        r.failures@.len() == 1,
        r.failures@[0].kind == WorkspaceLoadFailureKind::WorkspaceBase,
        r.failures@[0].message@ == "failed to load workspace base "@ + target_text@ + ": "@ + error@,
{
    let mut message = crate::text::cat3("failed to load workspace base ", target_text, ": ");
    message.append(error);
    WorkspaceLoadError::single(
        WorkspaceLoadFailure::anchored(
            WorkspaceLoadFailureKind::WorkspaceBase,
            document,
            directive.span,
            Some(directive.value_span),
            Some(target_text.to_owned()),
            Some(path.to_owned()),
            message,
        ),
    )
}

/// The failure for a base that leads back to a document being processed.
fn base_cycle_failure(document: &DocumentId, directive: &WorkspaceBaseDirective, target_text: &str, path: &str) -> (r:
    WorkspaceLoadError)
    ensures
        r.failures@.len() == 1,
        r.failures@[0].kind == WorkspaceLoadFailureKind::WorkspaceBaseCycle,
        r.failures@[0].message@ == "workspace extends cycle detected while following: "@ + target_text@,
{
    WorkspaceLoadError::single(
        WorkspaceLoadFailure::anchored(
            WorkspaceLoadFailureKind::WorkspaceBaseCycle,
            document,
            directive.span,
            Some(directive.value_span),
            Some(target_text.to_owned()),
            Some(path.to_owned()),
            crate::text::cat("workspace extends cycle detected while following: ", target_text),
        ),
    )
}

/// The failure for an included document that could not be loaded.
fn include_load_failure(followed: &ResolvedInclude, path: &str, error: &str) -> (r: WorkspaceLoadError)
    ensures
        r.failures@.len() == 1,
        r.failures@[0].kind == WorkspaceLoadFailureKind::IncludeLoad,
        r.failures@[0].message@ == "failed to load include "@ + followed.target_text@ + ": "@ + error@,
{
    let mut message = crate::text::cat3("failed to load include ", followed.target_text.as_str(), ": ");
    message.append(error);
    WorkspaceLoadError::single(
        WorkspaceLoadFailure::anchored(
            WorkspaceLoadFailureKind::IncludeLoad,
            &followed.including_document,
            followed.span,
            Some(followed.value_span),
            Some(followed.target_text.clone()),
            Some(path.to_owned()),
            message,
        ),
    )
}

/// `e` is the read failure of the document at `p`, with the reader's error `error`.
pub open spec fn read_failure(e: WorkspaceLoadError, p: Seq<char>, error: Seq<char>) -> bool {
    &&& e.failures@.len() == 1
    &&& e.failures@[0].kind == WorkspaceLoadFailureKind::DocumentRead
    &&& e.failures@[0].message@ == "failed to read workspace document "@ + p + ": "@ + error
    &&& (e.failures@[0].path matches Some(x) && x@ == p)
    &&& e.failures@[0].anchor is None
}

/// Why processing stops at a document that is not loaded: the read failure recorded for it,
/// or else a request for it.
pub open spec fn missing_document_stop(world: &LoadWorld, p: Seq<char>, stop: BuildStop) -> bool {
    let u = unreadable_index(world.unreadable@, p);
    if u >= 0 {
        stop matches BuildStop::Failed(e) && u < world.unreadable@.len() && read_failure(e, p, world.unreadable@[u].1@)
    } else {
        stop matches BuildStop::Need(LoadRequest::Document { path }) && path@ == p
    }
}

/// The loaded document at `p` when there is one, else why processing stops there.
pub open spec fn require_outcome(world: &LoadWorld, p: Seq<char>, r: Result<&LoadedDocument, BuildStop>) -> bool {
    match r {
        Ok(d) => d.path@ == p && is_loaded(world, p) && (exists|i: int|
            0 <= i < world.documents@.len() && world.documents@[i] == *d) && 0 <= document_index(world.documents@, p)
            < world.documents@.len() && world.documents@[document_index(world.documents@, p)] == *d,
        Err(stop) => !is_loaded(world, p) && missing_document_stop(world, p, stop),
    }
}

/// What a stop asks for is not yet in the world: a document neither loaded nor recorded as
/// unreadable, or a probe not recorded.
pub open spec fn stop_progress(world: &LoadWorld, stop: BuildStop) -> bool {
    match stop {
        BuildStop::Need(LoadRequest::Document { path }) => !is_loaded(world, path@) && unreadable_index(
            world.unreadable@,
            path@,
        ) < 0,
        BuildStop::Need(LoadRequest::Probe { document_path, target_text }) => probe_index(
            world.probes@,
            document_path@,
            target_text@,
        ) < 0 && probe_owed(world, document_path@, target_text@),
        BuildStop::Failed(e) => failure_owed(world, e),
    }
}

/// A probe around target `t` of the document at `d` is something processing can ask for: `d`
/// is loaded, and `t` is the target of one of its includes, or of its base, under some
/// constants.
pub open spec fn probe_owed(world: &LoadWorld, d: Seq<char>, t: Seq<char>) -> bool {
    exists|i: int|
        0 <= i < world.documents@.len() && (#[trigger] world.documents@[i]).path@ == d && (
        (exists|k: int, env: Seq<(String, String)>|
            0 <= k < world.documents@[i].includes@.len() && t == #[trigger] include_target(
                world.documents@[i].includes@[k],
                env,
            )) || (world.documents@[i].base matches Some(b) && exists|env: Seq<(String, String)>|
            t == #[trigger] expand(normalized_value(b.raw_value@, b.value_kind), env)))
}

/// The document at `p` is one a recorded probe leads to: discovered by an include, or the
/// resolved base.
pub open spec fn discovered_path(world: &LoadWorld, p: Seq<char>) -> bool {
    exists|i: int|
        0 <= i < world.probes@.len() && ((#[trigger] include_outcome(
            world.probes@[i].1@,
            world.probes@[i].0@,
            world.probes@[i].2,
        ) matches IncludeOutcome::Target { discovered, .. } && discovered.contains(p)) || base_outcome(
            world.probes@[i].1@,
            world.probes@[i].0@,
            world.probes@[i].2,
        ) == BaseOutcome::Resolved(p))
}

/// A request for the document at `p` is owed: `p` is `start`, or a recorded probe leads to it.
pub open spec fn document_request_owed(world: &LoadWorld, start: Seq<char>, stop: BuildStop) -> bool {
    stop matches BuildStop::Need(LoadRequest::Document { path }) ==> path@ == start || discovered_path(world, path@)
}

/// A load failure's message: what failed, the target, and the error.
pub open spec fn load_message(what: Seq<char>, target: Seq<char>, error: Seq<char>) -> Seq<char> {
    what + target + ": "@ + error
}

/// `e` is one fatal failure that the world accounts for: a document recorded as unreadable; an
/// include or a base whose recorded probe (or remote target) makes it fail; an included or
/// base document recorded as unreadable; or a base that leads back to a document being
/// processed.
pub open spec fn failure_owed(world: &LoadWorld, e: WorkspaceLoadError) -> bool {
    let u = world.unreadable@;
    let ps = world.probes@;
    &&& e.failures@.len() == 1
    &&& {
        let f = e.failures@[0];
        ||| exists|k: int| 0 <= k < u.len() && #[trigger] read_failure(e, u[k].0@, u[k].1@)
        ||| f.kind == WorkspaceLoadFailureKind::IncludeLoad && exists|i: int|
            0 <= i < ps.len() && (#[trigger] include_outcome(ps[i].1@, ps[i].0@, ps[i].2) matches IncludeOutcome::Failure {
                error,
                ..
            } && f.message@ == "failed to load include "@ + ps[i].1@ + ": "@ + error)
        ||| f.kind == WorkspaceLoadFailureKind::IncludeLoad && exists|k: int, t: Seq<char>|
            0 <= k < u.len() && f.message@ == #[trigger] load_message("failed to load include "@, t, u[k].1@)
        ||| f.kind == WorkspaceLoadFailureKind::WorkspaceBase && exists|i: int|
            0 <= i < ps.len() && (#[trigger] base_outcome(ps[i].1@, ps[i].0@, ps[i].2) matches BaseOutcome::Failure {
                message,
                ..
            } && f.message@ == message)
        ||| f.kind == WorkspaceLoadFailureKind::WorkspaceBase && exists|t: Seq<char>|
            #[trigger] remote_target(t) && f.message@ == "remote workspace bases are not supported: "@ + t
        ||| f.kind == WorkspaceLoadFailureKind::WorkspaceBase && exists|k: int, t: Seq<char>|
            0 <= k < u.len() && f.message@ == #[trigger] load_message("failed to load workspace base "@, t, u[k].1@)
        ||| f.kind == WorkspaceLoadFailureKind::WorkspaceBaseCycle
    }
}

proof fn lemma_unreadable_index(entries: Seq<(String, String)>, p: Seq<char>)
    ensures
        -1 <= unreadable_index(entries, p) < entries.len(),
        unreadable_index(entries, p) >= 0 ==> entries[unreadable_index(entries, p)].0@ == p,
    decreases entries.len(),
{
    if entries.len() > 0 {
        lemma_unreadable_index(entries.drop_last(), p);
    }
}

proof fn lemma_probe_index(probes: Seq<(String, String, IncludeProbe)>, d: Seq<char>, t: Seq<char>)
    ensures
        -1 <= probe_index(probes, d, t) < probes.len(),
        probe_index(probes, d, t) >= 0 ==> probes[probe_index(probes, d, t)].0@ == d && probes[probe_index(
            probes,
            d,
            t,
        )].1@ == t,
    decreases probes.len(),
{
    if probes.len() > 0 {
        lemma_probe_index(probes.drop_last(), d, t);
    }
}

/// `inc` is the outcome of an include directive of the loaded document that declares it: its
/// raw value and spans are the directive's, its target text is the directive's target under
/// some constants, and its target and discovered documents are what the filesystem's answer
/// around that target (recorded, or not needed for a remote target) gives.
pub open spec fn include_ok(world: &LoadWorld, inc: ResolvedInclude) -> bool {
    let d = inc.including_document@;
    let t = inc.target_text@;
    &&& exists|i: int|
        0 <= i < world.documents@.len() && (#[trigger] world.documents@[i]).path@ == d && exists|k: int, env: Seq<(String, String)>|
            0 <= k < world.documents@[i].includes@.len() && t == #[trigger] include_target(world.documents@[i].includes@[k], env)
                && inc.raw_value@ == world.documents@[i].includes@[k].raw_value@ && inc.span
                == world.documents@[i].includes@[k].span && inc.value_span == world.documents@[i].includes@[k].value_span
    &&& exists|probe: IncludeProbe|
        (remote_target(t) || (0 <= probe_index(world.probes@, d, t) < world.probes@.len() && probe == world.probes@[probe_index(world.probes@, d, t)].2))
            && (#[trigger] include_outcome(t, d, probe) matches IncludeOutcome::Target { target: tv, discovered: ds }
            && target_view(inc.target) == tv && inc.discovered_documents@.map_values(|x: DocumentId| x@) == ds)
}

/// The first position of `docs` whose path is `p`, or -1.
pub open spec fn document_index(docs: Seq<LoadedDocument>, p: Seq<char>) -> int
    decreases docs.len(),
{
    if docs.len() == 0 {
        -1
    } else {
        let r = document_index(docs.drop_last(), p);
        if r >= 0 {
            r
        } else if docs.last().path@ == p {
            docs.len() - 1
        } else {
            -1
        }
    }
}

/// The target text of `directive` under the constants `values`.
pub open spec fn target_under(directive: IncludeDirective, values: ConstantValues) -> Seq<char> {
    expand_with(normalized_value(directive.raw_value@, directive.value_kind), values)
}

/// The probe recorded first for target `t` of the document at `d`; a remote target needs none.
pub open spec fn recorded_probe(world: &LoadWorld, d: Seq<char>, t: Seq<char>) -> IncludeProbe {
    let i = probe_index(world.probes@, d, t);
    if 0 <= i < world.probes@.len() {
        world.probes@[i].2
    } else {
        arbitrary()
    }
}

/// How include target `t` of the document at `d` resolves under what the world recorded.
pub open spec fn answered_outcome(world: &LoadWorld, d: Seq<char>, t: Seq<char>) -> IncludeOutcome {
    include_outcome(t, d, recorded_probe(world, d, t))
}

/// The documents an include outcome leads to.
pub open spec fn discoveries(o: IncludeOutcome) -> Seq<Seq<char>> {
    match o {
        IncludeOutcome::Target { discovered, .. } => discovered,
        IncludeOutcome::Failure { .. } => Seq::empty(),
    }
}

/// The paths of `ds` not in `skip`, in order.
pub open spec fn unvisited(ds: Seq<Seq<char>>, skip: Seq<Seq<char>>) -> Seq<Seq<char>>
    decreases ds.len(),
{
    if ds.len() == 0 {
        Seq::empty()
    } else {
        let r = unvisited(ds.drop_last(), skip);
        if skip.contains(ds.last()) {
            r
        } else {
            r.push(ds.last())
        }
    }
}

/// Each included context as its includer sees it: its path, the constants it inherits, the
/// constants it exports.
pub open spec fn included_view(ctxs: Seq<ProcessedDocumentContext>, kids: Seq<usize>) -> Seq<
    (Seq<char>, ConstantValues, ConstantValues),
> {
    kids.map_values(
        |k: usize|
            (
                ctxs[k as int].key.path@,
                bound_values(ctxs[k as int].key.inherited_constants@),
                bound_values(ctxs[k as int].exported_constants.bindings@),
            ),
    )
}

/// Walking the first `e` directives of `doc` from the constants `start`: the constants in
/// force after them, how many included contexts and how many includes they account for. A
/// constant definition binds its name to its value expanded under the constants in force. An
/// include hands the constants in force to each document it leads to that is not in `skip`,
/// in turn, each passing on what the one before it exports, and the constants the last one
/// exports are in force after it.
pub open spec fn directive_walk(
    world: &LoadWorld,
    doc: LoadedDocument,
    skip: Seq<Seq<char>>,
    start: ConstantValues,
    kids: Seq<(Seq<char>, ConstantValues, ConstantValues)>,
    e: int,
) -> (ConstantValues, int, int)
    decreases e,
{
    if e <= 0 {
        (start, 0, 0)
    } else {
        let (env, k, m) = directive_walk(world, doc, skip, start, kids, e - 1);
        match doc.events@[e - 1] {
            WorkspaceDirectiveEvent::ConstantDefinition(x) => if x < doc.constants@.len() {
                let c = doc.constants@[x as int];
                (bind(env, c.name@, expand_with(c.value@, env)), k, m)
            } else {
                (env, k, m)
            },
            WorkspaceDirectiveEvent::IncludeDirective(x) => if x < doc.includes@.len() {
                let t = target_under(doc.includes@[x as int], env);
                let n = unvisited(discoveries(answered_outcome(world, doc.path@, t)), skip).len();
                (if n > 0 {
                    kids[k + n - 1].2
                } else {
                    env
                }, k + n, m + 1)
            } else {
                (env, k, m)
            },
        }
    }
}

/// Directive `e` of `doc`, when it is an include, is resolved as `incs` records it under the
/// constants in force at it, and the included contexts it accounts for are those of the
/// documents it leads to that are not in `skip`, in order, each under the constants passed on
/// to it.
pub open spec fn include_step(
    world: &LoadWorld,
    doc: LoadedDocument,
    skip: Seq<Seq<char>>,
    start: ConstantValues,
    kids: Seq<(Seq<char>, ConstantValues, ConstantValues)>,
    incs: Seq<ResolvedInclude>,
    e: int,
) -> bool {
    let (env, k, m) = directive_walk(world, doc, skip, start, kids, e);
    match doc.events@[e] {
        WorkspaceDirectiveEvent::IncludeDirective(x) => x < doc.includes@.len() ==> include_resolved(
            world,
            doc,
            skip,
            kids,
            incs,
            doc.includes@[x as int],
            env,
            k,
            m,
        ),
        WorkspaceDirectiveEvent::ConstantDefinition(_) => true,
    }
}

/// Include `dir` of `doc`, met with the constants `env` in force after `k` included contexts
/// and `m` includes, is resolved as `incs[m]` records it, and the next included contexts are
/// those of the documents it leads to that are not in `skip`, in order, each under the
/// constants passed on to it.
pub open spec fn include_resolved(
    world: &LoadWorld,
    doc: LoadedDocument,
    skip: Seq<Seq<char>>,
    kids: Seq<(Seq<char>, ConstantValues, ConstantValues)>,
    incs: Seq<ResolvedInclude>,
    dir: IncludeDirective,
    env: ConstantValues,
    k: int,
    m: int,
) -> bool {
    let t = target_under(dir, env);
    let inc = incs[m];
    let ds = unvisited(discoveries(answered_outcome(world, doc.path@, t)), skip);
    &&& inc.including_document@ == doc.path@
    &&& inc.raw_value@ == dir.raw_value@
    &&& inc.span == dir.span
    &&& inc.value_span == dir.value_span
    &&& inc.target_text@ == t
    &&& answered_outcome(world, doc.path@, t) matches IncludeOutcome::Target { target, discovered }
        && target_view(inc.target) == target && inc.discovered_documents@.map_values(|x: DocumentId| x@)
        == discovered
    &&& forall|j: int|
        0 <= j < ds.len() ==> (#[trigger] kids[k + j]).0 == ds[j] && kids[k + j].1 == (if j == 0 {
            env
        } else {
            kids[k + j - 1].2
        })
}

/// Processing the directives of `doc` from the constants `start`, skipping the documents in
/// `skip`, gives the includes `incs`, the included contexts `kids` and exports `exported`.
pub open spec fn follows_directives(
    world: &LoadWorld,
    doc: LoadedDocument,
    skip: Seq<Seq<char>>,
    start: ConstantValues,
    kids: Seq<(Seq<char>, ConstantValues, ConstantValues)>,
    incs: Seq<ResolvedInclude>,
    exported: ConstantValues,
) -> bool {
    let n = doc.events@.len() as int;
    &&& directive_walk(world, doc, skip, start, kids, n) == (exported, kids.len() as int, incs.len() as int)
    &&& forall|e: int| 0 <= e < n ==> #[trigger] include_step(world, doc, skip, start, kids, incs, e)
}

/// The constants a context's own directives start from: what its base exports, else what it
/// inherits.
pub open spec fn context_start(ctxs: Seq<ProcessedDocumentContext>, c: int) -> ConstantValues {
    match ctxs[c].workspace_base_context {
        Some(b) => bound_values(ctxs[b as int].exported_constants.bindings@),
        None => bound_values(ctxs[c].key.inherited_constants@),
    }
}

/// Context `c` is what processing its document gives, with the documents in `skip` in
/// progress: its base inherits what it inherits, and its includes, included contexts and
/// exported constants follow its document's directives.
pub open spec fn context_follows(world: &LoadWorld, ctxs: Seq<ProcessedDocumentContext>, c: int, skip: Seq<Seq<char>>) -> bool {
    let ctx = ctxs[c];
    let d = document_index(world.documents@, ctx.key.path@);
    &&& 0 <= d < world.documents@.len()
    &&& skip.contains(ctx.key.path@)
    &&& (ctx.workspace_base_context matches Some(b) ==> bound_values(ctxs[b as int].key.inherited_constants@)
        == bound_values(ctx.key.inherited_constants@))
    &&& follows_directives(
        world,
        world.documents@[d],
        skip,
        context_start(ctxs, c),
        included_view(ctxs, ctx.included_contexts@),
        ctx.direct_includes@,
        bound_values(ctx.exported_constants.bindings@),
    )
}

proof fn lemma_document_prefix(docs: Seq<LoadedDocument>, p: Seq<char>, k: int)
    requires
        0 <= k <= docs.len(),
        document_index(docs.take(k), p) >= 0,
    ensures
        document_index(docs, p) == document_index(docs.take(k), p),
    decreases docs.len() - k,
{
    if k < docs.len() {
        assert(docs.take(k + 1).drop_last() =~= docs.take(k));
        lemma_document_prefix(docs, p, k + 1);
    } else {
        assert(docs.take(k) =~= docs);
    }
}

proof fn lemma_document_index(docs: Seq<LoadedDocument>, p: Seq<char>)
    ensures
        -1 <= document_index(docs, p) < docs.len(),
        document_index(docs, p) >= 0 ==> docs[document_index(docs, p)].path@ == p,
        document_index(docs, p) < 0 ==> forall|i: int| 0 <= i < docs.len() ==> (#[trigger] docs[i]).path@ != p,
    decreases docs.len(),
{
    if docs.len() > 0 {
        lemma_document_index(docs.drop_last(), p);
        if document_index(docs, p) < 0 {
            assert forall|i: int| 0 <= i < docs.len() implies (#[trigger] docs[i]).path@ != p by {
                if i < docs.len() - 1 {
                    assert(docs[i] == docs.drop_last()[i]);
                }
            }
        }
    }
}

/// Two constant sets with the same bindings, each naming no constant twice, bind every name
/// to the same value.
proof fn lemma_same_sets_values(a: Seq<(String, String)>, b: Seq<(String, String)>)
    requires
        same_constant_sets(a, b),
        env_distinct(a),
        env_distinct(b),
    ensures
        bound_values(a) == bound_values(b),
{
    let na = a.map_values(|x: (String, String)| x.0@);
    let nb = b.map_values(|x: (String, String)| x.0@);
    assert(na.no_duplicates()) by {
        assert forall|i: int, j: int| 0 <= i < na.len() && 0 <= j < na.len() && i != j implies na[i] != na[j] by {
            if i < j {
                assert(a[i].0@ != a[j].0@);
            } else {
                assert(a[j].0@ != a[i].0@);
            }
        }
    }
    assert(nb.no_duplicates()) by {
        assert forall|i: int, j: int| 0 <= i < nb.len() && 0 <= j < nb.len() && i != j implies nb[i] != nb[j] by {
            if i < j {
                assert(b[i].0@ != b[j].0@);
            } else {
                assert(b[j].0@ != b[i].0@);
            }
        }
    }
    na.unique_seq_to_set();
    nb.unique_seq_to_set();
    vstd::seq_lib::seq_to_set_is_finite(na);
    vstd::seq_lib::seq_to_set_is_finite(nb);
    assert(na.to_set().subset_of(nb.to_set())) by {
        assert forall|q: Seq<char>| na.to_set().contains(q) implies nb.to_set().contains(q) by {
            let i = choose|i: int| 0 <= i < na.len() && na[i] == q;
            assert(binds_entry(a, b, i));
            let j = choose|j: int| 0 <= j < b.len() && (#[trigger] b[j]).0@ == a[i].0@ && b[j].1@ == a[i].1@;
            assert(nb[j] == q);
        }
    }
    vstd::set_lib::lemma_subset_equality(na.to_set(), nb.to_set());
    assert forall|q: Seq<char>| #[trigger] bound_values(a)(q) == bound_values(b)(q) by {
        if exists|i: int| 0 <= i < a.len() && (#[trigger] a[i]).0@ == q {
            let i = choose|i: int| 0 <= i < a.len() && (#[trigger] a[i]).0@ == q;
            assert forall|x: int| 0 <= x < i implies (#[trigger] a[x]).0@ != q by {}
            crate::workspace::substitution::lemma_env_lookup_at(a, q, i);
            assert(binds_entry(a, b, i));
            let j = choose|j: int| 0 <= j < b.len() && (#[trigger] b[j]).0@ == a[i].0@ && b[j].1@ == a[i].1@;
            assert forall|x: int| 0 <= x < j implies (#[trigger] b[x]).0@ != q by {}
            crate::workspace::substitution::lemma_env_lookup_at(b, q, j);
        } else {
            crate::workspace::substitution::lemma_env_lookup_none(a, q);
            assert(!na.to_set().contains(q)) by {
                if na.to_set().contains(q) {
                    let i = choose|i: int| 0 <= i < na.len() && na[i] == q;
                    assert(a[i].0@ == q);
                }
            }
            assert forall|j: int| 0 <= j < b.len() implies (#[trigger] b[j]).0@ != q by {
                assert(nb[j] == b[j].0@);
                assert(nb.to_set().contains(nb[j]));
            }
            crate::workspace::substitution::lemma_env_lookup_none(b, q);
        }
    }
    assert(bound_values(a) =~= bound_values(b));
}

proof fn lemma_unvisited_step(ds: Seq<Seq<char>>, skip: Seq<Seq<char>>, p: int)
    requires
        0 <= p < ds.len(),
    ensures
        unvisited(ds.take(p + 1), skip) == if skip.contains(ds[p]) {
            unvisited(ds.take(p), skip)
        } else {
            unvisited(ds.take(p), skip).push(ds[p])
        },
{
    assert(ds.take(p + 1).drop_last() =~= ds.take(p));
}

proof fn lemma_walk_counts(
    world: &LoadWorld,
    doc: LoadedDocument,
    skip: Seq<Seq<char>>,
    start: ConstantValues,
    kids: Seq<(Seq<char>, ConstantValues, ConstantValues)>,
    e: int,
)
    ensures
        0 <= directive_walk(world, doc, skip, start, kids, e).1,
        0 <= directive_walk(world, doc, skip, start, kids, e).2,
        e > 0 ==> directive_walk(world, doc, skip, start, kids, e - 1).1 <= directive_walk(world, doc, skip, start, kids, e).1,
        e > 0 ==> directive_walk(world, doc, skip, start, kids, e - 1).2 <= directive_walk(world, doc, skip, start, kids, e).2,
    decreases e,
{
    if e > 0 {
        lemma_walk_counts(world, doc, skip, start, kids, e - 1);
    }
}

/// Extending the included contexts after those a walk accounts for leaves the walk unchanged.
proof fn lemma_walk_extend(
    world: &LoadWorld,
    doc: LoadedDocument,
    skip: Seq<Seq<char>>,
    start: ConstantValues,
    kids: Seq<(Seq<char>, ConstantValues, ConstantValues)>,
    more: Seq<(Seq<char>, ConstantValues, ConstantValues)>,
    e: int,
)
    requires
        kids.len() <= more.len(),
        forall|i: int| 0 <= i < kids.len() ==> more[i] == kids[i],
        directive_walk(world, doc, skip, start, kids, e).1 <= kids.len(),
    ensures
        directive_walk(world, doc, skip, start, more, e) == directive_walk(world, doc, skip, start, kids, e),
        e > 0 ==> directive_walk(world, doc, skip, start, kids, e - 1).1 <= directive_walk(world, doc, skip, start, kids, e).1,
    decreases e,
{
    lemma_walk_counts(world, doc, skip, start, kids, e);
    if e > 0 {
        let (env, k, m) = directive_walk(world, doc, skip, start, kids, e - 1);
        lemma_walk_counts(world, doc, skip, start, kids, e - 1);
        match doc.events@[e - 1] {
            WorkspaceDirectiveEvent::IncludeDirective(x) => {
                if x < doc.includes@.len() {
                    let t = target_under(doc.includes@[x as int], env);
                    let n = unvisited(discoveries(answered_outcome(world, doc.path@, t)), skip).len();
                    assert(directive_walk(world, doc, skip, start, kids, e).1 == k + n);
                    lemma_walk_extend(world, doc, skip, start, kids, more, e - 1);
                    if n > 0 {
                        assert(more[k + n - 1] == kids[k + n - 1]);
                    }
                } else {
                    lemma_walk_extend(world, doc, skip, start, kids, more, e - 1);
                }
            },
            WorkspaceDirectiveEvent::ConstantDefinition(x) => {
                lemma_walk_extend(world, doc, skip, start, kids, more, e - 1);
            },
        }
    }
}

/// Extending the included contexts and includes after those step `e` accounts for leaves the
/// step unchanged.
proof fn lemma_step_extend(
    world: &LoadWorld,
    doc: LoadedDocument,
    skip: Seq<Seq<char>>,
    start: ConstantValues,
    kids: Seq<(Seq<char>, ConstantValues, ConstantValues)>,
    more: Seq<(Seq<char>, ConstantValues, ConstantValues)>,
    incs: Seq<ResolvedInclude>,
    more_incs: Seq<ResolvedInclude>,
    e: int,
)
    requires
        0 <= e,
        kids.len() <= more.len(),
        forall|i: int| 0 <= i < kids.len() ==> more[i] == kids[i],
        incs.len() <= more_incs.len(),
        forall|i: int| 0 <= i < incs.len() ==> more_incs[i] == incs[i],
        directive_walk(world, doc, skip, start, kids, e + 1).1 <= kids.len(),
        directive_walk(world, doc, skip, start, kids, e + 1).2 <= incs.len(),
        include_step(world, doc, skip, start, kids, incs, e),
    ensures
        include_step(world, doc, skip, start, more, more_incs, e),
{
    lemma_walk_counts(world, doc, skip, start, kids, e + 1);
    lemma_walk_counts(world, doc, skip, start, kids, e);
    lemma_walk_extend(world, doc, skip, start, kids, more, e + 1);
    lemma_walk_extend(world, doc, skip, start, kids, more, e);
    let (env, k, m) = directive_walk(world, doc, skip, start, kids, e);
    match doc.events@[e] {
        WorkspaceDirectiveEvent::IncludeDirective(x) => {
            if x < doc.includes@.len() {
                let dir = doc.includes@[x as int];
                let t = target_under(dir, env);
                let ds = unvisited(discoveries(answered_outcome(world, doc.path@, t)), skip);
                assert(directive_walk(world, doc, skip, start, kids, e + 1).1 == k + ds.len());
                assert(m < incs.len());
                assert(include_resolved(world, doc, skip, kids, incs, dir, env, k, m));
                assert forall|j: int| 0 <= j < ds.len() implies (#[trigger] more[k + j]).0 == ds[j] && more[k + j].1 == (
                if j == 0 {
                    env
                } else {
                    more[k + j - 1].2
                }) by {
                    assert(kids[k + j].0 == ds[j]);
                    assert(more[k + j] == kids[k + j]);
                    if j > 0 {
                        assert(more[k + j - 1] == kids[k + j - 1]);
                    }
                }
                assert(more_incs[m] == incs[m]);
                assert(include_resolved(world, doc, skip, more, more_incs, dir, env, k, m));
            }
        },
        WorkspaceDirectiveEvent::ConstantDefinition(_) => {},
    }
}

/// The view of included contexts that lie before the end of `old` is the same in `new`,
/// which keeps `old` in place.
proof fn lemma_included_view_keep(old: Seq<ProcessedDocumentContext>, new: Seq<ProcessedDocumentContext>, kids: Seq<usize>)
    requires
        keeps_prefix(new, old),
        forall|k: int| 0 <= k < kids.len() ==> (#[trigger] kids[k]) < old.len(),
    ensures
        included_view(new, kids) == included_view(old, kids),
{
    assert forall|k: int| 0 <= k < kids.len() implies #[trigger] included_view(new, kids)[k] == included_view(old, kids)[k] by {
        assert(new[kids[k] as int] == old[kids[k] as int]);
    }
    assert(included_view(new, kids) =~= included_view(old, kids));
}

/// Context `c` is what processing its document gives, with some documents in progress.
pub open spec fn context_processed(world: &LoadWorld, ctxs: Seq<ProcessedDocumentContext>, c: int) -> bool {
    exists|skip: Seq<Seq<char>>| #[trigger] context_follows(world, ctxs, c, skip)
}

proof fn lemma_walk_mono(
    world: &LoadWorld,
    doc: LoadedDocument,
    skip: Seq<Seq<char>>,
    start: ConstantValues,
    kids: Seq<(Seq<char>, ConstantValues, ConstantValues)>,
    a: int,
    b: int,
)
    requires
        0 <= a <= b,
    ensures
        directive_walk(world, doc, skip, start, kids, a).1 <= directive_walk(world, doc, skip, start, kids, b).1,
        directive_walk(world, doc, skip, start, kids, a).2 <= directive_walk(world, doc, skip, start, kids, b).2,
    decreases b - a,
{
    if a < b {
        lemma_walk_counts(world, doc, skip, start, kids, b);
        lemma_walk_mono(world, doc, skip, start, kids, a, b - 1);
    }
}

/// Included contexts that keep their place, over contexts that keep theirs, look the same.
proof fn lemma_kids_extend(
    old: Seq<ProcessedDocumentContext>,
    new: Seq<ProcessedDocumentContext>,
    kids0: Seq<usize>,
    kids1: Seq<usize>,
)
    requires
        keeps_prefix(new, old),
        forall|k: int| 0 <= k < kids0.len() ==> (#[trigger] kids0[k]) < old.len(),
        kids0.len() <= kids1.len(),
        forall|i: int| 0 <= i < kids0.len() ==> #[trigger] kids1[i] == kids0[i],
    ensures
        included_view(old, kids0).len() == kids0.len(),
        included_view(new, kids1).len() == kids1.len(),
        forall|i: int| 0 <= i < kids0.len() ==> #[trigger] included_view(new, kids1)[i] == included_view(old, kids0)[i],
{
    assert forall|i: int| 0 <= i < kids0.len() implies #[trigger] included_view(new, kids1)[i] == included_view(old, kids0)[i] by {
        assert(kids1[i] == kids0[i]);
        assert(new[kids0[i] as int] == old[kids0[i] as int]);
    }
}

/// A context keeps what it follows when the contexts it depends on keep their place.
proof fn lemma_context_keep(
    world: &LoadWorld,
    old: Seq<ProcessedDocumentContext>,
    new: Seq<ProcessedDocumentContext>,
    c: int,
    skip: Seq<Seq<char>>,
)
    requires
        keeps_prefix(new, old),
        contexts_well_formed(old),
        0 <= c < old.len(),
        context_follows(world, old, c, skip),
    ensures
        context_follows(world, new, c, skip),
{
    let ctx = old[c];
    assert(new[c] == ctx);
    let ch = children_of(ctx, false);
    let kids = ctx.included_contexts@;
    assert forall|k: int| 0 <= k < kids.len() implies (#[trigger] kids[k]) < old.len() by {
        match ctx.workspace_base_context {
            Some(b) => {
                assert(ch[k + 1] == kids[k]);
                assert(ch[k + 1] < old.len());
            },
            None => {
                assert(ch[k] == kids[k]);
                assert(ch[k] < old.len());
            },
        }
    }
    match ctx.workspace_base_context {
        Some(b) => {
            assert(ch[0] == b);
            assert(ch[0] < old.len());
            assert(new[b as int] == old[b as int]);
        },
        None => {},
    }
    lemma_included_view_keep(old, new, kids);
    assert(context_start(new, c) == context_start(old, c));
}

/// An include's target text is its directive's normalized raw value expanded with the
/// constants in force at the directive: those the context starts from, with the constant
/// definitions before it and what the documents included before it export applied in source
/// order. A value without `${` is its own target text.
pub proof fn include_target_in_force(
    world: &LoadWorld,
    ctxs: Seq<ProcessedDocumentContext>,
    c: int,
    skip: Seq<Seq<char>>,
    e: int,
    x: usize,
)
    requires
        0 <= c < ctxs.len(),
        context_follows(world, ctxs, c, skip),
        0 <= e < world.documents@[document_index(world.documents@, ctxs[c].key.path@)].events@.len(),
        world.documents@[document_index(world.documents@, ctxs[c].key.path@)].events@[e]
            == WorkspaceDirectiveEvent::IncludeDirective(x),
        x < world.documents@[document_index(world.documents@, ctxs[c].key.path@)].includes@.len(),
    ensures
        ({
            let doc = world.documents@[document_index(world.documents@, ctxs[c].key.path@)];
            let kids = included_view(ctxs, ctxs[c].included_contexts@);
            let (env, k, m) = directive_walk(world, doc, skip, context_start(ctxs, c), kids, e);
            let value = normalized_value(doc.includes@[x as int].raw_value@, doc.includes@[x as int].value_kind);
            &&& 0 <= m < ctxs[c].direct_includes@.len()
            &&& ctxs[c].direct_includes@[m].target_text@ == expand_with(value, env)
            &&& crate::workspace::substitution::find_marker(value) < 0 ==> ctxs[c].direct_includes@[m].target_text@
                == value
        }),
{
    let doc = world.documents@[document_index(world.documents@, ctxs[c].key.path@)];
    let kids = included_view(ctxs, ctxs[c].included_contexts@);
    let start = context_start(ctxs, c);
    let n = doc.events@.len() as int;
    assert(include_step(world, doc, skip, start, kids, ctxs[c].direct_includes@, e));
    lemma_walk_mono(world, doc, skip, start, kids, e + 1, n);
    lemma_walk_counts(world, doc, skip, start, kids, e);
}

proof fn lemma_walk_include_source(
    world: &LoadWorld,
    doc: LoadedDocument,
    skip: Seq<Seq<char>>,
    start: ConstantValues,
    kids: Seq<(Seq<char>, ConstantValues, ConstantValues)>,
    n: int,
    m: int,
)
    requires
        0 <= n <= doc.events@.len(),
        0 <= m < directive_walk(world, doc, skip, start, kids, n).2,
    ensures
        exists|e: int|
            0 <= e < n && (#[trigger] directive_walk(world, doc, skip, start, kids, e)).2 == m && (match doc.events@[e] {
                WorkspaceDirectiveEvent::IncludeDirective(x) => x < doc.includes@.len(),
                WorkspaceDirectiveEvent::ConstantDefinition(_) => false,
            }),
    decreases n,
{
    let prev = directive_walk(world, doc, skip, start, kids, n - 1);
    if m < prev.2 {
        lemma_walk_include_source(world, doc, skip, start, kids, n - 1, m);
        let e = choose|e: int|
            0 <= e < n - 1 && (#[trigger] directive_walk(world, doc, skip, start, kids, e)).2 == m && (match doc.events@[e] {
                WorkspaceDirectiveEvent::IncludeDirective(x) => x < doc.includes@.len(),
                WorkspaceDirectiveEvent::ConstantDefinition(_) => false,
            });
        assert(directive_walk(world, doc, skip, start, kids, e).2 == m);
    } else {
        assert(directive_walk(world, doc, skip, start, kids, n - 1).2 == m);
    }
}

/// Every include a context records is the resolution of one of its document's include
/// directives, met after exactly as many includes as precede it in the record: it names the
/// context's document as its includer and carries that directive's raw value and spans.
pub proof fn recorded_include_from_directive(
    world: &LoadWorld,
    ctxs: Seq<ProcessedDocumentContext>,
    c: int,
    skip: Seq<Seq<char>>,
    m: int,
)
    requires
        0 <= c < ctxs.len(),
        context_follows(world, ctxs, c, skip),
        0 <= m < ctxs[c].direct_includes@.len(),
    ensures
        ({
            let doc = world.documents@[document_index(world.documents@, ctxs[c].key.path@)];
            let inc = ctxs[c].direct_includes@[m];
            &&& inc.including_document@ == ctxs[c].key.path@
            &&& exists|e: int, x: usize|
                0 <= e < doc.events@.len() && doc.events@[e] == WorkspaceDirectiveEvent::IncludeDirective(x) && x
                    < doc.includes@.len() && #[trigger] directive_walk(
                    world,
                    doc,
                    skip,
                    context_start(ctxs, c),
                    included_view(ctxs, ctxs[c].included_contexts@),
                    e,
                ).2 == m && inc.raw_value@ == (#[trigger] doc.includes@[x as int]).raw_value@ && inc.span == doc.includes@[x as int].span
                    && inc.value_span == doc.includes@[x as int].value_span
        }),
{
    let d = document_index(world.documents@, ctxs[c].key.path@);
    let doc = world.documents@[d];
    let kids = included_view(ctxs, ctxs[c].included_contexts@);
    let start = context_start(ctxs, c);
    let n = doc.events@.len() as int;
    lemma_document_index(world.documents@, ctxs[c].key.path@);
    lemma_walk_include_source(world, doc, skip, start, kids, n, m);
    let e = choose|e: int|
        0 <= e < n && (#[trigger] directive_walk(world, doc, skip, start, kids, e)).2 == m && (match doc.events@[e] {
            WorkspaceDirectiveEvent::IncludeDirective(x) => x < doc.includes@.len(),
            WorkspaceDirectiveEvent::ConstantDefinition(_) => false,
        });
    assert(include_step(world, doc, skip, start, kids, ctxs[c].direct_includes@, e));
    match doc.events@[e] {
        WorkspaceDirectiveEvent::IncludeDirective(x) => {
            assert(doc.events@[e] == WorkspaceDirectiveEvent::IncludeDirective(x));
        },
        WorkspaceDirectiveEvent::ConstantDefinition(_) => {},
    }
}

/// The world answers include target `t` of the document at `d`: the target is remote, or a
/// probe is recorded for it whose outcome is a target all of whose discovered documents are
/// loaded.
pub open spec fn target_answered(world: &LoadWorld, d: Seq<char>, t: Seq<char>) -> bool {
    ||| remote_target(t)
    ||| {
        let i = probe_index(world.probes@, d, t);
        &&& 0 <= i < world.probes@.len()
        &&& include_outcome(t, d, world.probes@[i].2) matches IncludeOutcome::Target { discovered, .. }
            && forall|q: Seq<char>| #[trigger] discovered.contains(q) ==> is_loaded(world, q)
    }
}

/// The world holds everything processing can ask for and nothing fails: no loaded document
/// extends a base, and every include target of every loaded document, under any constants, is
/// answered.
pub open spec fn world_complete(world: &LoadWorld) -> bool {
    &&& forall|i: int| 0 <= i < world.documents@.len() ==> (#[trigger] world.documents@[i]).base is None
    &&& forall|i: int, k: int, env: Seq<(String, String)>|
        0 <= i < world.documents@.len() && 0 <= k < world.documents@[i].includes@.len() ==> target_answered(
            world,
            world.documents@[i].path@,
            #[trigger] include_target(world.documents@[i].includes@[k], env),
        )
}

/// Every loaded document has no base and no include: processing it needs nothing more.
pub open spec fn self_contained(world: &LoadWorld) -> bool {
    forall|i: int|
        0 <= i < world.documents@.len() ==> (#[trigger] world.documents@[i]).base is None && forall|k: int|
            0 <= k < world.documents@[i].events@.len() ==> #[trigger] world.documents@[i].events@[k] is ConstantDefinition
}

/// `new` keeps every context of `old` in place.
pub open spec fn keeps_prefix(new: Seq<ProcessedDocumentContext>, old: Seq<ProcessedDocumentContext>) -> bool {
    &&& new.len() >= old.len()
    &&& forall|i: int| 0 <= i < old.len() ==> #[trigger] new[i] == old[i]
}

/// A loaded document, or why processing stops at it.
fn require_document<'a>(world: &'a LoadWorld, path: &str) -> (r: Result<&'a LoadedDocument, BuildStop>)
    ensures
        require_outcome(world, path@, r),
{
    match find_document(world, path) {
        Some(d) => {
            let ghost i = choose|i: int| 0 <= i < world.documents@.len() && world.documents@[i] == *d;
            Ok(d)
        },
        None => match find_unreadable(world, path) {
            Some(e) => Err(BuildStop::Failed(WorkspaceLoadError::single(WorkspaceLoadFailure::document_read(path, e)))),
            None => Err(BuildStop::Need(LoadRequest::Document { path: crate::text::owned(path) })),
        },
    }
}

/// Processes the document at `path` under the inherited constants: its base first, then its
/// constants and includes in source order, each included document under the constants in
/// force at its include; a context already processed is reused. Returns the position of the
/// context among the processed ones.
#[verifier::rlimit(60)]
pub fn process_document_context(
    world: &LoadWorld,
    path: &String,
    inherited: &ConstantEnvironment,
    active: &mut Vec<String>,
    processed: &mut Vec<ProcessedDocumentContext>,
) -> (r: Result<usize, BuildStop>)
    requires
        env_distinct(inherited.bindings@),
        active_ok(world, old(active)@),
        !path_views(old(active)@).contains(path@),
        contexts_sound(old(processed)@, world),
    ensures
        final(active)@ == old(active)@,
        contexts_sound(final(processed)@, world),
        final(processed)@.len() >= old(processed)@.len(),
        keeps_prefix(final(processed)@, old(processed)@),
        r matches Ok(i) ==> i < final(processed)@.len() && final(processed)@[i as int].key.path@ == path@,
        r matches Err(stop) ==> stop_progress(world, stop),
        r matches Err(stop) ==> document_request_owed(world, path@, stop),
        r matches Err(stop) ==> document_stop(
            world,
            path@,
            inherited.bindings@,
            path_views(old(active)@),
            final(processed)@,
            stop,
        ),
        is_loaded(world, path@) && self_contained(world) ==> r is Ok,
        is_loaded(world, path@) && world_complete(world) ==> r is Ok,
        ({
            let found = context_index(old(processed)@, path@, inherited.bindings@);
            &&& found >= 0 ==> r == Ok::<usize, BuildStop>(found as usize) && final(processed)@ == old(processed)@
            &&& found < 0 && !is_loaded(world, path@) ==> (r matches Err(stop) && missing_document_stop(world, path@, stop))
            &&& found < 0 ==> (r matches Ok(i) ==> i == final(processed)@.len() - 1 && final(processed)@.len()
                > old(processed)@.len() && final(processed)@[i as int].key.inherited_constants@ == inherited.bindings@
                && context_follows(world, final(processed)@, i as int, path_views(old(active)@).push(path@)))
        }),
    decreases world.documents@.len() - old(active)@.len(), 0int,
{
    match find_context(processed, path.as_str(), inherited) {
        Some(i) => {
            return Ok(i);
        },
        None => {},
    }
    let document = match require_document(world, path.as_str()) {
        Ok(d) => d,
        Err(stop) => {
            proof {
                lemma_unreadable_index(world.unreadable@, path@);
                let k = unreadable_index(world.unreadable@, path@);
                if k >= 0 {
                    assert(read_failure(stop->Failed_0, world.unreadable@[k].0@, world.unreadable@[k].1@));
                }
            }
            return Err(stop);
        },
    };
    let document_id = document_id_from_path(path.as_str());
    proof {
        lemma_push_active(world, active@, *path);
    }
    let ghost active0 = active@;
    active.push(path.clone());
    assert(active@ =~= active0.push(*path));
    assert(path_views(active@) =~= path_views(active0).push(path@));
    let outcome = process_directives(world, document, &document_id, inherited, active, processed);
    let ghost after = active@;
    active.pop();
    assert(active@ =~= active0);
    match outcome {
        Ok((constants, base_context, direct_includes, included_contexts)) => {
            let ghost before = processed@;
            let key = DocumentContextKey {
                path: path.clone(),
                inherited_constants: copy_environment(inherited).bindings,
            };
            processed.push(
                ProcessedDocumentContext {
                    key,
                    exported_constants: constants,
                    workspace_base_context: base_context,
                    direct_includes,
                    included_contexts,
                },
            );
            proof {
                let ctxs = processed@;
                let n = ctxs.len() - 1;
                assert(keeps_prefix(ctxs, before));
                assert forall|c: int, k: int|
                    0 <= c < ctxs.len() && 0 <= k < children_of(ctxs[c], false).len() implies #[trigger] children_of(
                    ctxs[c],
                    false,
                )[k] < ctxs.len() by {
                    if c < n {
                        assert(ctxs[c] == before[c]);
                        assert(children_of(before[c], false)[k] < before.len());
                    } else {
                        match ctxs[c].workspace_base_context {
                            Some(b) => {
                                if k > 0 {
                                    assert(children_of(ctxs[c], false)[k] == ctxs[c].included_contexts@[k - 1]);
                                }
                            },
                            None => {},
                        }
                    }
                }
                assert forall|c: int| 0 <= c < ctxs.len() implies is_loaded(world, (#[trigger] ctxs[c]).key.path@) by {
                    if c < n {
                        assert(ctxs[c] == before[c]);
                    }
                }
                assert forall|c: int, m: int|
                    0 <= c < ctxs.len() && 0 <= m < ctxs[c].direct_includes@.len() implies include_ok(
                    world,
                    #[trigger] ctxs[c].direct_includes@[m],
                ) by {
                    if c < n {
                        assert(ctxs[c] == before[c]);
                        assert(ctxs[c].direct_includes@[m] == before[c].direct_includes@[m]);
                    } else {
                        assert(ctxs[c].direct_includes@[m] == direct_includes@[m]);
                    }
                }
                assert forall|c: int| 0 <= c < ctxs.len() implies env_distinct(
                    (#[trigger] ctxs[c]).exported_constants.bindings@,
                ) by {
                    if c < n {
                        assert(ctxs[c] == before[c]);
                    }
                }
                assert forall|c: int| 0 <= c < ctxs.len() implies env_distinct(
                    (#[trigger] ctxs[c]).key.inherited_constants@,
                ) by {
                    if c < n {
                        assert(ctxs[c] == before[c]);
                    }
                }
                let skip = path_views(active0).push(path@);
                lemma_included_view_keep(before, ctxs, included_contexts@);
                assert(context_start(ctxs, n) == match base_context {
                    Some(b) => bound_values(before[b as int].exported_constants.bindings@),
                    None => bound_values(inherited.bindings@),
                });
                assert(skip[skip.len() - 1] == path@);
                assert(context_follows(world, ctxs, n, skip));
                assert forall|c: int| 0 <= c < ctxs.len() implies #[trigger] context_processed(world, ctxs, c) by {
                    if c < n {
                        assert(context_processed(world, before, c));
                        let sk = choose|sk: Seq<Seq<char>>| context_follows(world, before, c, sk);
                        lemma_context_keep(world, before, ctxs, c, sk);
                    } else {
                        assert(context_follows(world, ctxs, c, skip));
                    }
                }
            }
            Ok(processed.len() - 1)
        },
        Err(stop) => Err(stop),
    }
}

/// What stands for the filesystem's answer around a remote target, of which nothing is asked:
/// neither an include's nor a base's outcome reads it.
fn unasked_probe() -> (r: IncludeProbe)
    ensures
        r.entry is Missing,
        r.canonical_parent is Err,
{
    IncludeProbe { canonical_parent: Err(crate::text::owned("")), entry: TargetEntry::Missing }
}

/// The included contexts `after` extend `before` by one context for each document of `ds`, in
/// order: each for that document under the constants passed on to it, the first `start` and
/// each later one what the one before it exports; `end` is what the last one exports, or
/// `start` when there is none.
pub open spec fn included_run(
    ctxs: Seq<ProcessedDocumentContext>,
    before: Seq<usize>,
    after: Seq<usize>,
    ds: Seq<Seq<char>>,
    start: ConstantValues,
    end: ConstantValues,
) -> bool {
    let n0 = before.len() as int;
    let kv = included_view(ctxs, after);
    &&& after.len() == n0 + ds.len()
    &&& forall|i: int| 0 <= i < n0 ==> #[trigger] after[i] == before[i]
    &&& forall|j: int|
        0 <= j < ds.len() ==> (#[trigger] kv[n0 + j]).0 == ds[j] && kv[n0 + j].1 == (if j == 0 {
            start
        } else {
            kv[n0 + j - 1].2
        })
    &&& end == (if ds.len() > 0 {
        kv[n0 + ds.len() - 1].2
    } else {
        start
    })
}

/// `stop` is what processing the document at `p` stopped with: something the world does not
/// hold yet, or a failure it accounts for, or the request for `p` or a document a recorded
/// probe leads to.
pub open spec fn child_stop(world: &LoadWorld, p: Seq<char>, stop: BuildStop) -> bool {
    stop_progress(world, stop) && document_request_owed(world, p, stop)
}

/// The stop at a document `q` that an include with target text `t` leads to and that is not
/// loaded: the include's load failure carrying the error recorded for `q`, or the request for
/// `q`.
pub open spec fn unloaded_include_stop(world: &LoadWorld, t: Seq<char>, q: Seq<char>, stop: BuildStop) -> bool {
    let u = unreadable_index(world.unreadable@, q);
    if 0 <= u < world.unreadable@.len() {
        stop matches BuildStop::Failed(e) && e.failures@.len() == 1 && e.failures@[0].kind
            == WorkspaceLoadFailureKind::IncludeLoad && e.failures@[0].message@ == load_message(
            "failed to load include "@,
            t,
            world.unreadable@[u].1@,
        )
    } else {
        stop matches BuildStop::Need(LoadRequest::Document { path }) && path@ == q
    }
}

/// Following an include of the document at `d` with target text `t`, with the documents in
/// `skip` in progress, stops with `stop`: its target has not been probed and is asked for; or
/// it resolves to a failure, reported as the include's load failure; or the first document it
/// leads to that is not loaded stops it; or all are loaded and processing one of those not in
/// progress stopped.
pub open spec fn include_stop(world: &LoadWorld, d: Seq<char>, t: Seq<char>, skip: Seq<Seq<char>>, stop: BuildStop) -> bool {
    let o = answered_outcome(world, d, t);
    ||| !remote_target(t) && probe_index(world.probes@, d, t) < 0 && (stop matches BuildStop::Need(
        LoadRequest::Probe { document_path, target_text },
    ) && document_path@ == d && target_text@ == t)
    ||| (remote_target(t) || probe_index(world.probes@, d, t) >= 0) && (o matches IncludeOutcome::Failure {
        error,
        ..
    } && stop matches BuildStop::Failed(e) && e.failures@.len() == 1 && e.failures@[0].kind
        == WorkspaceLoadFailureKind::IncludeLoad && e.failures@[0].message@ == "failed to load include "@ + t + ": "@
        + error)
    ||| (remote_target(t) || probe_index(world.probes@, d, t) >= 0) && (o matches IncludeOutcome::Target {
        discovered,
        ..
    } && exists|j: int|
        0 <= j < discovered.len() && !is_loaded(world, discovered[j]) && (forall|i: int|
            0 <= i < j ==> is_loaded(world, #[trigger] discovered[i])) && unloaded_include_stop(
            world,
            t,
            discovered[j],
            stop,
        ))
    ||| (remote_target(t) || probe_index(world.probes@, d, t) >= 0) && (o matches IncludeOutcome::Target {
        discovered,
        ..
    } && (forall|i: int| 0 <= i < discovered.len() ==> is_loaded(world, #[trigger] discovered[i])) && exists|j: int|
        0 <= j < unvisited(discovered, skip).len() && child_stop(world, #[trigger] unvisited(discovered, skip)[j], stop))
}

proof fn lemma_unvisited_prefix(ds: Seq<Seq<char>>, skip: Seq<Seq<char>>, a: int, b: int)
    requires
        0 <= a <= b <= ds.len(),
    ensures
        unvisited(ds.take(a), skip).len() <= unvisited(ds.take(b), skip).len(),
        forall|i: int|
            0 <= i < unvisited(ds.take(a), skip).len() ==> #[trigger] unvisited(ds.take(b), skip)[i] == unvisited(
                ds.take(a),
                skip,
            )[i],
    decreases b - a,
{
    if a < b {
        lemma_unvisited_prefix(ds, skip, a, b - 1);
        lemma_unvisited_step(ds, skip, b - 1);
    }
}

/// Processes, in turn, each document of `paths` that is not in progress, under the constants
/// in force, which then become what it exports, and records its context.
#[verifier::rlimit(40)]
fn process_included(
    world: &LoadWorld,
    paths: &Vec<String>,
    constants: &mut ConstantEnvironment,
    active: &mut Vec<String>,
    processed: &mut Vec<ProcessedDocumentContext>,
    included_contexts: &mut Vec<usize>,
) -> (r: Result<(), BuildStop>)
    requires
        env_distinct(old(constants).bindings@),
        active_ok(world, old(active)@),
        old(active)@.len() > 0,
        contexts_sound(old(processed)@, world),
        forall|k: int|
            0 <= k < old(included_contexts)@.len() ==> (#[trigger] old(included_contexts)@[k]) < old(processed)@.len(),
        forall|q: Seq<char>| #[trigger] path_views(paths@).contains(q) ==> is_loaded(world, q) && discovered_path(world, q),
    ensures
        final(active)@ == old(active)@,
        contexts_sound(final(processed)@, world),
        keeps_prefix(final(processed)@, old(processed)@),
        r matches Err(stop) ==> stop_progress(world, stop),
        r matches Err(BuildStop::Need(LoadRequest::Document { path })) ==> discovered_path(world, path@),
        r matches Err(stop) ==> exists|j: int|
            0 <= j < unvisited(path_views(paths@), path_views(old(active)@)).len() && child_stop(
                world,
                #[trigger] unvisited(path_views(paths@), path_views(old(active)@))[j],
                stop,
            ),
        world_complete(world) ==> r is Ok,
        r is Ok ==> included_run(
            final(processed)@,
            old(included_contexts)@,
            final(included_contexts)@,
            unvisited(path_views(paths@), path_views(old(active)@)),
            bound_values(old(constants).bindings@),
            bound_values(final(constants).bindings@),
        ),
        r is Ok ==> env_distinct(final(constants).bindings@),
        r is Ok ==> forall|k: int|
            0 <= k < final(included_contexts)@.len() ==> (#[trigger] final(included_contexts)@[k]) < final(processed)@.len(),
    decreases world.documents@.len() - old(active)@.len(), 1int,
{
    let ghost skip = path_views(active@);
    let ghost pv = path_views(paths@);
    let ghost start = bound_values(constants.bindings@);
    let ghost before = included_contexts@;
    let mut p: usize = 0;
    proof {
        assert(pv.take(0) =~= Seq::<Seq<char>>::empty());
        assert(unvisited(pv.take(0), skip) =~= Seq::<Seq<char>>::empty());
    }
    while p < paths.len()
        invariant
            pv == path_views(paths@),
            skip == path_views(active@),
            active@ == old(active)@,
            active_ok(world, active@),
            active@.len() > 0,
            before == old(included_contexts)@,
            start == bound_values(old(constants).bindings@),
            forall|q: Seq<char>| #[trigger] pv.contains(q) ==> is_loaded(world, q) && discovered_path(world, q),
            contexts_sound(processed@, world),
            keeps_prefix(processed@, old(processed)@),
            p <= paths@.len(),
            env_distinct(constants.bindings@),
            forall|k: int| 0 <= k < included_contexts@.len() ==> (#[trigger] included_contexts@[k]) < processed@.len(),
            included_run(processed@, before, included_contexts@, unvisited(pv.take(p as int), skip), start, bound_values(constants.bindings@)),
        decreases paths@.len() - p,
    {
        let included_path = &paths[p];
        proof {
            assert(pv[p as int] == included_path@);
            assert(pv.contains(included_path@));
            lemma_unvisited_step(pv, skip, p as int);
        }
        if !path_is_active(active, included_path.as_str()) {
            let ghost ctxs0 = processed@;
            let ghost kids0 = included_contexts@;
            let ghost env0 = constants.bindings@;
            let ghost ds0 = unvisited(pv.take(p as int), skip);
            let count_before = processed.len();
            match process_document_context(world, included_path, &*constants, active, processed) {
                Ok(child) => {
                    included_contexts.push(child);
                    *constants = copy_environment(&processed[child].exported_constants);
                    proof {
                        let ctxs1 = processed@;
                        let kids1 = included_contexts@;
                        let ds1 = unvisited(pv.take(p + 1), skip);
                        let n0 = before.len() as int;
                        assert(ds1 == ds0.push(included_path@));
                        let found = context_index(ctxs0, included_path@, env0);
                        lemma_context_index(ctxs0, included_path@, env0);
                        if found >= 0 {
                            assert(context_matches(ctxs0, found, included_path@, env0));
                            assert(env_distinct(ctxs0[found].key.inherited_constants@));
                            lemma_same_sets_values(ctxs0[found].key.inherited_constants@, env0);
                            assert(child as int == found);
                            assert(ctxs1[found] == ctxs0[found]);
                        } else {
                            assert(ctxs1[child as int].key.inherited_constants@ == env0);
                        }
                        assert(bound_values(ctxs1[child as int].key.inherited_constants@) == bound_values(env0));
                        lemma_kids_extend(ctxs0, ctxs1, kids0, kids1);
                        let kv0 = included_view(ctxs0, kids0);
                        let kv1 = included_view(ctxs1, kids1);
                        assert(kv1[kids0.len() as int] == (
                            included_path@,
                            bound_values(env0),
                            bound_values(constants.bindings@),
                        ));
                        assert forall|i: int| 0 <= i < n0 implies #[trigger] kids1[i] == before[i] by {
                            assert(kids1[i] == kids0[i]);
                        }
                        assert forall|j: int| 0 <= j < ds1.len() implies (#[trigger] kv1[n0 + j]).0 == ds1[j] && kv1[n0
                            + j].1 == (if j == 0 {
                            start
                        } else {
                            kv1[n0 + j - 1].2
                        }) by {
                            if j < ds0.len() {
                                assert(kv1[n0 + j] == kv0[n0 + j]);
                                if j > 0 {
                                    assert(kv1[n0 + j - 1] == kv0[n0 + j - 1]);
                                }
                            } else {
                                if j > 0 {
                                    assert(kv1[n0 + j - 1] == kv0[n0 + j - 1]);
                                }
                            }
                        }
                        assert forall|k: int| 0 <= k < kids1.len() implies (#[trigger] kids1[k]) < ctxs1.len() by {
                            if k < kids0.len() {
                                assert(kids1[k] == kids0[k]);
                            }
                        }
                        assert(included_run(ctxs1, before, kids1, ds1, start, bound_values(constants.bindings@)));
                    }
                },
                Err(stop) => {
                    proof {
                        let ds1 = unvisited(pv.take(p + 1), skip);
                        assert(ds1 == ds0.push(included_path@));
                        lemma_unvisited_prefix(pv, skip, p + 1, pv.len() as int);
                        assert(pv.take(pv.len() as int) =~= pv);
                        assert(unvisited(pv, skip)[ds0.len() as int] == included_path@);
                        assert(child_stop(world, included_path@, stop));
                    }
                    return Err(stop);
                },
            }
        } else {
            proof {
                assert(skip.contains(included_path@));
            }
        }
        p = p + 1;
    }
    proof {
        assert(pv.take(p as int) =~= pv);
    }
    Ok(())
}

/// Following the base of the document at `d`, with target text `t` and the documents in `skip`
/// in progress, stops with `stop`: its target has not been probed and is asked for; or it
/// resolves to a failure, reported as such; or the document it resolves to is not loaded and
/// is reported unreadable or asked for; or that document is in progress, a cycle; or
/// processing that document stopped.
pub open spec fn base_stop(world: &LoadWorld, d: Seq<char>, t: Seq<char>, skip: Seq<Seq<char>>, stop: BuildStop) -> bool {
    ||| !remote_target(t) && probe_index(world.probes@, d, t) < 0 && (stop matches BuildStop::Need(
        LoadRequest::Probe { document_path, target_text },
    ) && document_path@ == d && target_text@ == t)
    ||| (remote_target(t) || probe_index(world.probes@, d, t) >= 0) && match base_outcome(
        t,
        d,
        recorded_probe(world, d, t),
    ) {
        BaseOutcome::Failure { message, .. } => stop matches BuildStop::Failed(e) && e.failures@.len() == 1
            && e.failures@[0].kind == WorkspaceLoadFailureKind::WorkspaceBase && e.failures@[0].message@ == message,
        BaseOutcome::Resolved(q) => {
            let u = unreadable_index(world.unreadable@, q);
            if !is_loaded(world, q) {
                if 0 <= u < world.unreadable@.len() {
                    stop matches BuildStop::Failed(e) && e.failures@.len() == 1 && e.failures@[0].kind
                        == WorkspaceLoadFailureKind::WorkspaceBase && e.failures@[0].message@ == load_message(
                        "failed to load workspace base "@,
                        t,
                        world.unreadable@[u].1@,
                    )
                } else {
                    stop matches BuildStop::Need(LoadRequest::Document { path }) && path@ == q
                }
            } else if skip.contains(q) {
                stop matches BuildStop::Failed(e) && e.failures@.len() == 1 && e.failures@[0].kind
                    == WorkspaceLoadFailureKind::WorkspaceBaseCycle && e.failures@[0].message@
                    == "workspace extends cycle detected while following: "@ + t
            } else {
                child_stop(world, q, stop)
            }
        },
    }
}

/// The include of event `e` of `doc` stops with `stop` after the events before it were
/// followed from the constants `start`: some of the contexts `ctxs`, in order, are the
/// documents the earlier includes led to, and following the include under the constants in
/// force after the earlier events stops.
pub open spec fn event_stop(
    world: &LoadWorld,
    doc: LoadedDocument,
    skip: Seq<Seq<char>>,
    start: ConstantValues,
    ctxs: Seq<ProcessedDocumentContext>,
    e: int,
    stop: BuildStop,
) -> bool {
    exists|kids: Seq<usize>, incs: Seq<ResolvedInclude>|
        #![trigger directive_walk(world, doc, skip, start, included_view(ctxs, kids), e), incs.len()]
        {
            &&& forall|k: int| 0 <= k < kids.len() ==> (#[trigger] kids[k]) < ctxs.len()
            &&& forall|e2: int|
                0 <= e2 < e ==> #[trigger] include_step(world, doc, skip, start, included_view(ctxs, kids), incs, e2)
            &&& 0 <= e < doc.events@.len()
            &&& doc.events@[e] matches WorkspaceDirectiveEvent::IncludeDirective(x) && x < doc.includes@.len()
                && include_stop(
                world,
                doc.path@,
                target_under(doc.includes@[x as int], directive_walk(world, doc, skip, start, included_view(ctxs, kids), e).0),
                skip,
                stop,
            )
        }
}

/// The constants `start` that the directives of `doc` begin from under the constants
/// `inherited`: those, without a base; with one, what a context among `ctxs` exports that was
/// processed under those constants.
pub open spec fn directives_start(
    doc: LoadedDocument,
    inherited: Seq<(String, String)>,
    ctxs: Seq<ProcessedDocumentContext>,
    start: ConstantValues,
) -> bool {
    &&& doc.base is None ==> start == bound_values(inherited)
    &&& doc.base is Some ==> exists|b: int|
        0 <= b < ctxs.len() && start == bound_values((#[trigger] ctxs[b]).exported_constants.bindings@)
            && bound_values(ctxs[b].key.inherited_constants@) == bound_values(inherited)
}

/// Processing the directives of `doc` under the constants `inherited`, with the documents in
/// `skip` in progress and the contexts `ctxs` processed, stops with `stop` at its base, or at
/// the include of one event, under the constants in force there.
pub open spec fn directives_stop(
    world: &LoadWorld,
    doc: LoadedDocument,
    inherited: Seq<(String, String)>,
    skip: Seq<Seq<char>>,
    ctxs: Seq<ProcessedDocumentContext>,
    stop: BuildStop,
) -> bool {
    ||| doc.base matches Some(b) && base_stop(
        world,
        doc.path@,
        expand(normalized_value(b.raw_value@, b.value_kind), inherited),
        skip,
        stop,
    )
    ||| exists|start: ConstantValues, e: int|
        directives_start(doc, inherited, ctxs, start) && #[trigger] event_stop(world, doc, skip, start, ctxs, e, stop)
}

/// Processing the document at `p` under the constants `inherited`, with the documents in `skip`
/// in progress and the contexts `ctxs` processed, stops with `stop`: the document is not
/// loaded and is asked for or reported unreadable, or its directives stop at its base or at
/// the include of one event, under the constants in force there.
pub open spec fn document_stop(
    world: &LoadWorld,
    p: Seq<char>,
    inherited: Seq<(String, String)>,
    skip: Seq<Seq<char>>,
    ctxs: Seq<ProcessedDocumentContext>,
    stop: BuildStop,
) -> bool {
    ||| !is_loaded(world, p) && missing_document_stop(world, p, stop)
    ||| exists|i: int|
        0 <= i < world.documents@.len() && (#[trigger] world.documents@[i]).path@ == p && directives_stop(
            world,
            world.documents@[i],
            inherited,
            skip.push(p),
            ctxs,
            stop,
        )
}

/// Follows the include `directive` of `document` under the constants in force: resolves its
/// target, asks for what is missing, processes the documents it leads to and records it.
#[verifier::rlimit(60)]
fn process_include_event(
    world: &LoadWorld,
    document: &LoadedDocument,
    document_id: &DocumentId,
    directive: &IncludeDirective,
    constants: &mut ConstantEnvironment,
    active: &mut Vec<String>,
    processed: &mut Vec<ProcessedDocumentContext>,
    included_contexts: &mut Vec<usize>,
    direct_includes: &mut Vec<ResolvedInclude>,
) -> (r: Result<(), BuildStop>)
    requires
        env_distinct(old(constants).bindings@),
        document_id@ == document.path@,
        exists|i: int, x: int|
            0 <= i < world.documents@.len() && world.documents@[i] == *document && 0 <= x
                < document.includes@.len() && document.includes@[x] == *directive,
        active_ok(world, old(active)@),
        old(active)@.len() > 0,
        contexts_sound(old(processed)@, world),
        forall|k: int|
            0 <= k < old(included_contexts)@.len() ==> (#[trigger] old(included_contexts)@[k]) < old(processed)@.len(),
        forall|m: int| 0 <= m < old(direct_includes)@.len() ==> include_ok(world, #[trigger] old(direct_includes)@[m]),
    ensures
        final(active)@ == old(active)@,
        contexts_sound(final(processed)@, world),
        keeps_prefix(final(processed)@, old(processed)@),
        r matches Err(stop) ==> stop_progress(world, stop),
        r matches Err(BuildStop::Need(LoadRequest::Document { path })) ==> discovered_path(world, path@),
        r matches Err(stop) ==> include_stop(
            world,
            document.path@,
            target_under(*directive, bound_values(old(constants).bindings@)),
            path_views(old(active)@),
            stop,
        ),
        world_complete(world) ==> r is Ok,
        r is Ok ==> ({
            let env = bound_values(old(constants).bindings@);
            let t = target_under(*directive, env);
            let ds = unvisited(discoveries(answered_outcome(world, document.path@, t)), path_views(old(active)@));
            &&& included_run(
                final(processed)@,
                old(included_contexts)@,
                final(included_contexts)@,
                ds,
                env,
                bound_values(final(constants).bindings@),
            )
            &&& final(direct_includes)@.len() == old(direct_includes)@.len() + 1
            &&& forall|m: int| 0 <= m < old(direct_includes)@.len() ==> #[trigger] final(direct_includes)@[m] == old(direct_includes)@[m]
            &&& include_resolved(
                world,
                *document,
                path_views(old(active)@),
                included_view(final(processed)@, final(included_contexts)@),
                final(direct_includes)@,
                *directive,
                env,
                old(included_contexts)@.len() as int,
                old(direct_includes)@.len() as int,
            )
            &&& env_distinct(final(constants).bindings@)
            &&& forall|k: int|
                0 <= k < final(included_contexts)@.len() ==> (#[trigger] final(included_contexts)@[k]) < final(processed)@.len()
            &&& forall|m: int| 0 <= m < final(direct_includes)@.len() ==> include_ok(world, #[trigger] final(direct_includes)@[m])
        }),
    decreases world.documents@.len() - old(active)@.len(), 2int,
{
    let ghost env_seq = constants.bindings@;
    let target = include_target_text(directive, constants);
    let unasked = unasked_probe();
    let probe = if crate::workspace::discovery::is_remote_include(target.as_str()) {
        &unasked
    } else {
        match find_probe(world, document.path.as_str(), target.as_str()) {
            Some(p) => p,
            None => {
                proof {
                    let (i, x) = choose|i: int, x: int|
                        0 <= i < world.documents@.len() && world.documents@[i] == *document && 0 <= x
                            < document.includes@.len() && document.includes@[x] == *directive;
                    assert(world.documents@[i].includes@[x] == *directive);
                    assert(target@ == include_target(world.documents@[i].includes@[x], constants.bindings@));
                    assert(probe_owed(world, document.path@, target@));
                }
                return Err(
                    BuildStop::Need(LoadRequest::Probe { document_path: document.path.clone(), target_text: target }),
                );
            },
        }
    };
    proof {
        if !remote_target(target@) {
            lemma_probe_index(world.probes@, document.path@, target@);
        }
        assert(include_outcome(target@, document_id@, *probe) == answered_outcome(world, document.path@, target@));
    }
    let work = match resolve_include(document_id, directive, constants, probe) {
        Ok(w) => w,
        Err(err) => {
            proof {
                if !remote_target(target@) {
                    let i = probe_index(world.probes@, document.path@, target@);
                    assert(include_outcome(world.probes@[i].1@, world.probes@[i].0@, world.probes@[i].2)
                        == include_outcome(target@, document_id@, *probe));
                }
            }
            return Err(BuildStop::Failed(err));
        },
    };
    proof {
        let d = path_views(work.discovered_paths@);
        assert(d =~= work.discovered_paths@.map_values(|q: String| q@));
        assert(d == discoveries(answered_outcome(world, document.path@, target@)));
        if world_complete(world) {
            let (di, x) = choose|i: int, x: int|
                0 <= i < world.documents@.len() && world.documents@[i] == *document && 0 <= x
                    < document.includes@.len() && document.includes@[x] == *directive;
            assert(world.documents@[di].includes@[x] == *directive);
            assert(target_answered(
                world,
                world.documents@[di].path@,
                include_target(world.documents@[di].includes@[x], constants.bindings@),
            ));
            assert forall|q: Seq<char>| #[trigger] d.contains(q) implies is_loaded(world, q) by {
                if !remote_target(target@) {
                    let i = probe_index(world.probes@, document.path@, target@);
                    assert(include_outcome(world.probes@[i].1@, world.probes@[i].0@, world.probes@[i].2)
                        == include_outcome(target@, document_id@, *probe));
                }
            }
        }
        assert forall|q: Seq<char>| #[trigger] d.contains(q) implies discovered_path(world, q) by {
            if !remote_target(target@) {
                let i = probe_index(world.probes@, document.path@, target@);
                assert(include_outcome(world.probes@[i].1@, world.probes@[i].0@, world.probes@[i].2)
                    matches IncludeOutcome::Target { discovered, .. } && discovered.contains(q));
            }
        }
    }
    let mut p: usize = 0;
    while p < work.discovered_paths.len()
        invariant
            forall|q: Seq<char>|
                #[trigger] path_views(work.discovered_paths@).contains(q) ==> discovered_path(world, q),
            world_complete(world) ==> forall|q: Seq<char>|
                #[trigger] path_views(work.discovered_paths@).contains(q) ==> is_loaded(world, q),
            forall|j: int| 0 <= j < p ==> is_loaded(world, #[trigger] path_views(work.discovered_paths@)[j]),
            p <= work.discovered_paths@.len(),
            processed@ == old(processed)@,
            active@ == old(active)@,
            contexts_sound(old(processed)@, world),
            target@ == target_under(*directive, bound_values(old(constants).bindings@)),
            work.followed.target_text@ == target@,
            remote_target(target@) || probe_index(world.probes@, document.path@, target@) >= 0,
            answered_outcome(world, document.path@, target@) matches IncludeOutcome::Target { discovered, .. }
                && discovered == path_views(work.discovered_paths@),
        decreases work.discovered_paths@.len() - p,
    {
        let included_path = &work.discovered_paths[p];
        proof {
            assert(path_views(work.discovered_paths@)[p as int] == included_path@);
            assert(path_views(work.discovered_paths@).contains(included_path@));
        }
        match find_document(world, included_path.as_str()) {
            Some(_) => {},
            None => match find_unreadable(world, included_path.as_str()) {
                Some(err) => {
                    proof {
                        lemma_unreadable_index(world.unreadable@, included_path@);
                        let k = unreadable_index(world.unreadable@, included_path@);
                        assert(load_message("failed to load include "@, work.followed.target_text@, world.unreadable@[k].1@)
                            == "failed to load include "@ + work.followed.target_text@ + ": "@ + err@);
                    }
                    let stop = BuildStop::Failed(include_load_failure(&work.followed, included_path.as_str(), err));
                    proof {
                        let ds = path_views(work.discovered_paths@);
                        assert(unloaded_include_stop(world, target@, ds[p as int], stop));
                        assert(forall|i: int| 0 <= i < p ==> is_loaded(world, #[trigger] ds[i]));
                        assert(!is_loaded(world, ds[p as int]));
                    }
                    return Err(stop);
                },
                None => {
                    let stop = BuildStop::Need(LoadRequest::Document { path: included_path.clone() });
                    proof {
                        let ds = path_views(work.discovered_paths@);
                        assert(unloaded_include_stop(world, target@, ds[p as int], stop));
                        assert(forall|i: int| 0 <= i < p ==> is_loaded(world, #[trigger] ds[i]));
                        assert(!is_loaded(world, ds[p as int]));
                    }
                    return Err(stop);
                },
            },
        }
        p = p + 1;
    }
    proof {
        let d = path_views(work.discovered_paths@);
        assert forall|q: Seq<char>| #[trigger] d.contains(q) implies is_loaded(world, q) && discovered_path(world, q) by {
            let j = choose|j: int| 0 <= j < d.len() && d[j] == q;
        }
    }
    let ghost kids0 = included_contexts@;
    let ghost ctxs0 = processed@;
    let result = process_included(world, &work.discovered_paths, constants, active, processed, included_contexts);
    match result {
        Ok(()) => {},
        Err(stop) => {
            return Err(stop);
        },
    }
    proof {
        let inc = work.followed;
        let (i, x) = choose|i: int, x: int|
            0 <= i < world.documents@.len() && world.documents@[i] == *document && 0 <= x
                < document.includes@.len() && document.includes@[x] == *directive;
        assert(world.documents@[i].includes@[x] == *directive);
        assert(inc.target_text@ == include_target(world.documents@[i].includes@[x], env_seq));
        assert(world.documents@[i].path@ == inc.including_document@);
        if !remote_target(target@) {
            lemma_probe_index(world.probes@, document.path@, target@);
        }
        assert(include_ok(world, inc));
    }
    let ghost incs0 = direct_includes@;
    direct_includes.push(work.followed);
    proof {
        assert forall|m: int| 0 <= m < direct_includes@.len() implies include_ok(world, #[trigger] direct_includes@[m]) by {
            if m < incs0.len() {
                assert(direct_includes@[m] == incs0[m]);
            }
        }
        let env = bound_values(env_seq);
        assert(target@ == target_under(*directive, env));
        let kv = included_view(processed@, included_contexts@);
        let ds = unvisited(path_views(work.discovered_paths@), path_views(old(active)@));
        assert(direct_includes@[incs0.len() as int] == work.followed);
        assert(include_resolved(
            world,
            *document,
            path_views(old(active)@),
            kv,
            direct_includes@,
            *directive,
            env,
            kids0.len() as int,
            incs0.len() as int,
        ));
    }
    Ok(())
}

/// The directives of one document being processed: its base, then its constants and includes.
#[verifier::rlimit(60)]
fn process_directives(
    world: &LoadWorld,
    document: &LoadedDocument,
    document_id: &DocumentId,
    inherited: &ConstantEnvironment,
    active: &mut Vec<String>,
    processed: &mut Vec<ProcessedDocumentContext>,
) -> (r: Result<(ConstantEnvironment, Option<usize>, Vec<ResolvedInclude>, Vec<usize>), BuildStop>)
    requires
        env_distinct(inherited.bindings@),
        document_id@ == document.path@,
        exists|i: int| 0 <= i < world.documents@.len() && world.documents@[i] == *document,
        active_ok(world, old(active)@),
        old(active)@.len() > 0,
        contexts_sound(old(processed)@, world),
    ensures
        final(active)@ == old(active)@,
        contexts_sound(final(processed)@, world),
        final(processed)@.len() >= old(processed)@.len(),
        keeps_prefix(final(processed)@, old(processed)@),
        r matches Err(stop) ==> stop_progress(world, stop),
        r matches Err(BuildStop::Need(LoadRequest::Document { path })) ==> discovered_path(world, path@),
        r matches Err(stop) ==> directives_stop(
            world,
            *document,
            inherited.bindings@,
            path_views(old(active)@),
            final(processed)@,
            stop,
        ),
        world_complete(world) ==> r is Ok,
        r matches Ok((env, base, incs, included)) ==> {
            &&& env_distinct(env.bindings@)
            &&& (base matches Some(b) ==> b < final(processed)@.len() && bound_values(
                final(processed)@[b as int].key.inherited_constants@,
            ) == bound_values(inherited.bindings@))
            &&& (base is Some <==> document.base is Some)
            &&& forall|k: int| 0 <= k < included@.len() ==> (#[trigger] included@[k]) < final(processed)@.len()
            &&& forall|m: int| 0 <= m < incs@.len() ==> include_ok(world, #[trigger] incs@[m])
            &&& follows_directives(
                world,
                *document,
                path_views(old(active)@),
                match base {
                    Some(b) => bound_values(final(processed)@[b as int].exported_constants.bindings@),
                    None => bound_values(inherited.bindings@),
                },
                included_view(final(processed)@, included@),
                incs@,
                bound_values(env.bindings@),
            )
        },
        document.base is None && (forall|k: int|
            0 <= k < document.events@.len() ==> #[trigger] document.events@[k] is ConstantDefinition) ==> (r matches Ok(
            (env, base, incs, included),
        ) && incs@.len() == 0 && included@.len() == 0),
    decreases world.documents@.len() - old(active)@.len(), 3int,
{
    let mut constants = copy_environment(inherited);
    let mut base_context: Option<usize> = None;
    let mut direct_includes: Vec<ResolvedInclude> = Vec::new();
    let mut included_contexts: Vec<usize> = Vec::new();
    let ghost active0 = active@;
    if let Some(base) = &document.base {
        let normalized = crate::includes::normalized_directive_value(base.raw_value.as_str(), &base.value_kind);
        let target = expand_string_substitutions(normalized.as_str(), &constants);
        let unasked = unasked_probe();
        let probe = if crate::workspace::discovery::is_remote_include(target.as_str()) {
            &unasked
        } else {
            match find_probe(world, document.path.as_str(), target.as_str()) {
                Some(p) => p,
                None => {
                    proof {
                        let i = choose|i: int| 0 <= i < world.documents@.len() && world.documents@[i] == *document;
                        assert(target@ == expand(normalized_value(base.raw_value@, base.value_kind), constants.bindings@));
                        assert(probe_owed(world, document.path@, target@));
                    }
                    return Err(
                        BuildStop::Need(
                            LoadRequest::Probe { document_path: document.path.clone(), target_text: target },
                        ),
                    );
                },
            }
        };
        let resolved = match resolve_workspace_base(document_id, base, &constants, probe) {
            Ok(b) => b,
            Err(e) => {
                proof {
                    if remote_target(target@) {
                        assert(remote_target(target@));
                    } else {
                        lemma_probe_index(world.probes@, document.path@, target@);
                        let i = probe_index(world.probes@, document.path@, target@);
                        assert(base_outcome(world.probes@[i].1@, world.probes@[i].0@, world.probes@[i].2)
                            == base_outcome(target@, document_id@, *probe));
                    }
                }
                return Err(BuildStop::Failed(e));
            },
        };
        match find_document(world, resolved.path.as_str()) {
            Some(_) => {},
            None => match find_unreadable(world, resolved.path.as_str()) {
                Some(e) => {
                    proof {
                        lemma_unreadable_index(world.unreadable@, resolved.path@);
                        let k = unreadable_index(world.unreadable@, resolved.path@);
                        assert(load_message("failed to load workspace base "@, resolved.target_text@, world.unreadable@[k].1@)
                            == "failed to load workspace base "@ + resolved.target_text@ + ": "@ + e@);
                    }
                    return Err(
                        BuildStop::Failed(
                            base_load_failure(
                                document_id,
                                base,
                                resolved.target_text.as_str(),
                                resolved.path.as_str(),
                                e,
                            ),
                        ),
                    );
                },
                None => {
                    proof {
                        if !remote_target(target@) {
                            lemma_probe_index(world.probes@, document.path@, target@);
                            let i = probe_index(world.probes@, document.path@, target@);
                            assert(base_outcome(world.probes@[i].1@, world.probes@[i].0@, world.probes@[i].2)
                                == BaseOutcome::Resolved(resolved.path@));
                            assert(include_outcome(world.probes@[i].1@, world.probes@[i].0@, world.probes@[i].2)
                                == include_outcome(world.probes@[i].1@, world.probes@[i].0@, world.probes@[i].2));
                            assert(0 <= i < world.probes@.len());
                            assert((include_outcome(world.probes@[i].1@, world.probes@[i].0@, world.probes@[i].2)
                                matches IncludeOutcome::Target { discovered, .. } && discovered.contains(resolved.path@))
                                || base_outcome(world.probes@[i].1@, world.probes@[i].0@, world.probes@[i].2)
                                == BaseOutcome::Resolved(resolved.path@));
                            assert(discovered_path(world, resolved.path@));
                        }
                    }
                    return Err(BuildStop::Need(LoadRequest::Document { path: resolved.path.clone() }));
                },
            },
        }
        if path_is_active(active, resolved.path.as_str()) {
            return Err(
                BuildStop::Failed(
                    base_cycle_failure(document_id, base, resolved.target_text.as_str(), resolved.path.as_str()),
                ),
            );
        }
        let ghost ctxs0 = processed@;
        let ghost env0 = constants.bindings@;
        let count_before = processed.len();
        match process_document_context(world, &resolved.path, &constants, active, processed) {
            Ok(child) => {
                base_context = Some(child);
                constants = copy_environment(&processed[child].exported_constants);
                proof {
                    let found = context_index(ctxs0, resolved.path@, env0);
                    lemma_context_index(ctxs0, resolved.path@, env0);
                    if found >= 0 {
                        assert(context_matches(ctxs0, found, resolved.path@, env0));
                        assert(env_distinct(ctxs0[found].key.inherited_constants@));
                        lemma_same_sets_values(ctxs0[found].key.inherited_constants@, env0);
                    }
                }
            },
            Err(stop) => {
                proof {
                    assert(child_stop(world, resolved.path@, stop));
                    assert(!path_views(active0).contains(resolved.path@));
                    assert(base_stop(
                        world,
                        document.path@,
                        expand(normalized_value(base.raw_value@, base.value_kind), inherited.bindings@),
                        path_views(active0),
                        stop,
                    ));
                }
                return Err(stop);
            },
        }
    }
    let ghost skip = path_views(active0);
    let ghost start = bound_values(constants.bindings@);
    proof {
        match base_context {
            Some(b) => {
                assert(start == bound_values(processed@[b as int].exported_constants.bindings@));
            },
            None => {},
        }
        assert(included_view(processed@, included_contexts@) =~= Seq::<(Seq<char>, ConstantValues, ConstantValues)>::empty());
    }
    let mut e: usize = 0;
    while e < document.events.len()
        invariant
            active@ == active0,
            active0 == old(active)@,
            skip == path_views(active0),
            active_ok(world, active@),
            active@.len() > 0,
            contexts_sound(processed@, world),
            processed@.len() >= old(processed)@.len(),
            keeps_prefix(processed@, old(processed)@),
            document_id@ == document.path@,
            exists|i: int| 0 <= i < world.documents@.len() && world.documents@[i] == *document,
            forall|m: int| 0 <= m < direct_includes@.len() ==> include_ok(world, #[trigger] direct_includes@[m]),
            env_distinct(constants.bindings@),
            base_context matches Some(b) ==> b < processed@.len() && start == bound_values(
                processed@[b as int].exported_constants.bindings@,
            ) && bound_values(processed@[b as int].key.inherited_constants@) == bound_values(inherited.bindings@),
            base_context is None ==> start == bound_values(inherited.bindings@),
            base_context is Some <==> document.base is Some,
            document.base is None && (forall|k: int|
                0 <= k < document.events@.len() ==> #[trigger] document.events@[k] is ConstantDefinition) ==> (
            direct_includes@.len() == 0 && included_contexts@.len() == 0),
            forall|k: int| 0 <= k < included_contexts@.len() ==> (#[trigger] included_contexts@[k]) < processed@.len(),
            e <= document.events@.len(),
            directive_walk(world, *document, skip, start, included_view(processed@, included_contexts@), e as int) == (
                bound_values(constants.bindings@),
                included_contexts@.len() as int,
                direct_includes@.len() as int,
            ),
            forall|e2: int|
                0 <= e2 < e ==> #[trigger] include_step(
                    world,
                    *document,
                    skip,
                    start,
                    included_view(processed@, included_contexts@),
                    direct_includes@,
                    e2,
                ),
        decreases document.events@.len() - e,
    {
        let ghost ctxs0 = processed@;
        let ghost kids0 = included_contexts@;
        let ghost incs0 = direct_includes@;
        let ghost env0 = constants.bindings@;
        let ghost kv0 = included_view(ctxs0, kids0);
        match document.events[e] {
            WorkspaceDirectiveEvent::ConstantDefinition(index) => {
                if index < document.constants.len() {
                    apply_constant_definition(&document.constants[index], &mut constants);
                    proof {
                        let c = document.constants@[index as int];
                        assert(bound_values(constants.bindings@) =~= bind(
                            bound_values(env0),
                            c.name@,
                            expand_with(c.value@, bound_values(env0)),
                        ));
                    }
                }
                proof {
                    assert(include_step(world, *document, skip, start, kv0, incs0, e as int));
                }
            },
            WorkspaceDirectiveEvent::IncludeDirective(index) => {
                if index < document.includes.len() {
                    let directive = &document.includes[index];
                    proof {
                        let i = choose|i: int| 0 <= i < world.documents@.len() && world.documents@[i] == *document;
                        assert(world.documents@[i] == *document && document.includes@[index as int] == *directive);
                    }
                    let step = process_include_event(
                        world,
                        document,
                        document_id,
                        directive,
                        &mut constants,
                        active,
                        processed,
                        &mut included_contexts,
                        &mut direct_includes,
                    );
                    match step {
                        Ok(()) => {},
                        Err(stop) => {
                            proof {
                                let ctxs1 = processed@;
                                lemma_kids_extend(ctxs0, ctxs1, kids0, kids0);
                                let kv = included_view(ctxs1, kids0);
                                assert(kv =~= kv0);
                                assert forall|k: int| 0 <= k < kids0.len() implies (#[trigger] kids0[k]) < ctxs1.len() by {
                                    assert(kids0[k] < ctxs0.len());
                                }
                                match base_context {
                                    Some(b) => {
                                        assert(ctxs1[b as int] == ctxs0[b as int]);
                                        assert(start == bound_values((#[trigger] ctxs1[b as int]).exported_constants.bindings@));
                                    },
                                    None => {},
                                }
                                assert(directives_start(*document, inherited.bindings@, ctxs1, start));
                                assert(document.events@[e as int] == WorkspaceDirectiveEvent::IncludeDirective(index));
                                assert(directive_walk(world, *document, skip, start, kv, e as int).0 == bound_values(env0));
                                assert(forall|e2: int|
                                    0 <= e2 < e ==> #[trigger] include_step(world, *document, skip, start, kv, incs0, e2));
                                assert(include_stop(
                                    world,
                                    document.path@,
                                    target_under(
                                        document.includes@[index as int],
                                        directive_walk(world, *document, skip, start, kv, e as int).0,
                                    ),
                                    skip,
                                    stop,
                                ));
                                assert(incs0.len() == incs0.len());
                                assert(event_stop(world, *document, skip, start, ctxs1, e as int, stop));
                            }
                            return Err(stop);
                        },
                    }
                    proof {
                        let ctxs1 = processed@;
                        let kids1 = included_contexts@;
                        let incs1 = direct_includes@;
                        let kv1 = included_view(ctxs1, kids1);
                        lemma_kids_extend(ctxs0, ctxs1, kids0, kids1);
                        lemma_walk_extend(world, *document, skip, start, kv0, kv1, e as int);
                        lemma_walk_counts(world, *document, skip, start, kv0, e as int);
                        assert forall|e2: int| 0 <= e2 < e + 1 implies #[trigger] include_step(
                            world,
                            *document,
                            skip,
                            start,
                            kv1,
                            incs1,
                            e2,
                        ) by {
                            if e2 < e {
                                lemma_walk_mono(world, *document, skip, start, kv0, e2 + 1, e as int);
                                lemma_step_extend(world, *document, skip, start, kv0, kv1, incs0, incs1, e2);
                            }
                        }
                    }
                } else {
                    proof {
                        assert(include_step(world, *document, skip, start, kv0, incs0, e as int));
                    }
                }
            },
        }
        e = e + 1;
    }
    Ok((constants, base_context, direct_includes, included_contexts))
}

/// One requested workspace root: its normalized path, and whether it is a file.
pub struct WorkspaceRoot {
    /// The normalized path.
    pub path: String,
    /// Whether the path names a file rather than a directory.
    pub is_file: bool,
}

/// Paths in strictly increasing order.
pub open spec fn paths_sorted(s: Seq<Seq<char>>) -> bool {
    forall|i: int, j: int| 0 <= i < j < s.len() ==> seq_lt(#[trigger] s[i], #[trigger] s[j])
}

/// Adds a path to a sorted list of distinct paths.
pub(crate) fn insert_path_sorted(paths: &mut Vec<String>, p: &String)
    ensures
        path_views(final(paths)@).contains(p@),
        forall|q: Seq<char>| #[trigger] path_views(old(paths)@).contains(q) ==> path_views(final(paths)@).contains(q),
        forall|q: Seq<char>| #[trigger] path_views(final(paths)@).contains(q) ==> (path_views(old(paths)@).contains(q) || q == p@),
        paths_sorted(path_views(old(paths)@)) ==> paths_sorted(path_views(final(paths)@)),
{
    let ghost before = paths@;
    let ghost v0 = path_views(before);
    let mut k: usize = 0;
    while k < paths.len() && crate::rule::str_lt(paths[k].as_str(), p.as_str())
        invariant
            paths@ == before,
            v0 == path_views(before),
            k <= paths@.len(),
            forall|j: int| 0 <= j < k ==> seq_lt(#[trigger] v0[j], p@),
        decreases paths@.len() - k,
    {
        k = k + 1;
    }
    if k < paths.len() && crate::text::str_eq(paths[k].as_str(), p.as_str()) {
        assert(path_views(paths@)[k as int] == p@);
        return ;
    }
    proof {
        if k < paths@.len() {
            assert(!seq_lt(v0[k as int], p@));
            assert(v0[k as int] != p@);
            lemma_seq_lt_total(v0[k as int], p@);
        }
    }
    paths.insert(k, p.clone());
    proof {
        let v1 = path_views(paths@);
        assert(v1 =~= v0.insert(k as int, p@));
        assert(v1[k as int] == p@);
        assert forall|q: Seq<char>| v0.contains(q) implies v1.contains(q) by {
            let j = choose|j: int| 0 <= j < v0.len() && v0[j] == q;
            if j < k {
                assert(v1[j] == q);
            } else {
                assert(v1[j + 1] == q);
            }
        }
        assert forall|q: Seq<char>| v1.contains(q) implies (v0.contains(q) || q == p@) by {
            let j = choose|j: int| 0 <= j < v1.len() && v1[j] == q;
            if j < k {
                assert(v0[j] == q);
            } else if j > k {
                assert(v0[j - 1] == q);
            }
        }
        if paths_sorted(v0) {
            assert forall|i: int, j: int| 0 <= i < j < v1.len() implies seq_lt(#[trigger] v1[i], #[trigger] v1[j]) by {
                if j < k {
                    assert(v1[i] == v0[i] && v1[j] == v0[j]);
                } else if j == k {
                    assert(v1[i] == v0[i]);
                } else if i == k {
                    assert(v1[j] == v0[j - 1]);
                    if j - 1 > k {
                        assert(seq_lt(v0[k as int], v0[j - 1]));
                        lemma_seq_lt_trans(p@, v0[k as int], v0[j - 1]);
                    }
                } else if i < k {
                    assert(v1[i] == v0[i] && v1[j] == v0[j - 1]);
                    if i < j - 1 {
                    }
                } else {
                    assert(v1[i] == v0[i - 1] && v1[j] == v0[j - 1]);
                }
            }
        }
    }
}

/// Whether `q` is a loaded document under `root`, an entry document when `entries_only`.
pub open spec fn under_root(world: &LoadWorld, q: Seq<char>, root: Seq<char>, entries_only: bool) -> bool {
    exists|i: int|
        0 <= i < world.documents@.len() && (#[trigger] world.documents@[i]).path@ == q && (entries_only
            ==> world.documents@[i].kind == WorkspaceDocumentKind::Entry) && path_under(q, root)
}

/// The loaded documents under a root that pass the filter, sorted, each once.
fn documents_under_root(world: &LoadWorld, root: &str, entries_only: bool) -> (r: Vec<String>)
    ensures
        paths_sorted(path_views(r@)),
        forall|q: Seq<char>| #[trigger] path_views(r@).contains(q) <==> under_root(world, q, root@, entries_only),
        forall|q: Seq<char>| #[trigger] path_views(r@).contains(q) ==> is_loaded(world, q),
{
    let mut paths: Vec<String> = Vec::new();
    let mut i: usize = 0;
    proof {
        assert(path_views(paths@) =~= Seq::<Seq<char>>::empty());
    }
    while i < world.documents.len()
        invariant
            i <= world.documents@.len(),
            paths_sorted(path_views(paths@)),
            forall|q: Seq<char>| #[trigger] path_views(paths@).contains(q) ==> is_loaded(world, q),
            forall|q: Seq<char>|
                #[trigger] path_views(paths@).contains(q) <==> exists|k: int|
                    0 <= k < i && (#[trigger] world.documents@[k]).path@ == q && (entries_only
                        ==> world.documents@[k].kind == WorkspaceDocumentKind::Entry) && path_under(q, root@),
        decreases world.documents@.len() - i,
    {
        let d = &world.documents[i];
        let wanted = !entries_only || match d.kind {
            WorkspaceDocumentKind::Entry => true,
            WorkspaceDocumentKind::Fragment => false,
        };
        let ghost before = path_views(paths@);
        if wanted && path_starts_with(d.path.as_str(), root) {
            proof {
                assert(world.documents@[i as int].path@ == d.path@);
            }
            insert_path_sorted(&mut paths, &d.path);
        }
        proof {
            assert forall|q: Seq<char>| #[trigger] path_views(paths@).contains(q) <==> exists|k: int|
                0 <= k < i + 1 && (#[trigger] world.documents@[k]).path@ == q && (entries_only
                    ==> world.documents@[k].kind == WorkspaceDocumentKind::Entry) && path_under(q, root@) by {
                if path_views(paths@).contains(q) {
                    if before.contains(q) {
                    } else {
                        assert(q == d.path@);
                        assert(world.documents@[i as int] == *d);
                    }
                }
                if exists|k: int|
                    0 <= k < i + 1 && (#[trigger] world.documents@[k]).path@ == q && (entries_only
                        ==> world.documents@[k].kind == WorkspaceDocumentKind::Entry) && path_under(q, root@) {
                    let k = choose|k: int|
                        0 <= k < i + 1 && (#[trigger] world.documents@[k]).path@ == q && (entries_only
                            ==> world.documents@[k].kind == WorkspaceDocumentKind::Entry) && path_under(q, root@);
                    if k < i {
                        assert(before.contains(q));
                    } else {
                        assert(world.documents@[i as int] == *d);
                    }
                }
            }
        }
        i = i + 1;
    }
    paths
}

/// Whether `q` is a path a root starts processing from.
pub open spec fn root_start(world: &LoadWorld, root: WorkspaceRoot, q: Seq<char>) -> bool {
    if root.is_file {
        q == root.path@
    } else if exists|e: Seq<char>| #[trigger] under_root(world, e, root.path@, true) {
        under_root(world, q, root.path@, true)
    } else {
        under_root(world, q, root.path@, false)
    }
}

/// The paths a root starts processing from: the root itself when it is a file; else the entry
/// documents under it; else, when it has none, every document under it.
pub fn start_paths_for_root(world: &LoadWorld, root: &WorkspaceRoot) -> (r: Vec<String>)
    ensures
        !root.is_file ==> forall|q: Seq<char>| #[trigger] path_views(r@).contains(q) ==> is_loaded(world, q),
        root.is_file ==> r@.len() == 1 && r@[0]@ == root.path@,
        paths_sorted(path_views(r@)),
        forall|q: Seq<char>| #[trigger] path_views(r@).contains(q) <==> root_start(world, *root, q),
{
    if root.is_file {
        let mut v: Vec<String> = Vec::new();
        v.push(root.path.clone());
        proof {
            assert(path_views(v@) =~= seq![root.path@]);
            assert forall|q: Seq<char>| #[trigger] path_views(v@).contains(q) <==> root_start(world, *root, q) by {
                if q == root.path@ {
                    assert(path_views(v@)[0] == q);
                }
            }
        }
        return v;
    }
    let entries = documents_under_root(world, root.path.as_str(), true);
    if entries.len() > 0 {
        proof {
            assert(path_views(entries@)[0] == entries@[0]@);
            assert(path_views(entries@).contains(entries@[0]@));
            assert(under_root(world, entries@[0]@, root.path@, true));
        }
        entries
    } else {
        proof {
            assert forall|e: Seq<char>| !under_root(world, e, root.path@, true) by {
                if under_root(world, e, root.path@, true) {
                    assert(path_views(entries@).contains(e));
                }
            }
        }
        documents_under_root(world, root.path.as_str(), false)
    }
}

/// The contexts of one load and the ones each workspace instance starts from.
pub struct ContextBuild {
    /// Every processed context.
    pub contexts: Vec<ProcessedDocumentContext>,
    /// The start contexts, one per instance, in path order.
    pub starts: Vec<usize>,
}

/// Whether `q` is a path some root starts processing from.
pub open spec fn is_start_path(world: &LoadWorld, roots: Seq<WorkspaceRoot>, q: Seq<char>) -> bool {
    exists|k: int| 0 <= k < roots.len() && root_start(world, #[trigger] roots[k], q)
}

/// The paths of the start contexts of a build, in order.
pub open spec fn start_context_paths(b: ContextBuild) -> Seq<Seq<char>> {
    b.starts@.map_values(|i: usize| b.contexts@[i as int].key.path@)
}

/// Processes every start path of the roots, in path order, without inherited constants.
pub fn build_contexts(world: &LoadWorld, roots: &Vec<WorkspaceRoot>) -> (r: Result<ContextBuild, BuildStop>)
    ensures
        r matches Ok(b) ==> contexts_sound(b.contexts@, world) && forall|j: int|
            0 <= j < b.starts@.len() ==> (#[trigger] b.starts@[j]) < b.contexts@.len(),
        r matches Ok(b) ==> paths_sorted(start_context_paths(b)) && forall|q: Seq<char>|
            #[trigger] start_context_paths(b).contains(q) <==> is_start_path(world, roots@, q),
        r matches Err(stop) ==> stop_progress(world, stop),
        r matches Err(BuildStop::Need(LoadRequest::Document { path })) ==> is_start_path(world, roots@, path@)
            || discovered_path(world, path@),
        r matches Err(stop) ==> exists|q: Seq<char>, ctxs: Seq<ProcessedDocumentContext>|
            #[trigger] is_start_path(world, roots@, q) && contexts_sound(ctxs, world) && #[trigger] document_stop(
                world,
                q,
                Seq::<(String, String)>::empty(),
                Seq::<Seq<char>>::empty(),
                ctxs,
                stop,
            ),
        roots@.len() == 0 ==> (r matches Ok(b) && b.starts@.len() == 0),
        self_contained(world) && (forall|k: int|
            0 <= k < roots@.len() && (#[trigger] roots@[k]).is_file ==> is_loaded(world, roots@[k].path@)) ==> r is Ok,
        world_complete(world) && (forall|k: int|
            0 <= k < roots@.len() && (#[trigger] roots@[k]).is_file ==> is_loaded(world, roots@[k].path@)) ==> r is Ok,
{
    let mut starts_paths: Vec<String> = Vec::new();
    let mut k: usize = 0;
    proof {
        assert(path_views(starts_paths@) =~= Seq::<Seq<char>>::empty());
    }
    while k < roots.len()
        invariant
            k <= roots@.len(),
            paths_sorted(path_views(starts_paths@)),
            forall|q: Seq<char>|
                #[trigger] path_views(starts_paths@).contains(q) <==> exists|k2: int|
                    0 <= k2 < k && root_start(world, #[trigger] roots@[k2], q),
        decreases roots@.len() - k,
    {
        let paths = start_paths_for_root(world, &roots[k]);
        let ghost before = path_views(starts_paths@);
        let mut j: usize = 0;
        while j < paths.len()
            invariant
                k < roots@.len(),
                j <= paths@.len(),
                paths_sorted(path_views(starts_paths@)),
                forall|q: Seq<char>|
                    #[trigger] path_views(starts_paths@).contains(q) <==> (before.contains(q) || exists|j2: int|
                        0 <= j2 < j && (#[trigger] paths@[j2])@ == q),
            decreases paths@.len() - j,
        {
            let ghost b0 = path_views(starts_paths@);
            insert_path_sorted(&mut starts_paths, &paths[j]);
            proof {
                assert forall|q: Seq<char>| #[trigger] path_views(starts_paths@).contains(q) <==> (before.contains(q)
                    || exists|j2: int| 0 <= j2 < j + 1 && (#[trigger] paths@[j2])@ == q) by {
                    if exists|j2: int| 0 <= j2 < j + 1 && (#[trigger] paths@[j2])@ == q {
                        let j2 = choose|j2: int| 0 <= j2 < j + 1 && (#[trigger] paths@[j2])@ == q;
                        if j2 < j {
                            assert(b0.contains(q));
                        }
                    }
                    if path_views(starts_paths@).contains(q) && !b0.contains(q) {
                        assert(paths@[j as int]@ == q);
                    }
                }
            }
            j = j + 1;
        }
        proof {
            assert forall|q: Seq<char>| #[trigger] path_views(starts_paths@).contains(q) <==> exists|k2: int|
                0 <= k2 < k + 1 && root_start(world, #[trigger] roots@[k2], q) by {
                let pv = path_views(paths@);
                if exists|j2: int| 0 <= j2 < paths@.len() && (#[trigger] paths@[j2])@ == q {
                    let j2 = choose|j2: int| 0 <= j2 < paths@.len() && (#[trigger] paths@[j2])@ == q;
                    assert(pv[j2] == q);
                    assert(pv.contains(q));
                    assert(root_start(world, roots@[k as int], q));
                }
                if root_start(world, roots@[k as int], q) {
                    assert(pv.contains(q));
                    let j2 = choose|j2: int| 0 <= j2 < pv.len() && pv[j2] == q;
                    assert(paths@[j2]@ == q);
                }
                if exists|k2: int| 0 <= k2 < k + 1 && root_start(world, #[trigger] roots@[k2], q) {
                    let k2 = choose|k2: int| 0 <= k2 < k + 1 && root_start(world, #[trigger] roots@[k2], q);
                    if k2 < k {
                        assert(before.contains(q));
                    }
                }
            }
        }
        k = k + 1;
    }
    let mut contexts: Vec<ProcessedDocumentContext> = Vec::new();
    let mut starts: Vec<usize> = Vec::new();
    let mut active: Vec<String> = Vec::new();
    let empty = ConstantEnvironment::new();
    let ghost sp = path_views(starts_paths@);
    let ghost files_loaded = forall|k: int|
        0 <= k < roots@.len() && (#[trigger] roots@[k]).is_file ==> is_loaded(world, roots@[k].path@);
    proof {
        assert forall|j: int| 0 <= j < sp.len() implies is_start_path(world, roots@, #[trigger] sp[j]) by {
            assert(sp.contains(sp[j]));
        }
        if files_loaded {
            assert forall|j: int| 0 <= j < sp.len() implies is_loaded(world, #[trigger] sp[j]) by {
                assert(sp.contains(sp[j]));
                let k2 = choose|k2: int| 0 <= k2 < roots@.len() && root_start(world, #[trigger] roots@[k2], sp[j]);
                if !roots@[k2].is_file {
                    if exists|e: Seq<char>| #[trigger] under_root(world, e, roots@[k2].path@, true) {
                        assert(under_root(world, sp[j], roots@[k2].path@, true));
                    } else {
                        assert(under_root(world, sp[j], roots@[k2].path@, false));
                    }
                }
            }
        }
        assert(path_views(active@) =~= Seq::<Seq<char>>::empty());
        if roots@.len() == 0 && sp.len() > 0 {
            assert(sp.contains(sp[0]));
        }
    }
    let mut s: usize = 0;
    while s < starts_paths.len()
        invariant
            active@.len() == 0,
            env_distinct(empty.bindings@),
            empty.bindings@.len() == 0,
            contexts_sound(contexts@, world),
            sp == path_views(starts_paths@),
            roots@.len() == 0 ==> starts_paths@.len() == 0,
            files_loaded == forall|k: int|
                0 <= k < roots@.len() && (#[trigger] roots@[k]).is_file ==> is_loaded(world, roots@[k].path@),
            files_loaded ==> forall|j: int| 0 <= j < sp.len() ==> is_loaded(world, #[trigger] sp[j]),
            forall|j: int| 0 <= j < sp.len() ==> is_start_path(world, roots@, #[trigger] sp[j]),
            s <= starts_paths@.len(),
            starts@.len() == s,
            forall|j: int| 0 <= j < starts@.len() ==> (#[trigger] starts@[j]) < contexts@.len(),
            forall|j: int| 0 <= j < starts@.len() ==> contexts@[(#[trigger] starts@[j]) as int].key.path@ == sp[j],
        decreases starts_paths@.len() - s,
    {
        proof {
            assert(path_views(active@) =~= Seq::<Seq<char>>::empty());
        }
        let ghost c0 = contexts@;
        proof {
            if files_loaded {
                assert(is_loaded(world, sp[s as int]));
            }
        }
        match process_document_context(world, &starts_paths[s], &empty, &mut active, &mut contexts) {
            Ok(i) => {
                let ghost before = starts@;
                starts.push(i);
                proof {
                    assert forall|j: int| 0 <= j < starts@.len() implies (#[trigger] starts@[j]) < contexts@.len() by {
                        if j < before.len() {
                            assert(starts@[j] == before[j]);
                        }
                    }
                    assert forall|j: int| 0 <= j < starts@.len() implies contexts@[(#[trigger] starts@[j]) as int].key.path@
                        == sp[j] by {
                        if j < before.len() {
                            assert(starts@[j] == before[j]);
                            assert(contexts@[before[j] as int] == c0[before[j] as int]);
                        }
                    }
                }
            },
            Err(stop) => {
                proof {
                    assert(starts_paths@[s as int]@ == sp[s as int]);
                    assert(is_start_path(world, roots@, sp[s as int]));
                    assert(empty.bindings@ =~= Seq::<(String, String)>::empty());
                    assert(document_stop(
                        world,
                        sp[s as int],
                        Seq::<(String, String)>::empty(),
                        Seq::<Seq<char>>::empty(),
                        contexts@,
                        stop,
                    ));
                }
                return Err(stop);
            },
        }
        s = s + 1;
    }
    let b = ContextBuild { contexts, starts };
    proof {
        assert(start_context_paths(b) =~= sp);
    }
    Ok(b)
}

} // verus!
