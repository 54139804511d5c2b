//! Diagnostics for followed `!include` directives, ordered for stable reporting.

use vstd::prelude::*;
use vstd::seq_lib::{to_multiset_build, to_multiset_insert};

use crate::diagnostics::{code_of, include_shaped, RuledDiagnostic};
use crate::workspace::ordering::{diags_sorted, insert_diagnostic_sorted};
use crate::workspace::cycles::{cycle_include_indices, cycle_report};
use crate::workspace::model::{ResolvedInclude, WorkspaceIncludeTarget};

verus! {

/// What an include can be reported for.
#[derive(PartialEq, Eq, Structural)]
pub enum IncludeFinding {
    /// Its local target does not exist.
    MissingTarget,
    /// Its local target escapes the including document's subtree.
    EscapesSubtree,
    /// Its target is remote and is not followed.
    RemoteTarget,
    /// It takes part in an include cycle.
    Cycle,
}

/// The finding a target shape is reported under, if it is reported at all.
pub open spec fn target_finding(t: WorkspaceIncludeTarget) -> Option<IncludeFinding> {
    match t {
        WorkspaceIncludeTarget::MissingLocalPath { .. } => Some(IncludeFinding::MissingTarget),
        WorkspaceIncludeTarget::UnsupportedLocalPath { .. } => Some(IncludeFinding::EscapesSubtree),
        WorkspaceIncludeTarget::RemoteUrl { .. } => Some(IncludeFinding::RemoteTarget),
        _ => None,
    }
}

/// The rule code each finding is reported under.
pub open spec fn finding_code(f: IncludeFinding) -> Seq<char> {
    match f {
        IncludeFinding::MissingTarget => "include.missing-local-target"@,
        IncludeFinding::EscapesSubtree => "include.escapes-allowed-subtree"@,
        IncludeFinding::RemoteTarget => "include.unsupported-remote-target"@,
        IncludeFinding::Cycle => "include.cycle"@,
    }
}

/// The message each finding reports for a target.
pub open spec fn finding_message(f: IncludeFinding, target: Seq<char>) -> Seq<char> {
    match f {
        IncludeFinding::MissingTarget => "included path does not exist: "@ + target,
        IncludeFinding::EscapesSubtree => "included path escapes the allowed subtree: "@ + target,
        IncludeFinding::RemoteTarget => "remote includes are not resolved in the MVP: "@ + target,
        IncludeFinding::Cycle => "include cycle detected while following: "@ + target,
    }
}

/// What the first `n` includes report, in order: each include's target problem, then its
/// cycle when it is one of `cycles`.
pub open spec fn findings(incs: Seq<ResolvedInclude>, cycles: Seq<usize>, n: int) -> Seq<(int, IncludeFinding)>
    decreases n,
{
    if n <= 0 {
        Seq::empty()
    } else {
        let i = n - 1;
        let before = findings(incs, cycles, n - 1);
        let with_target = match target_finding(incs[i].target) {
            Some(c) => before.push((i, c)),
            None => before,
        };
        if cycles.contains(i as usize) {
            with_target.push((i, IncludeFinding::Cycle))
        } else {
            with_target
        }
    }
}

/// Diagnostic `d` reports finding `f` of an include.
pub open spec fn reports_finding(incs: Seq<ResolvedInclude>, d: RuledDiagnostic, f: (int, IncludeFinding)) -> bool {
    &&& 0 <= f.0 < incs.len()
    &&& code_of(d) == finding_code(f.1)
    &&& d.diagnostic.message@ == finding_message(f.1, incs[f.0].target_text@)
    &&& include_shaped(d, incs[f.0].including_document, incs[f.0].target_text@, incs[f.0].span, incs[f.0].value_span)
}

/// `r` reports exactly `fs`, in some order.
pub open spec fn reports_all(incs: Seq<ResolvedInclude>, r: Seq<RuledDiagnostic>, fs: Seq<(int, IncludeFinding)>) -> bool {
    exists|p: Seq<(int, IncludeFinding)>|
        p.len() == r.len() && p.to_multiset() == fs.to_multiset() && forall|j: int|
            0 <= j < r.len() ==> reports_finding(incs, #[trigger] r[j], p[j])
}

fn holds_index(v: &Vec<usize>, x: usize) -> (r: bool)
    ensures
        r == v@.contains(x),
{
    let mut i: usize = 0;
    while i < v.len()
        invariant
            i <= v@.len(),
            forall|j: int| 0 <= j < i ==> v@[j] != x,
        decreases v@.len() - i,
    {
        if v[i] == x {
            return true;
        }
        i = i + 1;
    }
    false
}

proof fn lemma_insert_reports(
    incs: Seq<ResolvedInclude>,
    before: Seq<RuledDiagnostic>,
    p: Seq<(int, IncludeFinding)>,
    pos: int,
    d: RuledDiagnostic,
    f: (int, IncludeFinding),
)
    requires
        p.len() == before.len(),
        0 <= pos <= before.len(),
        forall|j: int| 0 <= j < before.len() ==> reports_finding(incs, #[trigger] before[j], p[j]),
        reports_finding(incs, d, f),
    ensures
        p.insert(pos, f).len() == before.insert(pos, d).len(),
        forall|j: int|
            0 <= j < before.insert(pos, d).len() ==> reports_finding(
                incs,
                #[trigger] before.insert(pos, d)[j],
                p.insert(pos, f)[j],
            ),
        p.insert(pos, f).to_multiset() == p.to_multiset().insert(f),
{
    let r = before.insert(pos, d);
    let q = p.insert(pos, f);
    assert forall|j: int| 0 <= j < r.len() implies reports_finding(incs, #[trigger] r[j], q[j]) by {
        if j < pos {
            assert(r[j] == before[j] && q[j] == p[j]);
        } else if j > pos {
            assert(r[j] == before[j - 1] && q[j] == p[j - 1]);
        }
    }
    to_multiset_insert(p, pos, f);
}

/// The include diagnostics for the given cycle members, ordered by document, start byte, rule
/// code and target text.
///
/// Each include whose target is missing, escapes the including document's subtree, or is
/// remote reports that; each include among `cycles` also reports an include cycle.
#[verifier::rlimit(40)]
pub fn include_diagnostics_with_cycles(resolved_includes: &Vec<ResolvedInclude>, cycles: &Vec<usize>) -> (r: Vec<
    RuledDiagnostic,
>)
    ensures
        diags_sorted(r@, false),
        reports_all(resolved_includes@, r@, findings(resolved_includes@, cycles@, resolved_includes@.len() as int)),
{
    let mut r: Vec<RuledDiagnostic> = Vec::new();
    let ghost mut p: Seq<(int, IncludeFinding)> = Seq::empty();
    let mut i: usize = 0;
    while i < resolved_includes.len()
        invariant
            i <= resolved_includes@.len(),
            diags_sorted(r@, false),
            p.len() == r@.len(),
            p.to_multiset() == findings(resolved_includes@, cycles@, i as int).to_multiset(),
            forall|j: int| 0 <= j < r@.len() ==> reports_finding(resolved_includes@, #[trigger] r@[j], p[j]),
        decreases resolved_includes@.len() - i,
    {
        let inc = &resolved_includes[i];
        let ghost fs0 = findings(resolved_includes@, cycles@, i as int);
        let found: Option<RuledDiagnostic> = match &inc.target {
            WorkspaceIncludeTarget::MissingLocalPath { .. } => Some(
                RuledDiagnostic::missing_local_target(
                    &inc.including_document,
                    inc.target_text.as_str(),
                    inc.span,
                    inc.value_span,
                ),
            ),
            WorkspaceIncludeTarget::UnsupportedLocalPath { .. } => Some(
                RuledDiagnostic::escapes_allowed_subtree(
                    &inc.including_document,
                    inc.target_text.as_str(),
                    inc.span,
                    inc.value_span,
                ),
            ),
            WorkspaceIncludeTarget::RemoteUrl { .. } => Some(
                RuledDiagnostic::unsupported_remote_target(
                    &inc.including_document,
                    inc.target_text.as_str(),
                    inc.span,
                    inc.value_span,
                ),
            ),
            _ => None,
        };
        let ghost fs1 = match target_finding(inc.target) {
            Some(c) => fs0.push((i as int, c)),
            None => fs0,
        };
        match found {
            Some(d) => {
                let ghost before = r@;
                let ghost f = (i as int, target_finding(inc.target)->0);
                let pos = insert_diagnostic_sorted(&mut r, d, false);
                proof {
                    lemma_insert_reports(resolved_includes@, before, p, pos as int, d, f);
                    to_multiset_build(fs0, f);
                    p = p.insert(pos as int, f);
                }
            },
            None => {},
        }
        assert(p.to_multiset() == fs1.to_multiset());
        if holds_index(cycles, i) {
            let d = RuledDiagnostic::include_cycle(
                &inc.including_document,
                inc.target_text.as_str(),
                inc.span,
                inc.value_span,
            );
            let ghost before = r@;
            let ghost f = (i as int, IncludeFinding::Cycle);
            let pos = insert_diagnostic_sorted(&mut r, d, false);
            proof {
                lemma_insert_reports(resolved_includes@, before, p, pos as int, d, f);
                to_multiset_build(fs1, f);
                p = p.insert(pos as int, f);
            }
        }
        i = i + 1;
    }
    r
}

/// The include diagnostics for one workspace instance: target problems and include cycles.
pub fn include_diagnostics(resolved_includes: &Vec<ResolvedInclude>) -> (r: Vec<RuledDiagnostic>)
    ensures
        diags_sorted(r@, false),
        reports_all(
            resolved_includes@,
            r@,
            findings(resolved_includes@, cycle_report(resolved_includes@), resolved_includes@.len() as int),
        ),
{
    let cycles = cycle_include_indices(resolved_includes);
    include_diagnostics_with_cycles(resolved_includes, &cycles)
}

} // verus!
