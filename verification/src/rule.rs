//! Declarative metadata for diagnostic rules and the registry that orders them.

use vstd::prelude::*;

verus! {

/// Severity used both for declared rule defaults and emitted diagnostics.
#[derive(Debug, Clone, Copy, PartialEq, Eq, Structural, PartialOrd, Ord, Hash)]
pub enum DiagnosticSeverity {
    /// Emit or present the rule as a warning.
    Warning,
    /// Emit the rule as an error.
    Error,
}

/// The stable string form of a severity.
pub open spec fn severity_str(s: DiagnosticSeverity) -> Seq<char> {
    match s {
        DiagnosticSeverity::Warning => "warning"@,
        DiagnosticSeverity::Error => "error"@,
    }
}

impl DiagnosticSeverity {
    /// Returns the stable string form shared by docs, JSON, and text output.
    pub fn as_str(self) -> (r: &'static str)
        ensures
            r@ == severity_str(self),
    {
        match self {
            DiagnosticSeverity::Warning => "warning",
            DiagnosticSeverity::Error => "error",
        }
    }
}

/// Declarative metadata for one diagnostic rule.
#[derive(Debug, Clone, Copy)]
pub struct RuleMetadata {
    /// Stable diagnostic code: the rule's source family, a dot, and its local name.
    pub code: &'static str,
    /// Broad analysis stage name used by renderers.
    pub source: &'static str,
    /// One-line summary of what the rule reports.
    pub summary: &'static str,
    /// Rule documentation carried from the declaration site.
    pub raw_documentation: &'static str,
    /// Default severity when the analysis layer reports this rule.
    pub default_severity: DiagnosticSeverity,
    /// Source file where the rule was declared.
    pub file: &'static str,
    /// One-based line number where the rule was declared.
    pub line: u32,
}

impl RuleMetadata {
    /// Returns a cheap copyable handle for this declared rule.
    pub fn id(&self) -> (r: RuleId)
        ensures
            r.definition == *self,
    {
        RuleId::of(*self)
    }

    /// Returns the stable diagnostic code for this rule.
    pub fn code(&self) -> (r: &'static str)
        ensures
            r == self.code,
    {
        self.code
    }

    /// Returns the broad analysis-stage label for this rule.
    pub fn source(&self) -> (r: &'static str)
        ensures
            r == self.source,
    {
        self.source
    }

    /// Returns the one-line summary for this rule.
    pub fn summary(&self) -> (r: &'static str)
        ensures
            r == self.summary,
    {
        self.summary
    }

    /// Returns the declaration-site documentation for this rule.
    pub fn documentation(&self) -> (r: &'static str)
        ensures
            r == self.raw_documentation,
    {
        self.raw_documentation
    }

    /// Returns the default severity for this rule.
    pub fn default_severity(&self) -> (r: DiagnosticSeverity)
        ensures
            r == self.default_severity,
    {
        self.default_severity
    }

    /// Returns the severity for this rule.
    pub fn severity(&self) -> (r: DiagnosticSeverity)
        ensures
            r == self.default_severity,
    {
        self.default_severity
    }

    /// Returns the source file where this rule was declared.
    pub fn file(&self) -> (r: &'static str)
        ensures
            r == self.file,
    {
        self.file
    }

    /// Returns the one-based line number where this rule was declared.
    pub fn line(&self) -> (r: u32)
        ensures
            r == self.line,
    {
        self.line
    }
}

/// Defaults that every declared rule starts from.
pub fn rule_metadata_defaults() -> (r: RuleMetadata)
    ensures
        r.code@ == Seq::<char>::empty(),
        r.source@ == Seq::<char>::empty(),
        r.summary@ == Seq::<char>::empty(),
        r.raw_documentation@ == Seq::<char>::empty(),
        r.default_severity == DiagnosticSeverity::Error,
        r.file@ == Seq::<char>::empty(),
        r.line == 1,
{
    proof {
        reveal_strlit("");
    }
    RuleMetadata {
        code: "",
        source: "",
        summary: "",
        raw_documentation: "",
        default_severity: DiagnosticSeverity::Error,
        file: "",
        line: 1,
    }
}

/// Cheap copyable identity for one declared rule; rules are identified by their code.
#[derive(Debug, Clone, Copy)]
pub struct RuleId {
    /// The declared metadata behind this identity.
    pub definition: RuleMetadata,
}

/// A rule's code is its source family, a dot, and its local name, and the family is one of
/// the analysis stages.
pub open spec fn family_named(m: RuleMetadata) -> bool {
    &&& (m.source@ == "syntax"@ || m.source@ == "include"@ || m.source@ == "workspace"@ || m.source@ == "semantic"@)
    &&& exists|name: Seq<char>| m.code@ == m.source@ + "."@ + name
}

/// The code that identifies a rule.
pub open spec fn rule_code(r: RuleId) -> Seq<char> {
    r.definition.code@
}

impl RuleId {
    /// Creates a rule identifier from one declared rule.
    pub fn of(definition: RuleMetadata) -> (r: Self)
        ensures
            r.definition == definition,
    {
        RuleId { definition }
    }

    /// Returns the underlying declarative metadata.
    pub fn metadata(self) -> (r: RuleMetadata)
        ensures
            r == self.definition,
    {
        self.definition
    }

    /// Returns the stable diagnostic code for this rule.
    pub fn code(self) -> (r: &'static str)
        ensures
            r == self.definition.code,
    {
        self.definition.code
    }

    /// Returns the broad source-family label for this rule.
    pub fn source(self) -> (r: &'static str)
        ensures
            r == self.definition.source,
    {
        self.definition.source
    }

    /// Returns the severity implied by this rule.
    pub fn severity(self) -> (r: DiagnosticSeverity)
        ensures
            r == self.definition.default_severity,
    {
        self.definition.default_severity
    }

    /// Whether two identities name the same rule (same code).
    pub fn same_rule(self, other: RuleId) -> (r: bool)
        ensures
            r == (rule_code(self) == rule_code(other)),
    {
        crate::text::str_eq(self.definition.code, other.definition.code)
    }
}

/// Lexicographic order on character sequences (by code point), as `str`'s `Ord`.
pub open spec fn seq_lt(a: Seq<char>, b: Seq<char>) -> bool
    decreases a.len(),
{
    if a.len() == 0 {
        b.len() > 0
    } else if b.len() == 0 {
        false
    } else if a[0] != b[0] {
        a[0] < b[0]
    } else {
        seq_lt(a.drop_first(), b.drop_first())
    }
}

/// `a <= b` in the lexicographic order.
pub open spec fn seq_le(a: Seq<char>, b: Seq<char>) -> bool {
    a == b || seq_lt(a, b)
}

pub proof fn lemma_seq_lt_irreflexive(a: Seq<char>)
    ensures
        !seq_lt(a, a),
    decreases a.len(),
{
    if a.len() > 0 {
        lemma_seq_lt_irreflexive(a.drop_first());
    }
}

pub proof fn lemma_seq_lt_total(a: Seq<char>, b: Seq<char>)
    ensures
        a == b || seq_lt(a, b) || seq_lt(b, a),
    decreases a.len(),
{
    if a.len() > 0 && b.len() > 0 && a[0] == b[0] {
        lemma_seq_lt_total(a.drop_first(), b.drop_first());
        if a.drop_first() == b.drop_first() {
            assert(a =~= seq![a[0]] + a.drop_first());
            assert(b =~= seq![b[0]] + b.drop_first());
        }
    } else if a.len() > 0 && b.len() > 0 {
    } else if a.len() == 0 && b.len() == 0 {
        assert(a =~= b);
    }
}

pub proof fn lemma_seq_lt_asym(a: Seq<char>, b: Seq<char>)
    ensures
        !(seq_lt(a, b) && seq_lt(b, a)),
    decreases a.len(),
{
    if a.len() > 0 && b.len() > 0 && a[0] == b[0] {
        lemma_seq_lt_asym(a.drop_first(), b.drop_first());
    }
}

pub proof fn lemma_seq_lt_trans(a: Seq<char>, b: Seq<char>, c: Seq<char>)
    requires
        seq_lt(a, b),
        seq_lt(b, c),
    ensures
        seq_lt(a, c),
    decreases a.len(),
{
    if a.len() > 0 && b.len() > 0 && c.len() > 0 && a[0] == b[0] && b[0] == c[0] {
        lemma_seq_lt_trans(a.drop_first(), b.drop_first(), c.drop_first());
    }
}

pub proof fn lemma_seq_lt_common_prefix(a: Seq<char>, b: Seq<char>, i: int)
    requires
        0 <= i <= a.len(),
        i <= b.len(),
        forall|j: int| 0 <= j < i ==> a[j] == b[j],
    ensures
        seq_lt(a, b) == seq_lt(a.skip(i), b.skip(i)),
    decreases i,
{
    if i > 0 {
        lemma_seq_lt_common_prefix(a.drop_first(), b.drop_first(), i - 1);
        assert(a.drop_first().skip(i - 1) =~= a.skip(i));
        assert(b.drop_first().skip(i - 1) =~= b.skip(i));
    } else {
        assert(a.skip(0) =~= a);
        assert(b.skip(0) =~= b);
    }
}

/// Decides `seq_lt(a@, b@)`.
pub fn str_lt(a: &str, b: &str) -> (r: bool)
    ensures
        r == seq_lt(a@, b@),
{
    let ac = crate::text::chars_of(a);
    let bc = crate::text::chars_of(b);
    let mut i: usize = 0;
    while i < ac.len() && i < bc.len()
        invariant
            ac@ == a@,
            bc@ == b@,
            i <= ac.len(),
            i <= bc.len(),
            forall|j: int| 0 <= j < i ==> a@[j] == b@[j],
        decreases ac.len() - i,
    {
        let x = ac[i];
        let y = bc[i];
        if x != y {
            proof {
                lemma_seq_lt_common_prefix(a@, b@, i as int);
                assert(a@.skip(i as int)[0] == x);
                assert(b@.skip(i as int)[0] == y);
            }
            return x < y;
        }
        i = i + 1;
    }
    proof {
        lemma_seq_lt_common_prefix(a@, b@, i as int);
    }
    i < bc.len()
}

/// Whether the rules of `s` are sorted by code.
pub open spec fn sorted_by_code(s: Seq<RuleId>) -> bool {
    forall|i: int, j: int| 0 <= i < j < s.len() ==> seq_lt(rule_code(s[i]), rule_code(s[j]))
}

/// Whether no two rules in `s` share a code.
pub open spec fn distinct_codes(s: Seq<RuleId>) -> bool {
    forall|i: int, j: int|
        0 <= i < s.len() && 0 <= j < s.len() && i != j ==> rule_code(s[i]) != rule_code(s[j])
}

/// Whether `s` holds a rule with `code`.
pub open spec fn has_code(s: Seq<RuleId>, code: Seq<char>) -> bool {
    exists|i: int| 0 <= i < s.len() && rule_code(#[trigger] s[i]) == code
}

/// Builder used to assemble one stable registry of diagnostic rules.
pub struct RuleRegistryBuilder {
    rules: Vec<RuleId>,
}

impl RuleRegistryBuilder {
    /// The rules registered so far, in registration order.
    pub closed spec fn registered(&self) -> Seq<RuleId> {
        self.rules@
    }

    /// Creates an empty builder.
    pub fn new() -> (r: Self)
        ensures
            r.registered() == Seq::<RuleId>::empty(),
    {
        RuleRegistryBuilder { rules: Vec::new() }
    }

    /// Whether a rule with `code` is already registered.
    pub fn contains_code(&self, code: &str) -> (r: bool)
        ensures
            r == has_code(self.registered(), code@),
    {
        let mut i: usize = 0;
        while i < self.rules.len()
            invariant
                i <= self.rules.len(),
                forall|j: int| 0 <= j < i ==> rule_code(#[trigger] self.rules@[j]) != code@,
            decreases self.rules.len() - i,
        {
            if crate::text::str_eq(self.rules[i].definition.code, code) {
                return true;
            }
            i = i + 1;
        }
        false
    }

    /// Registers one diagnostic rule definition.
    ///
    /// A code may be registered only once; registering a duplicate code is a bug
    /// in the rule declarations and is excluded by the precondition.
    pub fn register(&mut self, rule: RuleMetadata)
        requires
            !has_code(old(self).registered(), rule.code@),
        ensures
            final(self).registered() == old(self).registered().push(RuleId { definition: rule }),
    {
        self.rules.push(RuleId::of(rule));
    }

    /// Finalizes the registry into a stable lookup structure ordered by code.
    pub fn build(self) -> (r: RuleRegistry)
        requires
            distinct_codes(self.registered()),
        ensures
            r.rules_view().to_multiset() == self.registered().to_multiset(),
            sorted_by_code(r.rules_view()),
    {
        broadcast use vstd::seq_lib::group_to_multiset_ensures;

        let mut out: Vec<RuleId> = Vec::new();
        let mut k: usize = 0;
        while k < self.rules.len()
            invariant
                k <= self.rules.len(),
                distinct_codes(self.rules@),
                sorted_by_code(out@),
                out@.to_multiset() == self.rules@.take(k as int).to_multiset(),
                forall|x: int| 0 <= x < out@.len() ==> exists|y: int| 0 <= y < k && #[trigger] out@[x] == self.rules@[y],
            decreases self.rules.len() - k,
        {
            let x = self.rules[k];
            proof {
                if has_code(out@, rule_code(x)) {
                    let w = choose|w: int| 0 <= w < out@.len() && rule_code(#[trigger] out@[w]) == rule_code(x);
                    let y = choose|y: int| 0 <= y < k && #[trigger] out@[w] == self.rules@[y];
                    assert(rule_code(self.rules@[y]) == rule_code(self.rules@[k as int]));
                }
            }
            let ghost old_out = out@;
            insert_sorted(&mut out, x);
            proof {
                assert(self.rules@.take(k + 1) =~= self.rules@.take(k as int).push(x));
                self.rules@.take(k as int).to_multiset_ensures();
                assert forall|z: int| 0 <= z < out@.len() implies exists|y: int| 0 <= y < k + 1 && #[trigger] out@[z] == self.rules@[y] by {
                    if out@[z] == x {
                        assert(out@[z] == self.rules@[k as int]);
                    } else {
                        assert(old_out.contains(out@[z]));
                        let w = choose|w: int| 0 <= w < old_out.len() && old_out[w] == out@[z];
                        assert(old_out[w] == out@[z]);
                    }
                }
            }
            k = k + 1;
        }
        assert(self.rules@.take(self.rules@.len() as int) =~= self.rules@);
        RuleRegistry { rules: out }
    }
}

/// Inserts `x` at its position in a code-sorted vector.
fn insert_sorted(out: &mut Vec<RuleId>, x: RuleId)
    requires
        sorted_by_code(old(out)@),
        !has_code(old(out)@, rule_code(x)),
    ensures
        sorted_by_code(final(out)@),
        final(out)@.to_multiset() == old(out)@.to_multiset().insert(x),
        final(out)@.contains(x),
        forall|z: int| 0 <= z < final(out)@.len() ==> (#[trigger] final(out)@[z] == x || old(out)@.contains(final(out)@[z])),
{
    broadcast use vstd::seq_lib::group_to_multiset_ensures;

    let mut p: usize = 0;
    while p < out.len() && str_lt(out[p].definition.code, x.definition.code)
        invariant
            p <= out.len(),
            forall|j: int| 0 <= j < p ==> seq_lt(rule_code(#[trigger] out@[j]), rule_code(x)),
        decreases out.len() - p,
    {
        p = p + 1;
    }
    let ghost before = out@;
    proof {
        if p < out.len() {
            lemma_seq_lt_total(rule_code(out@[p as int]), rule_code(x));
            assert(rule_code(out@[p as int]) != rule_code(x));
            assert forall|j: int| p <= j < out@.len() implies seq_lt(rule_code(x), rule_code(#[trigger] out@[j])) by {
                if j > p {
                    lemma_seq_lt_trans(rule_code(x), rule_code(out@[p as int]), rule_code(out@[j]));
                }
            }
        }
    }
    out.insert(p, x);
    proof {
        assert(out@ =~= before.insert(p as int, x));
        vstd::seq_lib::to_multiset_insert(before, p as int, x);
        assert(out@[p as int] == x);
        assert forall|i: int, j: int| 0 <= i < j < out@.len() implies seq_lt(rule_code(out@[i]), rule_code(out@[j])) by {
            if j < p {
                assert(out@[i] == before[i] && out@[j] == before[j]);
            } else if j == p {
                assert(out@[i] == before[i]);
            } else if i == p {
                assert(out@[j] == before[j - 1]);
            } else if i < p {
                assert(out@[i] == before[i] && out@[j] == before[j - 1]);
                lemma_seq_lt_trans(rule_code(before[i]), rule_code(x), rule_code(before[j - 1]));
            } else {
                assert(out@[i] == before[i - 1] && out@[j] == before[j - 1]);
            }
        }
        assert forall|z: int| 0 <= z < out@.len() implies (#[trigger] out@[z] == x || before.contains(out@[z])) by {
            if z < p {
                assert(out@[z] == before[z]);
            } else if z > p {
                assert(out@[z] == before[z - 1]);
            }
        }
    }
}

/// Stable registry of known diagnostic rules, ordered by code.
pub struct RuleRegistry {
    rules: Vec<RuleId>,
}

/// A registry built from a builder holds exactly the registered rules: the code of each
/// registered rule is found, and finds that rule, and no other code is found.
pub proof fn built_registry_lookup(builder: RuleRegistryBuilder, registry: RuleRegistry)
    requires
        distinct_codes(builder.registered()),
        registry.rules_view().to_multiset() == builder.registered().to_multiset(),
        sorted_by_code(registry.rules_view()),
    ensures
        forall|i: int|
            0 <= i < builder.registered().len() ==> has_code(registry.rules_view(), rule_code(
                #[trigger] builder.registered()[i],
            )),
        forall|i: int, j: int|
            0 <= i < builder.registered().len() && 0 <= j < registry.rules_view().len() && rule_code(
                #[trigger] registry.rules_view()[j],
            ) == rule_code(#[trigger] builder.registered()[i]) ==> registry.rules_view()[j] == builder.registered()[i],
        forall|c: Seq<char>| has_code(registry.rules_view(), c) <==> has_code(builder.registered(), c),
{
    let regs = builder.registered();
    let rs = registry.rules_view();
    assert forall|i: int| 0 <= i < regs.len() implies has_code(rs, rule_code(#[trigger] regs[i])) by {
        vstd::seq_lib::to_multiset_contains(regs, regs[i]);
        vstd::seq_lib::to_multiset_contains(rs, regs[i]);
        assert(regs.contains(regs[i]));
        let j = choose|j: int| 0 <= j < rs.len() && rs[j] == regs[i];
        assert(rule_code(rs[j]) == rule_code(regs[i]));
    }
    assert forall|i: int, j: int|
        0 <= i < regs.len() && 0 <= j < rs.len() && rule_code(#[trigger] rs[j]) == rule_code(#[trigger] regs[i])
            implies rs[j] == regs[i] by {
        vstd::seq_lib::to_multiset_contains(rs, rs[j]);
        vstd::seq_lib::to_multiset_contains(regs, rs[j]);
        assert(rs.contains(rs[j]));
        let k = choose|k: int| 0 <= k < regs.len() && regs[k] == rs[j];
        assert(rule_code(regs[k]) == rule_code(regs[i]));
    }
    assert forall|c: Seq<char>| has_code(rs, c) <==> has_code(regs, c) by {
        if has_code(rs, c) {
            let j = choose|j: int| 0 <= j < rs.len() && rule_code(#[trigger] rs[j]) == c;
            vstd::seq_lib::to_multiset_contains(rs, rs[j]);
            vstd::seq_lib::to_multiset_contains(regs, rs[j]);
            assert(rs.contains(rs[j]));
            let k = choose|k: int| 0 <= k < regs.len() && regs[k] == rs[j];
            assert(rule_code(regs[k]) == c);
        }
        if has_code(regs, c) {
            let i = choose|i: int| 0 <= i < regs.len() && rule_code(#[trigger] regs[i]) == c;
            assert(has_code(rs, rule_code(regs[i])));
        }
    }
}

impl RuleRegistry {
    /// The registered rules in code order.
    pub closed spec fn rules_view(&self) -> Seq<RuleId> {
        self.rules@
    }

    /// Returns all registered diagnostic rules in deterministic order.
    pub fn all(&self) -> (r: &[RuleId])
        ensures
            r@ == self.rules_view(),
    {
        self.rules.as_slice()
    }

    /// Looks up one diagnostic rule by its stable diagnostic code.
    pub fn get(&self, code: &str) -> (r: Option<RuleId>)
        ensures
            r is None <==> !has_code(self.rules_view(), code@),
            r matches Some(id) ==> rule_code(id) == code@ && self.rules_view().contains(id),
    {
        let mut i: usize = 0;
        while i < self.rules.len()
            invariant
                i <= self.rules.len(),
                forall|j: int| 0 <= j < i ==> rule_code(#[trigger] self.rules@[j]) != code@,
            decreases self.rules.len() - i,
        {
            if crate::text::str_eq(self.rules[i].definition.code, code) {
                return Some(self.rules[i]);
            }
            i = i + 1;
        }
        None
    }
}

} // verus!
