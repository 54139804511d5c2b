//! Binding tables keyed by canonical binding key, and lookups against them.

use vstd::prelude::*;

use crate::rule::{lemma_seq_lt_asym, lemma_seq_lt_irreflexive, lemma_seq_lt_total, lemma_seq_lt_trans, seq_lt};
use crate::workspace::model::{handle_lt, Resolution, ReferenceResolutionStatus, SymbolHandle};

verus! {

/// A handle list taken by views.
pub open spec fn hviews(s: Seq<SymbolHandle>) -> Seq<(Seq<char>, usize)> {
    s.map_values(|h: SymbolHandle| h@)
}

/// The handle bound to key `k` in a table of unique bindings (its first entry with that key).
pub open spec fn unique_get(t: Seq<(String, SymbolHandle)>, k: Seq<char>) -> Option<(Seq<char>, usize)>
    decreases t.len(),
{
    if t.len() == 0 {
        None
    } else if t[0].0@ == k {
        Some(t[0].1@)
    } else {
        unique_get(t.drop_first(), k)
    }
}

/// Whether a table of duplicate bindings has an entry for key `k`.
pub open spec fn dup_has(t: Seq<(String, Vec<SymbolHandle>)>, k: Seq<char>) -> bool {
    exists|i: int| 0 <= i < t.len() && (#[trigger] t[i]).0@ == k
}

pub proof fn lemma_unique_get_at(t: Seq<(String, SymbolHandle)>, k: Seq<char>, i: int)
    requires
        0 <= i < t.len(),
        t[i].0@ == k,
        forall|j: int| 0 <= j < i ==> (#[trigger] t[j]).0@ != k,
    ensures
        unique_get(t, k) == Some(t[i].1@),
    decreases i,
{
    if i > 0 {
        assert forall|j: int| 0 <= j < i - 1 implies (#[trigger] t.drop_first()[j]).0@ != k by {
            assert(t.drop_first()[j] == t[j + 1]);
        }
        lemma_unique_get_at(t.drop_first(), k, i - 1);
    }
}

pub proof fn lemma_unique_get_none(t: Seq<(String, SymbolHandle)>, k: Seq<char>)
    requires
        forall|j: int| 0 <= j < t.len() ==> (#[trigger] t[j]).0@ != k,
    ensures
        unique_get(t, k) is None,
    decreases t.len(),
{
    if t.len() > 0 {
        assert forall|j: int| 0 <= j < t.len() - 1 implies (#[trigger] t.drop_first()[j]).0@ != k by {
            assert(t.drop_first()[j] == t[j + 1]);
        }
        lemma_unique_get_none(t.drop_first(), k);
    }
}

pub proof fn lemma_unique_get_some(t: Seq<(String, SymbolHandle)>, k: Seq<char>)
    requires
        unique_get(t, k) is Some,
    ensures
        exists|i: int| 0 <= i < t.len() && (#[trigger] t[i]).0@ == k && t[i].1@ == unique_get(t, k)->0,
    decreases t.len(),
{
    if t[0].0@ != k {
        lemma_unique_get_some(t.drop_first(), k);
        let i = choose|i: int|
            0 <= i < t.drop_first().len() && (#[trigger] t.drop_first()[i]).0@ == k
                && t.drop_first()[i].1@ == unique_get(t.drop_first(), k)->0;
        assert(t[i + 1] == t.drop_first()[i]);
    } else {
        assert(t[0].0@ == k);
    }
}

/// Looks up the handle bound to `key` in a table of unique bindings.
pub fn unique_lookup<'a>(t: &'a [(String, SymbolHandle)], key: &str) -> (r: Option<&'a SymbolHandle>)
    ensures
        match r {
            Some(h) => unique_get(t@, key@) == Some(h@),
            None => unique_get(t@, key@) is None,
        },
{
    let mut i: usize = 0;
    while i < t.len()
        invariant
            i <= t@.len(),
            forall|j: int| 0 <= j < i ==> (#[trigger] t@[j]).0@ != key@,
        decreases t.len() - i,
    {
        if crate::text::str_eq(t[i].0.as_str(), key) {
            proof {
                lemma_unique_get_at(t@, key@, i as int);
            }
            return Some(&t[i].1);
        }
        i = i + 1;
    }
    proof {
        lemma_unique_get_none(t@, key@);
    }
    None
}

/// Whether a table of duplicate bindings has an entry for `key`.
pub fn duplicate_contains(t: &[(String, Vec<SymbolHandle>)], key: &str) -> (r: bool)
    ensures
        r == dup_has(t@, key@),
{
    let mut i: usize = 0;
    while i < t.len()
        invariant
            i <= t@.len(),
            forall|j: int| 0 <= j < i ==> (#[trigger] t@[j]).0@ != key@,
        decreases t.len() - i,
    {
        if crate::text::str_eq(t[i].0.as_str(), key) {
            return true;
        }
        i = i + 1;
    }
    false
}

/// Resolution of `k` against one family's tables: ambiguous when duplicates claim it, else
/// the unique binding, else unresolved.
pub open spec fn resolve_in(
    unique: Seq<(String, SymbolHandle)>,
    duplicate: Seq<(String, Vec<SymbolHandle>)>,
    k: Seq<char>,
) -> Resolution {
    if dup_has(duplicate, k) {
        Resolution::AmbiguousDuplicate
    } else {
        match unique_get(unique, k) {
            Some(h) => Resolution::Resolved(h),
            None => Resolution::Unresolved,
        }
    }
}

/// Resolution of `k` against two families at once: ambiguous when duplicates claim it in
/// either, `clash` when both families bind it uniquely, else the one binding, else unresolved.
pub open spec fn resolve_in_either(
    unique_a: Seq<(String, SymbolHandle)>,
    duplicate_a: Seq<(String, Vec<SymbolHandle>)>,
    unique_b: Seq<(String, SymbolHandle)>,
    duplicate_b: Seq<(String, Vec<SymbolHandle>)>,
    k: Seq<char>,
    clash: Resolution,
) -> Resolution {
    if dup_has(duplicate_a, k) || dup_has(duplicate_b, k) {
        Resolution::AmbiguousDuplicate
    } else {
        match (unique_get(unique_a, k), unique_get(unique_b, k)) {
            (Some(_), Some(_)) => clash,
            (Some(h), None) => Resolution::Resolved(h),
            (None, Some(h)) => Resolution::Resolved(h),
            (None, None) => Resolution::Unresolved,
        }
    }
}

/// Resolves raw text against one family's unique and duplicate tables.
pub fn resolve_reference_against_binding_table(
    raw_text: &str,
    unique_bindings: &[(String, SymbolHandle)],
    duplicate_bindings: &[(String, Vec<SymbolHandle>)],
) -> (r: ReferenceResolutionStatus)
    ensures
        r@ == resolve_in(unique_bindings@, duplicate_bindings@, raw_text@),
{
    if duplicate_contains(duplicate_bindings, raw_text) {
        return ReferenceResolutionStatus::AmbiguousDuplicateBinding;
    }
    match unique_lookup(unique_bindings, raw_text) {
        Some(h) => ReferenceResolutionStatus::Resolved(h.clone()),
        None => ReferenceResolutionStatus::UnresolvedNoMatch,
    }
}

/// Resolves raw text against the element tables.
pub fn resolve_reference_against_element_table(
    raw_text: &str,
    unique_element_bindings: &[(String, SymbolHandle)],
    duplicate_element_bindings: &[(String, Vec<SymbolHandle>)],
) -> (r: ReferenceResolutionStatus)
    ensures
        r@ == resolve_in(unique_element_bindings@, duplicate_element_bindings@, raw_text@),
{
    resolve_reference_against_binding_table(raw_text, unique_element_bindings, duplicate_element_bindings)
}

fn resolve_against_two_families(
    raw_text: &str,
    unique_a: &[(String, SymbolHandle)],
    duplicate_a: &[(String, Vec<SymbolHandle>)],
    unique_b: &[(String, SymbolHandle)],
    duplicate_b: &[(String, Vec<SymbolHandle>)],
    clash: ReferenceResolutionStatus,
) -> (r: ReferenceResolutionStatus)
    ensures
        r@ == resolve_in_either(unique_a@, duplicate_a@, unique_b@, duplicate_b@, raw_text@, clash@),
{
    if duplicate_contains(duplicate_a, raw_text) || duplicate_contains(duplicate_b, raw_text) {
        return ReferenceResolutionStatus::AmbiguousDuplicateBinding;
    }
    match (unique_lookup(unique_a, raw_text), unique_lookup(unique_b, raw_text)) {
        (Some(_), Some(_)) => clash,
        (Some(h), None) => ReferenceResolutionStatus::Resolved(h.clone()),
        (None, Some(h)) => ReferenceResolutionStatus::Resolved(h.clone()),
        (None, None) => ReferenceResolutionStatus::UnresolvedNoMatch,
    }
}

/// Resolves raw text that may name an element or a deployment symbol; a key bound uniquely in
/// both families is ambiguous.
pub fn resolve_reference_against_element_or_deployment_tables(
    raw_text: &str,
    unique_element_bindings: &[(String, SymbolHandle)],
    duplicate_element_bindings: &[(String, Vec<SymbolHandle>)],
    unique_deployment_bindings: &[(String, SymbolHandle)],
    duplicate_deployment_bindings: &[(String, Vec<SymbolHandle>)],
) -> (r: ReferenceResolutionStatus)
    ensures
        r@ == resolve_in_either(
            unique_element_bindings@,
            duplicate_element_bindings@,
            unique_deployment_bindings@,
            duplicate_deployment_bindings@,
            raw_text@,
            Resolution::AmbiguousDuplicate,
        ),
{
    resolve_against_two_families(
        raw_text,
        unique_element_bindings,
        duplicate_element_bindings,
        unique_deployment_bindings,
        duplicate_deployment_bindings,
        ReferenceResolutionStatus::AmbiguousDuplicateBinding,
    )
}

/// Resolves a view `include` value that may name an element or a relationship; a key bound
/// uniquely in both families is reported as element-versus-relationship ambiguity.
pub fn resolve_view_include_reference(
    raw_text: &str,
    unique_element_bindings: &[(String, SymbolHandle)],
    duplicate_element_bindings: &[(String, Vec<SymbolHandle>)],
    unique_relationship_bindings: &[(String, SymbolHandle)],
    duplicate_relationship_bindings: &[(String, Vec<SymbolHandle>)],
) -> (r: ReferenceResolutionStatus)
    ensures
        r@ == resolve_in_either(
            unique_element_bindings@,
            duplicate_element_bindings@,
            unique_relationship_bindings@,
            duplicate_relationship_bindings@,
            raw_text@,
            Resolution::AmbiguousElementVsRelationship,
        ),
{
    resolve_against_two_families(
        raw_text,
        unique_element_bindings,
        duplicate_element_bindings,
        unique_relationship_bindings,
        duplicate_relationship_bindings,
        ReferenceResolutionStatus::AmbiguousElementVsRelationship,
    )
}


/// Whether some handle of `s` has view `h`.
pub open spec fn holds(s: Seq<SymbolHandle>, h: (Seq<char>, usize)) -> bool {
    exists|i: int| 0 <= i < s.len() && (#[trigger] s[i])@ == h
}

/// Whether the handles of `s` are strictly increasing in handle order.
pub open spec fn strictly_sorted(s: Seq<SymbolHandle>) -> bool {
    forall|i: int, j: int| 0 <= i < j < s.len() ==> handle_lt((#[trigger] s[i])@, (#[trigger] s[j])@)
}

pub proof fn lemma_handle_lt_irreflexive(a: (Seq<char>, usize))
    ensures
        !handle_lt(a, a),
{
    lemma_seq_lt_irreflexive(a.0);
}

pub proof fn lemma_handle_lt_trans(a: (Seq<char>, usize), b: (Seq<char>, usize), c: (Seq<char>, usize))
    requires
        handle_lt(a, b),
        handle_lt(b, c),
    ensures
        handle_lt(a, c),
{
    if seq_lt(a.0, b.0) && seq_lt(b.0, c.0) {
        lemma_seq_lt_trans(a.0, b.0, c.0);
    }
}

pub proof fn lemma_handle_lt_total(a: (Seq<char>, usize), b: (Seq<char>, usize))
    ensures
        a == b || handle_lt(a, b) || handle_lt(b, a),
{
    lemma_seq_lt_total(a.0, b.0);
}

proof fn lemma_insert_holds(old_r: Seq<SymbolHandle>, r: Seq<SymbolHandle>, p: int, x: SymbolHandle)
    requires
        0 <= p <= old_r.len(),
        r == old_r.insert(p, x),
    ensures
        forall|h: (Seq<char>, usize)| #[trigger] holds(r, h) <==> (holds(old_r, h) || h == x@),
{
    assert forall|h: (Seq<char>, usize)| #[trigger] holds(r, h) <==> (holds(old_r, h) || h == x@) by {
        if holds(old_r, h) {
            let k = choose|k: int| 0 <= k < old_r.len() && (#[trigger] old_r[k])@ == h;
            if k < p {
                assert(r[k] == old_r[k]);
            } else {
                assert(r[k + 1] == old_r[k]);
            }
        }
        if h == x@ {
            assert(r[p] == x);
        }
        if holds(r, h) {
            let k = choose|k: int| 0 <= k < r.len() && (#[trigger] r[k])@ == h;
            if k < p {
                assert(r[k] == old_r[k]);
            } else if k > p {
                assert(r[k] == old_r[k - 1]);
            }
        }
    }
}

/// Adds `x` to a strictly sorted handle list unless a handle with its view is already there.
fn insert_handle_sorted(r: &mut Vec<SymbolHandle>, x: SymbolHandle)
    requires
        strictly_sorted(old(r)@),
    ensures
        strictly_sorted(final(r)@),
        forall|h: (Seq<char>, usize)| holds(final(r)@, h) <==> (holds(old(r)@, h) || h == x@),
{
    let ghost old_r = r@;
    let mut p: usize = 0;
    while p < r.len() && r[p].precedes(&x)
        invariant
            r@ == old_r,
            old_r == old(r)@,
            p <= r@.len(),
            forall|j: int| 0 <= j < p ==> handle_lt((#[trigger] r@[j])@, x@),
        decreases r.len() - p,
    {
        p = p + 1;
    }
    if p < r.len() && r[p].same(&x) {
        assert forall|h: (Seq<char>, usize)| holds(r@, h) <==> (holds(old_r, h) || h == x@) by {
            if h == x@ {
                assert(r@[p as int]@ == h);
            }
        }
        return;
    }
    proof {
        if p < r@.len() {
            lemma_handle_lt_total(r@[p as int]@, x@);
        }
    }
    r.insert(p, x);
    proof {
        assert forall|i: int, j: int| 0 <= i < j < r@.len() implies handle_lt(
            (#[trigger] r@[i])@,
            (#[trigger] r@[j])@,
        ) by {
            if j < p {
                assert(r@[i] == old_r[i] && r@[j] == old_r[j]);
            } else if j == p {
                assert(r@[i] == old_r[i]);
            } else if i == p {
                assert(r@[j] == old_r[j - 1]);
                if j - 1 > p {
                    assert(handle_lt(old_r[p as int]@, old_r[j - 1]@));
                    lemma_handle_lt_trans(x@, old_r[p as int]@, old_r[j - 1]@);
                }
            } else if i < p {
                assert(r@[i] == old_r[i] && r@[j] == old_r[j - 1]);
                if j - 1 >= p {
                    assert(handle_lt(old_r[i]@, x@));
                    assert(handle_lt(x@, old_r[p as int]@));
                    lemma_handle_lt_trans(old_r[i]@, x@, old_r[p as int]@);
                    if j - 1 > p {
                        lemma_handle_lt_trans(old_r[i]@, old_r[p as int]@, old_r[j - 1]@);
                    }
                }
            } else {
                assert(r@[i] == old_r[i - 1] && r@[j] == old_r[j - 1]);
            }
        }
        lemma_insert_holds(old_r, r@, p as int, x);
    }
}

/// Sorts handles by document and symbol index and drops repeated handles.
pub fn normalize_handles(handles: Vec<SymbolHandle>) -> (r: Vec<SymbolHandle>)
    ensures
        strictly_sorted(r@),
        forall|h: (Seq<char>, usize)| holds(r@, h) <==> holds(handles@, h),
{
    let mut r: Vec<SymbolHandle> = Vec::new();
    let mut i: usize = 0;
    while i < handles.len()
        invariant
            i <= handles@.len(),
            strictly_sorted(r@),
            forall|h: (Seq<char>, usize)| holds(r@, h) <==> holds(handles@.take(i as int), h),
        decreases handles.len() - i,
    {
        let ghost before = r@;
        insert_handle_sorted(&mut r, handles[i].clone());
        proof {
            assert forall|h: (Seq<char>, usize)| holds(r@, h) <==> holds(handles@.take(i + 1), h) by {
                let t = handles@.take(i + 1);
                if holds(handles@.take(i as int), h) {
                    let k = choose|k: int| 0 <= k < i && (#[trigger] handles@.take(i as int)[k])@ == h;
                    assert(t[k] == handles@.take(i as int)[k]);
                }
                if h == handles@[i as int]@ {
                    assert(t[i as int] == handles@[i as int]);
                }
                if holds(t, h) {
                    let k = choose|k: int| 0 <= k < t.len() && (#[trigger] t[k])@ == h;
                    if k < i {
                        assert(t[k] == handles@.take(i as int)[k]);
                    }
                }
            }
        }
        i = i + 1;
    }
    assert(handles@.take(handles@.len() as int) =~= handles@);
    r
}


/// Whether the keys of `t` are strictly increasing.
pub open spec fn keys_sorted<T>(t: Seq<(String, T)>) -> bool {
    forall|i: int, j: int| 0 <= i < j < t.len() ==> seq_lt((#[trigger] t[i]).0@, (#[trigger] t[j]).0@)
}

/// Whether `t` has an entry for key `k`.
pub open spec fn has_key<T>(t: Seq<(String, T)>, k: Seq<char>) -> bool {
    exists|i: int| 0 <= i < t.len() && (#[trigger] t[i]).0@ == k
}

/// Whether the group of key `k` in `t` holds handle `h`.
pub open spec fn table_has(t: Seq<(String, Vec<SymbolHandle>)>, k: Seq<char>, h: (Seq<char>, usize)) -> bool {
    exists|i: int| 0 <= i < t.len() && (#[trigger] t[i]).0@ == k && holds(t[i].1@, h)
}

/// Whether every group of `t` holds at least one handle.
pub open spec fn groups_nonempty(t: Seq<(String, Vec<SymbolHandle>)>) -> bool {
    forall|i: int| 0 <= i < t.len() ==> (#[trigger] t[i]).1@.len() > 0
}

proof fn lemma_group_push(
    t0: Seq<(String, Vec<SymbolHandle>)>,
    t1: Seq<(String, Vec<SymbolHandle>)>,
    p: int,
    handle: SymbolHandle,
)
    requires
        0 <= p < t0.len(),
        t1.len() == t0.len(),
        forall|i: int| 0 <= i < t0.len() && i != p ==> t1[i] == t0[i],
        t1[p].0 == t0[p].0,
        t1[p].1@ == t0[p].1@.push(handle),
    ensures
        forall|k: Seq<char>, h: (Seq<char>, usize)| #[trigger] table_has(t1, k, h) <==> (table_has(t0, k, h) || (
            k == t0[p].0@ && h == handle@)),
        forall|k: Seq<char>| #[trigger] has_key(t1, k) <==> has_key(t0, k),
{
    assert forall|k: Seq<char>, h: (Seq<char>, usize)| #[trigger] table_has(t1, k, h) <==> (table_has(t0, k, h) || (
        k == t0[p].0@ && h == handle@)) by {
        if table_has(t0, k, h) {
            let i = choose|i: int| 0 <= i < t0.len() && (#[trigger] t0[i]).0@ == k && holds(t0[i].1@, h);
            if i == p {
                let m = choose|m: int| 0 <= m < t0[i].1@.len() && (#[trigger] t0[i].1@[m])@ == h;
                assert(t1[p].1@[m] == t0[p].1@[m]);
            }
            assert(t1[i].0@ == k);
        }
        if k == t0[p].0@ && h == handle@ {
            assert(t1[p].1@[t0[p].1@.len() as int] == handle);
            assert(t1[p].0@ == k);
        }
        if table_has(t1, k, h) {
            let i = choose|i: int| 0 <= i < t1.len() && (#[trigger] t1[i]).0@ == k && holds(t1[i].1@, h);
            if i == p {
                let m = choose|m: int| 0 <= m < t1[i].1@.len() && (#[trigger] t1[i].1@[m])@ == h;
                if m < t0[p].1@.len() {
                    assert(t1[p].1@[m] == t0[p].1@[m]);
                }
            }
            assert(t0[i].0@ == k);
        }
    }
    assert forall|k: Seq<char>| #[trigger] has_key(t1, k) <==> has_key(t0, k) by {
        if has_key(t0, k) {
            let i = choose|i: int| 0 <= i < t0.len() && (#[trigger] t0[i]).0@ == k;
            assert(t1[i].0@ == k);
        }
        if has_key(t1, k) {
            let i = choose|i: int| 0 <= i < t1.len() && (#[trigger] t1[i]).0@ == k;
            assert(t0[i].0@ == k);
        }
    }
}

proof fn lemma_group_insert(
    t0: Seq<(String, Vec<SymbolHandle>)>,
    t1: Seq<(String, Vec<SymbolHandle>)>,
    p: int,
    key: String,
    handle: SymbolHandle,
    list: Vec<SymbolHandle>,
)
    requires
        0 <= p <= t0.len(),
        list@ == seq![handle],
        t1 == t0.insert(p, (key, list)),
    ensures
        forall|k: Seq<char>, h: (Seq<char>, usize)| #[trigger] table_has(t1, k, h) <==> (table_has(t0, k, h) || (
            k == key@ && h == handle@)),
        forall|k: Seq<char>| #[trigger] has_key(t1, k) <==> (has_key(t0, k) || k == key@),
{
    assert forall|k: Seq<char>, h: (Seq<char>, usize)| #[trigger] table_has(t1, k, h) <==> (table_has(t0, k, h) || (
        k == key@ && h == handle@)) by {
        if table_has(t0, k, h) {
            let i = choose|i: int| 0 <= i < t0.len() && (#[trigger] t0[i]).0@ == k && holds(t0[i].1@, h);
            if i < p {
                assert(t1[i] == t0[i]);
            } else {
                assert(t1[i + 1] == t0[i]);
            }
        }
        if k == key@ && h == handle@ {
            assert(t1[p] == (key, list));
            assert(list@[0] == handle);
        }
        if table_has(t1, k, h) {
            let i = choose|i: int| 0 <= i < t1.len() && (#[trigger] t1[i]).0@ == k && holds(t1[i].1@, h);
            if i < p {
                assert(t1[i] == t0[i]);
            } else if i > p {
                assert(t1[i] == t0[i - 1]);
            } else {
                let m = choose|m: int| 0 <= m < t1[i].1@.len() && (#[trigger] t1[i].1@[m])@ == h;
                assert(m == 0);
            }
        }
    }
    assert forall|k: Seq<char>| #[trigger] has_key(t1, k) <==> (has_key(t0, k) || k == key@) by {
        if has_key(t0, k) {
            let i = choose|i: int| 0 <= i < t0.len() && (#[trigger] t0[i]).0@ == k;
            if i < p {
                assert(t1[i] == t0[i]);
            } else {
                assert(t1[i + 1] == t0[i]);
            }
        }
        if k == key@ {
            assert(t1[p].0@ == k);
        }
        if has_key(t1, k) {
            let i = choose|i: int| 0 <= i < t1.len() && (#[trigger] t1[i]).0@ == k;
            if i < p {
                assert(t1[i] == t0[i]);
            } else if i > p {
                assert(t1[i] == t0[i - 1]);
            }
        }
    }
}

/// Records that `handle` is bound under `key`, keeping keys in increasing order.
pub fn add_binding(table: &mut Vec<(String, Vec<SymbolHandle>)>, key: String, handle: SymbolHandle)
    requires
        keys_sorted(old(table)@),
        groups_nonempty(old(table)@),
    ensures
        keys_sorted(final(table)@),
        groups_nonempty(final(table)@),
        forall|k: Seq<char>, h: (Seq<char>, usize)| #[trigger] table_has(final(table)@, k, h) <==> (table_has(
            old(table)@,
            k,
            h,
        ) || (k == key@ && h == handle@)),
        forall|k: Seq<char>| #[trigger] has_key(final(table)@, k) <==> (has_key(old(table)@, k) || k == key@),
{
    let ghost t0 = table@;
    let mut p: usize = 0;
    while p < table.len() && crate::rule::str_lt(table[p].0.as_str(), key.as_str())
        invariant
            table@ == t0,
            t0 == old(table)@,
            p <= table@.len(),
            forall|j: int| 0 <= j < p ==> seq_lt((#[trigger] table@[j]).0@, key@),
        decreases table.len() - p,
    {
        p = p + 1;
    }
    if p < table.len() && crate::text::str_eq(table[p].0.as_str(), key.as_str()) {
        let (k0, mut hs) = table.remove(p);
        hs.push(handle);
        table.insert(p, (k0, hs));
        proof {
            assert forall|i: int| 0 <= i < t0.len() && i != p implies table@[i] == t0[i] by {
                if i < p {
                } else {
                }
            }
            lemma_group_push(t0, table@, p as int, handle);
            assert forall|i: int, j: int| 0 <= i < j < table@.len() implies seq_lt(
                (#[trigger] table@[i]).0@,
                (#[trigger] table@[j]).0@,
            ) by {
                assert(t0[i].0@ == table@[i].0@ && t0[j].0@ == table@[j].0@);
            }
        }
        return;
    }
    proof {
        if p < t0.len() {
            lemma_seq_lt_total(t0[p as int].0@, key@);
        }
    }
    let mut list: Vec<SymbolHandle> = Vec::new();
    list.push(handle);
    let ghost entry_list = list;
    table.insert(p, (key, list));
    proof {
        lemma_group_insert(t0, table@, p as int, key, handle, entry_list);
        assert forall|i: int, j: int| 0 <= i < j < table@.len() implies seq_lt(
            (#[trigger] table@[i]).0@,
            (#[trigger] table@[j]).0@,
        ) by {
            if j < p {
                assert(table@[i] == t0[i] && table@[j] == t0[j]);
            } else if j == p {
                assert(table@[i] == t0[i]);
            } else if i == p {
                assert(table@[j] == t0[j - 1]);
                if j - 1 > p {
                    lemma_seq_lt_trans(key@, t0[p as int].0@, t0[j - 1].0@);
                }
            } else if i < p {
                assert(table@[i] == t0[i] && table@[j] == t0[j - 1]);
                lemma_seq_lt_trans(t0[i].0@, key@, t0[p as int].0@);
                if j - 1 > p {
                    lemma_seq_lt_trans(t0[i].0@, t0[p as int].0@, t0[j - 1].0@);
                }
            } else {
                assert(table@[i] == t0[i - 1] && table@[j] == t0[j - 1]);
            }
        }
        assert forall|i: int| 0 <= i < table@.len() implies (#[trigger] table@[i]).1@.len() > 0 by {
            if i < p {
                assert(table@[i] == t0[i]);
            } else if i > p {
                assert(table@[i] == t0[i - 1]);
            }
        }
    }
}


/// Whether exactly one handle (by view) is bound under key `k`.
pub open spec fn single_handle(t: Seq<(String, Vec<SymbolHandle>)>, k: Seq<char>) -> bool {
    exists|h: (Seq<char>, usize)| #[trigger] only_handle(t, k, h)
}

/// Whether `h` is the one handle bound under key `k`.
pub open spec fn only_handle(t: Seq<(String, Vec<SymbolHandle>)>, k: Seq<char>, h: (Seq<char>, usize)) -> bool {
    forall|h2: (Seq<char>, usize)| #[trigger] table_has(t, k, h2) <==> h2 == h
}

pub proof fn lemma_unique_get_push(s: Seq<(String, SymbolHandle)>, e: (String, SymbolHandle), k: Seq<char>)
    ensures
        unique_get(s.push(e), k) == (if unique_get(s, k) is Some {
            unique_get(s, k)
        } else if e.0@ == k {
            Some(e.1@)
        } else {
            None
        }),
    decreases s.len(),
{
    if s.len() == 0 {
        assert(s.push(e)[0] == e);
        assert(s.push(e).drop_first() =~= Seq::<(String, SymbolHandle)>::empty());
        assert(unique_get(Seq::<(String, SymbolHandle)>::empty(), k) is None);
        assert(unique_get(s, k) is None);
    } else {
        assert(s.push(e).drop_first() =~= s.drop_first().push(e));
        assert(s.push(e)[0] == s[0]);
        lemma_unique_get_push(s.drop_first(), e, k);
    }
}

proof fn lemma_sorted_keys_distinct<T>(t: Seq<(String, T)>, i: int, j: int)
    requires
        keys_sorted(t),
        0 <= i < t.len(),
        0 <= j < t.len(),
        i != j,
    ensures
        t[i].0@ != t[j].0@,
{
    if i < j {
        assert(seq_lt(t[i].0@, t[j].0@));
        lemma_seq_lt_irreflexive(t[i].0@);
    } else {
        assert(seq_lt(t[j].0@, t[i].0@));
        lemma_seq_lt_irreflexive(t[j].0@);
    }
}

proof fn lemma_group_of_index(t: Seq<(String, Vec<SymbolHandle>)>, i: int)
    requires
        keys_sorted(t),
        0 <= i < t.len(),
    ensures
        forall|h: (Seq<char>, usize)| #[trigger] table_has(t, t[i].0@, h) <==> holds(t[i].1@, h),
{
    assert forall|h: (Seq<char>, usize)| #[trigger] table_has(t, t[i].0@, h) <==> holds(t[i].1@, h) by {
        if table_has(t, t[i].0@, h) {
            let j = choose|j: int| 0 <= j < t.len() && (#[trigger] t[j]).0@ == t[i].0@ && holds(t[j].1@, h);
            if j != i {
                lemma_sorted_keys_distinct(t, i, j);
            }
        }
    }
}

/// The facts about key `k` that `split_binding_table` establishes.
pub open spec fn split_correct_at(
    t: Seq<(String, Vec<SymbolHandle>)>,
    unique: Seq<(String, SymbolHandle)>,
    duplicate: Seq<(String, Vec<SymbolHandle>)>,
    k: Seq<char>,
) -> bool {
    &&& (unique_get(unique, k) is Some <==> single_handle(t, k))
    &&& (unique_get(unique, k) matches Some(h) ==> table_has(t, k, h))
    &&& (dup_has(duplicate, k) <==> (has_key(t, k) && !single_handle(t, k)))
}

/// Copies a handle list.
pub fn clone_handles(v: &Vec<SymbolHandle>) -> (r: Vec<SymbolHandle>)
    ensures
        r@ == v@,
{
    let mut r: Vec<SymbolHandle> = Vec::new();
    let mut i: usize = 0;
    while i < v.len()
        invariant
            i <= v.len(),
            r@ == v@.subrange(0, i as int),
        decreases v.len() - i,
    {
        r.push(v[i].clone());
        i = i + 1;
    }
    assert(r@ =~= v@);
    r
}

proof fn lemma_split_step(
    u0: Seq<(String, SymbolHandle)>,
    d0: Seq<(String, Vec<SymbolHandle>)>,
    u1: Seq<(String, SymbolHandle)>,
    d1: Seq<(String, Vec<SymbolHandle>)>,
    kk: Seq<char>,
    k: Seq<char>,
)
    requires
        (u1.len() == u0.len() + 1 && u1 == u0.push(u1.last()) && u1.last().0@ == kk && d1 == d0) || (u1
            == u0 && d1.len() == d0.len() + 1 && d1 == d0.push(d1.last()) && d1.last().0@ == kk),
    ensures
        k != kk ==> unique_get(u1, k) == unique_get(u0, k) && dup_has(d1, k) == dup_has(d0, k),
        k == kk && u1.len() > u0.len() && unique_get(u0, k) is None ==> unique_get(u1, k) == Some(u1.last().1@),
        k == kk && u1.len() > u0.len() ==> dup_has(d1, k) == dup_has(d0, k),
        k == kk && d1.len() > d0.len() ==> dup_has(d1, k) && unique_get(u1, k) == unique_get(u0, k),
{
    if u1.len() > u0.len() {
        lemma_unique_get_push(u0, u1.last(), k);
    } else {
        if dup_has(d1, k) && k != kk {
            let m = choose|m: int| 0 <= m < d1.len() && (#[trigger] d1[m]).0@ == k;
            assert(m < d0.len());
            assert(d0[m] == d1[m]);
        }
        if dup_has(d0, k) {
            let m = choose|m: int| 0 <= m < d0.len() && (#[trigger] d0[m]).0@ == k;
            assert(d1[m] == d0[m]);
        }
        if k == kk {
            assert(d1[d0.len() as int].0@ == kk);
        }
    }
}

/// Splits grouped bindings into keys bound by exactly one symbol and keys claimed by several;
/// each handle list is sorted and free of repeats.
pub fn split_binding_table(bindings: &Vec<(String, Vec<SymbolHandle>)>) -> (r: (
    Vec<(String, SymbolHandle)>,
    Vec<(String, Vec<SymbolHandle>)>,
))
    requires
        keys_sorted(bindings@),
        groups_nonempty(bindings@),
    ensures
        keys_sorted(r.0@),
        keys_sorted(r.1@),
        forall|k: Seq<char>| #[trigger] split_correct_at(bindings@, r.0@, r.1@, k),
        forall|i: int|
            0 <= i < r.1@.len() ==> strictly_sorted((#[trigger] r.1@[i]).1@) && (forall|h: (Seq<char>, usize)|
                #[trigger] holds(r.1@[i].1@, h) <==> table_has(bindings@, r.1@[i].0@, h)),
{
    let ghost t = bindings@;
    let mut unique: Vec<(String, SymbolHandle)> = Vec::new();
    let mut duplicate: Vec<(String, Vec<SymbolHandle>)> = Vec::new();
    let mut i: usize = 0;
    while i < bindings.len()
        invariant
            t == bindings@,
            keys_sorted(t),
            groups_nonempty(t),
            i <= t.len(),
            keys_sorted(unique@),
            keys_sorted(duplicate@),
            forall|m: int|
                0 <= m < unique@.len() ==> exists|j: int| 0 <= j < i && (#[trigger] unique@[m]).0@ == t[j].0@,
            forall|m: int|
                0 <= m < duplicate@.len() ==> exists|j: int|
                    0 <= j < i && (#[trigger] duplicate@[m]).0@ == t[j].0@,
            forall|j: int| 0 <= j < i ==> #[trigger] split_correct_at(t, unique@, duplicate@, t[j].0@),
            forall|k: Seq<char>|
                !#[trigger] has_key(t.take(i as int), k) ==> (unique_get(unique@, k) is None && !dup_has(
                    duplicate@,
                    k,
                )),
            forall|m: int|
                0 <= m < duplicate@.len() ==> strictly_sorted((#[trigger] duplicate@[m]).1@) && (forall|
                    h: (Seq<char>, usize),
                | #[trigger] holds(duplicate@[m].1@, h) <==> table_has(t, duplicate@[m].0@, h)),
        decreases t.len() - i,
    {
        let key = bindings[i].0.clone();
        let norm = normalize_handles(clone_handles(&bindings[i].1));
        let ghost kk = t[i as int].0@;
        proof {
            lemma_group_of_index(t, i as int);
            assert(t[i as int].1@.len() > 0);
            assert(holds(t[i as int].1@, t[i as int].1@[0]@));
            assert(!has_key(t.take(i as int), kk)) by {
                if has_key(t.take(i as int), kk) {
                    let j = choose|j: int| 0 <= j < i && (#[trigger] t.take(i as int)[j]).0@ == kk;
                    assert(t.take(i as int)[j] == t[j]);
                    lemma_sorted_keys_distinct(t, i as int, j);
                }
            }
            assert forall|m: int| 0 <= m < unique@.len() implies seq_lt((#[trigger] unique@[m]).0@, kk) by {
                let j = choose|j: int| 0 <= j < i && (#[trigger] unique@[m]).0@ == t[j].0@;
                assert(seq_lt(t[j].0@, t[i as int].0@));
            }
            assert forall|m: int| 0 <= m < duplicate@.len() implies seq_lt(
                (#[trigger] duplicate@[m]).0@,
                kk,
            ) by {
                let j = choose|j: int| 0 <= j < i && (#[trigger] duplicate@[m]).0@ == t[j].0@;
                assert(seq_lt(t[j].0@, t[i as int].0@));
            }
            assert(holds(norm@, t[i as int].1@[0]@));
        }
        let ghost u0 = unique@;
        let ghost d0 = duplicate@;
        if norm.len() == 1 {
            let h = norm[0].clone();
            proof {
                assert forall|h2: (Seq<char>, usize)| #[trigger] table_has(t, kk, h2) <==> h2 == h@ by {
                    if holds(norm@, h2) {
                        let m = choose|m: int| 0 <= m < norm@.len() && (#[trigger] norm@[m])@ == h2;
                        assert(m == 0);
                    }
                    if h2 == h@ {
                        assert(norm@[0]@ == h2);
                    }
                }
                assert(only_handle(t, kk, h@));
                assert(single_handle(t, kk));
            }
            unique.push((key, h));
        } else {
            proof {
                assert(norm@.len() >= 2);
                assert(handle_lt(norm@[0]@, norm@[1]@));
                lemma_handle_lt_irreflexive(norm@[0]@);
                assert(holds(norm@, norm@[0]@));
                assert(holds(norm@, norm@[1]@));
                assert(!single_handle(t, kk)) by {
                    if single_handle(t, kk) {
                        let w = choose|w: (Seq<char>, usize)| only_handle(t, kk, w);
                        assert(table_has(t, kk, norm@[0]@));
                        assert(table_has(t, kk, norm@[1]@));
                    }
                }
            }
            duplicate.push((key, norm));
        }
        proof {
            assert(t[i as int].0@ == kk);
            assert(has_key(t, kk));
            assert(t.take(i + 1).last() == t[i as int]);
            assert forall|j: int| 0 <= j < i + 1 implies #[trigger] split_correct_at(
                t,
                unique@,
                duplicate@,
                t[j].0@,
            ) by {
                lemma_split_step(u0, d0, unique@, duplicate@, kk, t[j].0@);
                if j < i {
                    lemma_sorted_keys_distinct(t, i as int, j);
                    assert(split_correct_at(t, u0, d0, t[j].0@));
                }
            }
            assert forall|k: Seq<char>| !#[trigger] has_key(t.take(i + 1), k) implies (unique_get(
                unique@,
                k,
            ) is None && !dup_has(duplicate@, k)) by {
                lemma_split_step(u0, d0, unique@, duplicate@, kk, k);
                if k == kk {
                    assert(t.take(i + 1)[i as int].0@ == kk);
                }
                assert(!has_key(t.take(i as int), k)) by {
                    if has_key(t.take(i as int), k) {
                        let j = choose|j: int| 0 <= j < i && (#[trigger] t.take(i as int)[j]).0@ == k;
                        assert(t.take(i + 1)[j] == t.take(i as int)[j]);
                    }
                }
            }
            assert forall|m: int| 0 <= m < unique@.len() implies exists|j: int|
                0 <= j < i + 1 && (#[trigger] unique@[m]).0@ == t[j].0@ by {
                if m < u0.len() {
                    assert(unique@[m] == u0[m]);
                    let j = choose|j: int| 0 <= j < i && (#[trigger] u0[m]).0@ == t[j].0@;
                } else {
                    assert(unique@[m].0@ == t[i as int].0@);
                }
            }
            assert forall|m: int| 0 <= m < duplicate@.len() implies exists|j: int|
                0 <= j < i + 1 && (#[trigger] duplicate@[m]).0@ == t[j].0@ by {
                if m < d0.len() {
                    assert(duplicate@[m] == d0[m]);
                    let j = choose|j: int| 0 <= j < i && (#[trigger] d0[m]).0@ == t[j].0@;
                } else {
                    assert(duplicate@[m].0@ == t[i as int].0@);
                }
            }
            assert forall|m: int| 0 <= m < duplicate@.len() implies strictly_sorted(
                (#[trigger] duplicate@[m]).1@,
            ) && (forall|h: (Seq<char>, usize)| #[trigger] holds(duplicate@[m].1@, h) <==> table_has(
                t,
                duplicate@[m].0@,
                h,
            )) by {
                if m < d0.len() {
                    assert(duplicate@[m] == d0[m]);
                }
            }
            assert forall|a: int, b: int| 0 <= a < b < unique@.len() implies seq_lt(
                (#[trigger] unique@[a]).0@,
                (#[trigger] unique@[b]).0@,
            ) by {
                if b >= u0.len() {
                    assert(unique@[a] == u0[a]);
                } else {
                    assert(unique@[a] == u0[a] && unique@[b] == u0[b]);
                }
            }
            assert forall|a: int, b: int| 0 <= a < b < duplicate@.len() implies seq_lt(
                (#[trigger] duplicate@[a]).0@,
                (#[trigger] duplicate@[b]).0@,
            ) by {
                if b >= d0.len() {
                    assert(duplicate@[a] == d0[a]);
                } else {
                    assert(duplicate@[a] == d0[a] && duplicate@[b] == d0[b]);
                }
            }
        }
        i = i + 1;
    }
    proof {
        assert(t.take(t.len() as int) =~= t);
        assert forall|k: Seq<char>| #[trigger] split_correct_at(t, unique@, duplicate@, k) by {
            if has_key(t, k) {
                let j = choose|j: int| 0 <= j < t.len() && (#[trigger] t[j]).0@ == k;
                assert(split_correct_at(t, unique@, duplicate@, t[j].0@));
            } else {
                assert(!single_handle(t, k)) by {
                    if single_handle(t, k) {
                        let w = choose|w: (Seq<char>, usize)| only_handle(t, k, w);
                        assert(table_has(t, k, w));
                    }
                }
            }
        }
    }
    (unique, duplicate)
}

} // verus!
