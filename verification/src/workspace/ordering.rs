//! The stable order in which diagnostics are reported.

use vstd::prelude::*;

use crate::diagnostics::{code_of, RuledDiagnostic};
use crate::rule::{lemma_seq_lt_irreflexive, lemma_seq_lt_trans, seq_lt, str_lt};
use crate::snapshot::DocumentId;

verus! {

/// An optional document, by its name.
pub open spec fn doc_key(d: Option<DocumentId>) -> Option<Seq<char>> {
    match d {
        Some(x) => Some(x@),
        None => None,
    }
}

/// An optional text, by its characters.
pub open spec fn text_key(t: Option<String>) -> Option<Seq<char>> {
    match t {
        Some(x) => Some(x@),
        None => None,
    }
}

/// Absent sorts first; present values sort lexicographically.
pub open spec fn opt_seq_lt(a: Option<Seq<char>>, b: Option<Seq<char>>) -> bool {
    match (a, b) {
        (None, Some(_)) => true,
        (Some(x), Some(y)) => seq_lt(x, y),
        _ => false,
    }
}

/// The last sort key: the message when `by_message`, else the target text.
pub open spec fn tiebreak(d: RuledDiagnostic, by_message: bool) -> Option<Seq<char>> {
    if by_message {
        Some(d.diagnostic.message@)
    } else {
        text_key(d.diagnostic.target_text)
    }
}

/// Diagnostic order: by document, then start byte, then rule code, then the tiebreak key.
pub open spec fn diag_lt(a: RuledDiagnostic, b: RuledDiagnostic, by_message: bool) -> bool {
    let da = doc_key(a.diagnostic.document);
    let db = doc_key(b.diagnostic.document);
    let sa = a.diagnostic.span.start_byte;
    let sb = b.diagnostic.span.start_byte;
    ||| opt_seq_lt(da, db)
    ||| da == db && sa < sb
    ||| da == db && sa == sb && seq_lt(code_of(a), code_of(b))
    ||| da == db && sa == sb && code_of(a) == code_of(b) && opt_seq_lt(
        tiebreak(a, by_message),
        tiebreak(b, by_message),
    )
}

/// No later diagnostic sorts before an earlier one.
pub open spec fn diags_sorted(s: Seq<RuledDiagnostic>, by_message: bool) -> bool {
    forall|a: int, b: int| 0 <= a < b < s.len() ==> !diag_lt(s[b], s[a], by_message)
}

proof fn lemma_opt_seq_lt_trans(a: Option<Seq<char>>, b: Option<Seq<char>>, c: Option<Seq<char>>)
    requires
        opt_seq_lt(a, b),
        opt_seq_lt(b, c),
    ensures
        opt_seq_lt(a, c),
{
    if a is Some {
        lemma_seq_lt_trans(a->0, b->0, c->0);
    }
}

proof fn lemma_opt_seq_lt_irreflexive(a: Option<Seq<char>>)
    ensures
        !opt_seq_lt(a, a),
{
    if a is Some {
        lemma_seq_lt_irreflexive(a->0);
    }
}

proof fn lemma_diag_lt_trans(a: RuledDiagnostic, b: RuledDiagnostic, c: RuledDiagnostic, m: bool)
    requires
        diag_lt(a, b, m),
        diag_lt(b, c, m),
    ensures
        diag_lt(a, c, m),
{
    let (da, db, dc) = (
        doc_key(a.diagnostic.document),
        doc_key(b.diagnostic.document),
        doc_key(c.diagnostic.document),
    );
    if opt_seq_lt(da, db) && opt_seq_lt(db, dc) {
        lemma_opt_seq_lt_trans(da, db, dc);
    } else if seq_lt(code_of(a), code_of(b)) && seq_lt(code_of(b), code_of(c)) {
        lemma_seq_lt_trans(code_of(a), code_of(b), code_of(c));
    }
    let (ta, tb, tc) = (tiebreak(a, m), tiebreak(b, m), tiebreak(c, m));
    if opt_seq_lt(ta, tb) && opt_seq_lt(tb, tc) {
        lemma_opt_seq_lt_trans(ta, tb, tc);
    }
}

fn opt_doc_lt(a: &Option<DocumentId>, b: &Option<DocumentId>) -> (r: bool)
    ensures
        r == opt_seq_lt(doc_key(*a), doc_key(*b)),
{
    match (a, b) {
        (None, Some(_)) => true,
        (Some(x), Some(y)) => str_lt(x.0.as_str(), y.0.as_str()),
        _ => false,
    }
}

fn opt_doc_eq(a: &Option<DocumentId>, b: &Option<DocumentId>) -> (r: bool)
    ensures
        r == (doc_key(*a) == doc_key(*b)),
{
    match (a, b) {
        (None, None) => true,
        (Some(x), Some(y)) => crate::text::str_eq(x.0.as_str(), y.0.as_str()),
        _ => false,
    }
}

fn opt_text_lt(a: &Option<String>, b: &Option<String>) -> (r: bool)
    ensures
        r == opt_seq_lt(text_key(*a), text_key(*b)),
{
    match (a, b) {
        (None, Some(_)) => true,
        (Some(x), Some(y)) => str_lt(x.as_str(), y.as_str()),
        _ => false,
    }
}

/// Whether `a` sorts strictly before `b`.
pub fn diagnostic_precedes(a: &RuledDiagnostic, b: &RuledDiagnostic, by_message: bool) -> (r: bool)
    ensures
        r == diag_lt(*a, *b, by_message),
{
    let ad = &a.diagnostic;
    let bd = &b.diagnostic;
    if opt_doc_lt(&ad.document, &bd.document) {
        return true;
    }
    if !opt_doc_eq(&ad.document, &bd.document) {
        proof {
            lemma_opt_seq_lt_irreflexive(doc_key(ad.document));
        }
        return false;
    }
    if ad.span.start_byte != bd.span.start_byte {
        return ad.span.start_byte < bd.span.start_byte;
    }
    let ac = a.rule.definition.code;
    let bc = b.rule.definition.code;
    if str_lt(ac, bc) {
        return true;
    }
    if !crate::text::str_eq(ac, bc) {
        return false;
    }
    if by_message {
        str_lt(ad.message.as_str(), bd.message.as_str())
    } else {
        opt_text_lt(&ad.target_text, &bd.target_text)
    }
}

/// Inserts `d` after every diagnostic that does not sort after it.
pub fn insert_diagnostic_sorted(r: &mut Vec<RuledDiagnostic>, d: RuledDiagnostic, by_message: bool) -> (pos: usize)
    requires
        diags_sorted(old(r)@, by_message),
    ensures
        pos <= old(r)@.len(),
        final(r)@ == old(r)@.insert(pos as int, d),
        diags_sorted(final(r)@, by_message),
{
    let mut p: usize = 0;
    while p < r.len() && !diagnostic_precedes(&d, &r[p], by_message)
        invariant
            p <= r@.len(),
            forall|j: int| 0 <= j < p ==> !diag_lt(d, #[trigger] r@[j], by_message),
        decreases r@.len() - p,
    {
        p = p + 1;
    }
    let ghost before = r@;
    r.insert(p, d);
    proof {
        assert forall|a: int, b: int| 0 <= a < b < r@.len() implies !diag_lt(r@[b], r@[a], by_message) by {
            if b < p {
                assert(r@[a] == before[a] && r@[b] == before[b]);
            } else if b == p {
                assert(r@[a] == before[a]);
            } else if a < p {
                assert(r@[a] == before[a] && r@[b] == before[b - 1]);
            } else if a == p {
                assert(r@[b] == before[b - 1]);
                if diag_lt(before[b - 1], d, by_message) {
                    assert(diag_lt(d, before[p as int], by_message));
                    if b - 1 > p {
                        assert(!diag_lt(before[b - 1], before[p as int], by_message));
                    }
                    lemma_diag_lt_trans(before[b - 1], d, before[p as int], by_message);
                    assert(b - 1 == p);
                    lemma_diag_lt_trans(d, before[p as int], d, by_message);
                    assert(!diag_lt(d, d, by_message)) by {
                        lemma_opt_seq_lt_irreflexive(doc_key(d.diagnostic.document));
                        lemma_seq_lt_irreflexive(code_of(d));
                        lemma_opt_seq_lt_irreflexive(tiebreak(d, by_message));
                    }
                }
            } else {
                assert(r@[a] == before[a - 1] && r@[b] == before[b - 1]);
            }
        }
    }
    p
}

} // verus!
