//! The reverse index from a declaration symbol to the references that resolved to it.

use vstd::prelude::*;

use crate::rule::str_lt;
use crate::workspace::model::{handle_lt, ReferenceHandle, Resolution, ReferenceResolutionStatus, SymbolHandle};
use crate::workspace::references::{resolution_views, ResolutionEntry};
use crate::workspace::tables::{lemma_handle_lt_total, lemma_handle_lt_trans};

verus! {

/// Whether some reference of `s` has view `y`.
pub open spec fn has_ref(s: Seq<ReferenceHandle>, y: (Seq<char>, usize)) -> bool {
    exists|i: int| 0 <= i < s.len() && (#[trigger] s[i])@ == y
}

/// Whether the references of `s` strictly increase in handle order.
pub open spec fn refs_sorted(s: Seq<ReferenceHandle>) -> bool {
    forall|i: int, j: int| 0 <= i < j < s.len() ==> handle_lt((#[trigger] s[i])@, (#[trigger] s[j])@)
}

/// Reference `y` resolved to symbol `t` in the recorded resolutions.
pub open spec fn resolved_to(rv: Seq<ResolutionEntry>, y: (Seq<char>, usize), t: (Seq<char>, usize)) -> bool {
    exists|k: int| 0 <= k < rv.len() && #[trigger] rv[k] == (y, Resolution::Resolved(t))
}

/// Whether target `t` has a group in `index` that holds reference `y`.
pub open spec fn indexed(index: Seq<(SymbolHandle, Vec<ReferenceHandle>)>, t: (Seq<char>, usize), y: (Seq<char>, usize)) -> bool {
    exists|i: int| 0 <= i < index.len() && (#[trigger] index[i]).0@ == t && has_ref(index[i].1@, y)
}

/// The index lists each resolved target once, in handle order, with its references in handle
/// order and without repeats, and holds exactly the resolved pairs of `rv`.
pub open spec fn target_index_ok(index: Seq<(SymbolHandle, Vec<ReferenceHandle>)>, rv: Seq<ResolutionEntry>) -> bool {
    &&& forall|i: int, j: int|
        0 <= i < j < index.len() ==> handle_lt((#[trigger] index[i]).0@, (#[trigger] index[j]).0@)
    &&& forall|i: int| 0 <= i < index.len() ==> refs_sorted((#[trigger] index[i]).1@) && index[i].1@.len() > 0
    &&& forall|t: (Seq<char>, usize), y: (Seq<char>, usize)| #[trigger] indexed(index, t, y) <==> resolved_to(rv, y, t)
}

fn ref_precedes(a: &ReferenceHandle, b: &ReferenceHandle) -> (r: bool)
    ensures
        r == handle_lt(a@, b@),
{
    if str_lt(a.document.0.as_str(), b.document.0.as_str()) {
        true
    } else if a.document.same(&b.document) {
        a.reference_index < b.reference_index
    } else {
        false
    }
}

/// Adds `x` to a strictly sorted reference list unless it is already there.
fn insert_ref_sorted(r: &mut Vec<ReferenceHandle>, x: ReferenceHandle)
    requires
        refs_sorted(old(r)@),
    ensures
        refs_sorted(final(r)@),
        forall|y: (Seq<char>, usize)| #[trigger] has_ref(final(r)@, y) <==> (has_ref(old(r)@, y) || y == x@),
        final(r)@.len() > 0,
{
    let ghost old_r = r@;
    let mut p: usize = 0;
    while p < r.len() && ref_precedes(&r[p], &x)
        invariant
            r@ == old_r,
            p <= r@.len(),
            forall|j: int| 0 <= j < p ==> handle_lt((#[trigger] r@[j])@, x@),
        decreases r.len() - p,
    {
        p = p + 1;
    }
    if p < r.len() && r[p].same(&x) {
        assert forall|y: (Seq<char>, usize)| #[trigger] has_ref(r@, y) <==> (has_ref(old_r, y) || y == x@) by {
            if y == x@ {
                assert(r@[p as int]@ == y);
            }
        }
        return ;
    }
    proof {
        if p < r@.len() {
            lemma_handle_lt_total(r@[p as int]@, x@);
        }
    }
    r.insert(p, x);
    proof {
        assert forall|i: int, j: int| 0 <= i < j < r@.len() implies handle_lt(
            (#[trigger] r@[i])@,
            (#[trigger] r@[j])@,
        ) by {
            if j < p {
                assert(r@[i] == old_r[i] && r@[j] == old_r[j]);
            } else if j == p {
                assert(r@[i] == old_r[i]);
            } else if i == p {
                assert(r@[j] == old_r[j - 1]);
                if j - 1 > p {
                    assert(handle_lt(old_r[p as int]@, old_r[j - 1]@));
                    lemma_handle_lt_trans(x@, old_r[p as int]@, old_r[j - 1]@);
                }
            } else if i < p {
                assert(r@[i] == old_r[i] && r@[j] == old_r[j - 1]);
                if j - 1 >= p {
                    lemma_handle_lt_trans(old_r[i]@, x@, old_r[p as int]@);
                    if j - 1 > p {
                        lemma_handle_lt_trans(old_r[i]@, old_r[p as int]@, old_r[j - 1]@);
                    }
                }
            } else {
                assert(r@[i] == old_r[i - 1] && r@[j] == old_r[j - 1]);
            }
        }
        assert forall|y: (Seq<char>, usize)| #[trigger] has_ref(r@, y) <==> (has_ref(old_r, y) || y == x@) by {
            if has_ref(old_r, y) {
                let k = choose|k: int| 0 <= k < old_r.len() && (#[trigger] old_r[k])@ == y;
                if k < p {
                    assert(r@[k] == old_r[k]);
                } else {
                    assert(r@[k + 1] == old_r[k]);
                }
            }
            if y == x@ {
                assert(r@[p as int] == x);
            }
            if has_ref(r@, y) {
                let k = choose|k: int| 0 <= k < r@.len() && (#[trigger] r@[k])@ == y;
                if k < p {
                    assert(r@[k] == old_r[k]);
                } else if k > p {
                    assert(r@[k] == old_r[k - 1]);
                }
            }
        }
        assert(r@[p as int] == x);
    }
}

/// Records that reference `y` resolved to target `t`.
fn add_reference_for_target(
    index: &mut Vec<(SymbolHandle, Vec<ReferenceHandle>)>,
    target: &SymbolHandle,
    handle: &ReferenceHandle,
)
    requires
        forall|i: int, j: int|
            0 <= i < j < old(index)@.len() ==> handle_lt((#[trigger] old(index)@[i]).0@, (#[trigger] old(index)@[j]).0@),
        forall|i: int| 0 <= i < old(index)@.len() ==> refs_sorted((#[trigger] old(index)@[i]).1@) && old(index)@[i].1@.len() > 0,
    ensures
        forall|i: int, j: int|
            0 <= i < j < final(index)@.len() ==> handle_lt((#[trigger] final(index)@[i]).0@, (#[trigger] final(index)@[j]).0@),
        forall|i: int| 0 <= i < final(index)@.len() ==> refs_sorted((#[trigger] final(index)@[i]).1@) && final(index)@[i].1@.len() > 0,
        forall|t: (Seq<char>, usize), y: (Seq<char>, usize)|
            #[trigger] indexed(final(index)@, t, y) <==> (indexed(old(index)@, t, y) || (t == target@ && y == handle@)),
{
    let ghost old_i = index@;
    let mut p: usize = 0;
    while p < index.len() && index[p].0.precedes(target)
        invariant
            index@ == old_i,
            p <= index@.len(),
            forall|j: int| 0 <= j < p ==> handle_lt((#[trigger] index@[j]).0@, target@),
        decreases index.len() - p,
    {
        p = p + 1;
    }
    if p < index.len() && index[p].0.same(target) {
        let (t, mut hs) = index.remove(p);
        let ghost hs0 = hs@;
        insert_ref_sorted(&mut hs, handle.clone());
        index.insert(p, (t, hs));
        proof {
            assert forall|i: int, j: int| 0 <= i < j < index@.len() implies handle_lt(
                (#[trigger] index@[i]).0@,
                (#[trigger] index@[j]).0@,
            ) by {
                if i != p && j != p {
                    assert(index@[i] == old_i[i] && index@[j] == old_i[j]);
                } else if i == p {
                    assert(index@[j] == old_i[j]);
                    assert(handle_lt(old_i[p as int].0@, old_i[j].0@));
                } else {
                    assert(index@[i] == old_i[i]);
                    assert(handle_lt(old_i[i].0@, old_i[p as int].0@));
                }
            }
            assert forall|i: int| 0 <= i < index@.len() implies refs_sorted((#[trigger] index@[i]).1@)
                && index@[i].1@.len() > 0 by {
                if i != p {
                    assert(index@[i] == old_i[i]);
                }
            }
            assert forall|t2: (Seq<char>, usize), y: (Seq<char>, usize)| #[trigger] indexed(index@, t2, y) <==> (
            indexed(old_i, t2, y) || (t2 == target@ && y == handle@)) by {
                if indexed(index@, t2, y) {
                    let i = choose|i: int| 0 <= i < index@.len() && (#[trigger] index@[i]).0@ == t2 && has_ref(index@[i].1@, y);
                    if i != p {
                        assert(index@[i] == old_i[i]);
                    } else if has_ref(hs0, y) {
                        assert(old_i[p as int].1@ == hs0);
                    }
                }
                if indexed(old_i, t2, y) {
                    let i = choose|i: int| 0 <= i < old_i.len() && (#[trigger] old_i[i]).0@ == t2 && has_ref(old_i[i].1@, y);
                    if i != p {
                        assert(index@[i] == old_i[i]);
                    } else {
                        assert(has_ref(index@[p as int].1@, y));
                    }
                }
                if t2 == target@ && y == handle@ {
                    assert(has_ref(index@[p as int].1@, y));
                }
            }
        }
        return ;
    }
    let mut hs: Vec<ReferenceHandle> = Vec::new();
    hs.push(handle.clone());
    proof {
        if p < index@.len() {
            lemma_handle_lt_total(index@[p as int].0@, target@);
        }
        assert(hs@[0] == *handle);
        assert(has_ref(hs@, handle@));
    }
    index.insert(p, (target.clone(), hs));
    proof {
        assert forall|i: int, j: int| 0 <= i < j < index@.len() implies handle_lt(
            (#[trigger] index@[i]).0@,
            (#[trigger] index@[j]).0@,
        ) by {
            if j < p {
                assert(index@[i] == old_i[i] && index@[j] == old_i[j]);
            } else if j == p {
                assert(index@[i] == old_i[i]);
            } else if i == p {
                assert(index@[j] == old_i[j - 1]);
                if j - 1 > p {
                    lemma_handle_lt_trans(target@, old_i[p as int].0@, old_i[j - 1].0@);
                }
            } else if i < p {
                assert(index@[i] == old_i[i] && index@[j] == old_i[j - 1]);
                if j - 1 >= p {
                    lemma_handle_lt_trans(old_i[i].0@, target@, old_i[p as int].0@);
                    if j - 1 > p {
                        lemma_handle_lt_trans(old_i[i].0@, old_i[p as int].0@, old_i[j - 1].0@);
                    }
                }
            } else {
                assert(index@[i] == old_i[i - 1] && index@[j] == old_i[j - 1]);
            }
        }
        assert forall|i: int| 0 <= i < index@.len() implies refs_sorted((#[trigger] index@[i]).1@)
            && index@[i].1@.len() > 0 by {
            if i < p {
                assert(index@[i] == old_i[i]);
            } else if i > p {
                assert(index@[i] == old_i[i - 1]);
            }
        }
        assert forall|t2: (Seq<char>, usize), y: (Seq<char>, usize)| #[trigger] indexed(index@, t2, y) <==> (indexed(
            old_i,
            t2,
            y,
        ) || (t2 == target@ && y == handle@)) by {
            if indexed(index@, t2, y) {
                let i = choose|i: int| 0 <= i < index@.len() && (#[trigger] index@[i]).0@ == t2 && has_ref(index@[i].1@, y);
                if i < p {
                    assert(index@[i] == old_i[i]);
                } else if i > p {
                    assert(index@[i] == old_i[i - 1]);
                } else {
                    let k = choose|k: int| 0 <= k < index@[i].1@.len() && (#[trigger] index@[i].1@[k])@ == y;
                    assert(index@[i].1@.len() == 1);
                }
            }
            if indexed(old_i, t2, y) {
                let i = choose|i: int| 0 <= i < old_i.len() && (#[trigger] old_i[i]).0@ == t2 && has_ref(old_i[i].1@, y);
                if i < p {
                    assert(index@[i] == old_i[i]);
                } else {
                    assert(index@[i + 1] == old_i[i]);
                }
            }
            if t2 == target@ && y == handle@ {
                assert(index@[p as int].1@[0] == *handle);
                assert(has_ref(index@[p as int].1@, y));
            }
        }
    }
}

/// Groups the resolved references of an instance by the symbol they resolved to.
pub fn index_references_by_target(resolutions: &Vec<(ReferenceHandle, ReferenceResolutionStatus)>) -> (r: Vec<
    (SymbolHandle, Vec<ReferenceHandle>),
>)
    ensures
        target_index_ok(r@, resolution_views(resolutions@)),
{
    let mut index: Vec<(SymbolHandle, Vec<ReferenceHandle>)> = Vec::new();
    let ghost rv = resolution_views(resolutions@);
    let mut k: usize = 0;
    while k < resolutions.len()
        invariant
            rv == resolution_views(resolutions@),
            k <= resolutions@.len(),
            target_index_ok(index@, rv.take(k as int)),
        decreases resolutions@.len() - k,
    {
        let ghost before = index@;
        let (handle, status) = (&resolutions[k].0, &resolutions[k].1);
        match status {
            ReferenceResolutionStatus::Resolved(target) => {
                add_reference_for_target(&mut index, target, handle);
            },
            _ => {},
        }
        proof {
            assert forall|t: (Seq<char>, usize), y: (Seq<char>, usize)| #[trigger] indexed(index@, t, y) <==> resolved_to(
                rv.take(k + 1),
                y,
                t,
            ) by {
                assert(rv.take(k + 1)[k as int] == rv[k as int]);
                if resolved_to(rv.take(k + 1), y, t) {
                    let j = choose|j: int| 0 <= j < rv.take(k + 1).len() && #[trigger] rv.take(k + 1)[j] == (y, Resolution::Resolved(t));
                    if j < k {
                        assert(rv.take(k as int)[j] == rv.take(k + 1)[j]);
                    }
                }
                if resolved_to(rv.take(k as int), y, t) {
                    let j = choose|j: int| 0 <= j < rv.take(k as int).len() && #[trigger] rv.take(k as int)[j] == (y, Resolution::Resolved(t));
                    assert(rv.take(k + 1)[j] == rv.take(k as int)[j]);
                }
            }
        }
        k = k + 1;
    }
    assert(rv.take(resolutions@.len() as int) =~= rv);
    index
}

} // verus!
