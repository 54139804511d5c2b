//! Comma-separated tag lists.

use vstd::prelude::*;

use crate::text::{chars_of, split_seq, string_from_range, trim, trim_seq};
use crate::workspace::resolve::strs;

verus! {

/// `tags` with one trimmed piece added, unless it is empty or already present.
pub open spec fn add_piece_spec(tags: Seq<Seq<char>>, piece: Seq<char>) -> Seq<Seq<char>> {
    let t = trim_seq(piece);
    if t.len() == 0 || tags.contains(t) {
        tags
    } else {
        tags.push(t)
    }
}

/// `tags` with each of `pieces` added in order by `add_piece_spec`.
pub open spec fn add_pieces(tags: Seq<Seq<char>>, pieces: Seq<Seq<char>>) -> Seq<Seq<char>>
    decreases pieces.len(),
{
    if pieces.len() == 0 {
        tags
    } else {
        add_piece_spec(add_pieces(tags, pieces.drop_last()), pieces.last())
    }
}

/// `tags` extended by the comma-separated tags of `raw`: each piece trimmed, empty pieces
/// and tags already present skipped.
pub open spec fn extend_tags_spec(tags: Seq<Seq<char>>, raw: Seq<char>) -> Seq<Seq<char>> {
    add_pieces(tags, split_seq(raw, ','))
}

/// `tags` extended in order by each of `raws`.
pub open spec fn extend_tags_all(tags: Seq<Seq<char>>, raws: Seq<Seq<char>>) -> Seq<Seq<char>>
    decreases raws.len(),
{
    if raws.len() == 0 {
        tags
    } else {
        extend_tags_spec(extend_tags_all(tags, raws.drop_last()), raws.last())
    }
}

fn add_piece(tags: &mut Vec<String>, piece: &str)
    ensures
        strs(final(tags)@) == add_piece_spec(strs(old(tags)@), piece@),
{
    let t = trim(piece);
    if t.unicode_len() == 0 {
        return;
    }
    let mut i: usize = 0;
    while i < tags.len()
        invariant
            i <= tags.len(),
            tags@ == old(tags)@,
            t@ == trim_seq(piece@),
            forall|j: int| 0 <= j < i ==> (#[trigger] tags@[j])@ != t@,
        decreases tags.len() - i,
    {
        if crate::text::str_eq(tags[i].as_str(), t.as_str()) {
            assert(strs(tags@)[i as int] == t@);
            return;
        }
        i = i + 1;
    }
    assert(!strs(tags@).contains(t@)) by {
        if strs(tags@).contains(t@) {
            let j = choose|j: int| 0 <= j < strs(tags@).len() && strs(tags@)[j] == t@;
            assert(tags@[j]@ == t@);
        }
    }
    let ghost before = tags@;
    tags.push(t);
    assert(strs(tags@) =~= strs(before).push(trim_seq(piece@)));
}

/// Adds the comma-separated tags of `raw_value` to `tags`: each piece is trimmed, and empty
/// pieces and tags already present are skipped.
pub fn extend_tags(tags: &mut Vec<String>, raw_value: &str)
    ensures
        strs(final(tags)@) == extend_tags_spec(strs(old(tags)@), raw_value@),
{
    let ghost raw = raw_value@;
    let ghost t0 = strs(tags@);
    let cs = chars_of(raw_value);
    let mut start: usize = 0;
    let mut i: usize = 0;
    proof {
        assert(raw.take(0) =~= Seq::<char>::empty());
        assert(split_seq(raw.take(0), ',') =~= seq![Seq::<char>::empty()]);
        assert(split_seq(raw.take(0), ',').drop_last() =~= Seq::<Seq<char>>::empty());
    }
    while i < cs.len()
        invariant
            cs@ == raw,
            raw == raw_value@,
            start <= i <= cs.len(),
            split_seq(raw.take(i as int), ',').len() >= 1,
            split_seq(raw.take(i as int), ',').last() == raw.subrange(start as int, i as int),
            strs(tags@) == add_pieces(t0, split_seq(raw.take(i as int), ',').drop_last()),
        decreases cs.len() - i,
    {
        let ghost sp = split_seq(raw.take(i as int), ',');
        let ghost s1 = raw.take(i + 1);
        proof {
            assert(s1.drop_last() =~= raw.take(i as int));
            assert(s1.last() == raw[i as int]);
        }
        if cs[i] == ',' {
            let piece = string_from_range(&cs, start, i);
            add_piece(&mut *tags, piece.as_str());
            start = i + 1;
            proof {
                assert(split_seq(s1, ',') == sp.push(Seq::<char>::empty()));
                assert(split_seq(s1, ',').drop_last() =~= sp);
                assert(sp =~= sp.drop_last().push(sp.last()));
                assert(raw.subrange(start as int, i + 1) =~= Seq::<char>::empty());
            }
        } else {
            proof {
                let sp1 = sp.update(sp.len() - 1, sp.last().push(raw[i as int]));
                assert(split_seq(s1, ',') == sp1);
                assert(sp1.drop_last() =~= sp.drop_last());
                assert(sp1.last() =~= raw.subrange(start as int, i + 1));
            }
        }
        i = i + 1;
    }
    let piece = string_from_range(&cs, start, cs.len());
    add_piece(&mut *tags, piece.as_str());
    proof {
        let sp = split_seq(raw.take(i as int), ',');
        assert(raw.take(i as int) =~= raw);
        assert(sp =~= sp.drop_last().push(sp.last()));
    }
}

/// Adds the comma-separated tags of each of `values`, in order.
pub fn extend_tags_each(tags: &mut Vec<String>, values: &Vec<String>)
    ensures
        strs(final(tags)@) == extend_tags_all(strs(old(tags)@), strs(values@)),
{
    let ghost t0 = strs(tags@);
    let mut j: usize = 0;
    while j < values.len()
        invariant
            j <= values.len(),
            t0 == strs(old(tags)@),
            strs(tags@) == extend_tags_all(t0, strs(values@).take(j as int)),
        decreases values.len() - j,
    {
        extend_tags(tags, values[j].as_str());
        proof {
            assert(strs(values@).take(j + 1).drop_last() =~= strs(values@).take(j as int));
        }
        j = j + 1;
    }
    assert(strs(values@).take(values.len() as int) =~= strs(values@));
}

/// Adding tags keeps the tags already present, in place, and never repeats a tag: from a list
/// without repeats, extending by any comma-separated text gives a list without repeats that
/// starts with the original list.
pub proof fn lemma_extend_tags_distinct(tags: Seq<Seq<char>>, raw: Seq<char>)
    requires
        tags.no_duplicates(),
    ensures
        extend_tags_spec(tags, raw).no_duplicates(),
        tags.len() <= extend_tags_spec(tags, raw).len(),
        extend_tags_spec(tags, raw).take(tags.len() as int) == tags,
{
    lemma_add_pieces_distinct(tags, split_seq(raw, ','));
}

proof fn lemma_add_pieces_distinct(tags: Seq<Seq<char>>, pieces: Seq<Seq<char>>)
    requires
        tags.no_duplicates(),
    ensures
        add_pieces(tags, pieces).no_duplicates(),
        tags.len() <= add_pieces(tags, pieces).len(),
        add_pieces(tags, pieces).take(tags.len() as int) == tags,
    decreases pieces.len(),
{
    if pieces.len() == 0 {
        assert(tags.take(tags.len() as int) =~= tags);
    } else {
        lemma_add_pieces_distinct(tags, pieces.drop_last());
        let prev = add_pieces(tags, pieces.drop_last());
        let t = trim_seq(pieces.last());
        if !(t.len() == 0 || prev.contains(t)) {
            let next = prev.push(t);
            assert forall|i: int, j: int| 0 <= i < next.len() && 0 <= j < next.len() && i != j implies next[i] != next[j] by {
                if i == prev.len() as int {
                    assert(next[j] == prev[j]);
                } else if j == prev.len() as int {
                    assert(next[i] == prev[i]);
                } else {
                    assert(next[i] == prev[i] && next[j] == prev[j]);
                }
            }
            assert(next.take(tags.len() as int) =~= prev.take(tags.len() as int));
        }
    }
}

} // verus!
