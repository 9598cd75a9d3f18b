//! Byte strings: comparing, searching and splitting.

use vstd::prelude::*;

verus! {

/// Whether `needle` stands in `hay` at position `at`.
pub open spec fn occurs_at(hay: Seq<u8>, needle: Seq<u8>, at: int) -> bool {
    0 <= at && at + needle.len() <= hay.len() && hay.subrange(at, at + needle.len()) == needle
}

/// Whether `needle` stands anywhere in `hay`.
pub open spec fn occurs_in(hay: Seq<u8>, needle: Seq<u8>) -> bool {
    exists|at: int| occurs_at(hay, needle, at)
}

/// The parts of `b` between the separators `sep`. A separator at either end leaves an empty part.
pub open spec fn pieces(b: Seq<u8>, sep: u8) -> Seq<Seq<u8>>
    decreases b.len(),
{
    if b.len() == 0 {
        seq![Seq::empty()]
    } else {
        let before = pieces(b.drop_last(), sep);
        if b.last() == sep {
            before.push(Seq::empty())
        } else {
            before.update(before.len() - 1, before.last().push(b.last()))
        }
    }
}

/// Whether two byte strings are equal.
pub fn same_bytes(a: &[u8], b: &[u8]) -> (same: bool)
    ensures
        same == (a@ == b@),
{
    if a.len() != b.len() {
        return false;
    }
    let mut i: usize = 0;
    while i < a.len()
        invariant
            i <= a@.len() == b@.len(),
            a@.take(i as int) == b@.take(i as int),
        decreases a@.len() - i,
    {
        if a[i] != b[i] {
            return false;
        }
        assert(a@.take(i + 1) == a@.take(i as int).push(a@[i as int]));
        assert(b@.take(i + 1) == b@.take(i as int).push(b@[i as int]));
        i += 1;
    }
    assert(a@ == a@.take(i as int));
    assert(b@ == b@.take(i as int));
    true
}

/// Whether `needle` stands in `hay` at position `at`.
pub fn stands_at(hay: &[u8], needle: &[u8], at: usize) -> (found: bool)
    ensures
        found == occurs_at(hay@, needle@, at as int),
{
    if needle.len() > hay.len() || at > hay.len() - needle.len() {
        return false;
    }
    let mut i: usize = 0;
    while i < needle.len()
        invariant
            i <= needle@.len(),
            at + needle@.len() <= hay@.len() <= usize::MAX,
            forall|j: int| 0 <= j < i ==> hay@[at + j] == #[trigger] needle@[j],
        decreases needle@.len() - i,
    {
        if hay[at + i] != needle[i] {
            assert(hay@.subrange(at as int, at + needle@.len())[i as int] != needle@[i as int]);
            return false;
        }
        i += 1;
    }
    assert(hay@.subrange(at as int, at + needle@.len()) == needle@);
    true
}

/// The first position of `needle` in `hay`.
pub fn find_first(hay: &[u8], needle: &[u8]) -> (found: Option<usize>)
    ensures
        match found {
            Some(at) => occurs_at(hay@, needle@, at as int) && forall|j: int|
                0 <= j < at ==> !#[trigger] occurs_at(hay@, needle@, j),
            None => !occurs_in(hay@, needle@),
        },
{
    let mut at: usize = 0;
    while at < hay.len()
        invariant
            at <= hay@.len(),
            forall|j: int| 0 <= j < at ==> !#[trigger] occurs_at(hay@, needle@, j),
        decreases hay@.len() - at,
    {
        if stands_at(hay, needle, at) {
            return Some(at);
        }
        at += 1;
    }
    if stands_at(hay, needle, at) {
        return Some(at);
    }
    None
}

/// The last position of `needle` in `hay`.
pub fn find_last(hay: &[u8], needle: &[u8]) -> (found: Option<usize>)
    ensures
        match found {
            Some(at) => occurs_at(hay@, needle@, at as int) && forall|j: int|
                at < j ==> !#[trigger] occurs_at(hay@, needle@, j),
            None => !occurs_in(hay@, needle@),
        },
{
    let mut at: usize = hay.len();
    while at > 0
        invariant
            at <= hay@.len(),
            forall|j: int| at < j ==> !#[trigger] occurs_at(hay@, needle@, j),
        decreases at,
    {
        if stands_at(hay, needle, at) {
            return Some(at);
        }
        at -= 1;
    }
    if stands_at(hay, needle, at) {
        return Some(at);
    }
    None
}

/// A copy of `from[start..end]`.
pub fn copy_range(from: &[u8], start: usize, end: usize) -> (copy: Vec<u8>)
    requires
        start <= end <= from@.len(),
    ensures
        copy@ == from@.subrange(start as int, end as int),
{
    let mut copy: Vec<u8> = Vec::new();
    let mut i: usize = start;
    while i < end
        invariant
            start <= i <= end <= from@.len(),
            copy@ == from@.subrange(start as int, i as int),
        decreases end - i,
    {
        copy.push(from[i]);
        assert(from@.subrange(start as int, i + 1) == from@.subrange(start as int, i as int).push(
            from@[i as int],
        ));
        i += 1;
    }
    copy
}

/// The views of a list of byte strings.
pub open spec fn byte_strings(list: Seq<Vec<u8>>) -> Seq<Seq<u8>> {
    list.map_values(|b: Vec<u8>| b@)
}

/// The parts of `b` between the separators `sep`.
pub fn split_bytes(b: &[u8], sep: u8) -> (parts: Vec<Vec<u8>>)
    ensures
        byte_strings(parts@) == pieces(b@, sep),
{
    let mut done: Vec<Vec<u8>> = Vec::new();
    let mut current: Vec<u8> = Vec::new();
    let mut i: usize = 0;
    assert(byte_strings(done@).push(current@) == pieces(b@.take(0), sep));
    while i < b.len()
        invariant
            i <= b@.len(),
            byte_strings(done@).push(current@) == pieces(b@.take(i as int), sep),
        decreases b@.len() - i,
    {
        let ghost before = byte_strings(done@).push(current@);
        assert(b@.take(i + 1).drop_last() == b@.take(i as int));
        if b[i] == sep {
            done.push(current);
            current = Vec::new();
            assert(byte_strings(done@) == before);
        } else {
            current.push(b[i]);
            assert(byte_strings(done@).push(current@) == before.update(
                before.len() - 1,
                before.last().push(b@[i as int]),
            ));
        }
        i += 1;
    }
    let ghost all = byte_strings(done@).push(current@);
    done.push(current);
    assert(byte_strings(done@) == all);
    assert(b@.take(i as int) == b@);
    done
}

/// Whether `b` is free of `sep`.
pub open spec fn free_of(b: Seq<u8>, sep: u8) -> bool {
    forall|i: int| 0 <= i < b.len() ==> #[trigger] b[i] != sep
}

/// The last part is the longest end of `b` that is free of the separator.
proof fn lemma_last_piece(b: Seq<u8>, sep: u8)
    ensures
        pieces(b, sep).len() >= 1,
        pieces(b, sep).last().len() <= b.len(),
        pieces(b, sep).last() == b.skip(b.len() - pieces(b, sep).last().len()),
        free_of(pieces(b, sep).last(), sep),
        forall|m: int|
            0 <= m <= b.len() && free_of(#[trigger] b.skip(b.len() - m), sep)
                ==> pieces(b, sep).last().len() >= m,
    decreases b.len(),
{
    let last = pieces(b, sep).last();
    if b.len() == 0 {
        assert(last == b.skip(0));
    } else {
        let init = b.drop_last();
        lemma_last_piece(init, sep);
        let before = pieces(init, sep);
        if b.last() == sep {
            assert(last == b.skip(b.len() as int));
            assert forall|m: int|
                0 <= m <= b.len() && free_of(#[trigger] b.skip(b.len() - m), sep) implies last.len()
                >= m by {
                if m > 0 {
                    assert(b.skip(b.len() - m)[m - 1] == sep);
                }
            }
        } else {
            assert(last == before.last().push(b.last()));
            assert(b.skip(b.len() - last.len()) == init.skip(
                init.len() - before.last().len(),
            ).push(b.last()));
            assert forall|m: int|
                0 <= m <= b.len() && free_of(#[trigger] b.skip(b.len() - m), sep) implies last.len()
                >= m by {
                if m > 0 {
                    let shorter = init.skip(init.len() - (m - 1));
                    assert forall|i: int| 0 <= i < shorter.len() implies #[trigger] shorter[i]
                        != sep by {
                        assert(shorter[i] == b.skip(b.len() - m)[i]);
                    }
                    assert(free_of(shorter, sep));
                }
            }
        }
    }
}

/// A needle without the separator stands in a text exactly when it stands in one of its parts.
pub proof fn law_needle_stays_within_a_piece(b: Seq<u8>, needle: Seq<u8>, sep: u8)
    requires
        free_of(needle, sep),
        needle.len() > 0,
    ensures
        occurs_in(b, needle) <==> exists|k: int|
            0 <= k < pieces(b, sep).len() && occurs_in(#[trigger] pieces(b, sep)[k], needle),
    decreases b.len(),
{
    let parts = pieces(b, sep);
    lemma_last_piece(b, sep);
    if b.len() == 0 {
        assert forall|k: int| 0 <= k < parts.len() implies !occurs_in(#[trigger] parts[k], needle) by {
        }
    } else {
        let init = b.drop_last();
        let before = pieces(init, sep);
        law_needle_stays_within_a_piece(init, needle, sep);
        lemma_last_piece(init, sep);
        if occurs_in(b, needle) {
            let at = choose|at: int| occurs_at(b, needle, at);
            if at + needle.len() <= init.len() {
                assert(init.subrange(at, at + needle.len()) == b.subrange(at, at + needle.len()));
                assert(occurs_at(init, needle, at));
                let k = choose|k: int| 0 <= k < before.len() && occurs_in(#[trigger] before[k], needle);
                if b.last() != sep && k == before.len() - 1 {
                    let p = choose|p: int| occurs_at(before[k], needle, p);
                    assert(parts[k].subrange(p, p + needle.len()) == before[k].subrange(
                        p,
                        p + needle.len(),
                    ));
                    assert(occurs_at(parts[k], needle, p));
                }
                assert(occurs_in(parts[k], needle));
            } else {
                assert(at + needle.len() == b.len());
                assert(b.skip(b.len() - needle.len()) == needle);
                let last = parts.last();
                let p = last.len() - needle.len();
                assert(last.subrange(p, p + needle.len()) == needle);
                assert(occurs_at(last, needle, p));
                assert(occurs_in(parts[parts.len() - 1], needle));
            }
        }
        if exists|k: int| 0 <= k < parts.len() && occurs_in(#[trigger] parts[k], needle) {
            let k = choose|k: int| 0 <= k < parts.len() && occurs_in(#[trigger] parts[k], needle);
            if k == parts.len() - 1 {
                let p = choose|p: int| occurs_at(parts[k], needle, p);
                let at = b.len() - parts[k].len() + p;
                assert(b.subrange(at, at + needle.len()) == parts[k].subrange(p, p + needle.len()));
                assert(occurs_at(b, needle, at));
            } else {
                assert(before[k] == parts[k]);
                let at = choose|at: int| occurs_at(init, needle, at);
                assert(b.subrange(at, at + needle.len()) == init.subrange(at, at + needle.len()));
                assert(occurs_at(b, needle, at));
            }
        }
    }
}

/// A needle stands at a place exactly if the text is something of that length, then the needle, then
/// the rest.
pub proof fn law_occurrence_splits_the_text(hay: Seq<u8>, needle: Seq<u8>, at: int)
    ensures
        occurs_at(hay, needle, at) <==> exists|lead: Seq<u8>, rest: Seq<u8>|
            lead.len() == at && hay == #[trigger] (lead + needle + rest),
{
    if occurs_at(hay, needle, at) {
        let lead = hay.take(at);
        let rest = hay.skip(at + needle.len());
        assert(hay =~= lead + needle + rest) by {
            assert forall|i: int| 0 <= i < hay.len() implies hay[i] == (lead + needle + rest)[i] by {
                if at <= i < at + needle.len() {
                    assert(hay.subrange(at, at + needle.len())[i - at] == needle[i - at]);
                }
            }
        }
        assert(lead.len() == at && hay == lead + needle + rest);
    }
    if exists|lead: Seq<u8>, rest: Seq<u8>|
        lead.len() == at && hay == #[trigger] (lead + needle + rest) {
        let (lead, rest) = choose|lead: Seq<u8>, rest: Seq<u8>|
            lead.len() == at && hay == #[trigger] (lead + needle + rest);
        assert(hay.subrange(at, at + needle.len()) =~= needle);
    }
}

/// Parts put together again, with a separator between any two.
pub open spec fn rejoined(parts: Seq<Seq<u8>>, sep: u8) -> Seq<u8>
    decreases parts.len(),
{
    if parts.len() == 0 {
        Seq::empty()
    } else if parts.len() == 1 {
        parts[0]
    } else {
        rejoined(parts.drop_last(), sep).push(sep) + parts.last()
    }
}

/// The parts of a text hold no separator, and put together again they are the text.
pub proof fn law_pieces_make_up_the_text(b: Seq<u8>, sep: u8)
    ensures
        pieces(b, sep).len() >= 1,
        rejoined(pieces(b, sep), sep) == b,
        forall|k: int, i: int|
            0 <= k < pieces(b, sep).len() && 0 <= i < pieces(b, sep)[k].len()
                ==> #[trigger] pieces(b, sep)[k][i] != sep,
    decreases b.len(),
{
    let parts = pieces(b, sep);
    if b.len() == 0 {
        assert(b =~= Seq::empty());
    } else {
        let init = b.drop_last();
        let before = pieces(init, sep);
        law_pieces_make_up_the_text(init, sep);
        if b.last() == sep {
            assert(parts.drop_last() =~= before);
            assert(rejoined(parts, sep) =~= b);
            assert forall|k: int, i: int|
                0 <= k < parts.len() && 0 <= i < parts[k].len() implies #[trigger] parts[k][i] != sep by {
                assert(parts[k] == before[k]);
                assert(before[k][i] != sep);
            }
        } else {
            assert(parts.drop_last() =~= before.drop_last());
            assert(init.push(b.last()) =~= b);
            if before.len() == 1 {
                assert(parts[0] =~= b);
            } else {
                let lead = rejoined(before.drop_last(), sep).push(sep);
                assert(init == lead + before.last());
                assert(rejoined(parts, sep) == lead + before.last().push(b.last()));
                assert(rejoined(parts, sep) =~= (lead + before.last()).push(b.last()));
            }
            assert forall|k: int, i: int|
                0 <= k < parts.len() && 0 <= i < parts[k].len() implies #[trigger] parts[k][i] != sep by {
                if k < before.len() - 1 || i < before[k].len() {
                    assert(parts[k][i] == before[k][i]);
                    assert(before[k][i] != sep);
                }
            }
        }
    }
}

/// A needle stands in a text exactly if the text is something, then the needle, then the rest.
pub proof fn law_contained_text_splits_it(hay: Seq<u8>, needle: Seq<u8>)
    ensures
        occurs_in(hay, needle) <==> exists|lead: Seq<u8>, rest: Seq<u8>|
            hay == #[trigger] (lead + needle + rest),
{
    if occurs_in(hay, needle) {
        let at = choose|at: int| occurs_at(hay, needle, at);
        law_occurrence_splits_the_text(hay, needle, at);
    }
    if exists|lead: Seq<u8>, rest: Seq<u8>| hay == #[trigger] (lead + needle + rest) {
        let (lead, rest) = choose|lead: Seq<u8>, rest: Seq<u8>|
            hay == #[trigger] (lead + needle + rest);
        law_occurrence_splits_the_text(hay, needle, lead.len() as int);
        assert(occurs_at(hay, needle, lead.len() as int));
    }
}

} // verus!
