//! Word-position indexing: the pure part of a text indexer. Given the
//! lines of a document, every whitespace-separated word is lowercased and
//! numbered by its position in the document-wide word stream; the index
//! maps each distinct lowered word to all of its positions. Splitting and
//! lowercasing are done by std and trusted by name; everything that
//! numbers, groups and looks up words is verified.

use vstd::prelude::*;

verus! {

/// What str::split_whitespace yields for a line: its words, in order.
pub uninterp spec fn words_of(line: Seq<char>) -> Seq<Seq<char>>;

/// What str::to_lowercase yields for a word.
pub uninterp spec fn lower_of(word: Seq<char>) -> Seq<char>;

/// Relies on str::split_whitespace: the pieces are a function of the
/// line's characters alone — the words of the line, in order.
#[verifier::external_body]
fn split_words(line: &str) -> (r: Vec<String>)
    ensures
        r.deep_view() == words_of(line@),
{
    line.split_whitespace().map(|w| w.to_owned()).collect()
}

/// Relies on str::to_lowercase: the result is a function of the word's
/// characters alone — its lowercase form.
#[verifier::external_body]
fn lowercase(word: &str) -> (r: String)
    ensures
        r@ == lower_of(word@),
{
    word.to_lowercase()
}

/// All words of the given lines, lowered, line by line and in order.
pub open spec fn token_stream(lines: Seq<Seq<char>>) -> Seq<Seq<char>>
    decreases lines.len(),
{
    if lines.len() == 0 {
        Seq::empty()
    } else {
        token_stream(lines.drop_last()) + words_of(lines.last()).map_values(
            |w: Seq<char>| lower_of(w),
        )
    }
}

/// The positions at which `w` occurs in the stream, in increasing order.
pub open spec fn positions_of(stream: Seq<Seq<char>>, w: Seq<char>) -> Seq<int>
    decreases stream.len(),
{
    if stream.len() == 0 {
        Seq::empty()
    } else {
        let rest = positions_of(stream.drop_last(), w);
        if stream.last() == w {
            rest.push(stream.len() - 1)
        } else {
            rest
        }
    }
}

/// A sequence of positions as mathematical integers.
pub open spec fn as_ints(s: Seq<usize>) -> Seq<int> {
    s.map_values(|p: usize| p as int)
}

/// A word index is a faithful model of a stream when its entries carry
/// distinct words, every entry lists exactly the word's positions in the
/// stream and is non-empty, and every word of the stream has an entry.
pub open spec fn indexes(idx: Seq<(String, Vec<usize>)>, stream: Seq<Seq<char>>) -> bool {
    &&& (forall|i: int, j: int| 0 <= i < j < idx.len() ==> idx[i].0@ != idx[j].0@)
    &&& (forall|i: int|
        0 <= i < idx.len() ==> as_ints(#[trigger] idx[i].1@) == positions_of(stream, idx[i].0@))
    &&& (forall|i: int| 0 <= i < idx.len() ==> (#[trigger] idx[i].1@).len() > 0)
    &&& (forall|t: int|
        0 <= t < stream.len() ==> exists|i: int|
            0 <= i < idx.len() && (#[trigger] idx[i].0@) == #[trigger] stream[t])
}

/// Builds the word-position index of the given lines: every word of every
/// line, lowered, is numbered by its position in the document-wide word
/// stream, and each distinct lowered word maps to all of its positions.
/// Returns `None` exactly when the words cannot all be numbered, that is,
/// when the stream is longer than a machine word can count.
pub fn index_lines(lines: &Vec<String>) -> (r: Option<Vec<(String, Vec<usize>)>>)
    ensures
        match r {
            Some(idx) => indexes(idx@, token_stream(lines.deep_view())) && token_stream(
                lines.deep_view(),
            ).len() <= usize::MAX,
            None => token_stream(lines.deep_view()).len() > usize::MAX,
        },
{
    let ghost full = lines.deep_view();
    let mut out: Vec<(String, Vec<usize>)> = Vec::new();
    let mut pos: usize = 0;
    let ghost seen: Seq<Seq<char>> = Seq::empty();

    let mut li: usize = 0;
    while li < lines.len()
        invariant
            li <= lines.len(),
            full == lines.deep_view(),
            seen =~= token_stream(full.take(li as int)),
            pos == seen.len(),
            indexes(out@, seen),
        decreases lines.len() - li,
    {
        let words = split_words(lines[li].as_str());
        let ghost mapped = words_of(full[li as int]).map_values(|w: Seq<char>| lower_of(w));
        proof {
            assert(full[li as int] == lines@[li as int]@);
        }

        let mut wi: usize = 0;
        while wi < words.len()
            invariant
                wi <= words.len(),
                full == lines.deep_view(),
                words.deep_view() == words_of(full[li as int]),
                0 <= li < full.len(),
                mapped == words_of(full[li as int]).map_values(|w: Seq<char>| lower_of(w)),
                seen =~= token_stream(full.take(li as int)) + mapped.take(wi as int),
                pos == seen.len(),
                indexes(out@, seen),
            decreases words.len() - wi,
        {
            if pos == usize::MAX {
                // One more word could not be numbered.
                proof {
                    assert(words.deep_view().len() == words@.len());
                    assert(wi < mapped.len());
                    assert(seen.len() == token_stream(full.take(li as int)).len() + wi);
                    lemma_stream_prefix_len(full, li as int, mapped, wi as int);
                    assert(token_stream(full).len() >= seen.len() + 1);
                }
                return None;
            }
            let word = lowercase(words[wi].as_str());
            proof {
                assert(words.deep_view()[wi as int] == words@[wi as int]@);
                assert(word@ == mapped[wi as int]);
            }
            let ghost seen2 = seen.push(word@);
            proof {
                assert(seen2.drop_last() =~= seen);
            }

            let mut found = false;
            let mut k: usize = 0;
            while k < out.len()
                invariant_except_break
                    k <= out@.len(),
                    !found,
                    forall|i: int| 0 <= i < k ==> (#[trigger] out@[i].0@) != word@,
                ensures
                    found ==> k < out@.len() && out@[k as int].0@ == word@,
                    !found ==> forall|i: int|
                        0 <= i < out@.len() ==> (#[trigger] out@[i].0@) != word@,
                decreases out@.len() - k,
            {
                if out[k].0.eq(&word) {
                    found = true;
                    break ;
                }
                k += 1;
            }

            if found {
                let ghost pre_out = out@;
                push_position(&mut out, k, pos);
                proof {
                    lemma_index_update(pre_out, out@, k as int, seen, seen2, pos);
                }
            } else {
                let ghost pre_out = out@;
                let mut positions: Vec<usize> = Vec::new();
                positions.push(pos);
                out.push((word, positions));
                proof {
                    assert(out@.last().1@ =~= seq![pos]);
                    lemma_index_append(pre_out, out@, seen, seen2, pos);
                }
            }
            proof {
                assert(seen2 =~= token_stream(full.take(li as int)) + mapped.take(wi as int + 1));
                seen = seen2;
            }
            pos += 1;
            wi += 1;
        }
        proof {
            assert(full.take(li as int + 1).drop_last() =~= full.take(li as int));
            assert(full.take(li as int + 1).last() == full[li as int]);
            assert(mapped.take(wi as int) =~= mapped);
            assert(seen =~= token_stream(full.take(li as int + 1)));
        }
        li += 1;
    }
    proof {
        assert(full.take(li as int) =~= full);
    }
    Some(out)
}

/// The prefix of the stream reached after `li` whole lines and `wi` words
/// of the next line is itself a prefix of the whole stream, so the whole
/// stream is at least as long.
proof fn lemma_stream_prefix_len(full: Seq<Seq<char>>, li: int, mapped: Seq<Seq<char>>, wi: int)
    requires
        0 <= li < full.len(),
        mapped == words_of(full[li]).map_values(|w: Seq<char>| lower_of(w)),
        0 <= wi < mapped.len(),
    ensures
        token_stream(full).len() >= token_stream(full.take(li)).len() + wi + 1,
{
    lemma_token_stream_line_prefix(full, li + 1);
    assert(token_stream(full.take(li + 1)).len() >= token_stream(full.take(li)).len() + wi + 1) by {
        assert(full.take(li + 1).drop_last() =~= full.take(li));
        assert(full.take(li + 1).last() == full[li]);
    }
}

/// The token stream of a prefix of the lines is no longer than the token
/// stream of all the lines.
proof fn lemma_token_stream_line_prefix(full: Seq<Seq<char>>, li: int)
    requires
        0 <= li <= full.len(),
    ensures
        token_stream(full).len() >= token_stream(full.take(li)).len(),
    decreases full.len() - li,
{
    if li < full.len() {
        lemma_token_stream_line_prefix(full, li + 1);
        assert(full.take(li + 1).drop_last() =~= full.take(li));
    } else {
        assert(full.take(li) =~= full);
    }
}

/// A word that never occurs in the stream has no positions in it.
proof fn lemma_positions_absent(stream: Seq<Seq<char>>, w: Seq<char>)
    requires
        forall|t: int| 0 <= t < stream.len() ==> #[trigger] stream[t] != w,
    ensures
        positions_of(stream, w).len() == 0,
    decreases stream.len(),
{
    if stream.len() > 0 {
        lemma_positions_absent(stream.drop_last(), w);
    }
}

/// Appends one position to the `k`-th entry, leaving every other entry and
/// the entry's word untouched.
fn push_position(out: &mut Vec<(String, Vec<usize>)>, k: usize, pos: usize)
    requires
        k < old(out)@.len(),
    ensures
        final(out)@.len() == old(out)@.len(),
        final(out)@[k as int].0 == old(out)@[k as int].0,
        final(out)@[k as int].1@ == old(out)@[k as int].1@.push(pos),
        forall|i: int|
            0 <= i < old(out)@.len() && i != k ==> final(out)@[i] == old(out)@[i],
{
    let entry = &mut out[k];
    entry.1.push(pos);
}

/// Appending one occurrence of the newest token to its existing entry
/// keeps the index faithful for the extended stream.
proof fn lemma_index_update(
    idx0: Seq<(String, Vec<usize>)>,
    idx: Seq<(String, Vec<usize>)>,
    k: int,
    seen: Seq<Seq<char>>,
    seen2: Seq<Seq<char>>,
    pos: usize,
)
    requires
        indexes(idx0, seen),
        seen2.drop_last() == seen,
        seen2.len() == seen.len() + 1,
        pos == seen.len(),
        0 <= k < idx0.len(),
        idx.len() == idx0.len(),
        idx[k].0 == idx0[k].0,
        idx0[k].0@ == seen2.last(),
        idx[k].1@ == idx0[k].1@.push(pos),
        forall|i: int| 0 <= i < idx.len() && i != k ==> #[trigger] idx[i] == idx0[i],
    ensures
        indexes(idx, seen2),
{
    assert(forall|i: int| 0 <= i < idx.len() ==> (#[trigger] idx[i]).0 == idx0[i].0);
    assert forall|i: int| 0 <= i < idx.len() implies as_ints(#[trigger] idx[i].1@) == positions_of(
        seen2,
        idx[i].0@,
    ) by {
        if i == k {
            assert(as_ints(idx[k].1@) =~= as_ints(idx0[k].1@).push(pos as int));
            assert(positions_of(seen2, seen2.last()) == positions_of(seen, seen2.last()).push(
                seen2.len() - 1,
            ));
        } else {
            assert(idx0[i].0@ != idx0[k].0@);
            assert(positions_of(seen2, idx[i].0@) == positions_of(seen, idx[i].0@));
        }
    }
    assert forall|t: int| 0 <= t < seen2.len() implies exists|i: int|
        0 <= i < idx.len() && (#[trigger] idx[i].0@) == #[trigger] seen2[t] by {
        if t < seen.len() {
            assert(seen2[t] == seen[t]);
            let i = choose|i: int| 0 <= i < idx0.len() && (#[trigger] idx0[i].0@) == seen[t];
            assert(idx[i].0@ == seen2[t]);
        } else {
            assert(idx[k].0@ == seen2[t]);
        }
    }
}

/// Adding a fresh entry for a token never seen before keeps the index
/// faithful for the extended stream.
proof fn lemma_index_append(
    idx0: Seq<(String, Vec<usize>)>,
    idx: Seq<(String, Vec<usize>)>,
    seen: Seq<Seq<char>>,
    seen2: Seq<Seq<char>>,
    pos: usize,
)
    requires
        indexes(idx0, seen),
        seen2.drop_last() == seen,
        seen2.len() == seen.len() + 1,
        pos == seen.len(),
        idx.len() == idx0.len() + 1,
        forall|i: int| 0 <= i < idx0.len() ==> #[trigger] idx[i] == idx0[i],
        idx.last().0@ == seen2.last(),
        idx.last().1@ == seq![pos],
        forall|i: int| 0 <= i < idx0.len() ==> (#[trigger] idx0[i].0@) != seen2.last(),
    ensures
        indexes(idx, seen2),
{
    let last = idx.len() - 1;
    assert forall|t: int| 0 <= t < seen.len() implies #[trigger] seen[t] != seen2.last() by {
        if seen[t] == seen2.last() {
            let i = choose|i: int| 0 <= i < idx0.len() && (#[trigger] idx0[i].0@) == seen[t];
            assert(idx0[i].0@ != seen2.last());
        }
    }
    lemma_positions_absent(seen, seen2.last());
    assert forall|i: int| 0 <= i < idx.len() implies as_ints(#[trigger] idx[i].1@) == positions_of(
        seen2,
        idx[i].0@,
    ) by {
        if i == last {
            assert(positions_of(seen2, seen2.last()) =~= seq![pos as int]);
            assert(as_ints(idx[last].1@) =~= seq![pos as int]);
        } else {
            assert(idx[i] == idx0[i]);
            assert(positions_of(seen2, idx[i].0@) == positions_of(seen, idx[i].0@));
        }
    }
    assert forall|t: int| 0 <= t < seen2.len() implies exists|i: int|
        0 <= i < idx.len() && (#[trigger] idx[i].0@) == #[trigger] seen2[t] by {
        if t < seen.len() {
            assert(seen2[t] == seen[t]);
            let i = choose|i: int| 0 <= i < idx0.len() && (#[trigger] idx0[i].0@) == seen[t];
            assert(idx[i].0@ == seen2[t]);
        } else {
            assert(idx[last].0@ == seen2[t]);
        }
    }
}

/// One per-file word index: the file's name and its word-position table.
pub type FileIndex = (String, Vec<(String, Vec<usize>)>);

/// All word occurrences of the given per-file indexes, flattened in input
/// order: for each file, one item per entry of its table, carrying the
/// file's name, the word, and the word's positions in that file.
pub open spec fn occurrences(per_file: Seq<FileIndex>) -> Seq<(Seq<char>, Seq<char>, Seq<usize>)>
    decreases per_file.len(),
{
    if per_file.len() == 0 {
        Seq::empty()
    } else {
        occurrences(per_file.drop_last()) + per_file.last().1@.map_values(
            |e: (String, Vec<usize>)| (per_file.last().0@, e.0@, e.1@),
        )
    }
}

/// The files that carry `word`, with the word's positions there, in the
/// order the occurrences appear.
pub open spec fn file_hits(occ: Seq<(Seq<char>, Seq<char>, Seq<usize>)>, word: Seq<char>) -> Seq<
    (Seq<char>, Seq<usize>),
>
    decreases occ.len(),
{
    if occ.len() == 0 {
        Seq::empty()
    } else {
        let rest = file_hits(occ.drop_last(), word);
        if occ.last().1 == word {
            rest.push((occ.last().0, occ.last().2))
        } else {
            rest
        }
    }
}

/// The hits of a merged entry, as file name and positions.
pub open spec fn view_hits(s: Seq<(String, Vec<usize>)>) -> Seq<(Seq<char>, Seq<usize>)> {
    s.map_values(|h: (String, Vec<usize>)| (h.0@, h.1@))
}

/// A word that never occurs leaves no file hits.
proof fn lemma_hits_absent(occ: Seq<(Seq<char>, Seq<char>, Seq<usize>)>, word: Seq<char>)
    requires
        forall|t: int| 0 <= t < occ.len() ==> (#[trigger] occ[t]).1 != word,
    ensures
        file_hits(occ, word).len() == 0,
    decreases occ.len(),
{
    if occ.len() > 0 {
        lemma_hits_absent(occ.drop_last(), word);
    }
}

/// A merged index is a faithful model of the occurrences when its entries
/// carry distinct words, every entry lists exactly the word's file hits and
/// is non-empty, and every occurring word has an entry.
pub open spec fn merges(
    idx: Seq<(String, Vec<(String, Vec<usize>)>)>,
    occ: Seq<(Seq<char>, Seq<char>, Seq<usize>)>,
) -> bool {
    &&& (forall|i: int, j: int| 0 <= i < j < idx.len() ==> idx[i].0@ != idx[j].0@)
    &&& (forall|i: int|
        0 <= i < idx.len() ==> view_hits(#[trigger] idx[i].1@) == file_hits(occ, idx[i].0@))
    &&& (forall|i: int| 0 <= i < idx.len() ==> (#[trigger] idx[i].1@).len() > 0)
    &&& (forall|t: int|
        0 <= t < occ.len() ==> exists|i: int|
            0 <= i < idx.len() && (#[trigger] idx[i].0@) == (#[trigger] occ[t]).1)
}

/// Appending one hit of an already-listed word keeps the merge faithful.
proof fn lemma_merge_update(
    idx0: Seq<(String, Vec<(String, Vec<usize>)>)>,
    idx: Seq<(String, Vec<(String, Vec<usize>)>)>,
    k: int,
    occ: Seq<(Seq<char>, Seq<char>, Seq<usize>)>,
    occ2: Seq<(Seq<char>, Seq<char>, Seq<usize>)>,
)
    requires
        merges(idx0, occ),
        occ2.drop_last() == occ,
        occ2.len() == occ.len() + 1,
        0 <= k < idx0.len(),
        idx.len() == idx0.len(),
        idx[k].0 == idx0[k].0,
        idx0[k].0@ == occ2.last().1,
        view_hits(idx[k].1@) == view_hits(idx0[k].1@).push((occ2.last().0, occ2.last().2)),
        forall|i: int| 0 <= i < idx.len() && i != k ==> #[trigger] idx[i] == idx0[i],
    ensures
        merges(idx, occ2),
{
    assert(forall|i: int| 0 <= i < idx.len() ==> (#[trigger] idx[i]).0 == idx0[i].0);
    assert(idx[k].1@.len() == view_hits(idx[k].1@).len());
    assert forall|i: int| 0 <= i < idx.len() implies view_hits(#[trigger] idx[i].1@) == file_hits(
        occ2,
        idx[i].0@,
    ) by {
        if i == k {
            assert(file_hits(occ2, idx[k].0@) == file_hits(occ, idx[k].0@).push(
                (occ2.last().0, occ2.last().2),
            ));
        } else {
            assert(idx0[i].0@ != idx0[k].0@);
            assert(file_hits(occ2, idx[i].0@) == file_hits(occ, idx[i].0@));
        }
    }
    assert forall|t: int| 0 <= t < occ2.len() implies exists|i: int|
        0 <= i < idx.len() && (#[trigger] idx[i].0@) == (#[trigger] occ2[t]).1 by {
        if t < occ.len() {
            assert(occ2[t] == occ[t]);
            let i = choose|i: int| 0 <= i < idx0.len() && (#[trigger] idx0[i].0@) == occ[t].1;
            assert(idx[i].0@ == occ2[t].1);
        } else {
            assert(idx[k].0@ == occ2[t].1);
        }
    }
}

/// Adding a fresh entry for a word not listed yet keeps the merge faithful.
proof fn lemma_merge_append(
    idx0: Seq<(String, Vec<(String, Vec<usize>)>)>,
    idx: Seq<(String, Vec<(String, Vec<usize>)>)>,
    occ: Seq<(Seq<char>, Seq<char>, Seq<usize>)>,
    occ2: Seq<(Seq<char>, Seq<char>, Seq<usize>)>,
)
    requires
        merges(idx0, occ),
        occ2.drop_last() == occ,
        occ2.len() == occ.len() + 1,
        idx.len() == idx0.len() + 1,
        forall|i: int| 0 <= i < idx0.len() ==> #[trigger] idx[i] == idx0[i],
        idx.last().0@ == occ2.last().1,
        idx.last().1@.len() > 0,
        view_hits(idx.last().1@) == seq![(occ2.last().0, occ2.last().2)],
        forall|i: int| 0 <= i < idx0.len() ==> (#[trigger] idx0[i].0@) != occ2.last().1,
    ensures
        merges(idx, occ2),
{
    let last = idx.len() - 1;
    assert forall|t: int| 0 <= t < occ.len() implies (#[trigger] occ[t]).1 != occ2.last().1 by {
        if occ[t].1 == occ2.last().1 {
            let i = choose|i: int| 0 <= i < idx0.len() && (#[trigger] idx0[i].0@) == occ[t].1;
            assert(idx0[i].0@ != occ2.last().1);
        }
    }
    lemma_hits_absent(occ, occ2.last().1);
    assert forall|i: int| 0 <= i < idx.len() implies view_hits(#[trigger] idx[i].1@) == file_hits(
        occ2,
        idx[i].0@,
    ) by {
        if i == last {
            assert(file_hits(occ2, occ2.last().1) =~= seq![(occ2.last().0, occ2.last().2)]);
        } else {
            assert(idx[i] == idx0[i]);
            assert(file_hits(occ2, idx[i].0@) == file_hits(occ, idx[i].0@));
        }
    }
    assert forall|t: int| 0 <= t < occ2.len() implies exists|i: int|
        0 <= i < idx.len() && (#[trigger] idx[i].0@) == (#[trigger] occ2[t]).1 by {
        if t < occ.len() {
            assert(occ2[t] == occ[t]);
            let i = choose|i: int| 0 <= i < idx0.len() && (#[trigger] idx0[i].0@) == occ[t].1;
            assert(idx[i].0@ == occ2[t].1);
        } else {
            assert(idx[last].0@ == occ2[t].1);
        }
    }
}

/// Appends one file hit to the `k`-th merged entry, leaving every other
/// entry and the entry's word untouched.
fn push_hit(out: &mut Vec<(String, Vec<(String, Vec<usize>)>)>, k: usize, hit: (String, Vec<usize>))
    requires
        k < old(out)@.len(),
    ensures
        final(out)@.len() == old(out)@.len(),
        final(out)@[k as int].0 == old(out)@[k as int].0,
        final(out)@[k as int].1@ == old(out)@[k as int].1@.push(hit),
        forall|i: int| 0 <= i < old(out)@.len() && i != k ==> final(out)@[i] == old(out)@[i],
{
    let entry = &mut out[k];
    entry.1.push(hit);
}

/// Merges per-file word indexes into one table from each word to the files
/// that carry it, with the word's positions in each file, in input order.
pub fn merge_indexes(per_file: Vec<FileIndex>) -> (r: Vec<(String, Vec<(String, Vec<usize>)>)>)
    ensures
        merges(r@, occurrences(per_file@)),
{
    let ghost full = per_file@;
    let mut out: Vec<(String, Vec<(String, Vec<usize>)>)> = Vec::new();
    let ghost occ: Seq<(Seq<char>, Seq<char>, Seq<usize>)> = Seq::empty();

    let mut fi: usize = 0;
    while fi < per_file.len()
        invariant
            fi <= per_file.len(),
            per_file@ == full,
            occ =~= occurrences(full.take(fi as int)),
            merges(out@, occ),
        decreases per_file.len() - fi,
    {
        let ghost mapped = full[fi as int].1@.map_values(
            |e: (String, Vec<usize>)| (full[fi as int].0@, e.0@, e.1@),
        );
        let entries = per_file[fi].1.len();
        let mut ei: usize = 0;
        while ei < entries
            invariant
                ei <= entries,
                per_file@ == full,
                0 <= fi < full.len(),
                entries == full[fi as int].1@.len(),
                mapped == full[fi as int].1@.map_values(
                    |e: (String, Vec<usize>)| (full[fi as int].0@, e.0@, e.1@),
                ),
                occ =~= occurrences(full.take(fi as int)) + mapped.take(ei as int),
                merges(out@, occ),
            decreases entries - ei,
        {
            let file_name = per_file[fi].0.clone();
            let word = per_file[fi].1[ei].0.clone();
            let positions = per_file[fi].1[ei].1.clone();
            let ghost occ2 = occ.push(mapped[ei as int]);
            proof {
                assert(occ2.drop_last() =~= occ);
                assert(mapped[ei as int] == (full[fi as int].0@, full[fi as int].1@[ei as int].0@,
                full[fi as int].1@[ei as int].1@));
                assert(word@ == mapped[ei as int].1);
                assert(file_name@ == mapped[ei as int].0);
                assert(positions@ =~= full[fi as int].1@[ei as int].1@);
                assert(positions@ == mapped[ei as int].2);
            }

            let mut found = false;
            let mut k: usize = 0;
            while k < out.len()
                invariant_except_break
                    k <= out@.len(),
                    !found,
                    forall|i: int| 0 <= i < k ==> (#[trigger] out@[i].0@) != word@,
                ensures
                    found ==> k < out@.len() && out@[k as int].0@ == word@,
                    !found ==> forall|i: int|
                        0 <= i < out@.len() ==> (#[trigger] out@[i].0@) != word@,
                decreases out@.len() - k,
            {
                if out[k].0.eq(&word) {
                    found = true;
                    break ;
                }
                k += 1;
            }

            if found {
                let ghost pre_out = out@;
                push_hit(&mut out, k, (file_name, positions));
                proof {
                    assert(view_hits(out@[k as int].1@) =~= view_hits(pre_out[k as int].1@).push(
                        (occ2.last().0, occ2.last().2),
                    ));
                    lemma_merge_update(pre_out, out@, k as int, occ, occ2);
                }
            } else {
                let ghost pre_out = out@;
                let mut hits: Vec<(String, Vec<usize>)> = Vec::new();
                hits.push((file_name, positions));
                out.push((word, hits));
                proof {
                    assert(view_hits(out@.last().1@) =~= seq![(occ2.last().0, occ2.last().2)]);
                    lemma_merge_append(pre_out, out@, occ, occ2);
                }
            }
            proof {
                assert(occ2 =~= occurrences(full.take(fi as int)) + mapped.take(ei as int + 1));
                occ = occ2;
            }
            ei += 1;
        }
        proof {
            assert(full.take(fi as int + 1).drop_last() =~= full.take(fi as int));
            assert(full.take(fi as int + 1).last() == full[fi as int]);
            assert(mapped.take(ei as int) =~= mapped);
            assert(occ =~= occurrences(full.take(fi as int + 1)));
        }
        fi += 1;
    }
    proof {
        assert(full.take(fi as int) =~= full);
    }
    out
}

} // verus!
